//! The component that infects the first persons of a scenario.

use vstd::prelude::*;
use crate::engine::{Engine, EngineState, InfectionDraw};
use crate::person_properties::DiseaseStatus;
use crate::random::{hash64, sampled, seeded_sample, stream_seed, stream_seed_of};

verus! {

/// The name of the random stream that picks the first infections.
pub struct SeedingRandomId {}

impl SeedingRandomId {
    /// The offset of the seeding stream: the hash of the stream's name.
    pub fn seed_offset() -> u64 {
        hash64("SeedingRandomId")
    }
}

/// The component that seeds the infection.
pub struct InfectionSeeder {}

/// Why a scenario could not be set up.
#[derive(Clone, Copy, Debug, PartialEq, Eq, Structural)]
pub enum SetupError {
    /// More first infections were asked for than there are persons.
    TooManyInfections,
    /// Every person of a population that 32-bit numbers cannot count was
    /// asked for: from such a population the sampler draws fewer than all.
    WholePopulation,
    /// The number of draws differs from the number of persons to infect.
    DrawCount,
    /// A person to infect is not in the population.
    UnknownPerson,
    /// A recovery would be planned before the current time.
    InvalidTime,
}

/// The engine after the persons `ids` were infected one after the other,
/// the i-th with the i-th draw.
pub open spec fn seeded(s: EngineState, ids: Seq<usize>, draws: Seq<InfectionDraw>) -> EngineState
    decreases ids.len(),
{
    if ids.len() == 0 || draws.len() == 0 {
        s
    } else {
        seeded(s, ids.drop_last(), draws.drop_last()).after_set_status(
            ids.last() as int,
            DiseaseStatus::I,
            draws.last(),
        )
    }
}

/// The sampler cannot draw `initial_infections` persons of `population`:
/// it draws all of a population only where 32-bit numbers count it.
pub open spec fn beyond_sampling(population: nat, initial_infections: nat) -> bool {
    population > u32::MAX && initial_infections == population
}

/// What stands in the way of drawing `initial_infections` persons and
/// infecting them with `draws`, if anything.
pub open spec fn seeding_refusal(
    s: EngineState,
    initial_infections: usize,
    draws: Seq<InfectionDraw>,
) -> Option<SetupError> {
    if initial_infections > s.statuses.len() {
        Some(SetupError::TooManyInfections)
    } else if beyond_sampling(s.statuses.len(), initial_infections as nat) {
        Some(SetupError::WholePopulation)
    } else if draws.len() != initial_infections {
        Some(SetupError::DrawCount)
    } else if s.observers.infection_manager && !all_timely(draws, s.now) {
        Some(SetupError::InvalidTime)
    } else {
        None
    }
}

/// Every person of `ids` is in a population of the given size.
pub open spec fn all_known(ids: Seq<usize>, population: nat) -> bool {
    forall|i: int| 0 <= i < ids.len() ==> ids[i] < population
}

/// No person comes twice in `ids`.
pub open spec fn all_distinct(ids: Seq<usize>) -> bool {
    forall|i: int, j: int| 0 <= i < j < ids.len() ==> ids[i] != ids[j]
}

/// No draw has its recovery before `now`.
pub open spec fn all_timely(draws: Seq<InfectionDraw>, now: u64) -> bool {
    forall|i: int| 0 <= i < draws.len() ==> draws[i].recovery_time >= now
}

/// What stands in the way of infecting `ids` with `draws`, if anything.
pub open spec fn seeding_error(s: EngineState, ids: Seq<usize>, draws: Seq<InfectionDraw>) -> Option<
    SetupError,
> {
    if ids.len() != draws.len() {
        Some(SetupError::DrawCount)
    } else if !all_known(ids, s.statuses.len()) {
        Some(SetupError::UnknownPerson)
    } else if s.observers.infection_manager && !all_timely(draws, s.now) {
        Some(SetupError::InvalidTime)
    } else {
        None
    }
}

fn check_known(ids: &Vec<usize>, population: usize) -> (known: bool)
    ensures
        known == all_known(ids@, population as nat),
{
    let mut i: usize = 0;
    while i < ids.len()
        invariant
            i <= ids.len(),
            forall|k: int| 0 <= k < i ==> ids@[k] < population,
        decreases ids.len() - i,
    {
        if ids[i] >= population {
            return false;
        }
        i = i + 1;
    }
    true
}

fn check_timely(draws: &Vec<InfectionDraw>, now: u64) -> (timely: bool)
    ensures
        timely == all_timely(draws@, now),
{
    let mut i: usize = 0;
    while i < draws.len()
        invariant
            i <= draws.len(),
            forall|k: int| 0 <= k < i ==> draws@[k].recovery_time >= now,
        decreases draws.len() - i,
    {
        if draws[i].recovery_time < now {
            return false;
        }
        i = i + 1;
    }
    true
}

/// Seeding keeps the invariant, the clock, the observers and the size of the
/// population, whatever the persons and draws.
pub proof fn lemma_seeded_frame(s: EngineState, ids: Seq<usize>, draws: Seq<InfectionDraw>)
    requires
        s.wf(),
        seeding_error(s, ids, draws).is_none(),
    ensures
        seeded(s, ids, draws).wf(),
        seeded(s, ids, draws).now == s.now,
        seeded(s, ids, draws).observers == s.observers,
        seeded(s, ids, draws).order == s.order,
        seeded(s, ids, draws).statuses.len() == s.statuses.len(),
    decreases ids.len(),
{
    if ids.len() > 0 {
        lemma_seeded_frame(s, ids.drop_last(), draws.drop_last());
        let before = seeded(s, ids.drop_last(), draws.drop_last());
        crate::laws::lemma_set_status_keeps_invariant(
            before,
            ids.last() as int,
            DiseaseStatus::I,
            draws.last(),
        );
    }
}

impl InfectionSeeder {
    /// Infects the persons `ids` in turn, the i-th with `draws[i]`, as
    /// `Engine::set_status` does. Refuses, changing nothing, when the two
    /// lists differ in length, when a person is unknown, or when the
    /// infection manager is registered and a draw has its recovery in the
    /// past.
    pub fn infect(context: &mut Engine, ids: &Vec<usize>, draws: &Vec<InfectionDraw>) -> (done:
        Result<(), SetupError>)
        requires
            old(context).wf(),
        ensures
            final(context).wf(),
            match seeding_error(old(context)@, ids@, draws@) {
                Some(e) => done == Err::<(), SetupError>(e) && final(context)@ == old(context)@,
                None => done.is_ok() && final(context)@ == seeded(old(context)@, ids@, draws@),
            },
    {
        if ids.len() != draws.len() {
            return Err(SetupError::DrawCount);
        }
        if !check_known(ids, context.population()) {
            return Err(SetupError::UnknownPerson);
        }
        if context.observers().infection_manager && !check_timely(draws, context.time()) {
            return Err(SetupError::InvalidTime);
        }
        let mut i: usize = 0;
        assert(ids@.take(0).len() == 0);
        while i < ids.len()
            invariant
                i <= ids.len(),
                ids.len() == draws.len(),
                old(context).wf(),
                seeding_error(old(context)@, ids@, draws@).is_none(),
                context.wf(),
                context@ == seeded(old(context)@, ids@.take(i as int), draws@.take(i as int)),
            decreases ids.len() - i,
        {
            proof {
                let head = ids@.take(i as int);
                let dhead = draws@.take(i as int);
                assert(seeding_error(old(context)@, head, dhead).is_none());
                lemma_seeded_frame(old(context)@, head, dhead);
                assert(ids@.take(i + 1).drop_last() =~= head);
                assert(draws@.take(i + 1).drop_last() =~= dhead);
                assert(ids@.take(i + 1).last() == ids@[i as int]);
                assert(draws@.take(i + 1).last() == draws@[i as int]);
            }
            let _ = context.set_status(ids[i], DiseaseStatus::I, draws[i]);
            i = i + 1;
        }
        proof {
            assert(ids@.take(ids.len() as int) =~= ids@);
            assert(draws@.take(draws.len() as int) =~= draws@);
        }
        Ok(())
    }

    /// Seeds the scenario from the seeding stream under `base_seed`: as
    /// `init_with_seed` does with the seed of that stream, the base seed
    /// plus the stream's offset. Returns the persons drawn.
    pub fn init(
        context: &mut Engine,
        initial_infections: usize,
        base_seed: u64,
        draws: &Vec<InfectionDraw>,
    ) -> (done: Result<Vec<usize>, SetupError>)
        requires
            old(context).wf(),
        ensures
            final(context).wf(),
            match seeding_refusal(old(context)@, initial_infections, draws@) {
                Some(e) => done == Err::<Vec<usize>, SetupError>(e) && final(context)@
                    == old(context)@,
                None => done.is_ok(),
            },
            done matches Ok(ids) ==> {
                &&& ids@.len() == initial_infections
                &&& all_known(ids@, old(context)@.statuses.len())
                &&& all_distinct(ids@)
                &&& final(context)@ == seeded(old(context)@, ids@, draws@)
                &&& exists|seed_offset: u64|
                    ids@ == sampled(
                        stream_seed_of(base_seed, seed_offset),
                        old(context)@.statuses.len() as usize,
                        initial_infections,
                    )
            },
    {
        let seed_offset = SeedingRandomId::seed_offset();
        let seed = stream_seed(base_seed, seed_offset);
        InfectionSeeder::init_with_seed(context, initial_infections, seed, draws)
    }

    /// Seeds the scenario: draws `initial_infections` distinct persons of the
    /// population with the generator of `seed` and infects them in the order
    /// drawn, the i-th with `draws[i]`. Fails, changing nothing, with
    /// `TooManyInfections` when more infections are asked for than there are
    /// persons, and with `WholePopulation` when all persons of a population
    /// above 4294967295 are asked for; otherwise as `infect` does. Returns
    /// the persons drawn, which are the same for the same seed, population
    /// and number.
    pub fn init_with_seed(
        context: &mut Engine,
        initial_infections: usize,
        seed: u64,
        draws: &Vec<InfectionDraw>,
    ) -> (done: Result<Vec<usize>, SetupError>)
        requires
            old(context).wf(),
        ensures
            final(context).wf(),
            match seeding_refusal(old(context)@, initial_infections, draws@) {
                Some(e) => done == Err::<Vec<usize>, SetupError>(e) && final(context)@
                    == old(context)@,
                None => done.is_ok(),
            },
            done matches Ok(ids) ==> {
                &&& ids@.len() == initial_infections
                &&& ids@ == sampled(
                    seed,
                    old(context)@.statuses.len() as usize,
                    initial_infections,
                )
                &&& all_known(ids@, old(context)@.statuses.len())
                &&& all_distinct(ids@)
                &&& final(context)@ == seeded(old(context)@, ids@, draws@)
            },
    {
        let population = context.population();
        if initial_infections > population {
            return Err(SetupError::TooManyInfections);
        }
        if population > 0xffff_ffff && initial_infections == population {
            return Err(SetupError::WholePopulation);
        }
        let ids = seeded_sample(seed, population, initial_infections);
        match InfectionSeeder::infect(context, &ids, draws) {
            Ok(()) => Ok(ids),
            Err(e) => Err(e),
        }
    }
}

} // verus!

//! The component that decides whether an infected person dies.

use vstd::prelude::*;
use crate::engine::{Engine, EngineState, InfectionDraw, Observer};
use crate::laws::lemma_notified_of_a_death;
use crate::person_properties::DiseaseStatus;
use crate::random::hash64;

verus! {

/// The component that lets infected persons die.
pub struct DeathManager {}

/// The name of the random stream that decides the deaths.
pub struct DeathRandomId {}

impl DeathRandomId {
    /// The offset of the death stream: the hash of the stream's name.
    pub fn seed_offset() -> u64 {
        hash64("DeathRandomId")
    }
}

/// What the manager does on the news that `person` has `status`: for an
/// infection the death risk is evaluated with the outcome `should_die`.
pub open spec fn handled(
    s: EngineState,
    person: int,
    status: DiseaseStatus,
    should_die: bool,
) -> EngineState {
    if status == DiseaseStatus::I {
        s.death_checked(person, should_die)
    } else {
        s
    }
}

/// Reacts to the news that `person_id` now has `status`: for an infection,
/// evaluates the death risk with the outcome `should_die`.
pub fn handle_person_disease_status_change(
    context: &mut Engine,
    person_id: usize,
    status: DiseaseStatus,
    should_die: bool,
)
    requires
        old(context).wf(),
        person_id < old(context)@.statuses.len(),
    ensures
        final(context).wf(),
        final(context)@ == handled(old(context)@, person_id as int, status, should_die),
    decreases status.rank(), 1int,
{
    if status == DiseaseStatus::I {
        schedule_death_check(context, person_id, should_die);
    }
}

/// Evaluates the death risk of `person_id`: when the draw `should_die` came
/// out true and the person is infected, the person is dead at the same
/// instant and every observer is told; else nothing changes.
pub fn schedule_death_check(context: &mut Engine, person_id: usize, should_die: bool)
    requires
        old(context).wf(),
        person_id < old(context)@.statuses.len(),
    ensures
        final(context).wf(),
        final(context)@ == old(context)@.death_checked(person_id as int, should_die),
    decreases 1nat, 0int,
{
    if should_die {
        let unused = InfectionDraw { recovery_time: context.time(), dies: false };
        proof {
            lemma_notified_of_a_death(
                old(context)@.with_status(person_id as int, DiseaseStatus::D),
                old(context)@.order,
                person_id as int,
                unused,
            );
        }
        let _ = context.set_status(person_id, DiseaseStatus::D, unused);
    }
}

impl DeathManager {
    /// Registers the manager as an observer of status changes, behind the
    /// observers that are registered.
    pub fn init(context: &mut Engine)
        requires
            old(context).wf(),
        ensures
            final(context).wf(),
            final(context)@ == old(context)@.observing(Observer::DeathManager),
    {
        context.observe(Observer::DeathManager);
    }
}

} // verus!

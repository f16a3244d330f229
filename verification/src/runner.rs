//! Running whole scenarios: setting an engine up from its parameters,
//! running it to the end and tagging its report rows.

use vstd::prelude::*;
use crate::channel::{Row, Scenario};
use crate::death_manager::DeathManager;
use crate::death_report::{Death, DeathReport};
use crate::engine::{
    times_registered, DrawSource, Engine, EngineState, InfectionDraw, Observer, Observers,
};
use crate::incidence_report::{IncidenceReport, Infection};
use crate::infection_manager::InfectionManager;
use crate::infection_seeder::{
    all_distinct, all_known, beyond_sampling, lemma_seeded_frame, seeded, InfectionSeeder,
    SetupError,
};
use crate::laws::{
    accounted, dead, ever_infected, lemma_all_susceptible, lemma_counts_add_up,
    lemma_nobody_dead, lemma_seeding_deaths, lemma_seeding_is_exact, lemma_seeding_keeps,
    only_recoveries, removed, resolving,
};
use crate::person_properties::DiseaseStatus;
use crate::random::{sampled, stream_seed_of};

verus! {

/// The integral parameters of one scenario. Rates and periods are resolved
/// into draws by the caller's `DrawSource`.
#[derive(Clone, Copy, Debug, PartialEq, Eq, Structural)]
pub struct Parameters {
    pub population: usize,
    pub initial_infections: usize,
    pub random_seed: u64,
    pub death_model: bool,
}

/// How the scenarios of a batch are run.
#[derive(Clone, Copy, Debug, PartialEq, Eq, Structural)]
pub enum RunMode {
    /// One after the other on the calling thread.
    Sequential,
    /// By a pool of workers that send their rows to one writer.
    Pooled,
}

/// A pool is used for more than one thread.
pub fn run_mode(threads: u8) -> (mode: RunMode)
    ensures
        mode == (if threads <= 1 {
            RunMode::Sequential
        } else {
            RunMode::Pooled
        }),
{
    if threads <= 1 {
        RunMode::Sequential
    } else {
        RunMode::Pooled
    }
}

/// In a sequential run only the first scenario writes the header row.
pub fn has_headers(scenario: Scenario) -> (headers: bool)
    ensures
        headers == (scenario.scenario == 0),
{
    scenario.scenario == 0
}

/// The failure of one scenario of a batch.
#[derive(Clone, Copy, Debug, PartialEq, Eq, Structural)]
pub struct ScenarioError {
    pub scenario: usize,
    pub error: SetupError,
}

/// What one scenario leaves behind: its tagged report rows and the status in
/// which it left every person.
pub struct ScenarioOutput {
    pub incidence: Vec<Row>,
    pub deaths: Vec<Row>,
    pub statuses: Vec<DiseaseStatus>,
}

/// The rows are in non-decreasing order of time.
pub open spec fn rows_ordered(rows: Seq<Row>) -> bool {
    forall|i: int, j: int| 0 <= i <= j < rows.len() ==> rows[i].time <= rows[j].time
}

/// The engine that `setup_context` starts from: everybody susceptible at time
/// zero, and the incidence report, the death report, the infection manager
/// and, with a death model, the death manager registered in this order.
pub open spec fn prepared(parameters: Parameters) -> EngineState {
    let base = EngineState::fresh(parameters.population as nat).observing(
        Observer::IncidenceReport,
    ).observing(Observer::DeathReport).observing(Observer::InfectionManager);
    if parameters.death_model {
        base.observing(Observer::DeathManager)
    } else {
        base
    }
}

/// The engine that `setup_context` starts from has each report registered
/// once, both reports and the infection manager among its observers, and the
/// death manager exactly with a death model.
pub proof fn lemma_prepared_observers(parameters: Parameters)
    ensures
        times_registered(prepared(parameters).order, Observer::IncidenceReport) == 1,
        times_registered(prepared(parameters).order, Observer::DeathReport) == 1,
        prepared(parameters).observers == (Observers {
            incidence_report: true,
            death_report: true,
            infection_manager: true,
            death_manager: parameters.death_model,
        }),
{
    let order = prepared(parameters).order;
    let none = Seq::<Observer>::empty();
    let o1 = none.push(Observer::IncidenceReport);
    let o2 = o1.push(Observer::DeathReport);
    let o3 = o2.push(Observer::InfectionManager);
    let o4 = o3.push(Observer::DeathManager);
    assert(o1.drop_last() =~= none);
    assert(o2.drop_last() =~= o1);
    assert(o3.drop_last() =~= o2);
    assert(o4.drop_last() =~= o3);
    assert(times_registered(none, Observer::IncidenceReport) == 0);
    assert(times_registered(o1, Observer::IncidenceReport) == 1);
    assert(times_registered(o2, Observer::IncidenceReport) == 1);
    assert(times_registered(o3, Observer::IncidenceReport) == 1);
    assert(times_registered(o4, Observer::IncidenceReport) == 1);
    assert(times_registered(none, Observer::DeathReport) == 0);
    assert(times_registered(o1, Observer::DeathReport) == 0);
    assert(times_registered(o2, Observer::DeathReport) == 1);
    assert(times_registered(o3, Observer::DeathReport) == 1);
    assert(times_registered(o4, Observer::DeathReport) == 1);
    assert(order[0] == Observer::IncidenceReport);
    assert(order[1] == Observer::DeathReport);
    assert(order[2] == Observer::InfectionManager);
    if parameters.death_model {
        assert(order[3] == Observer::DeathManager);
    }
    assert(order.contains(Observer::IncidenceReport));
    assert(order.contains(Observer::DeathReport));
    assert(order.contains(Observer::InfectionManager));
    assert(order.contains(Observer::DeathManager) == parameters.death_model);
}

/// The infection records of a scenario as tagged rows.
pub fn incidence_rows(scenario: Scenario, items: &Vec<Infection>) -> (rows: Vec<Row>)
    ensures
        rows@ == Seq::new(
            items@.len(),
            |i: int| Row { scenario: scenario.scenario, time: items@[i].time },
        ),
{
    let mut rows: Vec<Row> = Vec::new();
    let mut i: usize = 0;
    while i < items.len()
        invariant
            i <= items.len(),
            rows@ == Seq::new(
                i as nat,
                |k: int| Row { scenario: scenario.scenario, time: items@[k].time },
            ),
        decreases items.len() - i,
    {
        rows.push(Row { scenario: scenario.scenario, time: items[i].time });
        i = i + 1;
        assert(rows@ =~= Seq::new(
            i as nat,
            |k: int| Row { scenario: scenario.scenario, time: items@[k].time },
        ));
    }
    rows
}

/// The death records of a scenario as tagged rows.
pub fn death_rows(scenario: Scenario, items: &Vec<Death>) -> (rows: Vec<Row>)
    ensures
        rows@ == Seq::new(
            items@.len(),
            |i: int| Row { scenario: scenario.scenario, time: items@[i].time },
        ),
{
    let mut rows: Vec<Row> = Vec::new();
    let mut i: usize = 0;
    while i < items.len()
        invariant
            i <= items.len(),
            rows@ == Seq::new(
                i as nat,
                |k: int| Row { scenario: scenario.scenario, time: items@[k].time },
            ),
        decreases items.len() - i,
    {
        rows.push(Row { scenario: scenario.scenario, time: items[i].time });
        i = i + 1;
        assert(rows@ =~= Seq::new(
            i as nat,
            |k: int| Row { scenario: scenario.scenario, time: items@[k].time },
        ));
    }
    rows
}

fn copy_statuses(statuses: &Vec<DiseaseStatus>) -> (copy: Vec<DiseaseStatus>)
    ensures
        copy@ == statuses@,
{
    let mut copy: Vec<DiseaseStatus> = Vec::new();
    let mut i: usize = 0;
    while i < statuses.len()
        invariant
            i <= statuses.len(),
            copy@ == statuses@.take(i as int),
        decreases statuses.len() - i,
    {
        copy.push(statuses[i]);
        i = i + 1;
        assert(copy@ =~= statuses@.take(i as int));
    }
    assert(statuses@.take(statuses.len() as int) =~= statuses@);
    copy
}

/// Sets a scenario up: a population of susceptible persons at time zero, the
/// two reports, the infection manager and, with a death model, the death
/// manager registered, and then `initial_infections` distinct persons drawn
/// from the seeding stream under the scenario's seed and infected, each with
/// outcomes drawn from
/// `source` (first all recovery times, then all death risks). Fails, before
/// anything is drawn, with `TooManyInfections` exactly when more first
/// infections are asked for than there are persons, and with
/// `WholePopulation` exactly when all persons of a population above
/// 4294967295 are asked for. Afterwards exactly the persons drawn have left
/// the susceptible status, each infection and each death is reported at time
/// zero, and only recoveries are pending.
pub fn setup_context<D: DrawSource>(parameters: &Parameters, source: &mut D) -> (done: Result<
    (Engine, Vec<usize>, Vec<InfectionDraw>),
    SetupError,
>)
    ensures
        parameters.initial_infections > parameters.population ==> done == Err::<
            (Engine, Vec<usize>, Vec<InfectionDraw>),
            SetupError,
        >(SetupError::TooManyInfections),
        beyond_sampling(parameters.population as nat, parameters.initial_infections as nat)
            ==> done == Err::<(Engine, Vec<usize>, Vec<InfectionDraw>), SetupError>(
            SetupError::WholePopulation,
        ),
        parameters.initial_infections <= parameters.population && !beyond_sampling(
            parameters.population as nat,
            parameters.initial_infections as nat,
        ) ==> done.is_ok(),
        done matches Ok((engine, ids, draws)) ==> {
            &&& engine.wf()
            &&& ids@.len() == parameters.initial_infections
            &&& draws@.len() == parameters.initial_infections
            &&& all_known(ids@, parameters.population as nat)
            &&& all_distinct(ids@)
            &&& exists|seed_offset: u64|
                ids@ == sampled(
                    stream_seed_of(parameters.random_seed, seed_offset),
                    parameters.population,
                    parameters.initial_infections,
                )
            &&& engine@ == seeded(prepared(*parameters), ids@, draws@)
            &&& engine@.now == 0
            &&& engine@.observers == prepared(*parameters).observers
            &&& engine@.order == prepared(*parameters).order
            &&& engine@.statuses.len() == parameters.population
            &&& forall|i: int|
                0 <= i < ids@.len() ==> engine@.statuses[(#[trigger] ids@[i]) as int]
                    == DiseaseStatus::I || (parameters.death_model
                    && engine@.statuses[ids@[i] as int] == DiseaseStatus::D)
            &&& forall|p: int|
                0 <= p < parameters.population && (forall|i: int|
                    0 <= i < ids@.len() ==> ids@[i] != p) ==> #[trigger] engine@.statuses[p]
                    == DiseaseStatus::S
            &&& ever_infected(engine@.statuses) == parameters.initial_infections
            &&& engine@.infections == Seq::new(
                parameters.initial_infections as nat,
                |i: int| Infection { time: 0 },
            )
            &&& engine@.deaths == Seq::new(dead(engine@.statuses), |i: int| Death { time: 0 })
            &&& accounted(engine@)
            &&& resolving(engine@)
            &&& only_recoveries(engine@)
            &&& !parameters.death_model ==> dead(engine@.statuses) == 0
        },
{
    if parameters.initial_infections > parameters.population {
        return Err(SetupError::TooManyInfections);
    }
    if parameters.population > 0xffff_ffff && parameters.initial_infections
        == parameters.population {
        return Err(SetupError::WholePopulation);
    }
    let mut context = Engine::new(parameters.population);
    IncidenceReport::init(&mut context);
    DeathReport::init(&mut context);
    InfectionManager::init(&mut context);
    if parameters.death_model {
        DeathManager::init(&mut context);
    }
    proof {
        lemma_prepared_observers(*parameters);
    }
    assert(context@ == prepared(*parameters));
    let mut draws: Vec<InfectionDraw> = Vec::new();
    let mut i: usize = 0;
    while i < parameters.initial_infections
        invariant
            i <= parameters.initial_infections,
            draws@.len() == i,
        decreases parameters.initial_infections - i,
    {
        let recovery_time = source.recovery_time(0);
        draws.push(InfectionDraw { recovery_time, dies: false });
        i = i + 1;
    }
    if parameters.death_model {
        let mut k: usize = 0;
        while k < draws.len()
            invariant
                k <= draws.len(),
                draws@.len() == parameters.initial_infections,
            decreases draws.len() - k,
        {
            let dies = source.dies();
            let recovery_time = draws[k].recovery_time;
            draws.set(k, InfectionDraw { recovery_time, dies });
            k = k + 1;
        }
    }
    let ghost start = context@;
    match InfectionSeeder::init(
        &mut context,
        parameters.initial_infections,
        parameters.random_seed,
        &draws,
    ) {
        Ok(ids) => {
            proof {
                lemma_seeded_frame(start, ids@, draws@);
                lemma_seeding_is_exact(start, ids@, draws@);
                lemma_seeding_keeps(start, ids@, draws@);
                lemma_all_susceptible(start.statuses);
                lemma_nobody_dead(start.statuses);
                assert(start.deaths =~= Seq::new(
                    dead(start.statuses),
                    |i: int| Death { time: start.now },
                ));
                lemma_seeding_deaths(start, ids@, draws@);
                assert(context@.infections =~= Seq::new(
                    parameters.initial_infections as nat,
                    |i: int| Infection { time: 0 },
                ));
            }
            Ok((context, ids, draws))
        },
        Err(e) => Err(e),
    }
}

/// Runs one scenario from setup until no plan is pending and returns its
/// report rows, tagged with the scenario and in order of emission, and the
/// final statuses. Every first infection is reported at time zero, and so is
/// the death of each person whom the death manager let die; nobody is left
/// infected, and as many persons recovered or died as were infected. Fails,
/// naming the scenario, exactly when `setup_context` does.
pub fn run_scenario<D: DrawSource>(scenario: Scenario, parameters: &Parameters, source: &mut D) -> (done:
    Result<ScenarioOutput, ScenarioError>)
    ensures
        parameters.initial_infections > parameters.population ==> done == Err::<
            ScenarioOutput,
            ScenarioError,
        >(ScenarioError { scenario: scenario.scenario, error: SetupError::TooManyInfections }),
        beyond_sampling(parameters.population as nat, parameters.initial_infections as nat)
            ==> done == Err::<ScenarioOutput, ScenarioError>(
            ScenarioError { scenario: scenario.scenario, error: SetupError::WholePopulation },
        ),
        parameters.initial_infections <= parameters.population && !beyond_sampling(
            parameters.population as nat,
            parameters.initial_infections as nat,
        ) ==> done.is_ok(),
        done matches Ok(out) ==> {
            &&& out.incidence@ == Seq::new(
                parameters.initial_infections as nat,
                |i: int| Row { scenario: scenario.scenario, time: 0 },
            )
            &&& out.deaths@ == Seq::new(
                dead(out.statuses@),
                |i: int| Row { scenario: scenario.scenario, time: 0 },
            )
            &&& !parameters.death_model ==> dead(out.statuses@) == 0
            &&& out.statuses@.len() == parameters.population
            &&& forall|p: int|
                0 <= p < out.statuses@.len() ==> out.statuses@[p] != DiseaseStatus::I
            &&& ever_infected(out.statuses@) == parameters.initial_infections
            &&& removed(out.statuses@) == parameters.initial_infections
            &&& rows_ordered(out.incidence@)
            &&& rows_ordered(out.deaths@)
        },
{
    let (mut context, ids, draws) = match setup_context(parameters, source) {
        Ok(ready) => ready,
        Err(error) => {
            return Err(ScenarioError { scenario: scenario.scenario, error });
        },
    };
    proof {
        lemma_prepared_observers(*parameters);
    }
    // Only recoveries are pending, so the run plans nothing and cannot fail.
    let _ = context.run(source);
    let incidence = incidence_rows(scenario, context.infections());
    let deaths = death_rows(scenario, context.deaths());
    let statuses = copy_statuses(context.statuses());
    proof {
        lemma_counts_add_up(context@.statuses);
        assert(incidence@ =~= Seq::new(
            parameters.initial_infections as nat,
            |i: int| Row { scenario: scenario.scenario, time: 0 },
        ));
        assert(deaths@ =~= Seq::new(
            dead(statuses@),
            |i: int| Row { scenario: scenario.scenario, time: 0 },
        ));
    }
    Ok(ScenarioOutput { incidence, deaths, statuses })
}

} // verus!

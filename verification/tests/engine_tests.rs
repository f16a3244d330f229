use sir_sim::death_manager::DeathManager;
use sir_sim::death_report::{Death, DeathReport};
use sir_sim::engine::{DrawSource, Engine, EngineError, InfectionDraw, Observer};
use sir_sim::incidence_report::{IncidenceReport, Infection};
use sir_sim::infection_manager::InfectionManager;
use sir_sim::person_properties::DiseaseStatus;
use sir_sim::plan_queue::{Plan, PlanQueue};

fn no_draw() -> InfectionDraw {
    InfectionDraw { recovery_time: 0, dies: false }
}

fn full_engine(population: usize, death_model: bool) -> Engine {
    let mut engine = Engine::new(population);
    IncidenceReport::init(&mut engine);
    DeathReport::init(&mut engine);
    InfectionManager::init(&mut engine);
    if death_model {
        DeathManager::init(&mut engine);
    }
    engine
}

struct Scripted {
    delays: Vec<u64>,
    deaths: Vec<bool>,
    next_delay: usize,
    next_death: usize,
}

impl DrawSource for Scripted {
    fn recovery_time(&mut self, now: u64) -> u64 {
        let d = self.delays[self.next_delay % self.delays.len()];
        self.next_delay += 1;
        now + d
    }

    fn dies(&mut self) -> bool {
        let d = self.deaths[self.next_death % self.deaths.len()];
        self.next_death += 1;
        d
    }
}

#[test]
fn transitions_follow_s_i_then_r_or_d() {
    let all = [DiseaseStatus::S, DiseaseStatus::I, DiseaseStatus::R, DiseaseStatus::D];
    for from in all {
        for to in all {
            let expected = matches!(
                (from, to),
                (DiseaseStatus::S, DiseaseStatus::I)
                    | (DiseaseStatus::I, DiseaseStatus::R)
                    | (DiseaseStatus::I, DiseaseStatus::D)
            );
            assert_eq!(from.can_become(to), expected);
        }
    }
    assert!(!DiseaseStatus::S.is_terminal());
    assert!(!DiseaseStatus::I.is_terminal());
    assert!(DiseaseStatus::R.is_terminal());
    assert!(DiseaseStatus::D.is_terminal());
}

#[test]
fn queue_orders_by_time_and_keeps_ties_first_in_first_out() {
    let mut queue = PlanQueue::new();
    assert!(queue.is_empty());
    assert_eq!(queue.pop(), None);
    queue.push(Plan { time: 5, person: 0, status: DiseaseStatus::I });
    queue.push(Plan { time: 3, person: 1, status: DiseaseStatus::I });
    queue.push(Plan { time: 5, person: 2, status: DiseaseStatus::I });
    queue.push(Plan { time: 3, person: 3, status: DiseaseStatus::I });
    queue.push(Plan { time: 4, person: 4, status: DiseaseStatus::I });
    assert_eq!(queue.len(), 5);
    assert_eq!(queue.peek(), Some(Plan { time: 3, person: 1, status: DiseaseStatus::I }));
    let mut order = Vec::new();
    while let Some(plan) = queue.pop() {
        order.push((plan.time, plan.person));
    }
    assert_eq!(order, vec![(3, 1), (3, 3), (4, 4), (5, 0), (5, 2)]);
}

#[test]
fn fresh_engine_is_at_time_zero_and_susceptible() {
    let engine = Engine::new(3);
    assert_eq!(engine.time(), 0);
    assert_eq!(engine.population(), 3);
    assert_eq!(engine.pending(), 0);
    assert_eq!(engine.next_plan(), None);
    assert_eq!(engine.status(0), Some(DiseaseStatus::S));
    assert_eq!(engine.status(2), Some(DiseaseStatus::S));
    assert_eq!(engine.status(3), None);
    assert!(engine.infections().is_empty());
    assert!(engine.deaths().is_empty());
}

#[test]
fn schedule_rejects_the_past_and_unknown_persons() {
    let mut engine = full_engine(2, false);
    assert_eq!(engine.schedule(10, 0, DiseaseStatus::I), Ok(()));
    assert_eq!(engine.schedule(0, 5, DiseaseStatus::I), Err(EngineError::UnknownPerson));
    let ran = engine.step(InfectionDraw { recovery_time: 20, dies: false });
    assert_eq!(ran, Ok(Some(Plan { time: 10, person: 0, status: DiseaseStatus::I })));
    assert_eq!(engine.time(), 10);
    assert_eq!(engine.schedule(9, 1, DiseaseStatus::I), Err(EngineError::InvalidTime));
    assert_eq!(engine.schedule(10, 1, DiseaseStatus::I), Ok(()));
    assert_eq!(engine.pending(), 2);
}

#[test]
fn infection_is_reported_and_recovery_planned() {
    let mut engine = full_engine(3, false);
    let draw = InfectionDraw { recovery_time: 7, dies: false };
    assert_eq!(engine.plans_recovery(1, DiseaseStatus::I), true);
    assert_eq!(engine.set_status(1, DiseaseStatus::I, draw), Ok(true));
    assert_eq!(engine.status(1), Some(DiseaseStatus::I));
    assert_eq!(engine.infections(), &vec![Infection { time: 0 }]);
    assert_eq!(engine.next_plan(), Some(Plan { time: 7, person: 1, status: DiseaseStatus::R }));
    assert_eq!(engine.step(no_draw()), Ok(Some(Plan { time: 7, person: 1, status: DiseaseStatus::R })));
    assert_eq!(engine.time(), 7);
    assert_eq!(engine.status(1), Some(DiseaseStatus::R));
    assert_eq!(engine.step(no_draw()), Ok(None));
    assert_eq!(engine.time(), 7);
    assert!(engine.deaths().is_empty());
}

#[test]
fn illegal_transitions_change_nothing() {
    let mut engine = full_engine(2, true);
    assert_eq!(engine.set_status(0, DiseaseStatus::R, no_draw()), Ok(false));
    assert_eq!(engine.set_status(0, DiseaseStatus::D, no_draw()), Ok(false));
    assert_eq!(engine.set_status(0, DiseaseStatus::S, no_draw()), Ok(false));
    assert_eq!(engine.status(0), Some(DiseaseStatus::S));
    assert_eq!(engine.set_status(0, DiseaseStatus::I, InfectionDraw { recovery_time: 1, dies: false }), Ok(true));
    assert_eq!(engine.set_status(0, DiseaseStatus::I, no_draw()), Ok(false));
    assert_eq!(engine.set_status(0, DiseaseStatus::R, no_draw()), Ok(true));
    assert_eq!(engine.set_status(0, DiseaseStatus::I, no_draw()), Ok(false));
    assert_eq!(engine.set_status(0, DiseaseStatus::D, no_draw()), Ok(false));
    assert_eq!(engine.status(0), Some(DiseaseStatus::R));
    assert_eq!(engine.set_status(9, DiseaseStatus::I, no_draw()), Err(EngineError::UnknownPerson));
    assert_eq!(engine.infections().len(), 1);
    assert!(engine.deaths().is_empty());
}

#[test]
fn recovery_in_the_past_is_refused_without_change() {
    let mut engine = full_engine(2, false);
    engine.schedule(10, 0, DiseaseStatus::I).unwrap();
    let ran = engine.step(InfectionDraw { recovery_time: 9, dies: false });
    assert_eq!(ran, Err(EngineError::InvalidTime));
    assert_eq!(engine.time(), 0);
    assert_eq!(engine.pending(), 1);
    assert_eq!(engine.status(0), Some(DiseaseStatus::S));
    assert!(engine.next_plans_recovery());
    assert!(engine.next_infects());
    let ran = engine.step(InfectionDraw { recovery_time: 10, dies: false });
    assert_eq!(ran, Ok(Some(Plan { time: 10, person: 0, status: DiseaseStatus::I })));
    assert_eq!(engine.status(0), Some(DiseaseStatus::I));
}

#[test]
fn death_at_infection_makes_the_recovery_a_no_op() {
    let mut engine = full_engine(2, true);
    engine.schedule(4, 1, DiseaseStatus::I).unwrap();
    let ran = engine.step(InfectionDraw { recovery_time: 9, dies: true });
    assert_eq!(ran, Ok(Some(Plan { time: 4, person: 1, status: DiseaseStatus::I })));
    assert_eq!(engine.status(1), Some(DiseaseStatus::D));
    assert_eq!(engine.infections(), &vec![Infection { time: 4 }]);
    assert_eq!(engine.deaths(), &vec![Death { time: 4 }]);
    assert_eq!(engine.pending(), 1);
    let ran = engine.step(no_draw());
    assert_eq!(ran, Ok(Some(Plan { time: 9, person: 1, status: DiseaseStatus::R })));
    assert_eq!(engine.time(), 9);
    assert_eq!(engine.status(1), Some(DiseaseStatus::D));
    assert_eq!(engine.deaths().len(), 1);
}

#[test]
fn observers_that_are_not_registered_stay_silent() {
    let mut engine = Engine::new(2);
    assert_eq!(engine.set_status(0, DiseaseStatus::I, InfectionDraw { recovery_time: 3, dies: true }), Ok(true));
    assert_eq!(engine.status(0), Some(DiseaseStatus::I));
    assert!(engine.infections().is_empty());
    assert!(engine.deaths().is_empty());
    assert_eq!(engine.pending(), 0);
    assert!(!engine.plans_recovery(1, DiseaseStatus::I));
}

#[test]
fn handlers_react_only_to_their_status() {
    let mut engine = Engine::new(2);
    for status in [DiseaseStatus::S, DiseaseStatus::R, DiseaseStatus::D] {
        sir_sim::incidence_report::handle_person_disease_status_change(&mut engine, 0, status);
        sir_sim::death_manager::handle_person_disease_status_change(&mut engine, 0, status, true);
        let done =
            sir_sim::infection_manager::handle_person_disease_status_change(&mut engine, 0, status, 5);
        assert_eq!(done, Ok(()));
    }
    for status in [DiseaseStatus::S, DiseaseStatus::I, DiseaseStatus::R] {
        sir_sim::death_report::handle_person_death(&mut engine, 0, status);
    }
    assert!(engine.infections().is_empty());
    assert!(engine.deaths().is_empty());
    assert_eq!(engine.pending(), 0);
    assert_eq!(engine.status(0), Some(DiseaseStatus::S));
    engine.set_status(0, DiseaseStatus::I, no_draw()).unwrap();
    sir_sim::incidence_report::handle_person_disease_status_change(&mut engine, 0, DiseaseStatus::I);
    assert_eq!(engine.infections(), &vec![Infection { time: 0 }]);
    assert_eq!(sir_sim::infection_manager::schedule_recovery(&mut engine, 0, 6), Ok(()));
    assert_eq!(engine.next_plan(), Some(Plan { time: 6, person: 0, status: DiseaseStatus::R }));
    sir_sim::death_manager::schedule_death_check(&mut engine, 0, false);
    assert_eq!(engine.status(0), Some(DiseaseStatus::I));
    // A susceptible person cannot die.
    sir_sim::death_manager::schedule_death_check(&mut engine, 1, true);
    assert_eq!(engine.status(1), Some(DiseaseStatus::S));
    DeathReport::init(&mut engine);
    sir_sim::death_manager::schedule_death_check(&mut engine, 0, true);
    assert_eq!(engine.status(0), Some(DiseaseStatus::D));
    assert_eq!(engine.deaths(), &vec![Death { time: 0 }]);
    sir_sim::death_report::handle_person_death(&mut engine, 0, DiseaseStatus::D);
    assert_eq!(engine.deaths().len(), 2);
}

#[test]
fn run_empties_the_queue_and_leaves_nobody_infected() {
    let mut engine = full_engine(6, true);
    for person in 0..5 {
        engine.schedule(2 * person as u64, person, DiseaseStatus::I).unwrap();
    }
    engine.schedule(3, 0, DiseaseStatus::I).unwrap();
    let mut source = Scripted { delays: vec![5, 1, 9], deaths: vec![false, true, false], next_delay: 0, next_death: 0 };
    assert_eq!(engine.run(&mut source), Ok(()));
    assert_eq!(engine.pending(), 0);
    let mut removed = 0;
    for person in 0..6 {
        let status = engine.status(person).unwrap();
        assert_ne!(status, DiseaseStatus::I);
        if status != DiseaseStatus::S {
            removed += 1;
        }
    }
    assert_eq!(removed, 5);
    assert_eq!(engine.status(5), Some(DiseaseStatus::S));
    assert_eq!(engine.status(1), Some(DiseaseStatus::D));
    assert_eq!(engine.status(4), Some(DiseaseStatus::D));
    assert_eq!(engine.infections().len(), 5);
    assert_eq!(engine.deaths(), &vec![Death { time: 2 }, Death { time: 8 }]);
    let times: Vec<u64> = engine.infections().iter().map(|i| i.time).collect();
    assert_eq!(times, vec![0, 2, 4, 6, 8]);
    assert_eq!(engine.time(), 13);
}

#[test]
fn run_stops_before_a_recovery_in_the_past() {
    struct Backwards {}
    impl DrawSource for Backwards {
        fn recovery_time(&mut self, now: u64) -> u64 {
            now - 1
        }

        fn dies(&mut self) -> bool {
            false
        }
    }
    let mut engine = full_engine(2, false);
    engine.schedule(3, 0, DiseaseStatus::I).unwrap();
    assert_eq!(engine.run(&mut Backwards {}), Err(EngineError::InvalidTime));
    assert_eq!(engine.pending(), 1);
    assert_eq!(engine.status(0), Some(DiseaseStatus::S));
}

#[test]
fn replay_applies_draws_in_order_and_stops_at_a_refusal() {
    let draws = vec![
        InfectionDraw { recovery_time: 8, dies: false },
        InfectionDraw { recovery_time: 6, dies: true },
        InfectionDraw { recovery_time: 0, dies: false },
        InfectionDraw { recovery_time: 0, dies: false },
        InfectionDraw { recovery_time: 0, dies: false },
    ];
    let mut first = full_engine(3, true);
    let mut second = full_engine(3, true);
    for engine in [&mut first, &mut second] {
        engine.schedule(1, 0, DiseaseStatus::I).unwrap();
        engine.schedule(2, 1, DiseaseStatus::I).unwrap();
    }
    assert_eq!(first.replay(&draws), 5);
    assert_eq!(second.replay(&draws), 5);
    for engine in [&first, &second] {
        assert_eq!(engine.status(0), Some(DiseaseStatus::R));
        assert_eq!(engine.status(1), Some(DiseaseStatus::D));
        assert_eq!(engine.status(2), Some(DiseaseStatus::S));
        assert_eq!(engine.infections(), &vec![Infection { time: 1 }, Infection { time: 2 }]);
        assert_eq!(engine.deaths(), &vec![Death { time: 2 }]);
        assert_eq!(engine.time(), 8);
        assert_eq!(engine.pending(), 0);
    }
    assert_eq!(first.statuses(), second.statuses());

    let mut refused = full_engine(3, false);
    refused.schedule(1, 0, DiseaseStatus::I).unwrap();
    refused.schedule(5, 1, DiseaseStatus::I).unwrap();
    let draws = vec![
        InfectionDraw { recovery_time: 9, dies: false },
        InfectionDraw { recovery_time: 4, dies: false },
        InfectionDraw { recovery_time: 9, dies: false },
    ];
    assert_eq!(refused.replay(&draws), 1);
    assert_eq!(refused.time(), 1);
    assert_eq!(refused.status(1), Some(DiseaseStatus::S));
    assert_eq!(refused.pending(), 2);
}

#[test]
fn reports_keep_their_records_in_order_of_time() {
    let mut engine = full_engine(8, true);
    for person in 0..8 {
        engine.schedule(20 - 2 * person as u64, person, DiseaseStatus::I).unwrap();
    }
    let mut source = Scripted { delays: vec![3, 0, 11], deaths: vec![true, false], next_delay: 0, next_death: 0 };
    let mut seen_infections = 0;
    let mut seen_deaths = 0;
    let mut clock = 0;
    while let Some(plan) = engine.next_plan() {
        let draw = InfectionDraw { recovery_time: source.recovery_time(plan.time), dies: source.dies() };
        engine.step(draw).unwrap();
        assert!(engine.time() >= clock);
        clock = engine.time();
        assert!(engine.infections().len() >= seen_infections);
        assert!(engine.deaths().len() >= seen_deaths);
        seen_infections = engine.infections().len();
        seen_deaths = engine.deaths().len();
    }
    assert_eq!(seen_infections, 8);
    let dead = engine.statuses().iter().filter(|s| **s == DiseaseStatus::D).count();
    assert_eq!(seen_deaths, dead);
    assert!(dead > 0 && dead < 8);
    assert!(engine.infections().windows(2).all(|w| w[0].time <= w[1].time));
    assert!(engine.deaths().windows(2).all(|w| w[0].time <= w[1].time));
    assert_eq!(engine.infections()[0], Infection { time: 6 });
    assert_eq!(engine.infections()[7], Infection { time: 20 });
}

#[test]
fn observers_are_notified_in_the_order_of_registration() {
    let mut standard = full_engine(1, true);
    assert_eq!(
        standard.order(),
        &vec![
            Observer::IncidenceReport,
            Observer::DeathReport,
            Observer::InfectionManager,
            Observer::DeathManager
        ]
    );
    let draw = InfectionDraw { recovery_time: 5, dies: true };
    assert_eq!(standard.set_status(0, DiseaseStatus::I, draw), Ok(true));

    // The death manager first: every transition is still seen once by each
    // observer, so the same records and plans come out.
    let mut reversed = Engine::new(1);
    DeathManager::init(&mut reversed);
    InfectionManager::init(&mut reversed);
    DeathReport::init(&mut reversed);
    IncidenceReport::init(&mut reversed);
    assert_eq!(
        reversed.order(),
        &vec![
            Observer::DeathManager,
            Observer::InfectionManager,
            Observer::DeathReport,
            Observer::IncidenceReport
        ]
    );
    assert_eq!(reversed.set_status(0, DiseaseStatus::I, draw), Ok(true));
    for engine in [&standard, &reversed] {
        assert_eq!(engine.status(0), Some(DiseaseStatus::D));
        assert_eq!(engine.infections(), &vec![Infection { time: 0 }]);
        assert_eq!(engine.deaths(), &vec![Death { time: 0 }]);
        assert_eq!(engine.next_plan(), Some(Plan { time: 5, person: 0, status: DiseaseStatus::R }));
        assert_eq!(engine.pending(), 1);
    }
}

#[test]
fn an_observer_registered_twice_acts_twice() {
    let mut engine = Engine::new(2);
    IncidenceReport::init(&mut engine);
    IncidenceReport::init(&mut engine);
    engine.observe(Observer::InfectionManager);
    let draw = InfectionDraw { recovery_time: 3, dies: false };
    assert_eq!(engine.set_status(1, DiseaseStatus::I, draw), Ok(true));
    assert_eq!(engine.infections(), &vec![Infection { time: 0 }, Infection { time: 0 }]);
    assert_eq!(engine.pending(), 1);
    let kinds = engine.observers();
    assert!(kinds.incidence_report && kinds.infection_manager);
    assert!(!kinds.death_report && !kinds.death_manager);
}

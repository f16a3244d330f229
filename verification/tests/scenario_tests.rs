use rand::Rng;
use rand::SeedableRng;
use rand_distr::{Distribution, Exp};
use rand_xoshiro::Xoshiro256PlusPlus;
use sir_sim::channel::{get_bounded_channel_report_handler, ReportChannel, Row, Scenario, SendError};
use sir_sim::death_manager::DeathRandomId;
use sir_sim::engine::{DrawSource, Engine, InfectionDraw};
use sir_sim::incidence_report::IncidenceReport;
use sir_sim::infection_manager::{InfectionManager, InfectionRandomId};
use sir_sim::infection_seeder::{InfectionSeeder, SeedingRandomId, SetupError};
use sir_sim::person_properties::DiseaseStatus;
use sir_sim::random::{seed_offset, stream, stream_seed};
use sir_sim::runner::{
    death_rows, incidence_rows, run_scenario, setup_context, Parameters, ScenarioError,
};

struct Sampler {
    recovery: Xoshiro256PlusPlus,
    death: Xoshiro256PlusPlus,
    infectious_period: f64,
    death_rate: f64,
}

impl Sampler {
    fn new(seed: u64, infectious_period: f64, death_rate: f64) -> Sampler {
        Sampler {
            recovery: stream(seed, InfectionRandomId::seed_offset()),
            death: stream(seed, DeathRandomId::seed_offset()),
            infectious_period,
            death_rate,
        }
    }
}

impl DrawSource for Sampler {
    fn recovery_time(&mut self, now: u64) -> u64 {
        let delay = Exp::new(1.0 / self.infectious_period).unwrap().sample(&mut self.recovery);
        (f64::from_bits(now) + delay).to_bits()
    }

    fn dies(&mut self) -> bool {
        self.death.gen::<f64>() < self.death_rate
    }
}

fn ordered_times(rows: &[Row]) -> bool {
    rows.windows(2).all(|w| f64::from_bits(w[0].time) <= f64::from_bits(w[1].time))
}

#[test]
fn stream_seed_wraps_round() {
    assert_eq!(stream_seed(42, 0), 42);
    assert_eq!(stream_seed(42, 8), 50);
    assert_eq!(stream_seed(u64::MAX, 1), 0);
    assert_eq!(stream_seed(u64::MAX, u64::MAX), u64::MAX - 1);
}

#[test]
fn stream_names_give_different_offsets() {
    let seeding = SeedingRandomId::seed_offset();
    let death = DeathRandomId::seed_offset();
    let infection = InfectionRandomId::seed_offset();
    assert_ne!(seeding, death);
    assert_ne!(seeding, infection);
    assert_ne!(death, infection);
    assert_eq!(seeding, seed_offset("SeedingRandomId"));
    assert_eq!(seeding, SeedingRandomId::seed_offset());
    assert_eq!(seeding, fxhash::hash64("SeedingRandomId"));
}

#[test]
fn same_seed_and_name_give_the_same_sequence() {
    let mut a = stream(7, DeathRandomId::seed_offset());
    let mut b = stream(7, DeathRandomId::seed_offset());
    let mut c = stream(7, SeedingRandomId::seed_offset());
    let xs: Vec<u64> = (0..8).map(|_| a.gen::<u64>()).collect();
    let ys: Vec<u64> = (0..8).map(|_| b.gen::<u64>()).collect();
    let zs: Vec<u64> = (0..8).map(|_| c.gen::<u64>()).collect();
    assert_eq!(xs, ys);
    assert_ne!(xs, zs);
}

#[test]
fn seeding_infects_exactly_the_persons_drawn() {
    let mut engine = Engine::new(50);
    IncidenceReport::init(&mut engine);
    InfectionManager::init(&mut engine);
    let draws: Vec<InfectionDraw> =
        (0..7).map(|i| InfectionDraw { recovery_time: 10 + i, dies: false }).collect();
    let ids = InfectionSeeder::init(&mut engine, 7, 42, &draws).unwrap();
    assert_eq!(ids.len(), 7);
    let mut sorted = ids.clone();
    sorted.sort();
    sorted.dedup();
    assert_eq!(sorted.len(), 7);
    assert!(ids.iter().all(|&id| id < 50));
    for person in 0..50 {
        let expected = if ids.contains(&person) { DiseaseStatus::I } else { DiseaseStatus::S };
        assert_eq!(engine.status(person), Some(expected));
    }
    assert_eq!(engine.infections().len(), 7);
    assert!(engine.infections().iter().all(|i| i.time == 0));
    assert_eq!(engine.time(), 0);
    assert_eq!(engine.pending(), 7);
    // The i-th person drawn got the i-th draw.
    let first = engine.next_plan().unwrap();
    assert_eq!(first.time, 10);
    assert_eq!(first.person, ids[0]);
}

#[test]
fn seeding_is_reproducible_and_depends_on_the_seed() {
    let draws: Vec<InfectionDraw> =
        (0..20).map(|_| InfectionDraw { recovery_time: 1, dies: false }).collect();
    let mut a = Engine::new(1000);
    let mut b = Engine::new(1000);
    let mut c = Engine::new(1000);
    let ids_a = InfectionSeeder::init(&mut a, 20, 42, &draws).unwrap();
    let ids_b = InfectionSeeder::init(&mut b, 20, 42, &draws).unwrap();
    let ids_c = InfectionSeeder::init(&mut c, 20, 43, &draws).unwrap();
    assert_eq!(ids_a, ids_b);
    assert_ne!(ids_a, ids_c);
    let identity: Vec<usize> = (0..20).collect();
    assert_ne!(ids_a, identity);
}

#[test]
fn seeding_the_whole_population_infects_everybody() {
    let mut engine = Engine::new(5);
    let draws: Vec<InfectionDraw> =
        (0..5).map(|_| InfectionDraw { recovery_time: 0, dies: false }).collect();
    let mut ids = InfectionSeeder::init(&mut engine, 5, 1, &draws).unwrap();
    ids.sort();
    assert_eq!(ids, vec![0, 1, 2, 3, 4]);
    let mut empty = Engine::new(5);
    assert_eq!(InfectionSeeder::init(&mut empty, 0, 1, &Vec::new()), Ok(Vec::new()));
    assert_eq!(empty.status(0), Some(DiseaseStatus::S));
}

#[test]
fn seeding_errors() {
    let mut engine = Engine::new(3);
    InfectionManager::init(&mut engine);
    let draw = InfectionDraw { recovery_time: 5, dies: false };
    assert_eq!(
        InfectionSeeder::init(&mut engine, 4, 42, &vec![draw; 4]),
        Err(SetupError::TooManyInfections)
    );
    assert_eq!(InfectionSeeder::init(&mut engine, 2, 42, &vec![draw; 3]), Err(SetupError::DrawCount));
    assert_eq!(
        InfectionSeeder::infect(&mut engine, &vec![0, 3], &vec![draw; 2]),
        Err(SetupError::UnknownPerson)
    );
    engine.schedule(6, 0, DiseaseStatus::R).unwrap();
    engine.step(draw).unwrap();
    assert_eq!(engine.time(), 6);
    assert_eq!(
        InfectionSeeder::infect(&mut engine, &vec![0, 1], &vec![draw; 2]),
        Err(SetupError::InvalidTime)
    );
    for person in 0..3 {
        assert_eq!(engine.status(person), Some(DiseaseStatus::S));
    }
    assert_eq!(engine.pending(), 0);
    let late = InfectionDraw { recovery_time: 6, dies: false };
    assert_eq!(InfectionSeeder::infect(&mut engine, &vec![2, 2], &vec![late; 2]), Ok(()));
    assert_eq!(engine.status(2), Some(DiseaseStatus::I));
    assert_eq!(engine.pending(), 1);
}

#[test]
fn setup_registers_everything_and_seeds() {
    let parameters =
        Parameters { population: 100, initial_infections: 10, random_seed: 42, death_model: true };
    let mut source = Sampler::new(42, 4.0, 0.0);
    let (engine, ids, draws) = setup_context(&parameters, &mut source).unwrap();
    assert_eq!(ids.len(), 10);
    assert_eq!(draws.len(), 10);
    let observers = engine.observers();
    assert!(observers.incidence_report && observers.death_report);
    assert!(observers.infection_manager && observers.death_manager);
    assert_eq!(engine.infections().len(), 10);
    assert_eq!(engine.pending(), 10);
    assert_eq!(engine.time(), 0);
    let too_many =
        Parameters { population: 5, initial_infections: 6, random_seed: 42, death_model: false };
    assert!(matches!(setup_context(&too_many, &mut source), Err(SetupError::TooManyInfections)));
}

#[test]
fn end_to_end_scenario() {
    let parameters =
        Parameters { population: 1000, initial_infections: 10, random_seed: 42, death_model: false };
    let mut source = Sampler::new(42, 4.0, 0.0);
    let out = run_scenario(Scenario { scenario: 0 }, &parameters, &mut source).ok().unwrap();
    assert!(!out.incidence.is_empty());
    assert!(out.incidence.len() >= 10 && out.incidence.len() <= 1000);
    assert!(out.incidence.iter().all(|row| f64::from_bits(row.time) >= 0.0));
    assert!(ordered_times(&out.incidence));
    assert_eq!(out.deaths.len(), 0);
}

#[test]
fn end_to_end_scenario_with_transmission_and_deaths() {
    let mut engine = Engine::new(200);
    IncidenceReport::init(&mut engine);
    sir_sim::death_report::DeathReport::init(&mut engine);
    InfectionManager::init(&mut engine);
    sir_sim::death_manager::DeathManager::init(&mut engine);
    let mut source = Sampler::new(9, 4.0, 0.3);
    let mut contacts = stream(9, seed_offset("TransmissionRandomId"));
    let draws: Vec<InfectionDraw> = (0..5)
        .map(|_| InfectionDraw { recovery_time: source.recovery_time(0), dies: source.dies() })
        .collect();
    InfectionSeeder::init(&mut engine, 5, 9, &draws).unwrap();
    for _ in 0..10 {
        let other = contacts.gen_range(0..200);
        let at = contacts.gen::<f64>().to_bits();
        engine.schedule(at, other, DiseaseStatus::I).unwrap();
    }
    let mut last_time = 0.0;
    let mut steps = 0;
    while let Some(plan) = engine.next_plan() {
        let draw = if engine.next_infects() {
            InfectionDraw { recovery_time: source.recovery_time(plan.time), dies: source.dies() }
        } else {
            InfectionDraw { recovery_time: plan.time, dies: false }
        };
        let before: Vec<DiseaseStatus> = (0..200).map(|p| engine.status(p).unwrap()).collect();
        let infected = engine.next_infects();
        engine.step(draw).unwrap();
        for person in 0..200 {
            let now = engine.status(person).unwrap();
            let was = before[person];
            assert!(
                was == now
                    || was.can_become(now)
                    || (was == DiseaseStatus::S && now == DiseaseStatus::D)
            );
        }
        let now = f64::from_bits(engine.time());
        assert!(now >= last_time);
        last_time = now;
        if infected && steps < 150 {
            // An outside collaborator plans two contacts for every infection.
            for _ in 0..2 {
                let other = contacts.gen_range(0..200);
                let at = (now + contacts.gen::<f64>()).to_bits();
                engine.schedule(at, other, DiseaseStatus::I).unwrap();
            }
        }
        steps += 1;
    }
    let mut ever = 0;
    let mut removed = 0;
    let mut dead = 0;
    for person in 0..200 {
        match engine.status(person).unwrap() {
            DiseaseStatus::S => {}
            DiseaseStatus::I => panic!("still infected"),
            DiseaseStatus::R => {
                ever += 1;
                removed += 1;
            }
            DiseaseStatus::D => {
                ever += 1;
                removed += 1;
                dead += 1;
            }
        }
    }
    assert!(ever > 5);
    assert_eq!(ever, removed);
    assert_eq!(engine.infections().len(), ever);
    assert_eq!(engine.deaths().len(), dead);
    assert!(dead > 0);
    let rows = incidence_rows(Scenario { scenario: 3 }, engine.infections());
    assert!(ordered_times(&rows));
    assert!(rows.iter().all(|row| row.scenario == 3));
    let rows = death_rows(Scenario { scenario: 3 }, engine.deaths());
    assert!(ordered_times(&rows));
    assert_eq!(rows.len(), dead);
}

#[test]
fn two_runs_of_one_scenario_agree() {
    let parameters =
        Parameters { population: 300, initial_infections: 25, random_seed: 7, death_model: true };
    let mut first = Sampler::new(7, 4.0, 0.2);
    let mut second = Sampler::new(7, 4.0, 0.2);
    let a = run_scenario(Scenario { scenario: 0 }, &parameters, &mut first).ok().unwrap();
    let b = run_scenario(Scenario { scenario: 0 }, &parameters, &mut second).ok().unwrap();
    assert_eq!(a.incidence, b.incidence);
    assert_eq!(a.deaths, b.deaths);
    assert_eq!(a.incidence.len(), 25);
    assert_eq!(a.statuses, b.statuses);
    assert_eq!(a.statuses.len(), 300);
    let removed = a
        .statuses
        .iter()
        .filter(|s| matches!(s, DiseaseStatus::R | DiseaseStatus::D))
        .count();
    let dead = a.statuses.iter().filter(|s| matches!(s, DiseaseStatus::D)).count();
    assert_eq!(removed, 25);
    assert_eq!(dead, a.deaths.len());
    assert!(a.statuses.iter().all(|s| *s != DiseaseStatus::I));
    assert!(!a.deaths.is_empty());
    assert!(a.deaths.len() < 25);
}

#[test]
fn failing_scenario_is_named() {
    let parameters =
        Parameters { population: 3, initial_infections: 4, random_seed: 7, death_model: false };
    let mut source = Sampler::new(7, 4.0, 0.0);
    let failed = run_scenario(Scenario { scenario: 2 }, &parameters, &mut source).err().unwrap();
    assert_eq!(
        failed,
        ScenarioError { scenario: 2, error: SetupError::TooManyInfections }
    );
}

#[test]
fn multi_scenario_labeling() {
    let mut outputs = Vec::new();
    for scenario in 0..3usize {
        let parameters = Parameters {
            population: 100,
            initial_infections: 10 + scenario,
            random_seed: 100 + scenario as u64,
            death_model: false,
        };
        let mut source = Sampler::new(parameters.random_seed, 4.0, 0.0);
        let mut engine = setup_context(&parameters, &mut source).ok().unwrap().0;
        engine.run(&mut source).unwrap();
        let times: Vec<u64> = engine.infections().iter().map(|i| i.time).collect();
        outputs.push(times);
    }
    // Four workers' worth of interleaving through one bounded channel.
    let mut channel = ReportChannel::new(4);
    let handlers: Vec<_> = (0..3).map(get_bounded_channel_report_handler).collect();
    let mut cursors = [0usize; 3];
    let mut written: Vec<Row> = Vec::new();
    let mut turn = 0;
    while (0..3).any(|s| cursors[s] < outputs[s].len()) {
        let s = turn % 3;
        turn += 1;
        if cursors[s] < outputs[s].len() {
            match handlers[s].handle(&mut channel, outputs[s][cursors[s]]) {
                Ok(()) => cursors[s] += 1,
                Err(SendError::Full) => {
                    written.push(channel.recv().unwrap());
                }
                Err(SendError::Closed) => unreachable!(),
            }
        }
        assert!(channel.len() <= 4);
    }
    while let Some(row) = channel.recv() {
        written.push(row);
    }
    assert_eq!(written.len(), 10 + 11 + 12);
    for scenario in 0..3usize {
        let rows: Vec<Row> = written.iter().copied().filter(|r| r.scenario == scenario).collect();
        assert_eq!(rows.len(), 10 + scenario);
        assert!(ordered_times(&rows));
    }
    assert!(written.iter().all(|row| row.scenario < 3));
}

#[test]
fn one_person_scenarios_report_at_time_zero() {
    let parameters =
        Parameters { population: 1, initial_infections: 1, random_seed: 42, death_model: false };
    let mut rows = Vec::new();
    for scenario in 0..3usize {
        let mut source = Sampler::new(42, 4.0, 0.0);
        let out = run_scenario(Scenario { scenario }, &parameters, &mut source).ok().unwrap();
        assert!(out.deaths.is_empty());
        assert_eq!(out.statuses, vec![DiseaseStatus::R]);
        rows.extend(out.incidence.iter().map(|row| (row.scenario, f64::from_bits(row.time))));
    }
    assert_eq!(rows, vec![(0, 0.0), (1, 0.0), (2, 0.0)]);
}

#[test]
fn death_rows_are_as_many_as_the_dead() {
    let parameters =
        Parameters { population: 400, initial_infections: 60, random_seed: 11, death_model: true };
    let mut source = Sampler::new(11, 4.0, 0.4);
    let out = run_scenario(Scenario { scenario: 5 }, &parameters, &mut source).ok().unwrap();
    let dead = out.statuses.iter().filter(|s| **s == DiseaseStatus::D).count();
    assert!(dead > 0 && dead < 60);
    assert_eq!(out.deaths, vec![Row { scenario: 5, time: 0 }; dead]);
    assert_eq!(out.incidence, vec![Row { scenario: 5, time: 0 }; 60]);
}

#[test]
fn a_stale_recovery_changes_nothing() {
    let mut engine = Engine::new(2);
    IncidenceReport::init(&mut engine);
    sir_sim::death_report::DeathReport::init(&mut engine);
    InfectionManager::init(&mut engine);
    sir_sim::death_manager::DeathManager::init(&mut engine);
    let draw = InfectionDraw { recovery_time: 9, dies: true };
    assert_eq!(InfectionSeeder::infect(&mut engine, &vec![1], &vec![draw]), Ok(()));
    assert_eq!(engine.status(1), Some(DiseaseStatus::D));
    let infections = engine.infections().clone();
    let deaths = engine.deaths().clone();
    let ran = engine.step(InfectionDraw { recovery_time: 0, dies: true }).unwrap().unwrap();
    assert_eq!((ran.time, ran.person, ran.status), (9, 1, DiseaseStatus::R));
    assert_eq!(engine.status(1), Some(DiseaseStatus::D));
    assert_eq!(engine.status(0), Some(DiseaseStatus::S));
    assert_eq!(engine.infections(), &infections);
    assert_eq!(engine.deaths(), &deaths);
    assert_eq!(engine.pending(), 0);
    assert_eq!(engine.time(), 9);
}

#[test]
fn persons_drawn_are_those_of_the_seeded_sampler() {
    let draws: Vec<InfectionDraw> =
        (0..30).map(|_| InfectionDraw { recovery_time: 1, dies: false }).collect();
    let mut engine = Engine::new(500);
    let ids = InfectionSeeder::init_with_seed(&mut engine, 30, 12345, &draws).unwrap();
    let mut rng = Xoshiro256PlusPlus::seed_from_u64(12345);
    let expected = rand::seq::index::sample(&mut rng, 500, 30).into_vec();
    assert_eq!(ids, expected);
    let mut again = Engine::new(500);
    assert_eq!(InfectionSeeder::init_with_seed(&mut again, 30, 12345, &draws), Ok(ids.clone()));
    // The seeding stream of a base seed is the one at the base seed plus the
    // stream's offset.
    let mut by_base = Engine::new(500);
    let base = 12345u64.wrapping_sub(SeedingRandomId::seed_offset());
    assert_eq!(InfectionSeeder::init(&mut by_base, 30, base, &draws), Ok(ids));
    let mut refused = Engine::new(3);
    assert_eq!(
        InfectionSeeder::init_with_seed(&mut refused, 4, 1, &draws),
        Err(SetupError::TooManyInfections)
    );
}

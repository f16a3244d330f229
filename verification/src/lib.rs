//! A discrete-event SIR epidemic engine with verified scheduling, state
//! transitions, seeding, report collection and scenario runs.
//!
//! Simulated time is carried as an ordered 64-bit key. Callers that measure
//! time in real numbers map every non-negative instant to the key that orders
//! the same way and map keys back when they print them. Random outcomes that
//! are real numbers (infectious periods, death risks) reach the engine as
//! finished draws, through `engine::InfectionDraw` and `engine::DrawSource`.

pub mod person_properties;
pub mod plan_queue;
pub mod engine;
pub mod incidence_report;
pub mod death_report;
pub mod infection_manager;
pub mod death_manager;
pub mod random;
pub mod infection_seeder;
pub mod laws;
pub mod channel;
pub mod runner;

//! The event engine: the clock, the population's statuses, the plan queue,
//! the observers of status changes and the report sinks.

use vstd::prelude::*;
use crate::death_manager;
use crate::death_report;
use crate::death_report::Death;
use crate::incidence_report;
use crate::incidence_report::Infection;
use crate::infection_manager;
use crate::laws::{
    accounted, ever_infected, grows_from, lemma_counts_add_up, lemma_death_notification_frame,
    lemma_exhausted_queue_conserves, lemma_exhausted_queue_leaves_nobody_infected,
    lemma_grows_from_itself, lemma_grows_from_transitive, lemma_notification_frame,
    lemma_set_status_counts, lemma_set_status_effect, lemma_set_status_keeps_invariant,
    lemma_step_counts, lemma_step_is_monotone, lemma_step_keeps_resolving,
    lemma_step_without_deaths, only_recoveries, removed, resolving, dead, deaths_accounted,
    lemma_recovery_step, lemma_step_deaths, lemma_step_without_infections,
    no_infection_pending,
};
use crate::person_properties::{lemma_leads_to_transitive, DiseaseStatus};
use crate::plan_queue::{
    enqueue, lemma_enqueue_ordered, lemma_slot_parts, ordered, Plan, PlanQueue,
};

verus! {

/// Why the engine refused a request.
#[derive(Clone, Copy, Debug, PartialEq, Eq, Structural)]
pub enum EngineError {
    /// A plan was asked for an instant before the current time.
    InvalidTime,
    /// The person is not in the population.
    UnknownPerson,
}

/// An observer of status changes: one of the components of the model.
#[derive(Clone, Copy, Debug, PartialEq, Eq, Structural)]
pub enum Observer {
    IncidenceReport,
    DeathReport,
    InfectionManager,
    DeathManager,
}

/// Which kinds of observers are registered, whatever their order.
#[derive(Clone, Copy, Debug, PartialEq, Eq, Structural)]
pub struct Observers {
    pub incidence_report: bool,
    pub death_report: bool,
    pub infection_manager: bool,
    pub death_manager: bool,
}

/// The random outcomes that one infection consumes: the instant at which the
/// person recovers, and whether the person dies of the infection at once.
#[derive(Clone, Copy, Debug, PartialEq, Eq, Structural)]
pub struct InfectionDraw {
    pub recovery_time: u64,
    pub dies: bool,
}

/// The engine as a mathematical value.
pub struct EngineState {
    pub now: u64,
    pub statuses: Seq<DiseaseStatus>,
    pub plans: Seq<Plan>,
    pub infections: Seq<Infection>,
    pub deaths: Seq<Death>,
    /// The kinds of observers that are registered.
    pub observers: Observers,
    /// The registered observers in the order of their registration.
    pub order: Seq<Observer>,
}

/// The kinds of observers that occur in `order`.
pub open spec fn registered(order: Seq<Observer>) -> Observers {
    Observers {
        incidence_report: order.contains(Observer::IncidenceReport),
        death_report: order.contains(Observer::DeathReport),
        infection_manager: order.contains(Observer::InfectionManager),
        death_manager: order.contains(Observer::DeathManager),
    }
}

/// How often `observer` occurs in `order`.
pub open spec fn times_registered(order: Seq<Observer>, observer: Observer) -> nat
    decreases order.len(),
{
    if order.len() == 0 {
        0
    } else {
        times_registered(order.drop_last(), observer) + if order.last() == observer {
            1nat
        } else {
            0nat
        }
    }
}

/// Report times never decrease and none lies after `now`.
pub open spec fn times_settled(times: Seq<u64>, now: u64) -> bool {
    &&& forall|i: int, j: int| 0 <= i <= j < times.len() ==> times[i] <= times[j]
    &&& forall|i: int| 0 <= i < times.len() ==> times[i] <= now
}

impl EngineState {
    /// The times of the infections reported so far, in order of emission.
    pub open spec fn infection_times(self) -> Seq<u64> {
        Seq::new(self.infections.len(), |i: int| self.infections[i].time)
    }

    /// The times of the deaths reported so far, in order of emission.
    pub open spec fn death_times(self) -> Seq<u64> {
        Seq::new(self.deaths.len(), |i: int| self.deaths[i].time)
    }

    /// The engine's invariant: persons are numbered by machine words, the
    /// kinds of observers are those of the registered observers, the queue
    /// is ordered, no plan lies in the past or names a person outside the
    /// population, and each report is in non-decreasing order of time up to
    /// the current time.
    pub open spec fn wf(self) -> bool {
        &&& self.statuses.len() <= usize::MAX
        &&& self.observers == registered(self.order)
        &&& ordered(self.plans)
        &&& forall|i: int|
            0 <= i < self.plans.len() ==> self.now <= (#[trigger] self.plans[i]).time
                && self.plans[i].person < self.statuses.len()
        &&& times_settled(self.infection_times(), self.now)
        &&& times_settled(self.death_times(), self.now)
    }

    /// A fresh engine: time zero, everybody susceptible, nothing pending,
    /// nothing reported, nobody observing.
    pub open spec fn fresh(population: nat) -> EngineState {
        EngineState {
            now: 0,
            statuses: Seq::new(population, |i: int| DiseaseStatus::S),
            plans: Seq::empty(),
            infections: Seq::empty(),
            deaths: Seq::empty(),
            observers: Observers {
                incidence_report: false,
                death_report: false,
                infection_manager: false,
                death_manager: false,
            },
            order: Seq::empty(),
        }
    }

    /// One more observer is registered, behind those that are.
    pub open spec fn observing(self, observer: Observer) -> EngineState {
        EngineState {
            order: self.order.push(observer),
            observers: registered(self.order.push(observer)),
            ..self
        }
    }

    pub open spec fn with_status(self, person: int, status: DiseaseStatus) -> EngineState {
        EngineState { statuses: self.statuses.update(person, status), ..self }
    }

    pub open spec fn with_plan(self, plan: Plan) -> EngineState {
        EngineState { plans: enqueue(self.plans, plan), ..self }
    }

    /// An infection is reported at the current time.
    pub open spec fn released_infection(self) -> EngineState {
        EngineState { infections: self.infections.push(Infection { time: self.now }), ..self }
    }

    /// A death is reported at the current time.
    pub open spec fn released_death(self) -> EngineState {
        EngineState { deaths: self.deaths.push(Death { time: self.now }), ..self }
    }

    /// The observers `order` have seen, one after the other, that a person
    /// died: each death report among them records the death.
    pub open spec fn notified_of_death_by(self, order: Seq<Observer>) -> EngineState
        decreases order.len(),
    {
        if order.len() == 0 {
            self
        } else {
            let before = self.notified_of_death_by(order.drop_last());
            if order.last() == Observer::DeathReport {
                before.released_death()
            } else {
                before
            }
        }
    }

    /// The death manager has looked at a person with the outcome `dies`: on
    /// success an infected person is dead at once, and every registered
    /// observer has been told.
    pub open spec fn death_checked(self, person: int, dies: bool) -> EngineState {
        if dies && self.permits(person, DiseaseStatus::D) {
            self.with_status(person, DiseaseStatus::D).notified_of_death_by(self.order)
        } else {
            self
        }
    }

    /// What one observer does on the news that `person` now has `status`.
    pub open spec fn observed(
        self,
        observer: Observer,
        person: int,
        status: DiseaseStatus,
        draw: InfectionDraw,
    ) -> EngineState {
        match observer {
            Observer::IncidenceReport => incidence_report::reported(self, status),
            Observer::DeathReport => death_report::reported(self, status),
            Observer::InfectionManager => infection_manager::handled(
                self,
                person,
                status,
                draw.recovery_time,
            ),
            Observer::DeathManager => death_manager::handled(self, person, status, draw.dies),
        }
    }

    /// The observers `order` have been told, one after the other, that
    /// `person` now has `status`: each acts on the engine as the one before
    /// left it.
    pub open spec fn notified_by(
        self,
        order: Seq<Observer>,
        person: int,
        status: DiseaseStatus,
        draw: InfectionDraw,
    ) -> EngineState
        decreases order.len(),
    {
        if order.len() == 0 {
            self
        } else {
            self.notified_by(order.drop_last(), person, status, draw).observed(
                order.last(),
                person,
                status,
                draw,
            )
        }
    }

    /// Every registered observer has been told, in the order of registration,
    /// that `person` now has `status`.
    pub open spec fn notified(
        self,
        person: int,
        status: DiseaseStatus,
        draw: InfectionDraw,
    ) -> EngineState {
        self.notified_by(self.order, person, status, draw)
    }

    /// The infection manager has seen an infection: the recovery is planned.
    pub open spec fn recovery_scheduled(self, person: int, recovery_time: u64) -> EngineState {
        self.with_plan(
            Plan { time: recovery_time, person: person as usize, status: DiseaseStatus::R },
        )
    }

    /// Whether moving `person` to `status` is a transition that it can take.
    pub open spec fn permits(self, person: int, status: DiseaseStatus) -> bool {
        0 <= person < self.statuses.len() && self.statuses[person].may_become(status)
    }

    /// Whether moving `person` to `status` would consume the recovery time of
    /// a draw.
    pub open spec fn plans_recovery(self, person: int, status: DiseaseStatus) -> bool {
        self.permits(person, status) && status == DiseaseStatus::I
            && self.observers.infection_manager
    }

    /// The engine after a request to move `person` to `status`: a transition
    /// that the person cannot take changes nothing.
    pub open spec fn after_set_status(
        self,
        person: int,
        status: DiseaseStatus,
        draw: InfectionDraw,
    ) -> EngineState {
        if self.permits(person, status) {
            self.with_status(person, status).notified(person, status, draw)
        } else {
            self
        }
    }

    /// The engine with its first plan taken out and the clock moved to it.
    pub open spec fn advanced(self) -> EngineState {
        EngineState { now: self.plans[0].time, plans: self.plans.drop_first(), ..self }
    }

    /// Whether the next plan is refused with `draw`: it would have a recovery
    /// planned before its own time.
    pub open spec fn refuses(self, draw: InfectionDraw) -> bool {
        self.plans.len() > 0 && self.plans_recovery(
            self.plans[0].person as int,
            self.plans[0].status,
        ) && draw.recovery_time < self.plans[0].time
    }

    /// The engine after one plan has run for each draw, in order.
    pub open spec fn after_draws(self, draws: Seq<InfectionDraw>) -> EngineState
        decreases draws.len(),
    {
        if draws.len() == 0 {
            self
        } else {
            self.after_draws(draws.drop_last()).after_step(draws.last())
        }
    }

    /// The engine after its next plan has run.
    pub open spec fn after_step(self, draw: InfectionDraw) -> EngineState {
        if self.plans.len() == 0 {
            self
        } else {
            self.advanced().after_set_status(
                self.plans[0].person as int,
                self.plans[0].status,
                draw,
            )
        }
    }
}

/// Where the random outcomes of infections come from while the engine runs.
pub trait DrawSource {
    /// The instant at which a person infected at `now` recovers: `now` plus
    /// a sampled infectious period.
    fn recovery_time(&mut self, now: u64) -> u64;

    /// Whether a person who has just been infected dies of it.
    fn dies(&mut self) -> bool;
}

/// The event engine of one scenario.
pub struct Engine {
    now: u64,
    statuses: Vec<DiseaseStatus>,
    queue: PlanQueue,
    infections: Vec<Infection>,
    deaths: Vec<Death>,
    observers: Observers,
    order: Vec<Observer>,
}

impl View for Engine {
    type V = EngineState;

    closed spec fn view(&self) -> EngineState {
        EngineState {
            now: self.now,
            statuses: self.statuses@,
            plans: self.queue@,
            infections: self.infections@,
            deaths: self.deaths@,
            observers: self.observers,
            order: self.order@,
        }
    }
}

impl Engine {
    /// The engine's invariant holds.
    pub open spec fn wf(&self) -> bool {
        self@.wf()
    }

    /// An engine for `population` susceptible persons at time zero.
    pub fn new(population: usize) -> (engine: Engine)
        ensures
            engine@ == EngineState::fresh(population as nat),
            engine.wf(),
    {
        let mut statuses: Vec<DiseaseStatus> = Vec::new();
        let mut i: usize = 0;
        while i < population
            invariant
                i <= population,
                statuses@.len() == i,
                forall|k: int| 0 <= k < i ==> statuses@[k] == DiseaseStatus::S,
            decreases population - i,
        {
            statuses.push(DiseaseStatus::S);
            i = i + 1;
        }
        let engine = Engine {
            now: 0,
            statuses,
            queue: PlanQueue::new(),
            infections: Vec::new(),
            deaths: Vec::new(),
            observers: Observers {
                incidence_report: false,
                death_report: false,
                infection_manager: false,
                death_manager: false,
            },
            order: Vec::new(),
        };
        assert(engine@.statuses =~= EngineState::fresh(population as nat).statuses);
        engine
    }

    /// The current simulated time.
    pub fn time(&self) -> (now: u64)
        ensures
            now == self@.now,
    {
        self.now
    }

    /// The number of persons.
    pub fn population(&self) -> (n: usize)
        ensures
            n == self@.statuses.len(),
    {
        self.statuses.len()
    }

    /// The status of `person`; `None` outside the population.
    pub fn status(&self, person: usize) -> (status: Option<DiseaseStatus>)
        ensures
            status == (if person < self@.statuses.len() {
                Some(self@.statuses[person as int])
            } else {
                None
            }),
    {
        if person < self.statuses.len() {
            Some(self.statuses[person])
        } else {
            None
        }
    }

    /// The status of every person, in the order of their numbers.
    pub fn statuses(&self) -> (all: &Vec<DiseaseStatus>)
        ensures
            all@ == self@.statuses,
    {
        &self.statuses
    }

    /// The kinds of observers that are registered.
    pub fn observers(&self) -> (observers: Observers)
        ensures
            observers == self@.observers,
    {
        self.observers
    }

    /// The registered observers in the order of their registration.
    pub fn order(&self) -> (order: &Vec<Observer>)
        ensures
            order@ == self@.order,
    {
        &self.order
    }

    /// Registers `observer` behind the observers that are registered.
    pub fn observe(&mut self, observer: Observer)
        requires
            old(self).wf(),
        ensures
            final(self).wf(),
            final(self)@ == old(self)@.observing(observer),
    {
        self.order.push(observer);
        let mut kinds = self.observers;
        match observer {
            Observer::IncidenceReport => {
                kinds.incidence_report = true;
            },
            Observer::DeathReport => {
                kinds.death_report = true;
            },
            Observer::InfectionManager => {
                kinds.infection_manager = true;
            },
            Observer::DeathManager => {
                kinds.death_manager = true;
            },
        }
        self.observers = kinds;
        proof {
            let before = old(self)@.order;
            let after = before.push(observer);
            assert(after[before.len() as int] == observer);
            assert forall|o: Observer| after.contains(o) <==> (before.contains(o) || o
                == observer) by {
                if before.contains(o) {
                    let k = choose|k: int| 0 <= k < before.len() && before[k] == o;
                    assert(after[k] == o);
                }
                if after.contains(o) {
                    let k = choose|k: int| 0 <= k < after.len() && after[k] == o;
                    if k < before.len() {
                        assert(before[k] == o);
                    }
                }
            }
            assert(self@.observers == registered(after));
            assert(self@.infection_times() =~= old(self)@.infection_times());
            assert(self@.death_times() =~= old(self)@.death_times());
        }
    }

    /// The infections reported so far, in order of emission.
    pub fn infections(&self) -> (items: &Vec<Infection>)
        ensures
            items@ == self@.infections,
    {
        &self.infections
    }

    /// The deaths reported so far, in order of emission.
    pub fn deaths(&self) -> (items: &Vec<Death>)
        ensures
            items@ == self@.deaths,
    {
        &self.deaths
    }

    /// The number of pending plans.
    pub fn pending(&self) -> (n: usize)
        ensures
            n == self@.plans.len(),
    {
        self.queue.len()
    }

    /// The plan that runs next, if any.
    pub fn next_plan(&self) -> (next: Option<Plan>)
        ensures
            next == (if self@.plans.len() == 0 {
                None
            } else {
                Some(self@.plans[0])
            }),
    {
        self.queue.peek()
    }

    /// Whether a request to move `person` to `status` would plan a recovery,
    /// and so needs a draw whose recovery time is not in the past.
    pub fn plans_recovery(&self, person: usize, status: DiseaseStatus) -> (needed: bool)
        ensures
            needed == self@.plans_recovery(person as int, status),
    {
        person < self.statuses.len() && self.statuses[person].can_become(status) && status
            == DiseaseStatus::I && self.observers.infection_manager
    }

    /// Schedules a plan. Fails with `UnknownPerson` for a person outside the
    /// population, else with `InvalidTime` for an instant before the current
    /// time, and then changes nothing.
    pub fn schedule(&mut self, time: u64, person: usize, status: DiseaseStatus) -> (done: Result<
        (),
        EngineError,
    >)
        requires
            old(self).wf(),
        ensures
            final(self).wf(),
            person >= old(self)@.statuses.len() ==> done == Err::<(), EngineError>(
                EngineError::UnknownPerson,
            ) && final(self)@ == old(self)@,
            person < old(self)@.statuses.len() && time < old(self)@.now ==> done == Err::<
                (),
                EngineError,
            >(EngineError::InvalidTime) && final(self)@ == old(self)@,
            person < old(self)@.statuses.len() && time >= old(self)@.now ==> done.is_ok()
                && final(self)@ == old(self)@.with_plan(Plan { time, person, status }),
    {
        if person >= self.statuses.len() {
            return Err(EngineError::UnknownPerson);
        }
        if time < self.now {
            return Err(EngineError::InvalidTime);
        }
        let plan = Plan { time, person, status };
        proof {
            lemma_with_plan_wf(self@, plan);
        }
        self.queue.push(plan);
        Ok(())
    }

    /// Asks to move `person` to `status`. A transition that the person cannot
    /// take (anything but S to I, I to R, I to D) changes nothing and gives
    /// `Ok(false)`. Otherwise the status is stored and every registered
    /// observer is notified before the call returns, in the order of
    /// registration, of the person's new status: the reports record an infection or a death at the current time, the
    /// infection manager plans the recovery at `draw.recovery_time`, and the
    /// death manager lets the newly infected person die at once if
    /// `draw.dies`, of which every observer is notified in turn. Fails, changing
    /// nothing, with `UnknownPerson` outside the population and with
    /// `InvalidTime` where a recovery would be planned in the past.
    pub fn set_status(&mut self, person: usize, status: DiseaseStatus, draw: InfectionDraw) -> (done:
        Result<bool, EngineError>)
        requires
            old(self).wf(),
        ensures
            final(self).wf(),
            final(self)@.now == old(self)@.now,
            final(self)@.observers == old(self)@.observers,
            final(self)@.order == old(self)@.order,
            final(self)@.statuses.len() == old(self)@.statuses.len(),
            person >= old(self)@.statuses.len() ==> done == Err::<bool, EngineError>(
                EngineError::UnknownPerson,
            ) && final(self)@ == old(self)@,
            old(self)@.plans_recovery(person as int, status) && draw.recovery_time < old(self)@.now
                ==> done == Err::<bool, EngineError>(EngineError::InvalidTime) && final(self)@
                == old(self)@,
            person < old(self)@.statuses.len() && !(old(self)@.plans_recovery(person as int, status)
                && draw.recovery_time < old(self)@.now) ==> done == Ok::<bool, EngineError>(
                old(self)@.permits(person as int, status),
            ) && final(self)@ == old(self)@.after_set_status(person as int, status, draw),
        decreases status.rank(), 3int,
    {
        if person >= self.statuses.len() {
            return Err(EngineError::UnknownPerson);
        }
        if !self.statuses[person].can_become(status) {
            return Ok(false);
        }
        if status == DiseaseStatus::I && self.observers.infection_manager && draw.recovery_time
            < self.now {
            return Err(EngineError::InvalidTime);
        }
        self.statuses.set(person, status);
        proof {
            assert(self@ == old(self)@.with_status(person as int, status));
            assert(self@.infection_times() =~= old(self)@.infection_times());
            assert(self@.death_times() =~= old(self)@.death_times());
            lemma_notification_frame(self@, self@.order, person as int, status, draw);
        }
        self.notify(person, status, draw);
        Ok(true)
    }

    /// Notifies the registered observers, in the order of their
    /// registration, that `person` now has `status`.
    fn notify(&mut self, person: usize, status: DiseaseStatus, draw: InfectionDraw)
        requires
            old(self).wf(),
            person < old(self)@.statuses.len(),
            old(self)@.statuses[person as int] == status,
            status == DiseaseStatus::I && old(self)@.observers.infection_manager
                ==> draw.recovery_time >= old(self)@.now,
        ensures
            final(self).wf(),
            final(self)@ == old(self)@.notified(person as int, status, draw),
        decreases status.rank(), 2int,
    {
        let n = self.order.len();
        let mut i: usize = 0;
        assert(self@.order.take(0).len() == 0);
        while i < n
            invariant
                i <= n,
                n == old(self)@.order.len(),
                old(self).wf(),
                self.wf(),
                person < self@.statuses.len(),
                self@.order == old(self)@.order,
                self@.observers == old(self)@.observers,
                self@.now == old(self)@.now,
                status == DiseaseStatus::I && old(self)@.observers.infection_manager
                    ==> draw.recovery_time >= old(self)@.now,
                self@ == old(self)@.notified_by(
                    old(self)@.order.take(i as int),
                    person as int,
                    status,
                    draw,
                ),
            decreases n - i,
        {
            let observer = self.order[i];
            proof {
                assert(old(self)@.order.take(i + 1).drop_last() =~= old(self)@.order.take(
                    i as int,
                ));
                assert(old(self)@.order.take(i + 1).last() == observer);
                assert(self@.order[i as int] == observer);
                assert(self@.order.contains(observer));
                lemma_death_notification_frame(
                    self@.with_status(person as int, DiseaseStatus::D),
                    self@.order,
                );
            }
            match observer {
                Observer::IncidenceReport => {
                    incidence_report::handle_person_disease_status_change(self, person, status);
                },
                Observer::DeathReport => {
                    death_report::handle_person_death(self, person, status);
                },
                Observer::InfectionManager => {
                    let _ = infection_manager::handle_person_disease_status_change(
                        self,
                        person,
                        status,
                        draw.recovery_time,
                    );
                },
                Observer::DeathManager => {
                    death_manager::handle_person_disease_status_change(
                        self,
                        person,
                        status,
                        draw.dies,
                    );
                },
            }
            i = i + 1;
        }
        proof {
            assert(old(self)@.order.take(n as int) =~= old(self)@.order);
        }
    }

    /// Whether the next plan, when it runs, consumes the recovery time of a
    /// draw: it does when it infects a susceptible person while the infection
    /// manager is registered.
    pub fn next_plans_recovery(&self) -> (needed: bool)
        ensures
            needed == (self@.plans.len() > 0 && self@.plans_recovery(
                self@.plans[0].person as int,
                self@.plans[0].status,
            )),
    {
        match self.queue.peek() {
            Some(plan) => self.plans_recovery(plan.person, plan.status),
            None => false,
        }
    }

    /// Runs the next plan: takes the earliest pending plan (the first that
    /// was scheduled among equals), moves the clock to its time and asks for
    /// its status change as `set_status` does, so that a plan whose
    /// transition is no longer possible runs as a no-op. Returns the plan
    /// that ran, or `None` when none was pending. Fails with `InvalidTime`,
    /// changing nothing, when the plan would have a recovery planned before
    /// its own time.
    pub fn step(&mut self, draw: InfectionDraw) -> (ran: Result<Option<Plan>, EngineError>)
        requires
            old(self).wf(),
        ensures
            final(self).wf(),
            old(self)@.plans.len() == 0 ==> ran == Ok::<Option<Plan>, EngineError>(None)
                && final(self)@ == old(self)@,
            old(self)@.plans.len() > 0 && old(self)@.plans_recovery(
                old(self)@.plans[0].person as int,
                old(self)@.plans[0].status,
            ) && draw.recovery_time < old(self)@.plans[0].time ==> ran == Err::<
                Option<Plan>,
                EngineError,
            >(EngineError::InvalidTime) && final(self)@ == old(self)@,
            old(self)@.plans.len() > 0 && !(old(self)@.plans_recovery(
                old(self)@.plans[0].person as int,
                old(self)@.plans[0].status,
            ) && draw.recovery_time < old(self)@.plans[0].time) ==> ran == Ok::<
                Option<Plan>,
                EngineError,
            >(Some(old(self)@.plans[0])) && final(self)@ == old(self)@.after_step(draw),
    {
        let plan = match self.queue.peek() {
            Some(plan) => plan,
            None => {
                return Ok(None);
            },
        };
        if self.plans_recovery(plan.person, plan.status) && draw.recovery_time < plan.time {
            return Err(EngineError::InvalidTime);
        }
        let _ = self.queue.pop();
        self.now = plan.time;
        proof {
            lemma_advanced_wf(old(self)@);
            assert(self@ == old(self)@.advanced());
        }
        let _ = self.set_status(plan.person, plan.status, draw);
        Ok(Some(plan))
    }

    /// Whether the next plan, when it runs, infects a susceptible person.
    pub fn next_infects(&self) -> (infects: bool)
        ensures
            infects == (self@.plans.len() > 0 && self@.plans[0].status == DiseaseStatus::I
                && self@.permits(self@.plans[0].person as int, DiseaseStatus::I)),
    {
        match self.queue.peek() {
            Some(plan) => plan.status == DiseaseStatus::I && plan.person < self.statuses.len()
                && self.statuses[plan.person].can_become(DiseaseStatus::I),
            None => false,
        }
    }

    /// Runs plans until none is pending. Before a plan that infects a
    /// susceptible person runs, the outcomes that the registered managers
    /// consume are drawn from `source`: first the recovery time, then the
    /// death risk; no other plan draws anything. Stops with `InvalidTime`,
    /// before the offending plan has run, when a recovery time drawn lies
    /// before the plan's own time; that cannot happen where no infection is
    /// pending. What it leaves is what `replay` leaves for some draws. However the draws come out: the clock and
    /// every status only move forward, the reports keep their records in
    /// order, and after `Ok` no plan is pending, so that with the infection
    /// manager registered throughout nobody is left infected.
    pub fn run<D: DrawSource>(&mut self, source: &mut D) -> (done: Result<(), EngineError>)
        requires
            old(self).wf(),
        ensures
            final(self).wf(),
            done.is_ok() ==> final(self)@.plans.len() == 0,
            !old(self)@.observers.infection_manager ==> done.is_ok(),
            no_infection_pending(old(self)@) ==> done.is_ok() && no_infection_pending(final(self)@)
                && final(self)@.infections == old(self)@.infections,
            old(self)@.plans.len() == 0 ==> done.is_ok() && final(self)@ == old(self)@,
            done.is_err() ==> done == Err::<(), EngineError>(EngineError::InvalidTime)
                && final(self)@.plans.len() > 0 && final(self)@.plans_recovery(
                final(self)@.plans[0].person as int,
                final(self)@.plans[0].status,
            ),
            exists|draws: Seq<InfectionDraw>| final(self)@ == old(self)@.after_draws(draws),
            old(self)@.now <= final(self)@.now,
            final(self)@.observers == old(self)@.observers,
            final(self)@.statuses.len() == old(self)@.statuses.len(),
            forall|p: int|
                0 <= p < old(self)@.statuses.len() ==> (#[trigger] old(self)@.statuses[p]).leads_to(
                    final(self)@.statuses[p],
                ),
            grows_from(final(self)@.infections, old(self)@.infections),
            grows_from(final(self)@.deaths, old(self)@.deaths),
            ever_infected(final(self)@.statuses) >= ever_infected(old(self)@.statuses),
            final(self)@.order == old(self)@.order,
            times_registered(old(self)@.order, Observer::IncidenceReport) == 1 && accounted(
                old(self)@,
            ) ==> accounted(final(self)@),
            old(self)@.observers.infection_manager && resolving(old(self)@) ==> resolving(
                final(self)@,
            ),
            only_recoveries(old(self)@) ==> only_recoveries(final(self)@) && final(self)@.deaths
                == old(self)@.deaths && dead(final(self)@.statuses) == dead(old(self)@.statuses)
                && ever_infected(final(self)@.statuses) == ever_infected(old(self)@.statuses),
            times_registered(old(self)@.order, Observer::DeathReport) == 1 && deaths_accounted(
                old(self)@,
            ) ==> deaths_accounted(final(self)@),
            done.is_ok() && old(self)@.observers.infection_manager && resolving(old(self)@) ==> (
            forall|p: int|
                0 <= p < final(self)@.statuses.len() ==> final(self)@.statuses[p]
                    != DiseaseStatus::I) && removed(final(self)@.statuses) == ever_infected(
                final(self)@.statuses,
            ),
    {
        proof {
            lemma_grows_from_itself(self@.infections);
            lemma_grows_from_itself(self@.deaths);
        }
        let ghost mut used: Seq<InfectionDraw> = Seq::empty();
        while self.queue.len() > 0
            invariant
                self.wf(),
                self@ == old(self)@.after_draws(used),
                no_infection_pending(old(self)@) ==> no_infection_pending(self@) && self@.infections
                    == old(self)@.infections,
                times_registered(old(self)@.order, Observer::DeathReport) == 1 && deaths_accounted(
                    old(self)@,
                ) ==> deaths_accounted(self@),
                old(self)@.plans.len() == 0 ==> self@ == old(self)@,
                old(self)@.now <= self@.now,
                self@.observers == old(self)@.observers,
                self@.statuses.len() == old(self)@.statuses.len(),
                forall|p: int|
                    0 <= p < old(self)@.statuses.len() ==> (#[trigger] old(self)@.statuses[p]).leads_to(
                        self@.statuses[p],
                    ),
                grows_from(self@.infections, old(self)@.infections),
                grows_from(self@.deaths, old(self)@.deaths),
                ever_infected(self@.statuses) >= ever_infected(old(self)@.statuses),
                self@.order == old(self)@.order,
                times_registered(old(self)@.order, Observer::IncidenceReport) == 1 && accounted(
                    old(self)@,
                ) ==> accounted(self@),
                old(self)@.observers.infection_manager && resolving(old(self)@) ==> resolving(
                    self@,
                ),
                only_recoveries(old(self)@) ==> only_recoveries(self@) && self@.deaths
                    == old(self)@.deaths && dead(self@.statuses) == dead(old(self)@.statuses) && ever_infected(
                    self@.statuses,
                ) == ever_infected(old(self)@.statuses),
            decreases self@.statuses.len() - ever_infected(self@.statuses), self@.plans.len(),
        {
            let ghost before = self@;
            let plan = match self.queue.peek() {
                Some(plan) => plan,
                None => {
                    return Ok(());
                },
            };
            let mut draw = InfectionDraw { recovery_time: plan.time, dies: false };
            if self.next_infects() {
                if self.observers.infection_manager {
                    draw.recovery_time = source.recovery_time(plan.time);
                }
                if self.observers.death_manager {
                    draw.dies = source.dies();
                }
            }
            if self.plans_recovery(plan.person, plan.status) && draw.recovery_time < plan.time {
                return Err(EngineError::InvalidTime);
            }
            proof {
                lemma_step_is_monotone(before, draw);
                lemma_step_counts(before, draw);
                lemma_counts_add_up(before.after_step(draw).statuses);
                lemma_advanced_wf(before);
                lemma_set_status_counts(before.advanced(), plan.person as int, plan.status, draw);
                lemma_set_status_effect(before.advanced(), plan.person as int, plan.status, draw);
                lemma_set_status_keeps_invariant(
                    before.advanced(),
                    plan.person as int,
                    plan.status,
                    draw,
                );
                if before.observers.infection_manager && resolving(before) {
                    lemma_step_keeps_resolving(before, draw);
                }
                if only_recoveries(before) {
                    lemma_step_without_deaths(before, draw);
                    lemma_recovery_step(before, draw);
                }
                if no_infection_pending(before) {
                    lemma_step_without_infections(before, draw);
                }
                if times_registered(before.order, Observer::DeathReport) == 1 && deaths_accounted(
                    before,
                ) {
                    lemma_step_deaths(before, draw);
                }
                assert(used.push(draw).drop_last() =~= used);
                used = used.push(draw);
                lemma_grows_from_transitive(
                    before.after_step(draw).infections,
                    before.infections,
                    old(self)@.infections,
                );
                lemma_grows_from_transitive(
                    before.after_step(draw).deaths,
                    before.deaths,
                    old(self)@.deaths,
                );
                assert forall|p: int| 0 <= p < old(self)@.statuses.len() implies (
                #[trigger] old(self)@.statuses[p]).leads_to(before.after_step(draw).statuses[p]) by {
                    assert(before.statuses[p].leads_to(before.after_step(draw).statuses[p]));
                    lemma_leads_to_transitive(
                        old(self)@.statuses[p],
                        before.statuses[p],
                        before.after_step(draw).statuses[p],
                    );
                }
            }
            let _ = self.step(draw);
        }
        proof {
            if resolving(self@) {
                lemma_exhausted_queue_leaves_nobody_infected(self@);
                lemma_exhausted_queue_conserves(self@);
            }
        }
        Ok(())
    }

    /// Runs one plan for each draw of `draws`, in order, as `step` does, and
    /// stops at the first draw with which the next plan is refused. Returns
    /// how many draws were applied: all of them unless a plan was refused.
    /// The engine it leaves is a function of the engine it found and of the
    /// draws applied, so that the same draws replayed on the same engine
    /// give the same statuses, plans and reports.
    pub fn replay(&mut self, draws: &Vec<InfectionDraw>) -> (applied: usize)
        requires
            old(self).wf(),
        ensures
            final(self).wf(),
            applied <= draws@.len(),
            final(self)@ == old(self)@.after_draws(draws@.take(applied as int)),
            applied < draws@.len() ==> final(self)@.refuses(draws@[applied as int]),
            forall|j: int|
                0 <= j < applied ==> !(#[trigger] old(self)@.after_draws(draws@.take(j))).refuses(
                    draws@[j],
                ),
    {
        let mut i: usize = 0;
        assert(draws@.take(0).len() == 0);
        while i < draws.len()
            invariant
                i <= draws.len(),
                self.wf(),
                self@ == old(self)@.after_draws(draws@.take(i as int)),
                forall|j: int|
                    0 <= j < i ==> !(#[trigger] old(self)@.after_draws(draws@.take(j))).refuses(
                        draws@[j],
                    ),
            decreases draws.len() - i,
        {
            proof {
                assert(draws@.take(i + 1).drop_last() =~= draws@.take(i as int));
                assert(draws@.take(i + 1).last() == draws@[i as int]);
            }
            match self.step(draws[i]) {
                Ok(_) => {},
                Err(_) => {
                    return i;
                },
            }
            i = i + 1;
        }
        i
    }

    /// Emits an infection record stamped with the current time.
    pub fn release_infection(&mut self)
        requires
            old(self).wf(),
        ensures
            final(self).wf(),
            final(self)@ == old(self)@.released_infection(),
    {
        proof {
            lemma_release_wf(self@);
        }
        self.infections.push(Infection { time: self.now });
    }

    /// Emits a death record stamped with the current time.
    pub fn release_death(&mut self)
        requires
            old(self).wf(),
        ensures
            final(self).wf(),
            final(self)@ == old(self)@.released_death(),
    {
        proof {
            lemma_release_wf(self@);
        }
        self.deaths.push(Death { time: self.now });
    }
}

/// Scheduling a plan that is not in the past for a person of the population
/// keeps the invariant.
pub proof fn lemma_with_plan_wf(s: EngineState, plan: Plan)
    requires
        s.wf(),
        s.now <= plan.time,
        plan.person < s.statuses.len(),
    ensures
        s.with_plan(plan).wf(),
{
    lemma_enqueue_ordered(s.plans, plan);
    lemma_slot_parts(s.plans, plan.time);
    let after = s.with_plan(plan);
    let k = crate::plan_queue::slot(s.plans, plan.time);
    assert forall|i: int| 0 <= i < after.plans.len() implies s.now <= (
    #[trigger] after.plans[i]).time && after.plans[i].person < after.statuses.len() by {
        if i < k {
            assert(after.plans[i] == s.plans[i]);
        } else if i > k {
            assert(after.plans[i] == s.plans[i - 1]);
        }
    }
    assert(after.infection_times() =~= s.infection_times());
    assert(after.death_times() =~= s.death_times());
}

/// Taking out the next plan and moving the clock to it keeps the invariant.
pub proof fn lemma_advanced_wf(s: EngineState)
    requires
        s.wf(),
        s.plans.len() > 0,
    ensures
        s.advanced().wf(),
        s.now <= s.advanced().now,
{
    let after = s.advanced();
    assert(s.now <= s.plans[0].time);
    assert forall|i: int| 0 <= i < after.plans.len() implies after.now <= (
    #[trigger] after.plans[i]).time && after.plans[i].person < after.statuses.len() by {
        assert(after.plans[i] == s.plans[i + 1]);
    }
    assert forall|i: int, j: int| 0 <= i <= j < after.plans.len() implies after.plans[i].time
        <= after.plans[j].time by {
        assert(after.plans[i] == s.plans[i + 1]);
        assert(after.plans[j] == s.plans[j + 1]);
    }
    assert(after.infection_times() =~= s.infection_times());
    assert(after.death_times() =~= s.death_times());
}

/// Reporting at the current time keeps the invariant.
pub proof fn lemma_release_wf(s: EngineState)
    requires
        s.wf(),
    ensures
        s.released_infection().wf(),
        s.released_death().wf(),
{
    assert(s.released_infection().infection_times() =~= s.infection_times().push(s.now));
    assert(s.released_infection().death_times() =~= s.death_times());
    assert(s.released_death().death_times() =~= s.death_times().push(s.now));
    assert(s.released_death().infection_times() =~= s.infection_times());
}

} // verus!

//! What holds of the engine at every step.

use vstd::prelude::*;
use crate::death_report::Death;
use crate::engine::{
    lemma_advanced_wf, lemma_release_wf, lemma_with_plan_wf, times_registered, EngineState,
    InfectionDraw, Observer,
};
use crate::incidence_report::Infection;
use crate::infection_seeder::{all_distinct, lemma_seeded_frame, seeded, seeding_error};
use crate::person_properties::DiseaseStatus;
use crate::plan_queue::{enqueue, lemma_enqueue_ordered, lemma_slot_parts, slot, Plan};

verus! {

/// `earlier` is how `later` began: a report only grows, at its end.
pub open spec fn grows_from<T>(later: Seq<T>, earlier: Seq<T>) -> bool {
    earlier.len() <= later.len() && later.subrange(0, earlier.len() as int) == earlier
}

/// A report grows from itself.
pub proof fn lemma_grows_from_itself<T>(items: Seq<T>)
    ensures
        grows_from(items, items),
{
    assert(items.subrange(0, items.len() as int) =~= items);
}

/// A report with one more record has grown.
pub proof fn lemma_grows_by_push<T>(items: Seq<T>, item: T)
    ensures
        grows_from(items.push(item), items),
{
    assert(items.push(item).subrange(0, items.len() as int) =~= items);
}

/// Growth of a report carries over steps.
pub proof fn lemma_grows_from_transitive<T>(last: Seq<T>, middle: Seq<T>, first: Seq<T>)
    requires
        grows_from(last, middle),
        grows_from(middle, first),
    ensures
        grows_from(last, first),
{
    assert(last.subrange(0, first.len() as int) =~= middle.subrange(0, first.len() as int)) by {
        assert forall|i: int| 0 <= i < first.len() implies last[i] == middle[i] by {
            assert(last.subrange(0, middle.len() as int)[i] == middle[i]);
        }
    }
}

/// Every pending plan is a recovery.
pub open spec fn only_recoveries(s: EngineState) -> bool {
    forall|i: int| 0 <= i < s.plans.len() ==> (#[trigger] s.plans[i]).status == DiseaseStatus::R
}

/// Planning a recovery leaves nothing but recoveries pending where nothing
/// else was.
pub proof fn lemma_recovery_among_recoveries(s: EngineState, person: int, recovery_time: u64)
    requires
        crate::plan_queue::ordered(s.plans),
        only_recoveries(s),
    ensures
        only_recoveries(s.recovery_scheduled(person, recovery_time)),
{
    let plan = Plan { time: recovery_time, person: person as usize, status: DiseaseStatus::R };
    let t = s.recovery_scheduled(person, recovery_time);
    lemma_enqueue_ordered(s.plans, plan);
    lemma_slot_parts(s.plans, plan.time);
    let k = slot(s.plans, plan.time);
    assert forall|i: int| 0 <= i < t.plans.len() implies (#[trigger] t.plans[i]).status
        == DiseaseStatus::R by {
        if i < k {
            assert(t.plans[i] == s.plans[i]);
        } else if i > k {
            assert(t.plans[i] == s.plans[i - 1]);
        }
    }
}

/// Telling observers of a death changes nothing but the death report, which
/// keeps its records and gains one for each death report among them; the
/// invariant is kept.
pub proof fn lemma_death_notification_frame(s: EngineState, order: Seq<Observer>)
    ensures
        s.notified_of_death_by(order).now == s.now,
        s.notified_of_death_by(order).statuses == s.statuses,
        s.notified_of_death_by(order).plans == s.plans,
        s.notified_of_death_by(order).infections == s.infections,
        s.notified_of_death_by(order).observers == s.observers,
        s.notified_of_death_by(order).order == s.order,
        grows_from(s.notified_of_death_by(order).deaths, s.deaths),
        s.notified_of_death_by(order).deaths == s.deaths + Seq::new(
            times_registered(order, Observer::DeathReport),
            |i: int| Death { time: s.now },
        ),
        s.wf() ==> s.notified_of_death_by(order).wf(),
        (forall|k: int| 0 <= k < order.len() ==> order[k] != Observer::DeathReport)
            ==> s.notified_of_death_by(order) == s,
    decreases order.len(),
{
    if order.len() == 0 {
        lemma_grows_from_itself(s.deaths);
        assert(s.deaths + Seq::new(0, |i: int| Death { time: s.now }) =~= s.deaths);
    } else {
        lemma_death_notification_frame(s, order.drop_last());
        let before = s.notified_of_death_by(order.drop_last());
        assert(s.notified_of_death_by(order).deaths =~= s.deaths + Seq::new(
            times_registered(order, Observer::DeathReport),
            |i: int| Death { time: s.now },
        ));
        if before.wf() {
            lemma_release_wf(before);
        }
        lemma_grows_by_push(before.deaths, Death { time: before.now });
        lemma_grows_from_transitive(before.released_death().deaths, before.deaths, s.deaths);
        if forall|k: int| 0 <= k < order.len() ==> order[k] != Observer::DeathReport {
            assert(order[order.len() - 1] != Observer::DeathReport);
            assert forall|k: int| 0 <= k < order.drop_last().len() implies order.drop_last()[k]
                != Observer::DeathReport by {
                assert(order.drop_last()[k] == order[k]);
            }
        }
    }
}

/// Observers that are told of a death do what they do on a death: only the
/// death reports react.
pub proof fn lemma_notified_of_a_death(
    s: EngineState,
    order: Seq<Observer>,
    person: int,
    draw: InfectionDraw,
)
    ensures
        s.notified_by(order, person, DiseaseStatus::D, draw) == s.notified_of_death_by(order),
    decreases order.len(),
{
    if order.len() > 0 {
        lemma_notified_of_a_death(s, order.drop_last(), person, draw);
    }
}

/// What a round of notifications can do, whatever the observers and their
/// order: the clock, the observers and everybody but the person named stay
/// as they are; the person's status stays or, for an infected person whose
/// draw says so, turns to dead; the reports keep their records; nothing is
/// planned or reported as an infection unless the news is an infection, and
/// nothing at all happens on the news of a susceptible or recovered person;
/// only recoveries are planned; the death manager alone lets anybody die;
/// and the invariant is kept where no recovery is planned in the past.
pub proof fn lemma_notification_frame(
    s: EngineState,
    order: Seq<Observer>,
    person: int,
    status: DiseaseStatus,
    draw: InfectionDraw,
)
    requires
        0 <= person < s.statuses.len() <= usize::MAX,
    ensures
        s.notified_by(order, person, status, draw).now == s.now,
        s.notified_by(order, person, status, draw).observers == s.observers,
        s.notified_by(order, person, status, draw).order == s.order,
        s.notified_by(order, person, status, draw).statuses.len() == s.statuses.len(),
        forall|q: int|
            0 <= q < s.statuses.len() && q != person ==> s.notified_by(
                order,
                person,
                status,
                draw,
            ).statuses[q] == s.statuses[q],
        s.notified_by(order, person, status, draw).statuses[person] == s.statuses[person] || (
        status == DiseaseStatus::I && s.statuses[person] == DiseaseStatus::I && draw.dies
            && s.notified_by(order, person, status, draw).statuses[person] == DiseaseStatus::D),
        grows_from(s.notified_by(order, person, status, draw).infections, s.infections),
        grows_from(s.notified_by(order, person, status, draw).deaths, s.deaths),
        status != DiseaseStatus::I ==> s.notified_by(order, person, status, draw).plans == s.plans
            && s.notified_by(order, person, status, draw).infections == s.infections
            && s.notified_by(order, person, status, draw).statuses == s.statuses,
        status == DiseaseStatus::S || status == DiseaseStatus::R ==> s.notified_by(
            order,
            person,
            status,
            draw,
        ) == s,
        only_recoveries(s) && crate::plan_queue::ordered(s.plans) ==> only_recoveries(
            s.notified_by(order, person, status, draw),
        ),
        crate::plan_queue::ordered(s.plans) ==> crate::plan_queue::ordered(
            s.notified_by(order, person, status, draw).plans,
        ),
        s.notified_by(order, person, status, draw).plans.len() >= s.plans.len(),
        (forall|k: int| 0 <= k < order.len() ==> order[k] != Observer::DeathManager) ==> s.notified_by(
            order,
            person,
            status,
            draw,
        ).statuses == s.statuses && (status != DiseaseStatus::D ==> s.notified_by(
            order,
            person,
            status,
            draw,
        ).deaths == s.deaths),
        s.wf() && (forall|k: int|
            0 <= k < order.len() && order[k] == Observer::InfectionManager && status
                == DiseaseStatus::I ==> draw.recovery_time >= s.now) ==> s.notified_by(
            order,
            person,
            status,
            draw,
        ).wf(),
        s.notified_by(order, person, status, draw).infections == s.infections + Seq::new(
            if status == DiseaseStatus::I {
                times_registered(order, Observer::IncidenceReport)
            } else {
                0
            },
            |i: int| Infection { time: s.now },
        ),
        s.notified_by(order, person, status, draw).deaths == s.deaths + Seq::new(
            if status == DiseaseStatus::D {
                times_registered(order, Observer::DeathReport)
            } else if s.notified_by(order, person, status, draw).statuses[person]
                != s.statuses[person] {
                times_registered(s.order, Observer::DeathReport)
            } else {
                0
            },
            |i: int| Death { time: s.now },
        ),
        forall|p: int|
            crate::plan_queue::ordered(s.plans) && #[trigger] recovery_pending(s.plans, p)
                ==> recovery_pending(s.notified_by(order, person, status, draw).plans, p),
        crate::plan_queue::ordered(s.plans) && status == DiseaseStatus::I && (exists|k: int|
            0 <= k < order.len() && order[k] == Observer::InfectionManager) ==> recovery_pending(
            s.notified_by(order, person, status, draw).plans,
            person,
        ),
    decreases order.len(),
{
    if order.len() == 0 {
        lemma_grows_from_itself(s.infections);
        lemma_grows_from_itself(s.deaths);
        assert(s.infections + Seq::new(0, |i: int| Infection { time: s.now }) =~= s.infections);
        assert(s.deaths + Seq::new(0, |i: int| Death { time: s.now }) =~= s.deaths);
    } else {
        let front = order.drop_last();
        let last = order.last();
        lemma_notification_frame(s, front, person, status, draw);

        let before = s.notified_by(front, person, status, draw);
        let after = before.observed(last, person, status, draw);
        assert(after == s.notified_by(order, person, status, draw));
        assert(forall|k: int| 0 <= k < front.len() ==> front[k] == order[k]);
        assert(order[order.len() - 1] == last);
        let plan = Plan {
            time: draw.recovery_time,
            person: person as usize,
            status: DiseaseStatus::R,
        };
        let dead = before.with_status(person, DiseaseStatus::D);
        lemma_death_notification_frame(dead, before.order);
        assert(after.infections =~= s.infections + Seq::new(
            if status == DiseaseStatus::I {
                times_registered(order, Observer::IncidenceReport)
            } else {
                0
            },
            |i: int| Infection { time: s.now },
        ));
        assert(after.deaths =~= s.deaths + Seq::new(
            if status == DiseaseStatus::D {
                times_registered(order, Observer::DeathReport)
            } else if after.statuses[person] != s.statuses[person] {
                times_registered(s.order, Observer::DeathReport)
            } else {
                0
            },
            |i: int| Death { time: s.now },
        ));
        lemma_grows_by_push(before.infections, Infection { time: before.now });
        lemma_grows_by_push(before.deaths, Death { time: before.now });
        lemma_grows_from_itself(before.infections);
        lemma_grows_from_itself(before.deaths);
        lemma_grows_from_transitive(after.infections, before.infections, s.infections);
        lemma_grows_from_transitive(after.deaths, before.deaths, s.deaths);
        crate::plan_queue::lemma_slot_from(before.plans, plan.time, 0);
        if crate::plan_queue::ordered(before.plans) {
            lemma_enqueue_ordered(before.plans, plan);
        }
        if only_recoveries(before) && crate::plan_queue::ordered(before.plans) {
            lemma_recovery_among_recoveries(before, person, draw.recovery_time);
        }
        if s.wf() && (forall|k: int|
            0 <= k < order.len() && order[k] == Observer::InfectionManager && status
                == DiseaseStatus::I ==> draw.recovery_time >= s.now) {
            assert(before.wf());
            lemma_release_wf(before);
            if last == Observer::InfectionManager && status == DiseaseStatus::I {
                lemma_with_plan_wf(before, plan);
            }
            assert(dead.infection_times() =~= before.infection_times());
            assert(dead.death_times() =~= before.death_times());
            assert(dead.wf());
            assert(after.wf());
        }
        if crate::plan_queue::ordered(s.plans) {
            assert forall|p: int| #[trigger] recovery_pending(s.plans, p) implies recovery_pending(
                after.plans,
                p,
            ) by {
                assert(recovery_pending(before.plans, p));
                if after.plans != before.plans {
                    lemma_enqueue_keeps_pending(before.plans, plan, p);
                }
            }
            if status == DiseaseStatus::I && (exists|k: int|
                0 <= k < order.len() && order[k] == Observer::InfectionManager) {
                if last == Observer::InfectionManager {
                    assert(after.plans[slot(before.plans, plan.time)] == plan);
                } else {
                    let k = choose|k: int|
                        0 <= k < order.len() && order[k] == Observer::InfectionManager;
                    assert(front[k] == Observer::InfectionManager);
                    assert(recovery_pending(before.plans, person));
                    if after.plans != before.plans {
                        lemma_enqueue_keeps_pending(before.plans, plan, person);
                    }
                }
            }
        }
    }
}

/// A status change keeps the engine's invariant, the clock, the observers
/// and the size of the population, provided that no recovery is planned in
/// the past.
pub proof fn lemma_set_status_keeps_invariant(
    s: EngineState,
    person: int,
    status: DiseaseStatus,
    draw: InfectionDraw,
)
    requires
        s.wf(),
        s.plans_recovery(person, status) ==> draw.recovery_time >= s.now,
    ensures
        s.after_set_status(person, status, draw).wf(),
        s.after_set_status(person, status, draw).now == s.now,
        s.after_set_status(person, status, draw).observers == s.observers,
        s.after_set_status(person, status, draw).order == s.order,
        s.after_set_status(person, status, draw).statuses.len() == s.statuses.len(),
{
    if s.permits(person, status) {
        let stored = s.with_status(person, status);
        assert(stored.infection_times() =~= s.infection_times());
        assert(stored.death_times() =~= s.death_times());
        assert(stored.wf());
        assert forall|k: int|
            0 <= k < stored.order.len() && stored.order[k] == Observer::InfectionManager
                && status == DiseaseStatus::I implies draw.recovery_time
            >= stored.now by {
            assert(s.order.contains(s.order[k]));
        }
        lemma_notification_frame(stored, stored.order, person, status, draw);
    }
}

/// What one status change can do, whatever the observers and their order:
/// nobody but the person named changes, the person's status moves along S, I,
/// then R or D and never back, a change that the person cannot take changes
/// nothing, without the death manager the person has the status asked for,
/// and each report keeps the records that it held.
pub proof fn lemma_set_status_effect(
    s: EngineState,
    person: int,
    status: DiseaseStatus,
    draw: InfectionDraw,
)
    requires
        s.wf(),
    ensures
        forall|q: int|
            0 <= q < s.statuses.len() && q != person ==> s.after_set_status(
                person,
                status,
                draw,
            ).statuses[q] == s.statuses[q],
        0 <= person < s.statuses.len() ==> s.statuses[person].leads_to(
            s.after_set_status(person, status, draw).statuses[person],
        ),
        !s.permits(person, status) ==> s.after_set_status(person, status, draw) == s,
        s.permits(person, status) ==> s.after_set_status(person, status, draw).statuses[person]
            == status || (status == DiseaseStatus::I && draw.dies && s.observers.death_manager
            && s.after_set_status(person, status, draw).statuses[person] == DiseaseStatus::D),
        s.permits(person, status) && status != DiseaseStatus::I ==> s.after_set_status(
            person,
            status,
            draw,
        ).plans == s.plans && s.after_set_status(person, status, draw).infections
            == s.infections,
        s.after_set_status(person, status, draw).plans.len() >= s.plans.len(),
        grows_from(s.after_set_status(person, status, draw).infections, s.infections),
        grows_from(s.after_set_status(person, status, draw).deaths, s.deaths),
{
    lemma_grows_from_itself(s.infections);
    lemma_grows_from_itself(s.deaths);
    if s.permits(person, status) {
        let stored = s.with_status(person, status);
        let t = s.after_set_status(person, status, draw);
        lemma_notification_frame(stored, stored.order, person, status, draw);
        assert(t == stored.notified_by(stored.order, person, status, draw));
        assert forall|q: int| 0 <= q < s.statuses.len() && q != person implies t.statuses[q]
            == s.statuses[q] by {
            assert(stored.statuses[q] == s.statuses[q]);
        }
        if !s.observers.death_manager {
            assert forall|k: int| 0 <= k < stored.order.len() implies stored.order[k]
                != Observer::DeathManager by {
                if stored.order[k] == Observer::DeathManager {
                    assert(s.order.contains(s.order[k]));
                }
            }
        }
    }
}

/// What one status change reports: an infection of a susceptible person is
/// recorded at the current time once for each registration of the incidence
/// report, and nothing else is recorded as an infection.
pub proof fn lemma_set_status_reports(
    s: EngineState,
    person: int,
    status: DiseaseStatus,
    draw: InfectionDraw,
)
    requires
        s.wf(),
    ensures
        s.after_set_status(person, status, draw).infections == s.infections + Seq::new(
            if s.permits(person, status) && status == DiseaseStatus::I {
                times_registered(s.order, Observer::IncidenceReport)
            } else {
                0
            },
            |i: int| Infection { time: s.now },
        ),
{
    if s.permits(person, status) {
        let stored = s.with_status(person, status);
        lemma_notification_frame(stored, stored.order, person, status, draw);
    } else {
        assert(s.infections + Seq::new(0, |i: int| Infection { time: s.now }) =~= s.infections);
    }
}

/// Running a plan keeps the invariant, so that within each report the times
/// never decrease; the clock never goes back; nobody's status goes back; and
/// the reports keep every record they held.
pub proof fn lemma_step_is_monotone(s: EngineState, draw: InfectionDraw)
    requires
        s.wf(),
        s.plans.len() > 0,
        s.plans_recovery(s.plans[0].person as int, s.plans[0].status) ==> draw.recovery_time
            >= s.plans[0].time,
    ensures
        s.after_step(draw).wf(),
        s.now <= s.after_step(draw).now,
        s.after_step(draw).statuses.len() == s.statuses.len(),
        forall|p: int|
            0 <= p < s.statuses.len() ==> (#[trigger] s.statuses[p]).leads_to(
                s.after_step(draw).statuses[p],
            ),
        grows_from(s.after_step(draw).infections, s.infections),
        grows_from(s.after_step(draw).deaths, s.deaths),
{
    lemma_advanced_wf(s);
    let a = s.advanced();
    let plan = s.plans[0];
    lemma_set_status_keeps_invariant(a, plan.person as int, plan.status, draw);
    lemma_set_status_effect(a, plan.person as int, plan.status, draw);
}

/// A recovery of `person` is among the pending plans.
pub open spec fn recovery_pending(plans: Seq<Plan>, person: int) -> bool {
    exists|i: int|
        0 <= i < plans.len() && (#[trigger] plans[i]).person == person && plans[i].status
            == DiseaseStatus::R
}

/// Every infected person has a recovery pending.
pub open spec fn resolving(s: EngineState) -> bool {
    forall|p: int|
        0 <= p < s.statuses.len() && #[trigger] s.statuses[p] == DiseaseStatus::I
            ==> recovery_pending(s.plans, p)
}

/// Scheduling a plan takes no pending recovery away.
pub proof fn lemma_enqueue_keeps_pending(plans: Seq<Plan>, plan: Plan, person: int)
    requires
        crate::plan_queue::ordered(plans),
        recovery_pending(plans, person),
    ensures
        recovery_pending(enqueue(plans, plan), person),
{
    lemma_enqueue_ordered(plans, plan);
    let i = choose|i: int|
        0 <= i < plans.len() && (#[trigger] plans[i]).person == person && plans[i].status
            == DiseaseStatus::R;
    let k = slot(plans, plan.time);
    if i < k {
        assert(enqueue(plans, plan)[i] == plans[i]);
    } else {
        assert(enqueue(plans, plan)[i + 1] == plans[i]);
    }
}

/// With the infection manager registered, a status change leaves every
/// infected person with a recovery pending, even where the person named had
/// none before, provided that the change then ends its infection.
pub proof fn lemma_set_status_keeps_resolving(
    s: EngineState,
    person: int,
    status: DiseaseStatus,
    draw: InfectionDraw,
)
    requires
        s.wf(),
        s.observers.infection_manager,
        forall|p: int|
            0 <= p < s.statuses.len() && p != person && #[trigger] s.statuses[p]
                == DiseaseStatus::I ==> recovery_pending(s.plans, p),
        0 <= person < s.statuses.len() && s.statuses[person] == DiseaseStatus::I ==> (
        recovery_pending(s.plans, person) || status == DiseaseStatus::R || status
            == DiseaseStatus::D),
    ensures
        resolving(s.after_set_status(person, status, draw)),
{
    let t = s.after_set_status(person, status, draw);
    if s.permits(person, status) {
        let stored = s.with_status(person, status);
        lemma_notification_frame(stored, stored.order, person, status, draw);
        let k = choose|k: int| 0 <= k < s.order.len() && s.order[k] == Observer::InfectionManager;
        assert(stored.order[k] == Observer::InfectionManager);
        assert forall|p: int|
            0 <= p < t.statuses.len() && #[trigger] t.statuses[p]
                == DiseaseStatus::I implies recovery_pending(t.plans, p) by {
            if p != person {
                assert(stored.statuses[p] == s.statuses[p]);
                assert(s.statuses[p] == DiseaseStatus::I);
                assert(recovery_pending(stored.plans, p));
            }
        }
    } else {
        assert forall|p: int|
            0 <= p < t.statuses.len() && #[trigger] t.statuses[p]
                == DiseaseStatus::I implies recovery_pending(t.plans, p) by {
            assert(s.statuses[p] == DiseaseStatus::I);
        }
    }
}

/// With the infection manager registered, running a plan leaves every
/// infected person with a recovery pending.
pub proof fn lemma_step_keeps_resolving(s: EngineState, draw: InfectionDraw)
    requires
        s.wf(),
        s.observers.infection_manager,
        resolving(s),
    ensures
        resolving(s.after_step(draw)),
{
    if s.plans.len() > 0 {
        lemma_advanced_wf(s);
        let a = s.advanced();
        let plan = s.plans[0];
        assert forall|p: int|
            0 <= p < a.statuses.len() && a.statuses[p] == DiseaseStatus::I && !(p == plan.person
                && plan.status == DiseaseStatus::R) implies recovery_pending(a.plans, p) by {
            assert(s.statuses[p] == DiseaseStatus::I);
            let i = choose|i: int|
                0 <= i < s.plans.len() && (#[trigger] s.plans[i]).person == p && s.plans[i].status
                    == DiseaseStatus::R;
            assert(i > 0);
            assert(a.plans[i - 1] == s.plans[i]);
        }
        lemma_set_status_keeps_resolving(a, plan.person as int, plan.status, draw);
    }
}

/// Once no plan is pending, nobody is infected any more: every person who
/// was ever infected has recovered or died.
pub proof fn lemma_exhausted_queue_leaves_nobody_infected(s: EngineState)
    requires
        resolving(s),
        s.plans.len() == 0,
    ensures
        forall|p: int| 0 <= p < s.statuses.len() ==> s.statuses[p] != DiseaseStatus::I,
{
    assert forall|p: int| 0 <= p < s.statuses.len() implies s.statuses[p]
        != DiseaseStatus::I by {
        if s.statuses[p] == DiseaseStatus::I {
            assert(recovery_pending(s.plans, p));
        }
    }
}

/// How many persons have left the susceptible status: those who were ever
/// infected.
pub open spec fn ever_infected(statuses: Seq<DiseaseStatus>) -> nat
    decreases statuses.len(),
{
    if statuses.len() == 0 {
        0
    } else {
        ever_infected(statuses.drop_last()) + if statuses.last() != DiseaseStatus::S {
            1nat
        } else {
            0nat
        }
    }
}

/// How many persons are infected now.
pub open spec fn infected_now(statuses: Seq<DiseaseStatus>) -> nat
    decreases statuses.len(),
{
    if statuses.len() == 0 {
        0
    } else {
        infected_now(statuses.drop_last()) + if statuses.last() == DiseaseStatus::I {
            1nat
        } else {
            0nat
        }
    }
}

/// How many persons have recovered or died.
pub open spec fn removed(statuses: Seq<DiseaseStatus>) -> nat
    decreases statuses.len(),
{
    if statuses.len() == 0 {
        0
    } else {
        removed(statuses.drop_last()) + if statuses.last() == DiseaseStatus::R || statuses.last()
            == DiseaseStatus::D {
            1nat
        } else {
            0nat
        }
    }
}

/// Everybody who was ever infected is infected now, recovered or dead; and
/// where nobody is infected now, the count of the infected is zero.
pub proof fn lemma_counts_add_up(statuses: Seq<DiseaseStatus>)
    ensures
        ever_infected(statuses) == infected_now(statuses) + removed(statuses),
        ever_infected(statuses) <= statuses.len(),
        (forall|p: int| 0 <= p < statuses.len() ==> statuses[p] != DiseaseStatus::I)
            ==> infected_now(statuses) == 0,
    decreases statuses.len(),
{
    if statuses.len() > 0 {
        lemma_counts_add_up(statuses.drop_last());
        if forall|p: int| 0 <= p < statuses.len() ==> statuses[p] != DiseaseStatus::I {
            assert forall|p: int| 0 <= p < statuses.drop_last().len() implies statuses.drop_last()[p]
                != DiseaseStatus::I by {
                assert(statuses.drop_last()[p] == statuses[p]);
            }
        }
    }
}

/// Changing one person's status changes the count of the ever infected by
/// that person alone.
pub proof fn lemma_ever_infected_update(
    statuses: Seq<DiseaseStatus>,
    person: int,
    status: DiseaseStatus,
)
    requires
        0 <= person < statuses.len(),
    ensures
        ever_infected(statuses.update(person, status)) + (if statuses[person]
            != DiseaseStatus::S {
            1nat
        } else {
            0nat
        }) == ever_infected(statuses) + (if status != DiseaseStatus::S {
            1nat
        } else {
            0nat
        }),
    decreases statuses.len(),
{
    let changed = statuses.update(person, status);
    if person == statuses.len() - 1 {
        assert(changed.drop_last() =~= statuses.drop_last());
    } else {
        lemma_ever_infected_update(statuses.drop_last(), person, status);
        assert(changed.drop_last() =~= statuses.drop_last().update(person, status));
    }
}

/// A status change raises the count of the ever infected by one exactly when
/// it infects a susceptible person; otherwise the count stays.
pub proof fn lemma_set_status_counts(
    s: EngineState,
    person: int,
    status: DiseaseStatus,
    draw: InfectionDraw,
)
    requires
        s.wf(),
    ensures
        ever_infected(s.after_set_status(person, status, draw).statuses) == ever_infected(
            s.statuses,
        ) + (if s.permits(person, status) && status == DiseaseStatus::I {
            1nat
        } else {
            0nat
        }),
{
    if s.permits(person, status) {
        let t = s.after_set_status(person, status, draw);
        lemma_set_status_effect(s, person, status, draw);
        lemma_set_status_keeps_population(s, person, status, draw);
        lemma_ever_infected_update(s.statuses, person, t.statuses[person]);
        assert(t.statuses =~= s.statuses.update(person, t.statuses[person]));
    }
}

/// A status change keeps the size of the population.
pub proof fn lemma_set_status_keeps_population(
    s: EngineState,
    person: int,
    status: DiseaseStatus,
    draw: InfectionDraw,
)
    requires
        s.wf(),
    ensures
        s.after_set_status(person, status, draw).statuses.len() == s.statuses.len(),
{
    if s.permits(person, status) {
        let stored = s.with_status(person, status);
        lemma_notification_frame(stored, stored.order, person, status, draw);
    }
}

/// The incidence report holds one record for each person ever infected.
pub open spec fn accounted(s: EngineState) -> bool {
    s.infections.len() == ever_infected(s.statuses)
}

/// Running a plan never lowers the count of the ever infected, and with the
/// incidence report registered once the report keeps one record for each of
/// them.
pub proof fn lemma_step_counts(s: EngineState, draw: InfectionDraw)
    requires
        s.wf(),
    ensures
        ever_infected(s.after_step(draw).statuses) >= ever_infected(s.statuses),
        times_registered(s.order, Observer::IncidenceReport) == 1 && accounted(s) ==> accounted(
            s.after_step(draw),
        ),
{
    if s.plans.len() > 0 {
        lemma_advanced_wf(s);
        lemma_set_status_counts(s.advanced(), s.plans[0].person as int, s.plans[0].status, draw);
        lemma_set_status_reports(s.advanced(), s.plans[0].person as int, s.plans[0].status, draw);
    }
}

/// Once no plan is pending, the persons who recovered or died are exactly as
/// many as were ever infected.
pub proof fn lemma_exhausted_queue_conserves(s: EngineState)
    requires
        resolving(s),
        s.plans.len() == 0,
    ensures
        removed(s.statuses) == ever_infected(s.statuses),
{
    lemma_exhausted_queue_leaves_nobody_infected(s);
    lemma_counts_add_up(s.statuses);
}

/// Seeding susceptible persons, none of them twice, infects exactly those:
/// each of them is infected or, where the death manager let it die, dead;
/// nobody else changes; the count of the ever infected grows by their number;
/// the clock stands still; and with the incidence report registered once one
/// infection is reported for each of them.
pub proof fn lemma_seeding_is_exact(s: EngineState, ids: Seq<usize>, draws: Seq<InfectionDraw>)
    requires
        s.wf(),
        seeding_error(s, ids, draws).is_none(),
        all_distinct(ids),
        forall|i: int| 0 <= i < ids.len() ==> s.statuses[(#[trigger] ids[i]) as int] == DiseaseStatus::S,
    ensures
        seeded(s, ids, draws).now == s.now,
        seeded(s, ids, draws).statuses.len() == s.statuses.len(),
        ever_infected(seeded(s, ids, draws).statuses) == ever_infected(s.statuses) + ids.len(),
        forall|i: int|
            0 <= i < ids.len() ==> seeded(s, ids, draws).statuses[(#[trigger] ids[i]) as int]
                == DiseaseStatus::I || (s.observers.death_manager && seeded(
                s,
                ids,
                draws,
            ).statuses[ids[i] as int] == DiseaseStatus::D),
        forall|p: int|
            0 <= p < s.statuses.len() && (forall|i: int| 0 <= i < ids.len() ==> ids[i] != p)
                ==> #[trigger] seeded(s, ids, draws).statuses[p] == s.statuses[p],
        times_registered(s.order, Observer::IncidenceReport) == 1 ==> seeded(
            s,
            ids,
            draws,
        ).infections == s.infections + Seq::new(ids.len(), |i: int| Infection { time: s.now }),
        times_registered(s.order, Observer::IncidenceReport) == 0 ==> seeded(
            s,
            ids,
            draws,
        ).infections == s.infections,
    decreases ids.len(),
{
    let t = seeded(s, ids, draws);
    if ids.len() == 0 {
        assert(s.infections + Seq::new(ids.len(), |i: int| Infection { time: s.now })
            =~= s.infections);
    } else {
        let head = ids.drop_last();
        let dhead = draws.drop_last();
        let last = ids.last() as int;
        assert(seeding_error(s, head, dhead).is_none());
        assert forall|i: int| 0 <= i < head.len() implies s.statuses[(#[trigger] head[i]) as int]
            == DiseaseStatus::S by {
            assert(head[i] == ids[i]);
        }
        lemma_seeding_is_exact(s, head, dhead);
        lemma_seeded_frame(s, head, dhead);
        let before = seeded(s, head, dhead);
        assert(forall|i: int| 0 <= i < head.len() ==> head[i] == ids[i]);
        assert(before.statuses[last] == s.statuses[last]);
        assert(before.permits(last, DiseaseStatus::I));
        lemma_set_status_keeps_invariant(before, last, DiseaseStatus::I, draws.last());
        lemma_set_status_effect(before, last, DiseaseStatus::I, draws.last());
        lemma_set_status_counts(before, last, DiseaseStatus::I, draws.last());
        lemma_set_status_reports(before, last, DiseaseStatus::I, draws.last());
        assert forall|i: int| 0 <= i < ids.len() implies t.statuses[(#[trigger] ids[i]) as int]
            == DiseaseStatus::I || (s.observers.death_manager && t.statuses[ids[i] as int]
            == DiseaseStatus::D) by {
            if i < head.len() {
                assert(head[i] == ids[i]);
                assert(ids[i] != ids[ids.len() - 1]);
            }
        }
        assert forall|p: int|
            0 <= p < s.statuses.len() && (forall|i: int|
                0 <= i < ids.len() ==> ids[i] != p) implies #[trigger] t.statuses[p]
            == s.statuses[p] by {
            assert(ids[ids.len() - 1] != p);
            assert(forall|i: int| 0 <= i < head.len() ==> head[i] != p);
            assert(before.statuses[p] == s.statuses[p]);
        }
        if times_registered(s.order, Observer::IncidenceReport) == 1 {
            assert(t.infections =~= s.infections + Seq::new(
                ids.len(),
                |i: int| Infection { time: s.now },
            ));
        } else if times_registered(s.order, Observer::IncidenceReport) == 0 {
            assert(t.infections =~= s.infections);
        }
    }
}

/// A status change plans nothing but recoveries, and reports no death unless
/// it asks for one or the death manager is registered.
pub proof fn lemma_set_status_without_deaths(
    s: EngineState,
    person: int,
    status: DiseaseStatus,
    draw: InfectionDraw,
)
    requires
        s.wf(),
    ensures
        only_recoveries(s) ==> only_recoveries(s.after_set_status(person, status, draw)),
        !s.observers.death_manager && status != DiseaseStatus::D ==> s.after_set_status(
            person,
            status,
            draw,
        ).deaths == s.deaths,
{
    if s.permits(person, status) {
        let stored = s.with_status(person, status);
        lemma_notification_frame(stored, stored.order, person, status, draw);
        if !s.observers.death_manager {
            assert forall|k: int| 0 <= k < stored.order.len() implies stored.order[k]
                != Observer::DeathManager by {
                if stored.order[k] == Observer::DeathManager {
                    assert(s.order.contains(s.order[k]));
                }
            }
        }
    }
}

/// Running a plan leaves nothing but recoveries pending where nothing else
/// was pending, and without the death manager it then reports no death.
pub proof fn lemma_step_without_deaths(s: EngineState, draw: InfectionDraw)
    requires
        s.wf(),
        only_recoveries(s),
    ensures
        only_recoveries(s.after_step(draw)),
        !s.observers.death_manager ==> s.after_step(draw).deaths == s.deaths,
{
    if s.plans.len() > 0 {
        lemma_advanced_wf(s);
        let a = s.advanced();
        assert forall|i: int| 0 <= i < a.plans.len() implies (#[trigger] a.plans[i]).status
            == DiseaseStatus::R by {
            assert(a.plans[i] == s.plans[i + 1]);
        }
        lemma_set_status_without_deaths(a, s.plans[0].person as int, s.plans[0].status, draw);
    }
}

/// Seeding keeps what a run relies on: with the infection manager registered
/// every infected person has a recovery pending, only recoveries are pending
/// where nothing else was, and without the death manager no death is
/// reported.
pub proof fn lemma_seeding_keeps(s: EngineState, ids: Seq<usize>, draws: Seq<InfectionDraw>)
    requires
        s.wf(),
        seeding_error(s, ids, draws).is_none(),
    ensures
        s.observers.infection_manager && resolving(s) ==> resolving(seeded(s, ids, draws)),
        only_recoveries(s) ==> only_recoveries(seeded(s, ids, draws)),
        !s.observers.death_manager ==> seeded(s, ids, draws).deaths == s.deaths,
    decreases ids.len(),
{
    if ids.len() > 0 {
        let head = ids.drop_last();
        let dhead = draws.drop_last();
        assert(seeding_error(s, head, dhead).is_none());
        lemma_seeding_keeps(s, head, dhead);
        lemma_seeded_frame(s, head, dhead);
        let before = seeded(s, head, dhead);
        lemma_set_status_without_deaths(before, ids.last() as int, DiseaseStatus::I, draws.last());
        if s.observers.infection_manager && resolving(s) {
            lemma_set_status_keeps_resolving(
                before,
                ids.last() as int,
                DiseaseStatus::I,
                draws.last(),
            );
        }
    }
}

/// In a population where everybody is susceptible nobody was ever infected.
pub proof fn lemma_all_susceptible(statuses: Seq<DiseaseStatus>)
    requires
        forall|p: int| 0 <= p < statuses.len() ==> statuses[p] == DiseaseStatus::S,
    ensures
        ever_infected(statuses) == 0,
    decreases statuses.len(),
{
    if statuses.len() > 0 {
        assert forall|p: int| 0 <= p < statuses.drop_last().len() implies statuses.drop_last()[p]
            == DiseaseStatus::S by {
            assert(statuses.drop_last()[p] == statuses[p]);
        }
        lemma_all_susceptible(statuses.drop_last());
    }
}

/// Two runs that start from engines in the same state and
/// consume the same draws end in the same state, and so emit the same
/// infections and deaths in the same order.
pub proof fn lemma_runs_agree(
    first: EngineState,
    second: EngineState,
    first_draws: Seq<InfectionDraw>,
    second_draws: Seq<InfectionDraw>,
)
    requires
        first == second,
        first_draws =~= second_draws,
    ensures
        first.after_draws(first_draws) == second.after_draws(second_draws),
        first.after_draws(first_draws).infections == second.after_draws(second_draws).infections,
        first.after_draws(first_draws).deaths == second.after_draws(second_draws).deaths,
{
}

/// Replaying draws keeps the invariant as long as no plan is refused, and
/// the clock, the statuses and the reports only move forward.
pub proof fn lemma_replay_is_monotone(s: EngineState, draws: Seq<InfectionDraw>)
    requires
        s.wf(),
        forall|j: int|
            0 <= j < draws.len() ==> !(#[trigger] s.after_draws(draws.take(j))).refuses(draws[j]),
    ensures
        s.after_draws(draws).wf(),
        s.now <= s.after_draws(draws).now,
        s.after_draws(draws).statuses.len() == s.statuses.len(),
        forall|p: int|
            0 <= p < s.statuses.len() ==> (#[trigger] s.statuses[p]).leads_to(
                s.after_draws(draws).statuses[p],
            ),
        grows_from(s.after_draws(draws).infections, s.infections),
        grows_from(s.after_draws(draws).deaths, s.deaths),
    decreases draws.len(),
{
    if draws.len() == 0 {
        lemma_grows_from_itself(s.infections);
        lemma_grows_from_itself(s.deaths);
    } else {
        let head = draws.drop_last();
        assert forall|j: int| 0 <= j < head.len() implies !(#[trigger] s.after_draws(
            head.take(j),
        )).refuses(head[j]) by {
            assert(head.take(j) =~= draws.take(j));
        }
        lemma_replay_is_monotone(s, head);
        let before = s.after_draws(head);
        assert(draws.take(draws.len() - 1) =~= head);
        assert(!before.refuses(draws.last()));
        let after = s.after_draws(draws);
        if before.plans.len() > 0 {
            lemma_step_is_monotone(before, draws.last());
            lemma_grows_from_transitive(after.infections, before.infections, s.infections);
            lemma_grows_from_transitive(after.deaths, before.deaths, s.deaths);
            assert forall|p: int| 0 <= p < s.statuses.len() implies (#[trigger] s.statuses[p]).leads_to(
                after.statuses[p],
            ) by {
                assert(before.statuses[p].leads_to(after.statuses[p]));
                crate::person_properties::lemma_leads_to_transitive(
                    s.statuses[p],
                    before.statuses[p],
                    after.statuses[p],
                );
            }
        }
    }
}

/// How many persons are dead.
pub open spec fn dead(statuses: Seq<DiseaseStatus>) -> nat
    decreases statuses.len(),
{
    if statuses.len() == 0 {
        0
    } else {
        dead(statuses.drop_last()) + if statuses.last() == DiseaseStatus::D {
            1nat
        } else {
            0nat
        }
    }
}

/// Changing one person's status changes the count of the dead by that person
/// alone.
pub proof fn lemma_dead_update(statuses: Seq<DiseaseStatus>, person: int, status: DiseaseStatus)
    requires
        0 <= person < statuses.len(),
    ensures
        dead(statuses.update(person, status)) + (if statuses[person] == DiseaseStatus::D {
            1nat
        } else {
            0nat
        }) == dead(statuses) + (if status == DiseaseStatus::D {
            1nat
        } else {
            0nat
        }),
        dead(statuses) <= statuses.len(),
    decreases statuses.len(),
{
    let changed = statuses.update(person, status);
    if person == statuses.len() - 1 {
        assert(changed.drop_last() =~= statuses.drop_last());
        if statuses.len() > 1 {
            lemma_dead_update(statuses.drop_last(), 0, statuses[0]);
        }
    } else {
        lemma_dead_update(statuses.drop_last(), person, status);
        assert(changed.drop_last() =~= statuses.drop_last().update(person, status));
    }
}

/// In a population where nobody is dead the count of the dead is zero.
pub proof fn lemma_nobody_dead(statuses: Seq<DiseaseStatus>)
    requires
        forall|p: int| 0 <= p < statuses.len() ==> statuses[p] != DiseaseStatus::D,
    ensures
        dead(statuses) == 0,
    decreases statuses.len(),
{
    if statuses.len() > 0 {
        assert forall|p: int| 0 <= p < statuses.drop_last().len() implies statuses.drop_last()[p]
            != DiseaseStatus::D by {
            assert(statuses.drop_last()[p] == statuses[p]);
        }
        lemma_nobody_dead(statuses.drop_last());
    }
}

/// What one status change reports of deaths: where it leaves the person
/// dead, the death is recorded at the current time once for each
/// registration of the death report, and the count of the dead grows by
/// one; otherwise neither the death report nor the count changes.
pub proof fn lemma_set_status_deaths(
    s: EngineState,
    person: int,
    status: DiseaseStatus,
    draw: InfectionDraw,
)
    requires
        s.wf(),
    ensures
        s.after_set_status(person, status, draw).deaths == s.deaths + Seq::new(
            if s.permits(person, status) && s.after_set_status(
                person,
                status,
                draw,
            ).statuses[person] == DiseaseStatus::D {
                times_registered(s.order, Observer::DeathReport)
            } else {
                0
            },
            |i: int| Death { time: s.now },
        ),
        dead(s.after_set_status(person, status, draw).statuses) == dead(s.statuses) + (if s.permits(
            person,
            status,
        ) && s.after_set_status(person, status, draw).statuses[person] == DiseaseStatus::D {
            1nat
        } else {
            0nat
        }),
{
    if s.permits(person, status) {
        let stored = s.with_status(person, status);
        let t = s.after_set_status(person, status, draw);
        lemma_notification_frame(stored, stored.order, person, status, draw);
        lemma_set_status_effect(s, person, status, draw);
        lemma_set_status_keeps_population(s, person, status, draw);
        lemma_dead_update(s.statuses, person, t.statuses[person]);
        assert(t.statuses =~= s.statuses.update(person, t.statuses[person]));
    } else {
        assert(s.deaths + Seq::new(0, |i: int| Death { time: s.now }) =~= s.deaths);
    }
}

/// The death report holds one record for each dead person.
pub open spec fn deaths_accounted(s: EngineState) -> bool {
    s.deaths.len() == dead(s.statuses)
}

/// With the death report registered once, running a plan keeps one death
/// record for each dead person.
pub proof fn lemma_step_deaths(s: EngineState, draw: InfectionDraw)
    requires
        s.wf(),
        times_registered(s.order, Observer::DeathReport) == 1,
        deaths_accounted(s),
    ensures
        deaths_accounted(s.after_step(draw)),
{
    if s.plans.len() > 0 {
        lemma_advanced_wf(s);
        lemma_set_status_deaths(s.advanced(), s.plans[0].person as int, s.plans[0].status, draw);
    }
}

/// A plan whose transition its person can no longer take runs as a no-op:
/// it leaves the queue and the clock moves to it, and nothing else changes.
/// So a recovery planned for a person who died meanwhile leaves the person
/// dead, notifies nobody and adds no record to any report.
pub proof fn lemma_stale_plan_is_no_op(s: EngineState, draw: InfectionDraw)
    requires
        s.plans.len() > 0,
        !s.advanced().permits(s.plans[0].person as int, s.plans[0].status),
    ensures
        s.after_step(draw) == s.advanced(),
        s.after_step(draw).statuses == s.statuses,
        s.after_step(draw).infections == s.infections,
        s.after_step(draw).deaths == s.deaths,
        s.after_step(draw).plans == s.plans.drop_first(),
{
}

/// Running a recovery changes no report and plans nothing: at most the
/// person recovers, so the counts of the ever infected and of the dead stay.
pub proof fn lemma_recovery_step(s: EngineState, draw: InfectionDraw)
    requires
        s.wf(),
        s.plans.len() > 0,
        s.plans[0].status == DiseaseStatus::R,
    ensures
        s.after_step(draw).infections == s.infections,
        s.after_step(draw).deaths == s.deaths,
        s.after_step(draw).plans == s.plans.drop_first(),
        ever_infected(s.after_step(draw).statuses) == ever_infected(s.statuses),
        dead(s.after_step(draw).statuses) == dead(s.statuses),
{
    lemma_advanced_wf(s);
    let a = s.advanced();
    let person = s.plans[0].person as int;
    lemma_set_status_effect(a, person, DiseaseStatus::R, draw);
    lemma_set_status_counts(a, person, DiseaseStatus::R, draw);
    lemma_set_status_deaths(a, person, DiseaseStatus::R, draw);
    if a.permits(person, DiseaseStatus::R) {
        lemma_notification_frame(
            a.with_status(person, DiseaseStatus::R),
            a.order,
            person,
            DiseaseStatus::R,
            draw,
        );
    }
}

/// No pending plan is an infection.
pub open spec fn no_infection_pending(s: EngineState) -> bool {
    forall|i: int| 0 <= i < s.plans.len() ==> (#[trigger] s.plans[i]).status != DiseaseStatus::I
}

/// Where no infection is pending, running a plan leaves none pending and
/// reports no infection.
pub proof fn lemma_step_without_infections(s: EngineState, draw: InfectionDraw)
    requires
        s.wf(),
        no_infection_pending(s),
    ensures
        no_infection_pending(s.after_step(draw)),
        s.after_step(draw).infections == s.infections,
{
    if s.plans.len() > 0 {
        lemma_advanced_wf(s);
        let a = s.advanced();
        let first = s.plans[0];
        assert forall|i: int| 0 <= i < a.plans.len() implies (#[trigger] a.plans[i]).status
            != DiseaseStatus::I by {
            assert(a.plans[i] == s.plans[i + 1]);
        }
        lemma_set_status_effect(a, first.person as int, first.status, draw);
    }
}

/// With the death report registered once, seeding at an instant at which the
/// death report holds one record of that instant for each dead person leaves
/// it so.
pub proof fn lemma_seeding_deaths(s: EngineState, ids: Seq<usize>, draws: Seq<InfectionDraw>)
    requires
        s.wf(),
        seeding_error(s, ids, draws).is_none(),
        times_registered(s.order, Observer::DeathReport) == 1,
        s.deaths == Seq::new(dead(s.statuses), |i: int| Death { time: s.now }),
    ensures
        seeded(s, ids, draws).deaths == Seq::new(
            dead(seeded(s, ids, draws).statuses),
            |i: int| Death { time: s.now },
        ),
    decreases ids.len(),
{
    if ids.len() > 0 {
        let head = ids.drop_last();
        let dhead = draws.drop_last();
        assert(seeding_error(s, head, dhead).is_none());
        lemma_seeding_deaths(s, head, dhead);
        lemma_seeded_frame(s, head, dhead);
        let before = seeded(s, head, dhead);
        lemma_set_status_deaths(before, ids.last() as int, DiseaseStatus::I, draws.last());
        assert(seeded(s, ids, draws).deaths =~= Seq::new(
            dead(seeded(s, ids, draws).statuses),
            |i: int| Death { time: s.now },
        ));
    }
}

} // verus!

//! The time-ordered queue of pending plans.

use vstd::prelude::*;
use crate::person_properties::DiseaseStatus;

verus! {

/// A pending mutation: at `time`, move `person` to `status` if that is a
/// transition the person can take at that moment.
#[derive(Clone, Copy, Debug, PartialEq, Eq, Structural)]
pub struct Plan {
    pub time: u64,
    pub person: usize,
    pub status: DiseaseStatus,
}

/// Plans come in non-decreasing order of time.
pub open spec fn ordered(plans: Seq<Plan>) -> bool {
    forall|i: int, j: int| 0 <= i <= j < plans.len() ==> plans[i].time <= plans[j].time
}

/// The first index at or after `from` whose plan is strictly later than `time`.
pub open spec fn slot_from(plans: Seq<Plan>, time: u64, from: int) -> int
    decreases plans.len() - from,
{
    if 0 <= from < plans.len() && plans[from].time <= time {
        slot_from(plans, time, from + 1)
    } else {
        from
    }
}

/// Where a plan for `time` goes: behind every plan that is not later, so that
/// plans for one instant run in the order in which they were scheduled.
pub open spec fn slot(plans: Seq<Plan>, time: u64) -> int {
    slot_from(plans, time, 0)
}

/// The queue after `plan` has been scheduled.
pub open spec fn enqueue(plans: Seq<Plan>, plan: Plan) -> Seq<Plan> {
    plans.insert(slot(plans, plan.time), plan)
}

/// What `slot_from` returns lies between `from` and the end; the plans it
/// skipped are not later than `time`, and the plan it stops at is.
pub proof fn lemma_slot_from(plans: Seq<Plan>, time: u64, from: int)
    requires
        0 <= from <= plans.len(),
    ensures
        from <= slot_from(plans, time, from) <= plans.len(),
        forall|i: int| from <= i < slot_from(plans, time, from) ==> plans[i].time <= time,
        slot_from(plans, time, from) < plans.len() ==> plans[slot_from(plans, time, from)].time
            > time,
    decreases plans.len() - from,
{
    if from < plans.len() && plans[from].time <= time {
        lemma_slot_from(plans, time, from + 1);
    }
}

/// In an ordered queue the slot parts the plans: none before it is later than
/// `time`, and every plan from it on is.
pub proof fn lemma_slot_parts(plans: Seq<Plan>, time: u64)
    requires
        ordered(plans),
    ensures
        0 <= slot(plans, time) <= plans.len(),
        forall|i: int| 0 <= i < slot(plans, time) ==> plans[i].time <= time,
        forall|i: int| slot(plans, time) <= i < plans.len() ==> plans[i].time > time,
{
    lemma_slot_from(plans, time, 0);
}

/// Scheduling keeps the queue ordered, adds exactly the new plan and leaves
/// the plans that were there in their order.
pub proof fn lemma_enqueue_ordered(plans: Seq<Plan>, plan: Plan)
    requires
        ordered(plans),
    ensures
        ordered(enqueue(plans, plan)),
        enqueue(plans, plan).len() == plans.len() + 1,
        enqueue(plans, plan)[slot(plans, plan.time)] == plan,
        forall|i: int| 0 <= i < slot(plans, plan.time) ==> enqueue(plans, plan)[i] == plans[i],
        forall|i: int|
            slot(plans, plan.time) <= i < plans.len() ==> enqueue(plans, plan)[i + 1] == plans[i],
{
    lemma_slot_parts(plans, plan.time);
}

/// A plan for an instant that the queue already holds plans for runs after
/// all of them: ties are broken first in, first out.
pub proof fn lemma_ties_run_in_scheduling_order(plans: Seq<Plan>, plan: Plan, i: int)
    requires
        ordered(plans),
        0 <= i < plans.len(),
        plans[i].time == plan.time,
    ensures
        i < slot(plans, plan.time),
        enqueue(plans, plan)[i] == plans[i],
{
    lemma_slot_parts(plans, plan.time);
}

/// A queue of plans kept in execution order.
pub struct PlanQueue {
    plans: Vec<Plan>,
}

impl View for PlanQueue {
    type V = Seq<Plan>;

    closed spec fn view(&self) -> Seq<Plan> {
        self.plans@
    }
}

impl PlanQueue {
    /// The queue holds its plans in non-decreasing order of time.
    pub open spec fn wf(&self) -> bool {
        ordered(self@)
    }

    /// An empty queue.
    pub fn new() -> (queue: PlanQueue)
        ensures
            queue@ == Seq::<Plan>::empty(),
            queue.wf(),
    {
        PlanQueue { plans: Vec::new() }
    }

    /// The number of pending plans.
    pub fn len(&self) -> (n: usize)
        ensures
            n == self@.len(),
    {
        self.plans.len()
    }

    /// Whether no plan is pending.
    pub fn is_empty(&self) -> (empty: bool)
        ensures
            empty == (self@.len() == 0),
    {
        self.plans.len() == 0
    }

    /// The plan that runs next, if any.
    pub fn peek(&self) -> (next: Option<Plan>)
        ensures
            next == (if self@.len() == 0 {
                None
            } else {
                Some(self@[0])
            }),
    {
        if self.plans.len() == 0 {
            None
        } else {
            Some(self.plans[0])
        }
    }

    /// Schedules `plan` behind every pending plan that is not later.
    pub fn push(&mut self, plan: Plan)
        requires
            old(self).wf(),
        ensures
            final(self)@ == enqueue(old(self)@, plan),
            final(self).wf(),
    {
        let mut k: usize = 0;
        while k < self.plans.len() && self.plans[k].time <= plan.time
            invariant
                0 <= k <= self.plans.len(),
                self.plans@ == old(self).plans@,
                slot_from(self.plans@, plan.time, k as int) == slot(self.plans@, plan.time),
            decreases self.plans.len() - k,
        {
            k = k + 1;
        }
        proof {
            lemma_enqueue_ordered(self.plans@, plan);
        }
        self.plans.insert(k, plan);
    }

    /// Takes out the plan that runs next; `None` when the queue is empty.
    pub fn pop(&mut self) -> (next: Option<Plan>)
        requires
            old(self).wf(),
        ensures
            old(self)@.len() == 0 ==> next.is_none() && final(self)@ == old(self)@,
            old(self)@.len() > 0 ==> next == Some(old(self)@[0]) && final(self)@ == old(self)@.drop_first(),
            final(self).wf(),
            next matches Some(p) ==> forall|i: int|
                0 <= i < final(self)@.len() ==> p.time <= (#[trigger] final(self)@[i]).time,
    {
        if self.plans.len() == 0 {
            None
        } else {
            let plan = self.plans.remove(0);
            assert(self.plans@ =~= old(self).plans@.drop_first());
            Some(plan)
        }
    }
}

} // verus!

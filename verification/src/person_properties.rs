//! The disease status of a person and the transitions it may take.

use vstd::prelude::*;

verus! {

/// Disease status of one person: susceptible, infected, recovered or dead.
#[derive(Clone, Copy, Debug, PartialEq, Eq, Structural)]
pub enum DiseaseStatus {
    S,
    I,
    R,
    D,
}

impl DiseaseStatus {
    /// The single transitions that exist: S to I, I to R and I to D.
    pub open spec fn may_become(self, next: DiseaseStatus) -> bool {
        ||| (self == DiseaseStatus::S && next == DiseaseStatus::I)
        ||| (self == DiseaseStatus::I && next == DiseaseStatus::R)
        ||| (self == DiseaseStatus::I && next == DiseaseStatus::D)
    }

    /// `later` is reached from `self` by zero or more single transitions.
    pub open spec fn leads_to(self, later: DiseaseStatus) -> bool {
        ||| self == later
        ||| self.may_become(later)
        ||| (self == DiseaseStatus::S && DiseaseStatus::I.may_become(later))
    }

    /// How many transitions a person in this status can still take.
    pub open spec fn rank(self) -> nat {
        match self {
            DiseaseStatus::S => 2,
            DiseaseStatus::I => 1,
            DiseaseStatus::R => 0,
            DiseaseStatus::D => 0,
        }
    }

    /// Whether a person in this status may move to `next` in one transition.
    pub fn can_become(self, next: DiseaseStatus) -> (allowed: bool)
        ensures
            allowed == self.may_become(next),
    {
        match self {
            DiseaseStatus::S => next == DiseaseStatus::I,
            DiseaseStatus::I => next == DiseaseStatus::R || next == DiseaseStatus::D,
            DiseaseStatus::R => false,
            DiseaseStatus::D => false,
        }
    }

    /// Whether the status is final: recovered or dead.
    pub fn is_terminal(self) -> (terminal: bool)
        ensures
            terminal == (self.rank() == 0),
            terminal == (forall|next: DiseaseStatus| !self.may_become(next)),
    {
        proof {
            if self == DiseaseStatus::S {
                assert(self.may_become(DiseaseStatus::I));
            }
            if self == DiseaseStatus::I {
                assert(self.may_become(DiseaseStatus::R));
            }
        }
        self == DiseaseStatus::R || self == DiseaseStatus::D
    }
}

/// Every single transition lowers the rank, so no person changes status more
/// than twice and none ever returns to an earlier status.
pub proof fn lemma_transition_lowers_rank(from: DiseaseStatus, to: DiseaseStatus)
    requires
        from.may_become(to),
    ensures
        to.rank() < from.rank(),
        !to.may_become(from),
        to != DiseaseStatus::S,
{
}

/// Reachability is transitive: chains of transitions never leave the order
/// S, I, then R or D.
pub proof fn lemma_leads_to_transitive(a: DiseaseStatus, b: DiseaseStatus, c: DiseaseStatus)
    requires
        a.leads_to(b),
        b.leads_to(c),
    ensures
        a.leads_to(c),
{
}

} // verus!

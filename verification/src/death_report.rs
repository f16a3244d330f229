//! The report of deaths.

use vstd::prelude::*;
use crate::engine::{Engine, EngineState, Observer};
use crate::person_properties::DiseaseStatus;

verus! {

/// The component that reports each death.
pub struct DeathReport {}

/// One reported death.
#[derive(Clone, Copy, Debug, PartialEq, Eq, Structural)]
pub struct Death {
    pub time: u64,
}

/// What the report does on the news that a person has `status`: a death is
/// recorded at the current time, anything else is not.
pub open spec fn reported(s: EngineState, status: DiseaseStatus) -> EngineState {
    if status == DiseaseStatus::D {
        s.released_death()
    } else {
        s
    }
}

/// Reacts to the news that a person now has `status`: records a death at
/// the current time if that status is dead.
pub fn handle_person_death(
    context: &mut Engine,
    _person_id: usize,
    status: DiseaseStatus,
)
    requires
        old(context).wf(),
    ensures
        final(context).wf(),
        final(context)@ == reported(old(context)@, status),
{
    if status == DiseaseStatus::D {
        context.release_death();
    }
}

impl DeathReport {
    /// Registers the report as an observer of status changes, behind the
    /// observers that are registered.
    pub fn init(context: &mut Engine)
        requires
            old(context).wf(),
        ensures
            final(context).wf(),
            final(context)@ == old(context)@.observing(Observer::DeathReport),
    {
        context.observe(Observer::DeathReport);
    }
}

} // verus!

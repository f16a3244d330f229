//! The report of infections.

use vstd::prelude::*;
use crate::engine::{Engine, EngineState, Observer};
use crate::person_properties::DiseaseStatus;

verus! {

/// The component that reports each infection.
pub struct IncidenceReport {}

/// One reported infection.
#[derive(Clone, Copy, Debug, PartialEq, Eq, Structural)]
pub struct Infection {
    pub time: u64,
}

/// What the report does on the news that a person has `status`: an infection is
/// recorded at the current time, anything else is not.
pub open spec fn reported(s: EngineState, status: DiseaseStatus) -> EngineState {
    if status == DiseaseStatus::I {
        s.released_infection()
    } else {
        s
    }
}

/// Reacts to the news that a person now has `status`: records an infection
/// at the current time if that status is infected.
pub fn handle_person_disease_status_change(
    context: &mut Engine,
    _person_id: usize,
    status: DiseaseStatus,
)
    requires
        old(context).wf(),
    ensures
        final(context).wf(),
        final(context)@ == reported(old(context)@, status),
{
    if status == DiseaseStatus::I {
        context.release_infection();
    }
}

impl IncidenceReport {
    /// Registers the report as an observer of status changes, behind the
    /// observers that are registered.
    pub fn init(context: &mut Engine)
        requires
            old(context).wf(),
        ensures
            final(context).wf(),
            final(context)@ == old(context)@.observing(Observer::IncidenceReport),
    {
        context.observe(Observer::IncidenceReport);
    }
}

} // verus!

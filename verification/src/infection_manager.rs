//! The component that plans the recovery of each infected person.

use vstd::prelude::*;
use crate::engine::{Engine, EngineError, EngineState, Observer};
use crate::person_properties::DiseaseStatus;
use crate::random::hash64;

verus! {

/// The component that plans recoveries.
pub struct InfectionManager {}

/// The name of the random stream that samples the infectious periods.
pub struct InfectionRandomId {}

impl InfectionRandomId {
    /// The offset of the recovery stream: the hash of the stream's name.
    pub fn seed_offset() -> u64 {
        hash64("InfectionRandomId")
    }
}

/// What the manager does on the news that `person` has `status`: for an infection the
/// recovery is planned at `recovery_time`, anything else is left alone.
pub open spec fn handled(
    s: EngineState,
    person: int,
    status: DiseaseStatus,
    recovery_time: u64,
) -> EngineState {
    if status == DiseaseStatus::I {
        s.recovery_scheduled(person, recovery_time)
    } else {
        s
    }
}

/// Reacts to the news that `person_id` now has `status`: for an infection,
/// plans the recovery at `recovery_time`, the current time plus the sampled
/// infectious period. Fails with `InvalidTime`, changing nothing, if that
/// instant is before the current time.
pub fn handle_person_disease_status_change(
    context: &mut Engine,
    person_id: usize,
    status: DiseaseStatus,
    recovery_time: u64,
) -> (done: Result<(), EngineError>)
    requires
        old(context).wf(),
        person_id < old(context)@.statuses.len(),
    ensures
        final(context).wf(),
        status == DiseaseStatus::I && recovery_time < old(context)@.now ==> done == Err::<
            (),
            EngineError,
        >(EngineError::InvalidTime) && final(context)@ == old(context)@,
        !(status == DiseaseStatus::I && recovery_time < old(context)@.now) ==> done.is_ok()
            && final(context)@ == handled(old(context)@, person_id as int, status, recovery_time),
{
    if status == DiseaseStatus::I {
        schedule_recovery(context, person_id, recovery_time)
    } else {
        Ok(())
    }
}

/// Plans the recovery of `person_id` at `recovery_time`. Fails with
/// `InvalidTime`, changing nothing, if that instant is before the current
/// time.
pub fn schedule_recovery(context: &mut Engine, person_id: usize, recovery_time: u64) -> (done:
    Result<(), EngineError>)
    requires
        old(context).wf(),
        person_id < old(context)@.statuses.len(),
    ensures
        final(context).wf(),
        recovery_time < old(context)@.now ==> done == Err::<(), EngineError>(
            EngineError::InvalidTime,
        ) && final(context)@ == old(context)@,
        recovery_time >= old(context)@.now ==> done.is_ok() && final(context)@ == old(context)@.recovery_scheduled(person_id as int, recovery_time),
{
    context.schedule(recovery_time, person_id, DiseaseStatus::R)
}

impl InfectionManager {
    /// Registers the manager as an observer of status changes, behind the
    /// observers that are registered.
    pub fn init(context: &mut Engine)
        requires
            old(context).wf(),
        ensures
            final(context).wf(),
            final(context)@ == old(context)@.observing(Observer::InfectionManager),
    {
        context.observe(Observer::InfectionManager);
    }
}

} // verus!

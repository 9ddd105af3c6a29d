//! Accepting a start-pipeline request in the logic context.

use vstd::prelude::*;

use crate::compute_sequence::ComputeSequence;
use crate::StartComputeEvent;

verus! {

/// Installs the requested pipeline when none is active. Requesting a start
/// while a pipeline is already active is a caller error: the request is
/// rejected and the active pipeline is left exactly as it was — never
/// queued, merged or replaced.
pub fn compute_main_setup(active: &mut Option<ComputeSequence>, event: StartComputeEvent) -> (ok:
    bool)
    ensures
        ok == (*old(active) is None),
        ok ==> (*final(active) matches Some(s) && s.tasks == event.tasks && s.iteration_buffer
            == event.iteration_buffer),
        !ok ==> *final(active) == *old(active),
{
    if active.is_some() {
        return false;
    }
    *active = Some(
        ComputeSequence { tasks: event.tasks, iteration_buffer: event.iteration_buffer },
    );
    true
}

} // verus!

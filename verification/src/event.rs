//! Decisions of cross-process event notification.
use vstd::prelude::*;
use crate::error::PlatformError;

verus! {

/// The outcome of a non-blocking wait, from the outcome of the read it made:
/// a notification was consumed (`true`), none was pending (`false`, when the
/// read failed because it would have blocked), or the failure, reported with
/// `failure_reason` when the read failed for another reason.
pub fn try_wait_result(waited: Result<(), PlatformError>, would_block: bool, failure_reason: String) -> (r:
    Result<bool, PlatformError>)
    ensures
        waited is Ok ==> r == Ok::<bool, PlatformError>(true),
        (waited is Err && waited->Err_0 is Event && would_block) ==> r == Ok::<bool, PlatformError>(
            false,
        ),
        (waited is Err && waited->Err_0 is Event && !would_block) ==> r == Err::<bool, PlatformError>(
            PlatformError::Event { reason: failure_reason },
        ),
        (waited is Err && !(waited->Err_0 is Event)) ==> r == Err::<bool, PlatformError>(
            waited->Err_0,
        ),
{
    match waited {
        Ok(()) => Ok(true),
        Err(PlatformError::Event { .. }) => {
            if would_block {
                Ok(false)
            } else {
                Err(PlatformError::Event { reason: failure_reason })
            }
        },
        Err(e) => Err(e),
    }
}

} // verus!

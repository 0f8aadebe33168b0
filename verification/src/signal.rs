//! What a shutdown signal records.
use vstd::prelude::*;

verus! {

/// The flags a received signal `sig` sets: (shutdown requested, terminate
/// received, interrupt received). Every handled signal requests shutdown;
/// `sigterm` and `sigint` are the platform's numbers of those two signals.
pub fn signal_flags(sig: i32, sigterm: i32, sigint: i32) -> (r: (bool, bool, bool))
    ensures
        r == (true, sig == sigterm, sig == sigint),
{
    (true, sig == sigterm, sig == sigint)
}

} // verus!

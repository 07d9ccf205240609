//! Wall-clock readings. The current time depends on the machine, so nothing
//! is promised about the values returned.

use vstd::prelude::*;

verus! {

/// Relies on std::time::SystemTime::now and duration_since: the current time
/// in whole seconds since the Unix epoch, or `None` when the clock reads
/// before the epoch. `duration_since` reports the backwards case as an `Err`,
/// so no clock setting makes this call panic.
#[verifier::external_body]
pub(crate) fn now_unix_secs() -> (r: Option<u64>) {
    std::time::SystemTime::now().duration_since(std::time::UNIX_EPOCH).ok().map(|d| d.as_secs())
}

} // verus!

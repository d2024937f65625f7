//! The wall clock.
use vstd::prelude::*;

verus! {

/// `SystemTime::now()` as whole seconds since the Unix epoch, 0 when the
/// clock reads before the epoch. Nothing is promised of the value: it is
/// whatever the system clock says.
#[verifier::external_body]
fn wall_clock_secs() -> u64 {
    std::time::SystemTime::now().duration_since(std::time::UNIX_EPOCH).map(|d| d.as_secs()).unwrap_or(0)
}

/// Seconds since the Unix epoch (the lease and delivery-log clock).
pub fn now_epoch() -> u64 {
    wall_clock_secs()
}

} // verus!

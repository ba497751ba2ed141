//! The device's clock.
use vstd::prelude::*;

verus! {

/// Clock ticks in a second.
pub const TICKS_PER_SEC: u64 = 1_000_000;

/// Whole seconds since the device started: `Instant::now` of `embassy_time`,
/// and `as_secs` of what it returns. Nothing is claimed of the result.
#[verifier::external_body]
pub(crate) fn now_secs() -> (r: u64) {
    embassy_time::Instant::now().as_secs()
}

} // verus!

//! A monotonic clock read as whole milliseconds since it was started, so the
//! deadline logic elsewhere works on plain integers.

use vstd::prelude::*;

verus! {

#[verifier::external_type_specification]
#[verifier::external_body]
pub struct ExInstant(std::time::Instant);

/// `std::time::Instant::now`: the current reading of the monotonic clock.
#[verifier::external_body]
fn instant_now() -> (now: std::time::Instant) {
    std::time::Instant::now()
}

/// `std::time::Instant::elapsed`: the time since `origin`. It depends on
/// the time of the call, so nothing is stated of it.
#[verifier::external_body]
fn elapsed_since(origin: &std::time::Instant) -> (elapsed: std::time::Duration) {
    origin.elapsed()
}

/// `std::time::Duration::as_millis`: the whole milliseconds in `duration`.
/// `Duration` is opaque here, so nothing is stated of the count.
#[verifier::external_body]
fn whole_millis(duration: &std::time::Duration) -> (millis: u128) {
    duration.as_millis()
}

/// A started monotonic clock.
pub struct Clock {
    origin: std::time::Instant,
}

impl Clock {
    /// Starts a clock at the current instant.
    pub fn start() -> (clock: Clock) {
        Clock { origin: instant_now() }
    }

    /// Milliseconds since the clock was started, held at `u64::MAX` (some
    /// half a billion years): `millis_from_elapsed` of the reading, which
    /// depends on the time of the call and so is not stated.
    pub fn now_ms(&self) -> (millis: u64) {
        millis_from_elapsed(whole_millis(&elapsed_since(&self.origin)))
    }
}

/// An elapsed time in whole milliseconds, held at `u64::MAX`.
pub open spec fn held_millis(elapsed: u128) -> u64 {
    if elapsed > u64::MAX as u128 {
        u64::MAX
    } else {
        elapsed as u64
    }
}

/// The clock reading for an elapsed time of `elapsed` milliseconds.
pub fn millis_from_elapsed(elapsed: u128) -> (millis: u64)
    ensures
        millis == held_millis(elapsed),
{
    if elapsed > u64::MAX as u128 {
        u64::MAX
    } else {
        elapsed as u64
    }
}

} // verus!

//! Monotonic time, as the lock screen's timers read it.

use std::time::Instant;
use vstd::prelude::*;

verus! {

#[verifier::external_type_specification]
#[verifier::external_body]
pub struct ExInstant(Instant);

/// `std::time::Instant::now`: the current instant. Nothing is promised of
/// the value, which depends on the clock.
#[verifier::external_body]
pub(crate) fn instant_now() -> Instant {
    Instant::now()
}

/// `std::time::Instant::elapsed`, read in whole milliseconds
/// (`Duration::as_millis`). Nothing is promised of the value, which depends
/// on the clock.
#[verifier::external_body]
pub(crate) fn millis_since(start: &Instant) -> u128 {
    start.elapsed().as_millis()
}

/// `std::time::Instant::elapsed`, read in whole nanoseconds
/// (`Duration::as_nanos`). Nothing is promised of the value, which depends
/// on the clock.
#[verifier::external_body]
pub(crate) fn nanos_since(start: &Instant) -> u128 {
    start.elapsed().as_nanos()
}

/// Whether a timer that started `elapsed_ms` milliseconds ago is still
/// inside a window of `window_ms` milliseconds. A duration `d` satisfies
/// `d < window_ms ms` exactly when its whole-millisecond part does.
pub fn within_window(elapsed_ms: u128, window_ms: u64) -> (inside: bool)
    ensures
        inside == (elapsed_ms < window_ms),
{
    elapsed_ms < window_ms as u128
}

} // verus!

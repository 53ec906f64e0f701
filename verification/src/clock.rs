//! The engine's only contact with the wall clock: an opaque creation
//! timestamp and the milliseconds elapsed since it. Nothing is promised of
//! the values; every contract downstream holds for every possible reading.

use vstd::prelude::*;

verus! {

#[verifier::external_type_specification]
#[verifier::external_body]
pub struct ExInstant(std::time::Instant);

/// Relies on `std::time::Instant::now`: an opaque reading of the monotonic
/// clock. No contract: the reading depends on when the call happens.
#[verifier::external_body]
pub fn instant_now() -> std::time::Instant {
    std::time::Instant::now()
}

/// Relies on `std::time::Instant::elapsed`: the time since `t`. No contract:
/// the result depends on when the call happens.
#[verifier::external_body]
pub fn instant_elapsed(t: &std::time::Instant) -> std::time::Duration {
    t.elapsed()
}

/// Relies on `std::time::Duration::as_millis`: the duration in whole
/// milliseconds. No promise about the value is needed downstream.
#[verifier::external_body]
pub fn duration_as_millis(d: &std::time::Duration) -> u128 {
    d.as_millis()
}

} // verus!

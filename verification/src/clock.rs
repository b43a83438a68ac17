//! The wall clock, as the time-dependent entities consume it: an opaque
//! monotonic timestamp and the whole seconds elapsed since it was taken.

use vstd::prelude::*;

verus! {

#[verifier::external_type_specification]
#[verifier::external_body]
pub struct ExInstant(std::time::Instant);

/// Relies on std::time::Instant::now: an opaque reading of the monotonic
/// clock.
#[verifier::external_body]
pub fn instant_now() -> (r: std::time::Instant) {
    std::time::Instant::now()
}

/// Relies on std::time::Instant::elapsed: the whole seconds since `start`
/// was taken. The value depends on the clock, so nothing is promised of it;
/// the callers state what holds for every value.
#[verifier::external_body]
pub fn elapsed_secs(start: &std::time::Instant) -> (r: u64) {
    start.elapsed().as_secs()
}

} // verus!

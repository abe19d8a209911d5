//! The monotonic clock, read through the standard library.

use vstd::prelude::*;

verus! {

#[verifier::external_type_specification]
#[verifier::external_body]
pub struct ExInstant(std::time::Instant);

/// Reads the monotonic clock (a call of `Instant::now`). Nothing is stated of the instant returned.
#[verifier::external_body]
pub(crate) fn monotonic_now() -> std::time::Instant {
    std::time::Instant::now()
}

/// Nanoseconds elapsed since `start` on the monotonic clock (a call of `Instant::elapsed`, taken as
/// whole nanoseconds and truncated to 64 bits). The value depends on the time of the call, so
/// nothing is stated of it.
#[verifier::external_body]
pub(crate) fn elapsed_nanos(start: &std::time::Instant) -> u64 {
    start.elapsed().as_nanos() as u64
}

} // verus!

//! Trusted access to the process's monotonic clock. Nothing is assumed of
//! the values the clock yields: every contract that involves time states
//! only what holds of every possible reading.
use vstd::prelude::*;

verus! {

#[verifier::external_type_specification]
#[verifier::external_body]
pub struct ExInstant(std::time::Instant);

/// Relies on std::time::Instant::now: an opaque timestamp of the monotonic
/// clock. Nothing is assumed of its value.
#[verifier::external_body]
pub(crate) fn instant_now() -> std::time::Instant {
    std::time::Instant::now()
}

/// Relies on std::time::Instant::elapsed: the time since `earlier`, here
/// converted to whole nanoseconds, saturated to `u64`. Nothing is assumed of
/// the value.
#[verifier::external_body]
pub(crate) fn nanos_since(earlier: &std::time::Instant) -> u64 {
    u64::try_from(earlier.elapsed().as_nanos()).unwrap_or(u64::MAX)
}

} // verus!

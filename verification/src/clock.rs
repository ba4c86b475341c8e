//! Monotonic time, measured in nanoseconds from a fixed starting instant.

use vstd::prelude::*;

verus! {

#[verifier::external_type_specification]
#[verifier::external_body]
pub struct ExInstant(std::time::Instant);

/// Reads the monotonic clock (`std::time::Instant::now`). Nothing is promised
/// of the instant returned: it depends on when the call is made.
#[verifier::external_body]
pub(crate) fn instant_now() -> (t: std::time::Instant) {
    std::time::Instant::now()
}

/// The time elapsed since `origin` (`std::time::Instant::elapsed`; zero
/// where the clock reads earlier than `origin`). Nothing is promised of the
/// duration: it depends on when the call is made.
#[verifier::external_body]
pub(crate) fn elapsed_since(origin: &std::time::Instant) -> (d: std::time::Duration) {
    origin.elapsed()
}

/// The whole number of nanoseconds in `d` (`std::time::Duration::as_nanos`).
/// What number comes back is not stated: a duration is opaque here.
#[verifier::external_body]
pub(crate) fn duration_nanos(d: &std::time::Duration) -> (n: u128) {
    d.as_nanos()
}

} // verus!

//! Trusted interface to the monotonic clock that bounds the wall-clock
//! budget of the Monte-Carlo search. Nothing provable depends on time:
//! the search is capped by its iteration count whatever the clock says.

use vstd::prelude::*;

verus! {

#[verifier::external_type_specification]
#[verifier::external_body]
pub struct ExInstant(std::time::Instant);

/// Relies on `Instant::now`: a point of the monotonic clock.
#[verifier::external_body]
pub(crate) fn instant_now() -> (r: std::time::Instant) {
    std::time::Instant::now()
}

/// Relies on `Instant::elapsed`: the time passed since that point.
#[verifier::external_body]
pub(crate) fn instant_elapsed(start: &std::time::Instant) -> (r: std::time::Duration) {
    start.elapsed()
}

/// Relies on `Duration::from_millis`: the duration of that many
/// milliseconds.
#[verifier::external_body]
pub(crate) fn duration_from_millis(ms: u64) -> (r: std::time::Duration) {
    std::time::Duration::from_millis(ms)
}

/// Relies on `Duration`'s derived ordering: whether `a` is at least `b`.
#[verifier::external_body]
pub(crate) fn duration_at_least(a: &std::time::Duration, b: &std::time::Duration) -> (r: bool) {
    *a >= *b
}

} // verus!

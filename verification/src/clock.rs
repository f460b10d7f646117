//! Reading the monotonic clock.
use vstd::prelude::*;
use std::time::{Duration, Instant};

verus! {

/// `std::time::Instant`, carried as it is.
#[verifier::external_type_specification]
#[verifier::external_body]
pub struct ExInstant(Instant);

/// Calls `Instant::now`. Nothing is claimed of the time it reads.
#[verifier::external_body]
pub(crate) fn now() -> Instant {
    Instant::now()
}

/// Calls `Instant::elapsed`. Nothing is claimed of the time that has passed.
#[verifier::external_body]
pub(crate) fn elapsed(since: &Instant) -> Duration {
    since.elapsed()
}

/// Calls `Duration::as_nanos`: the whole span in nanoseconds.
#[verifier::external_body]
pub(crate) fn nanos(span: &Duration) -> u128 {
    span.as_nanos()
}

/// A point in time from which spans are measured.
pub(crate) struct Stopwatch {
    origin: Instant,
}

impl Stopwatch {
    /// Starts now.
    pub(crate) fn start() -> Self {
        Stopwatch { origin: now() }
    }

    /// Nanoseconds since the start.
    pub(crate) fn read(&self) -> u128 {
        let span = elapsed(&self.origin);
        nanos(&span)
    }
}

/// Whether a wait that has lasted `waited` nanoseconds has gone beyond a
/// timeout of `limit` nanoseconds.
pub(crate) fn past_deadline(waited: u128, limit: u128) -> (past: bool)
    ensures
        past == (waited > limit),
{
    waited > limit
}

/// Whether a wait that has lasted `waited` nanoseconds is still short of a
/// timeout of `limit` nanoseconds.
pub(crate) fn before_deadline(waited: u128, limit: u128) -> (before: bool)
    ensures
        before == (waited < limit),
{
    waited < limit
}

} // verus!

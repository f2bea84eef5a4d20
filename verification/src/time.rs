//! Spans of time as whole nanoseconds, and the monotonic clock.

use vstd::prelude::*;

verus! {

/// A span of time, counted in nanoseconds.
#[derive(Clone, Copy, Debug, PartialEq, Eq, Structural)]
pub struct TimeSpan {
    pub nanos: u128,
}

impl TimeSpan {
    /// The empty span.
    pub fn zero() -> (t: TimeSpan)
        ensures
            t.nanos == 0,
    {
        TimeSpan { nanos: 0 }
    }

    pub fn from_nanos(nanos: u128) -> (t: TimeSpan)
        ensures
            t.nanos == nanos,
    {
        TimeSpan { nanos }
    }

    pub fn from_millis(millis: u64) -> (t: TimeSpan)
        ensures
            t.nanos == millis * 1_000_000,
    {
        TimeSpan { nanos: millis as u128 * 1_000_000 }
    }

    pub fn from_secs(secs: u64) -> (t: TimeSpan)
        ensures
            t.nanos == secs * 1_000_000_000,
    {
        TimeSpan { nanos: secs as u128 * 1_000_000_000 }
    }

    pub fn as_nanos(&self) -> (n: u128)
        ensures
            n == self.nanos,
    {
        self.nanos
    }

    /// Whole milliseconds in the span, rounded down.
    pub fn as_millis(&self) -> (n: u128)
        ensures
            n == self.nanos / 1_000_000,
    {
        self.nanos / 1_000_000
    }

    pub fn is_zero(&self) -> (b: bool)
        ensures
            b == (self.nanos == 0),
    {
        self.nanos == 0
    }
}

/// A reading of the monotonic clock (std's `Instant`).
#[verifier::external_type_specification]
#[verifier::external_body]
pub struct ExInstant(std::time::Instant);

/// Calls std's `Instant::now`; nothing is promised of the reading.
#[verifier::external_body]
pub(crate) fn clock_now() -> std::time::Instant {
    std::time::Instant::now()
}

/// Calls std's `Instant::elapsed` and reads the result in nanoseconds; the
/// value depends on the clock, so nothing is promised of it.
#[verifier::external_body]
pub(crate) fn nanos_since(origin: &std::time::Instant) -> u128 {
    origin.elapsed().as_nanos()
}

} // verus!

//! Lengths of time.

use vstd::prelude::*;

verus! {

/// A length of time, in nanoseconds.
#[derive(Debug, Clone, Copy, PartialEq, Eq, PartialOrd, Ord, Structural)]
pub struct Span {
    pub nanos: u128,
}

impl Span {
    pub fn from_millis(millis: u64) -> (r: Self)
        ensures
            r.nanos == millis * 1_000_000,
    {
        Span { nanos: millis as u128 * 1_000_000 }
    }

    pub fn from_secs(secs: u64) -> (r: Self)
        ensures
            r.nanos == secs * 1_000_000_000,
    {
        Span { nanos: secs as u128 * 1_000_000_000 }
    }

    /// The whole milliseconds in this length.
    pub fn as_millis(self) -> (r: u128)
        ensures
            r == self.nanos / 1_000_000,
    {
        self.nanos / 1_000_000
    }

    pub fn is_zero(self) -> (r: bool)
        ensures
            r == (self.nanos == 0),
    {
        self.nanos == 0
    }

    /// This length, brought into `low..=high`.
    pub fn clamp_to(self, low: Span, high: Span) -> (r: Self)
        requires
            low.nanos <= high.nanos,
        ensures
            r.nanos == clamped(self.nanos as int, low.nanos as int, high.nanos as int),
    {
        if self.nanos < low.nanos {
            low
        } else if self.nanos > high.nanos {
            high
        } else {
            self
        }
    }
}

/// The number of `low..=high` that is nearest to `value`.
pub open spec fn clamped(value: int, low: int, high: int) -> int {
    if value < low {
        low
    } else if value > high {
        high
    } else {
        value
    }
}

} // verus!

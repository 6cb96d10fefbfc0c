//! Spans of time.

use vstd::prelude::*;

verus! {

/// A span of time.
#[derive(Debug, Clone, Copy, PartialEq, Eq, Structural)]
pub struct Duration {
    /// How many nanoseconds there are in this span.
    pub nanos: u128,
}

impl Duration {
    /// The span of so many seconds.
    pub open spec fn spec_from_secs(secs: u64) -> Self {
        Duration { nanos: (secs * 1_000_000_000) as u128 }
    }

    /// Makes a span of so many seconds.
    pub fn from_secs(secs: u64) -> (r: Self)
        ensures
            r == Self::spec_from_secs(secs),
            r.nanos == secs * 1_000_000_000,
    {
        Duration { nanos: secs as u128 * 1_000_000_000 }
    }

    /// Makes a span of so many nanoseconds.
    pub fn from_nanos(nanos: u128) -> (r: Self)
        ensures
            r.nanos == nanos,
    {
        Duration { nanos }
    }

    /// The longer one of two spans.
    pub open spec fn spec_max(self, other: Self) -> Self {
        if self.nanos >= other.nanos {
            self
        } else {
            other
        }
    }

    /// Returns the longer one of two spans.
    pub fn max(self, other: Self) -> (r: Self)
        ensures
            r == self.spec_max(other),
            r.nanos >= self.nanos && r.nanos >= other.nanos,
            r == self || r == other,
    {
        if self.nanos >= other.nanos {
            self
        } else {
            other
        }
    }
}

} // verus!

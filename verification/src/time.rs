//! Lengths of time and points in time, as whole nanoseconds.

use vstd::prelude::*;

verus! {

/// A length of time.
#[derive(Clone, Copy, Debug, PartialEq, Eq, Structural)]
pub struct Duration {
    pub nanos: u128,
}

/// A point in time, counted from a fixed start of the process's clock.
#[derive(Clone, Copy, Debug, PartialEq, Eq, Structural)]
pub struct Instant {
    pub nanos: u128,
}

impl Duration {
    /// `millis` milliseconds.
    pub open spec fn of_millis(millis: nat) -> nat {
        millis * 1_000_000
    }

    /// `secs` seconds.
    pub open spec fn of_secs(secs: nat) -> nat {
        secs * 1_000_000_000
    }

    pub fn from_millis(millis: u64) -> (d: Duration)
        ensures
            d.nanos == Self::of_millis(millis as nat),
            d.nanos == millis * 1_000_000,
    {
        Duration { nanos: millis as u128 * 1_000_000 }
    }

    pub fn from_secs(secs: u64) -> (d: Duration)
        ensures
            d.nanos == Self::of_secs(secs as nat),
            d.nanos == secs * 1_000_000_000,
    {
        Duration { nanos: secs as u128 * 1_000_000_000 }
    }
}

impl Instant {
    /// The time from `earlier` to `self`, zero when `earlier` is not earlier.
    pub fn saturating_duration_since(&self, earlier: Instant) -> (d: Duration)
        ensures
            d.nanos == (if self.nanos >= earlier.nanos {
                self.nanos - earlier.nanos
            } else {
                0
            }),
    {
        if self.nanos >= earlier.nanos {
            Duration { nanos: self.nanos - earlier.nanos }
        } else {
            Duration { nanos: 0 }
        }
    }
}

} // verus!

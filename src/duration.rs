//! Spans of time with nanosecond precision.

use vstd::prelude::*;

verus! {

/// Nanoseconds in one second.
pub const NANOS_PER_SEC: u128 = 1_000_000_000;

/// The largest span of time a `Duration` can hold: `u64::MAX` whole seconds
/// plus the largest fraction of a second, counted in nanoseconds.
pub const MAX_NANOS: u128 = 18_446_744_073_709_551_615_999_999_999;

/// A span of time with nanosecond precision, limited to `u64::MAX` seconds.
#[derive(Debug, PartialEq, Eq, Structural, Copy, Clone)]
pub struct Duration {
    pub nanos: u128,
}

impl Duration {
    /// Every value that a `Duration` may hold.
    pub open spec fn wf(self) -> bool {
        self.nanos <= MAX_NANOS
    }

    /// The duration as a number of nanoseconds.
    pub open spec fn spec_nanos(self) -> nat {
        self.nanos as nat
    }

    pub fn from_nanos(nanos: u64) -> (r: Duration)
        ensures
            r.spec_nanos() == nanos,
            r.wf(),
    {
        Duration { nanos: nanos as u128 }
    }

    pub fn from_secs(secs: u64) -> (r: Duration)
        ensures
            r.spec_nanos() == secs * NANOS_PER_SEC,
            r.wf(),
    {
        assert(secs * NANOS_PER_SEC <= MAX_NANOS) by (nonlinear_arith)
            requires
                secs <= u64::MAX,
        ;
        Duration { nanos: secs as u128 * NANOS_PER_SEC }
    }

    /// Adds two durations, or gives `None` where the sum is too large to hold.
    pub fn checked_add(self, other: Duration) -> (r: Option<Duration>)
        requires
            self.wf(),
            other.wf(),
        ensures
            match r {
                Some(d) => d.wf() && d.spec_nanos() == self.spec_nanos() + other.spec_nanos(),
                None => self.spec_nanos() + other.spec_nanos() > MAX_NANOS,
            },
    {
        let sum = self.nanos + other.nanos;
        if sum <= MAX_NANOS {
            Some(Duration { nanos: sum })
        } else {
            None
        }
    }
}

} // verus!

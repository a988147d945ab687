//! Points in time and spans of time, in whole nanoseconds.

use vstd::prelude::*;

verus! {

/// A span of time.
#[derive(Copy, Clone, Debug, PartialEq, Eq, Structural)]
pub struct Duration {
    pub nanos: u128,
}

/// A reading of a monotonic clock: the time since an origin that the clock's
/// owner picks once.
#[derive(Copy, Clone, Debug, PartialEq, Eq, Structural)]
pub struct Instant {
    pub nanos: u64,
}

/// A point in time at which something falls due, on the clock of [`Instant`].
/// It may lie further ahead than the clock itself can ever read.
#[derive(Copy, Clone, Debug, PartialEq, Eq, Structural)]
pub struct Deadline {
    pub nanos: u128,
}

/// The longest span a window may have: just under 2^64 seconds.
pub const LONGEST_SPAN: u128 = 18_446_744_073_709_551_615_999_999_999;

/// How many nanoseconds passed from `earlier` to `later`; zero if `later` is
/// in fact the earlier of the two.
pub open spec fn nanos_between(earlier: Instant, later: Instant) -> nat {
    if earlier.nanos <= later.nanos {
        (later.nanos - earlier.nanos) as nat
    } else {
        0
    }
}

impl Duration {
    /// Whether the span is one that a window may have.
    pub open spec fn wf(self) -> bool {
        self.nanos <= LONGEST_SPAN
    }

    pub fn zero() -> (d: Duration)
        ensures
            d.nanos == 0,
    {
        Duration { nanos: 0 }
    }

    pub fn from_millis(millis: u64) -> (d: Duration)
        ensures
            d.nanos == millis * 1_000_000,
            d.wf(),
    {
        Duration { nanos: millis as u128 * 1_000_000 }
    }

    /// Whole milliseconds, rounded down.
    pub fn as_millis(&self) -> (millis: u128)
        ensures
            millis as int == self.nanos as int / 1_000_000,
    {
        self.nanos / 1_000_000
    }

    pub fn is_zero(&self) -> (zero: bool)
        ensures
            zero == (self.nanos == 0),
    {
        self.nanos == 0
    }
}

impl Instant {
    pub fn from_nanos(nanos: u64) -> (t: Instant)
        ensures
            t.nanos == nanos,
    {
        Instant { nanos }
    }

    /// The time passed since `earlier`; zero if `earlier` is the later one.
    pub fn duration_since(&self, earlier: Instant) -> (d: Duration)
        ensures
            d.nanos == nanos_between(earlier, *self),
    {
        if earlier.nanos <= self.nanos {
            Duration { nanos: (self.nanos - earlier.nanos) as u128 }
        } else {
            Duration { nanos: 0 }
        }
    }

    /// The point in time `span` after this one.
    pub fn deadline_after(&self, span: Duration) -> (d: Deadline)
        requires
            span.wf(),
        ensures
            d.nanos == self.nanos + span.nanos,
    {
        Deadline { nanos: self.nanos as u128 + span.nanos }
    }
}

impl Deadline {
    /// Whether the deadline has been reached at `now`.
    pub open spec fn reached(self, now: Instant) -> bool {
        self.nanos <= now.nanos
    }

    pub fn is_reached(&self, now: Instant) -> (reached: bool)
        ensures
            reached == self.reached(now),
    {
        self.nanos <= now.nanos as u128
    }

    /// The time left until the deadline; zero once it is reached.
    pub fn saturating_duration_since(&self, now: Instant) -> (left: Duration)
        ensures
            left.nanos == if self.reached(now) { 0 } else { self.nanos - now.nanos },
    {
        if self.nanos <= now.nanos as u128 {
            Duration { nanos: 0 }
        } else {
            Duration { nanos: self.nanos - now.nanos as u128 }
        }
    }
}

} // verus!

//! Spans of time and readings of a monotonic clock, in nanoseconds.

use vstd::prelude::*;

verus! {

/// The longest span: `u64::MAX` seconds and 999 999 999 nanoseconds.
pub const MAX_NANOS: u128 = 18_446_744_073_709_551_615_999_999_999;

/// A span of time.
#[derive(Clone, Copy, Debug, PartialEq, Eq, PartialOrd, Ord, Hash, Structural)]
pub struct Duration {
    pub nanos: u128,
}

/// A reading of a monotonic clock: the time since some fixed moment.
#[derive(Clone, Copy, Debug, PartialEq, Eq, PartialOrd, Ord, Hash, Structural)]
pub struct Instant {
    pub nanos: u128,
}

/// `n`, or the longest span if `n` is longer.
pub open spec fn capped(n: nat) -> nat {
    if n <= MAX_NANOS {
        n
    } else {
        MAX_NANOS as nat
    }
}

impl View for Duration {
    type V = nat;

    open spec fn view(&self) -> nat {
        self.nanos as nat
    }
}

impl View for Instant {
    type V = nat;

    open spec fn view(&self) -> nat {
        self.nanos as nat
    }
}

impl Default for Duration {
    fn default() -> (r: Duration)
        ensures
            r@ == 0,
    {
        Duration { nanos: 0 }
    }
}

impl Duration {
    pub fn from_secs(secs: u64) -> (r: Duration)
        ensures
            r@ == secs * 1_000_000_000,
    {
        Duration { nanos: secs as u128 * 1_000_000_000 }
    }

    pub fn from_millis(millis: u64) -> (r: Duration)
        ensures
            r@ == millis * 1_000_000,
    {
        Duration { nanos: millis as u128 * 1_000_000 }
    }

    pub fn from_micros(micros: u64) -> (r: Duration)
        ensures
            r@ == micros * 1_000,
    {
        Duration { nanos: micros as u128 * 1_000 }
    }

    /// Whole seconds, at most `u64::MAX` of them.
    pub fn as_secs(&self) -> (r: u64)
        ensures
            r == if self@ / 1_000_000_000 <= u64::MAX { self@ / 1_000_000_000 } else { u64::MAX as nat },
    {
        let secs: u128 = self.nanos / 1_000_000_000;
        if secs <= u64::MAX as u128 {
            secs as u64
        } else {
            u64::MAX
        }
    }

    pub fn is_zero(&self) -> (r: bool)
        ensures
            r == (self@ == 0),
    {
        self.nanos == 0
    }

    pub fn saturating_add(self, other: Duration) -> (r: Duration)
        ensures
            r@ == capped(self@ + other@),
    {
        let sum: u128 = self.nanos.saturating_add(other.nanos);
        Duration { nanos: if sum <= MAX_NANOS { sum } else { MAX_NANOS } }
    }

    pub fn saturating_sub(self, other: Duration) -> (r: Duration)
        ensures
            r@ == if self@ >= other@ { (self@ - other@) as nat } else { 0 },
    {
        Duration { nanos: self.nanos.saturating_sub(other.nanos) }
    }

    pub fn abs_diff(self, other: Duration) -> (r: Duration)
        ensures
            r@ == if self@ >= other@ { self@ - other@ } else { other@ - self@ },
    {
        if self.nanos >= other.nanos {
            Duration { nanos: self.nanos - other.nanos }
        } else {
            Duration { nanos: other.nanos - self.nanos }
        }
    }
}

impl Instant {
    /// The clock's reading `span` later.
    pub fn after(self, span: Duration) -> (r: Instant)
        ensures
            r@ == if self@ + span@ <= u128::MAX { self@ + span@ } else { u128::MAX as nat },
    {
        Instant { nanos: self.nanos.saturating_add(span.nanos) }
    }

    /// How long before this reading `earlier` was; nothing if it was later.
    pub fn saturating_duration_since(self, earlier: Instant) -> (r: Duration)
        ensures
            r@ == if self@ >= earlier@ { (self@ - earlier@) as nat } else { 0 },
    {
        Duration { nanos: self.nanos.saturating_sub(earlier.nanos) }
    }
}

} // verus!

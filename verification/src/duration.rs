//! Spans of time and monotonic clock readings, exact to the nanosecond.
//!
//! A [`Duration`] is viewed as its length in nanoseconds, an [`Instant`] as
//! its distance in nanoseconds from an origin that the caller picks once
//! (typically the moment the program started).

use vstd::prelude::*;

verus! {

/// Nanoseconds in one second.
pub const NANOS_PER_SEC: u128 = 1_000_000_000;

/// Nanoseconds in one millisecond.
pub const NANOS_PER_MILLI: u128 = 1_000_000;

/// The largest number of nanoseconds a `Duration` holds: `u64::MAX` whole
/// seconds and one nanosecond short of another.
pub const MAX_NANOS: u128 = 18_446_744_073_709_551_615_999_999_999;

/// An unsigned span of time.
#[derive(Clone, Copy, Debug, PartialEq, Eq, PartialOrd, Ord, Hash, Structural)]
pub struct Duration {
    nanos: u128,
}

impl View for Duration {
    type V = nat;

    /// The span in nanoseconds.
    closed spec fn view(&self) -> nat {
        self.nanos as nat
    }
}

impl Duration {
    #[verifier::type_invariant]
    closed spec fn within_range(self) -> bool {
        self.nanos <= MAX_NANOS
    }

    /// The empty span.
    pub fn zero() -> (d: Duration)
        ensures
            d@ == 0,
    {
        Duration { nanos: 0 }
    }

    /// The longest span.
    pub fn longest() -> (d: Duration)
        ensures
            d@ == MAX_NANOS,
    {
        Duration { nanos: MAX_NANOS }
    }

    /// The span of `secs` whole seconds and `nanos` further nanoseconds.
    pub fn new(secs: u64, nanos: u32) -> (d: Duration)
        requires
            nanos < NANOS_PER_SEC,
        ensures
            d@ == secs as nat * NANOS_PER_SEC as nat + nanos as nat,
    {
        Duration { nanos: secs as u128 * NANOS_PER_SEC + nanos as u128 }
    }

    /// The span of `secs` whole seconds.
    pub fn from_secs(secs: u64) -> (d: Duration)
        ensures
            d@ == secs as nat * NANOS_PER_SEC as nat,
    {
        Duration { nanos: secs as u128 * NANOS_PER_SEC }
    }

    /// The span of `millis` milliseconds.
    pub fn from_millis(millis: u64) -> (d: Duration)
        ensures
            d@ == millis as nat * NANOS_PER_MILLI as nat,
    {
        Duration { nanos: millis as u128 * NANOS_PER_MILLI }
    }

    /// The span of `nanos` nanoseconds, if a `Duration` can hold it.
    pub fn from_nanos(nanos: u128) -> (d: Option<Duration>)
        ensures
            nanos <= MAX_NANOS ==> d is Some && d->0@ == nanos,
            nanos > MAX_NANOS ==> d is None,
    {
        if nanos <= MAX_NANOS {
            Some(Duration { nanos })
        } else {
            None
        }
    }

    /// The whole span in nanoseconds.
    pub fn as_nanos(&self) -> (n: u128)
        ensures
            n == self@,
            n <= MAX_NANOS,
    {
        proof {
            use_type_invariant(self);
        }
        self.nanos
    }

    /// The whole span in milliseconds, rounded down.
    pub fn as_millis(&self) -> (n: u128)
        ensures
            n == self@ / NANOS_PER_MILLI as nat,
    {
        self.nanos / NANOS_PER_MILLI
    }

    /// The whole seconds of the span.
    pub fn as_secs(&self) -> (n: u64)
        ensures
            n == self@ / NANOS_PER_SEC as nat,
    {
        proof {
            use_type_invariant(self);
        }
        (self.nanos / NANOS_PER_SEC) as u64
    }

    /// What is left of the span after its whole seconds, in nanoseconds.
    pub fn subsec_nanos(&self) -> (n: u32)
        ensures
            n == self@ % NANOS_PER_SEC as nat,
    {
        (self.nanos % NANOS_PER_SEC) as u32
    }

    /// What is left of the span after its whole seconds, in whole
    /// milliseconds.
    pub fn subsec_millis(&self) -> (n: u32)
        ensures
            n == (self@ % NANOS_PER_SEC as nat) / NANOS_PER_MILLI as nat,
            n < 1000,
    {
        ((self.nanos % NANOS_PER_SEC) / NANOS_PER_MILLI) as u32
    }

    /// The sum of two spans, unless it is longer than a `Duration` can be.
    pub fn checked_add(&self, other: Duration) -> (sum: Option<Duration>)
        ensures
            self@ + other@ <= MAX_NANOS ==> sum is Some && sum->0@ == self@ + other@,
            self@ + other@ > MAX_NANOS ==> sum is None,
    {
        proof {
            use_type_invariant(self);
            use_type_invariant(other);
        }
        let total: u128 = self.nanos + other.nanos;
        if total <= MAX_NANOS {
            Some(Duration { nanos: total })
        } else {
            None
        }
    }

    /// The span by which `self` is longer than `other`, unless it is shorter.
    pub fn checked_sub(&self, other: Duration) -> (diff: Option<Duration>)
        ensures
            self@ >= other@ ==> diff is Some && diff->0@ == self@ - other@,
            self@ < other@ ==> diff is None,
    {
        proof {
            use_type_invariant(self);
        }
        if self.nanos >= other.nanos {
            Some(Duration { nanos: self.nanos - other.nanos })
        } else {
            None
        }
    }

    /// The span by which `self` is longer than `other`, or the empty span
    /// where it is not.
    pub fn saturating_sub(&self, other: Duration) -> (diff: Duration)
        ensures
            diff@ == if self@ >= other@ {
                self@ - other@
            } else {
                0
            },
    {
        proof {
            use_type_invariant(self);
        }
        if self.nanos >= other.nanos {
            Duration { nanos: self.nanos - other.nanos }
        } else {
            Duration { nanos: 0 }
        }
    }

    /// The span between two spans, whichever is the longer.
    pub fn abs_diff(&self, other: Duration) -> (diff: Duration)
        ensures
            diff@ == if self@ >= other@ {
                self@ - other@
            } else {
                other@ - self@
            },
    {
        proof {
            use_type_invariant(self);
            use_type_invariant(other);
        }
        if self.nanos >= other.nanos {
            Duration { nanos: self.nanos - other.nanos }
        } else {
            Duration { nanos: other.nanos - self.nanos }
        }
    }

    /// The shorter of two spans.
    pub fn min(self, other: Duration) -> (d: Duration)
        ensures
            d@ == if self@ <= other@ {
                self@
            } else {
                other@
            },
            d == self || d == other,
    {
        if self.nanos <= other.nanos {
            self
        } else {
            other
        }
    }

    /// Whether `self` is strictly shorter than `other`.
    pub fn lt(&self, other: &Duration) -> (b: bool)
        ensures
            b == (self@ < other@),
    {
        self.nanos < other.nanos
    }

    /// Whether `self` is no longer than `other`.
    pub fn le(&self, other: &Duration) -> (b: bool)
        ensures
            b == (self@ <= other@),
    {
        self.nanos <= other.nanos
    }

    /// Whether the two spans have the same length.
    pub fn same(&self, other: &Duration) -> (b: bool)
        ensures
            b == (self@ == other@),
            b == (*self == *other),
    {
        self.nanos == other.nanos
    }

    /// The span cut down to whole milliseconds.
    pub fn trunc_millis(&self) -> (d: Duration)
        ensures
            d@ == (self@ / NANOS_PER_MILLI as nat) * NANOS_PER_MILLI as nat,
            d@ <= self@,
    {
        proof {
            use_type_invariant(self);
        }
        let whole: u128 = self.nanos / NANOS_PER_MILLI;
        Duration { nanos: whole * NANOS_PER_MILLI }
    }
}

/// The length in nanoseconds of a span that may be missing.
pub open spec fn opt_nanos(span: Option<Duration>) -> Option<nat> {
    match span {
        Some(d) => Some(d@),
        None => None,
    }
}

/// A reading of a monotonic clock.
#[derive(Clone, Copy, Debug, PartialEq, Eq, PartialOrd, Ord, Hash, Structural)]
pub struct Instant {
    since_origin: Duration,
}

impl View for Instant {
    type V = nat;

    /// The reading's distance from the clock's origin, in nanoseconds.
    closed spec fn view(&self) -> nat {
        self.since_origin@
    }
}

impl Instant {
    /// The reading taken `since_origin` after the clock's origin.
    pub fn at(since_origin: Duration) -> (t: Instant)
        ensures
            t@ == since_origin@,
    {
        Instant { since_origin }
    }

    /// How long after the clock's origin the reading was taken.
    pub fn since_origin(&self) -> (d: Duration)
        ensures
            d@ == self@,
    {
        self.since_origin
    }

    /// The time that passed from `earlier` to this reading; the empty span
    /// where `earlier` is in fact the later of the two.
    pub fn duration_since(&self, earlier: Instant) -> (d: Duration)
        ensures
            d@ == if self@ >= earlier@ {
                self@ - earlier@
            } else {
                0
            },
    {
        self.since_origin.saturating_sub(earlier.since_origin)
    }

    /// The reading `span` before this one, unless that lies before the
    /// clock's origin.
    pub fn checked_sub(&self, span: Duration) -> (t: Option<Instant>)
        ensures
            self@ >= span@ ==> t is Some && t->0@ == self@ - span@,
            self@ < span@ ==> t is None,
    {
        match self.since_origin.checked_sub(span) {
            Some(d) => Some(Instant { since_origin: d }),
            None => None,
        }
    }
}

} // verus!

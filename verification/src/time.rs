//! Spans of time and points on a monotonic clock, in nanoseconds.

use vstd::prelude::*;

verus! {

/// A span of time.
#[derive(Clone, Copy, Debug, PartialEq, Eq, Structural)]
pub struct Duration {
    pub nanos: u128,
}

/// A point on a monotonic clock, as the time since its origin.
#[derive(Clone, Copy, Debug, PartialEq, Eq, Structural)]
pub struct Instant {
    pub nanos: u128,
}

impl Duration {
    /// No time at all.
    pub fn zero() -> (r: Duration)
        ensures
            r.nanos == 0,
    {
        Duration { nanos: 0 }
    }

    /// `millis` milliseconds.
    pub fn from_millis(millis: u64) -> (r: Duration)
        ensures
            r.nanos == millis * 1_000_000,
    {
        Duration { nanos: millis as u128 * 1_000_000 }
    }

    /// The whole milliseconds of the span.
    pub fn as_millis(&self) -> (r: u128)
        ensures
            r == self.nanos / 1_000_000,
    {
        self.nanos / 1_000_000
    }

    /// The whole seconds of the span.
    pub fn as_secs(&self) -> (r: u128)
        ensures
            r == self.nanos / 1_000_000_000,
    {
        self.nanos / 1_000_000_000
    }

    /// The nanoseconds beyond the whole seconds.
    pub fn subsec_nanos(&self) -> (r: u32)
        ensures
            r == self.nanos % 1_000_000_000,
    {
        (self.nanos % 1_000_000_000) as u32
    }
}

impl Instant {
    /// The time from `earlier` to `self`; none where `earlier` lies later.
    pub fn saturating_duration_since(&self, earlier: Instant) -> (r: Duration)
        ensures
            r.nanos == if self.nanos >= earlier.nanos {
                self.nanos - earlier.nanos
            } else {
                0
            },
    {
        if self.nanos >= earlier.nanos {
            Duration { nanos: self.nanos - earlier.nanos }
        } else {
            Duration { nanos: 0 }
        }
    }
}

/// Spans of time in their units.
pub proof fn units_of_time(millis: u64, d: Duration, whole: u128, secs: u128)
    requires
        call_ensures(Duration::from_millis, (millis,), d),
        call_ensures(Duration::as_millis, (&d,), whole),
        call_ensures(Duration::as_secs, (&d,), secs),
    ensures
        d.nanos == millis * 1_000_000,
        whole == millis,
        secs == millis / 1000,
{
}

/// The time from an earlier moment to a later one is their difference; there is none the other
/// way.
pub proof fn time_does_not_run_backwards(a: Instant, b: Instant, d: Duration)
    requires
        call_ensures(Instant::saturating_duration_since, (&a, b), d),
    ensures
        b.nanos <= a.nanos ==> b.nanos + d.nanos == a.nanos,
        b.nanos > a.nanos ==> d.nanos == 0,
{
}

} // verus!

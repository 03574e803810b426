//! Spans of time and points in time, counted in nanoseconds.
use vstd::prelude::*;

verus! {

pub const NANOS_PER_SEC: u128 = 1_000_000_000;

pub const NANOS_PER_MILLI: u128 = 1_000_000;

/// A span of time with nanosecond resolution.
#[derive(Clone, Copy, Debug, PartialEq, Eq, Structural)]
pub struct Duration {
    nanos: u128,
}

impl Duration {
    /// Length of the span in nanoseconds.
    pub closed spec fn total_nanos(self) -> nat {
        self.nanos as nat
    }

    /// Length of the span in whole milliseconds.
    pub open spec fn total_millis(self) -> nat {
        self.total_nanos() / (NANOS_PER_MILLI as nat)
    }

    pub proof fn lemma_bounded(self)
        ensures
            self.total_nanos() <= u128::MAX,
    {
    }

    /// The empty span.
    pub fn zero() -> (d: Duration)
        ensures
            d.total_nanos() == 0,
    {
        Duration { nanos: 0 }
    }

    /// The span of `secs` seconds.
    pub closed spec fn from_secs_spec(secs: u64) -> Duration {
        Duration { nanos: (secs * NANOS_PER_SEC) as u128 }
    }

    /// A span of `secs` seconds.
    pub fn from_secs(secs: u64) -> (d: Duration)
        ensures
            d.total_nanos() == secs * NANOS_PER_SEC,
            d == Duration::from_secs_spec(secs),
    {
        assert(secs * NANOS_PER_SEC <= u64::MAX * NANOS_PER_SEC) by (nonlinear_arith)
            requires secs <= u64::MAX;
        Duration { nanos: (secs as u128) * NANOS_PER_SEC }
    }

    /// A span of `millis` milliseconds.
    pub fn from_millis(millis: u64) -> (d: Duration)
        ensures
            d.total_nanos() == millis * NANOS_PER_MILLI,
    {
        assert(millis * NANOS_PER_MILLI <= u64::MAX * NANOS_PER_MILLI) by (nonlinear_arith)
            requires millis <= u64::MAX;
        Duration { nanos: (millis as u128) * NANOS_PER_MILLI }
    }

    /// A span of `nanos` nanoseconds.
    pub fn from_nanos(nanos: u128) -> (d: Duration)
        ensures
            d.total_nanos() == nanos,
    {
        Duration { nanos }
    }

    /// Whole milliseconds in the span.
    pub fn as_millis(&self) -> (m: u128)
        ensures
            m == self.total_millis(),
    {
        self.nanos / NANOS_PER_MILLI
    }

    /// Nanoseconds in the span.
    pub fn as_nanos(&self) -> (n: u128)
        ensures
            n == self.total_nanos(),
    {
        self.nanos
    }

    /// Whether this span is shorter than `other`.
    pub fn shorter_than(&self, other: &Duration) -> (r: bool)
        ensures
            r == (self.total_nanos() < other.total_nanos()),
    {
        self.nanos < other.nanos
    }

    /// The sum of two spans, capped at the largest representable span.
    pub fn saturating_add(&self, other: &Duration) -> (d: Duration)
        ensures
            d.total_nanos() == if self.total_nanos() + other.total_nanos() <= u128::MAX {
                self.total_nanos() + other.total_nanos()
            } else {
                u128::MAX as nat
            },
    {
        Duration { nanos: self.nanos.saturating_add(other.nanos) }
    }

    /// The difference of two spans, or zero when `other` is longer.
    pub fn saturating_sub(&self, other: &Duration) -> (d: Duration)
        ensures
            d.total_nanos() == if self.total_nanos() >= other.total_nanos() {
                (self.total_nanos() - other.total_nanos()) as nat
            } else {
                0
            },
    {
        Duration { nanos: self.nanos.saturating_sub(other.nanos) }
    }
}

/// A reading of the system clock, in nanoseconds since the Unix epoch.
#[derive(Clone, Copy, Debug, PartialEq, Eq, Structural)]
pub struct Instant {
    nanos: u128,
}

impl Instant {
    /// Nanoseconds since the Unix epoch.
    pub closed spec fn stamp(self) -> nat {
        self.nanos as nat
    }

    pub proof fn lemma_bounded(self)
        ensures
            self.stamp() <= u128::MAX,
    {
    }

    /// The instant `nanos` nanoseconds after the epoch.
    pub fn from_nanos(nanos: u128) -> (t: Instant)
        ensures
            t.stamp() == nanos,
    {
        Instant { nanos }
    }

    /// Nanoseconds since the epoch.
    pub fn as_nanos(&self) -> (n: u128)
        ensures
            n == self.stamp(),
    {
        self.nanos
    }

    /// Whole milliseconds since the epoch, truncated to 64 bits as `as u64` does.
    pub fn as_millis_u64(&self) -> (m: u64)
        ensures
            m == (self.stamp() / (NANOS_PER_MILLI as nat)) as u64,
    {
        (self.nanos / NANOS_PER_MILLI) as u64
    }

    /// The current time (`SystemTime::now`); the clock decides the value,
    /// and a clock set before the epoch reads as the epoch.
    pub fn now() -> (t: Instant) {
        match clock_nanos() {
            Some(n) => Instant { nanos: n },
            None => Instant { nanos: 0 },
        }
    }

    /// This instant moved later by `d`, capped at the largest representable instant.
    pub fn later_by(&self, d: &Duration) -> (t: Instant)
        ensures
            t.stamp() == if self.stamp() + d.total_nanos() <= u128::MAX {
                self.stamp() + d.total_nanos()
            } else {
                u128::MAX as nat
            },
    {
        Instant { nanos: self.nanos.saturating_add(d.as_nanos()) }
    }

    /// The time from `earlier` to this instant, or zero when `earlier` is later.
    pub fn since(&self, earlier: &Instant) -> (d: Duration)
        ensures
            d.total_nanos() == if self.stamp() >= earlier.stamp() {
                (self.stamp() - earlier.stamp()) as nat
            } else {
                0
            },
    {
        Duration::from_nanos(self.nanos.saturating_sub(earlier.nanos))
    }

    /// Whether this instant is no later than `other`.
    pub fn not_after(&self, other: &Instant) -> (r: bool)
        ensures
            r == (self.stamp() <= other.stamp()),
    {
        self.nanos <= other.nanos
    }
}

/// Reads the system clock (`SystemTime::now`) as nanoseconds since the Unix
/// epoch, or `None` when the clock is set before the epoch. Nothing is claimed
/// of the value: it is whatever the clock says.
#[verifier::external_body]
fn clock_nanos() -> Option<u128> {
    match std::time::SystemTime::now().duration_since(std::time::UNIX_EPOCH) {
        Ok(elapsed) => Some(elapsed.as_nanos()),
        Err(_) => None,
    }
}

} // verus!

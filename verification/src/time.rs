use vstd::prelude::*;

verus! {

/// Largest number of nanoseconds a [`Duration`] can hold: `u64::MAX` seconds
/// plus 999,999,999 nanoseconds, the range of `std::time::Duration`.
pub open spec fn max_nanos() -> nat {
    18446744073709551615nat * 1000000000nat + 999999999nat
}

/// Number of nanoseconds in [`Duration::MAX`], as an executable constant.
pub const MAX_NANOS: u128 = 18446744073709551615999999999u128;

/// A span of time with nanosecond precision, saturating at the range of
/// `std::time::Duration`.
#[derive(Clone, Copy, Debug, PartialEq, Eq, PartialOrd, Ord, Hash, Structural)]
pub struct Duration {
    nanos: u128,
}

impl View for Duration {
    type V = nat;

    closed spec fn view(&self) -> nat {
        self.nanos as nat
    }
}

impl Duration {
    /// The zero-length duration.
    pub fn zero() -> (d: Duration)
        ensures
            d@ == 0,
    {
        Duration { nanos: 0 }
    }

    /// A duration of `secs` whole seconds.
    pub fn from_secs(secs: u64) -> (d: Duration)
        ensures
            d@ == secs * 1000000000,
            d@ <= max_nanos(),
    {
        assert(secs * 1000000000 <= 18446744073709551615nat * 1000000000nat) by (nonlinear_arith)
            requires secs <= 18446744073709551615nat;
        Duration { nanos: (secs as u128) * 1000000000u128 }
    }

    /// A duration of `millis` milliseconds.
    pub fn from_millis(millis: u64) -> (d: Duration)
        ensures
            d@ == millis * 1000000,
            d@ <= max_nanos(),
    {
        assert(millis * 1000000 <= 18446744073709551615nat * 1000000nat) by (nonlinear_arith)
            requires millis <= 18446744073709551615nat;
        Duration { nanos: (millis as u128) * 1000000u128 }
    }

    /// A duration of `nanos` nanoseconds.
    pub fn from_nanos(nanos: u64) -> (d: Duration)
        ensures
            d@ == nanos,
    {
        Duration { nanos: nanos as u128 }
    }

    /// Total number of whole nanoseconds in this duration.
    pub fn as_nanos(&self) -> (n: u128)
        ensures
            n == self@,
    {
        self.nanos
    }

    /// `self * rhs`, saturating at the largest representable duration.
    pub fn saturating_mul(self, rhs: u32) -> (d: Duration)
        ensures
            d@ == if self@ * rhs <= max_nanos() { self@ * rhs } else { max_nanos() as int },
    {
        if self.nanos > MAX_NANOS {
            proof {
                assert(self@ * rhs >= self@ || rhs == 0) by (nonlinear_arith);
            }
            if rhs == 0 {
                return Duration { nanos: 0 };
            }
            return Duration { nanos: MAX_NANOS };
        }
        if rhs == 0 {
            return Duration { nanos: 0 };
        }
        if self.nanos > MAX_NANOS / (rhs as u128) {
            proof {
                let q = MAX_NANOS as int / rhs as int;
                assert(self.nanos as int >= q + 1);
                assert((q + 1) * rhs > MAX_NANOS as int) by (nonlinear_arith)
                    requires q == MAX_NANOS as int / rhs as int, rhs > 0;
                assert(self.nanos as int * rhs >= (q + 1) * rhs) by (nonlinear_arith)
                    requires self.nanos as int >= q + 1, rhs > 0;
            }
            Duration { nanos: MAX_NANOS }
        } else {
            proof {
                let q = MAX_NANOS as int / rhs as int;
                assert(self.nanos as int * rhs <= q * rhs) by (nonlinear_arith)
                    requires self.nanos as int <= q, rhs > 0;
                assert(q * rhs <= MAX_NANOS as int) by (nonlinear_arith)
                    requires q == MAX_NANOS as int / rhs as int, rhs > 0;
            }
            Duration { nanos: self.nanos * (rhs as u128) }
        }
    }

    /// The shorter of two durations.
    pub fn shorter(self, other: Duration) -> (d: Duration)
        ensures
            d@ == if self@ <= other@ { self@ } else { other@ },
            d == self || d == other,
    {
        if self.nanos <= other.nanos { self } else { other }
    }
}

/// A point on a monotonic clock, counted in nanoseconds from an origin that
/// the caller fixes (for instance the start of the process).
#[derive(Clone, Copy, Debug, PartialEq, Eq, PartialOrd, Ord, Hash, Structural)]
pub struct Instant {
    nanos: u64,
}

impl View for Instant {
    type V = nat;

    closed spec fn view(&self) -> nat {
        self.nanos as nat
    }
}

/// Time elapsed from `earlier` to `later`, or zero when `earlier` is the later one.
pub open spec fn elapsed(later: Instant, earlier: Instant) -> nat {
    if later@ >= earlier@ { (later@ - earlier@) as nat } else { 0 }
}

impl Instant {
    /// The instant `nanos` nanoseconds after the clock's origin.
    pub fn from_nanos(nanos: u64) -> (i: Instant)
        ensures
            i@ == nanos,
    {
        Instant { nanos }
    }

    /// Nanoseconds since the clock's origin.
    pub fn as_nanos(&self) -> (n: u64)
        ensures
            n == self@,
    {
        self.nanos
    }

    /// Time elapsed since `earlier`, or zero if `earlier` is later than `self`.
    pub fn duration_since(&self, earlier: Instant) -> (d: Duration)
        ensures
            d@ == elapsed(*self, earlier),
    {
        if self.nanos >= earlier.nanos {
            Duration::from_nanos(self.nanos - earlier.nanos)
        } else {
            Duration::zero()
        }
    }
}

} // verus!

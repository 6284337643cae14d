//! Spans of time.
use vstd::prelude::*;

verus! {

/// A span of time: whole seconds, and nanoseconds that do not make up another one.
#[derive(Debug, Clone, Copy, PartialEq, Eq, PartialOrd, Ord, Hash)]
pub struct Duration {
    secs: u64,
    nanos: u32,
}

/// The longest span of time, in nanoseconds.
pub open spec fn longest() -> nat {
    (u64::MAX * 1_000_000_000 + 999_999_999) as nat
}

/// A span of time in nanoseconds.
impl View for Duration {
    type V = nat;

    closed spec fn view(&self) -> nat {
        (self.secs * 1_000_000_000 + self.nanos) as nat
    }
}

impl Duration {
    #[verifier::type_invariant]
    spec fn wf(self) -> bool {
        self.nanos < 1_000_000_000
    }

    /// A span of some seconds and nanoseconds.
    pub fn new(secs: u64, nanos: u32) -> (r: Option<Self>)
        ensures
            match r {
                Some(d) => d@ == secs * 1_000_000_000 + nanos,
                None => secs * 1_000_000_000 + nanos > longest(),
            },
    {
        let carried = (nanos / 1_000_000_000) as u64;
        match secs.checked_add(carried) {
            Some(secs) => Some(Duration { secs, nanos: nanos % 1_000_000_000 }),
            None => None,
        }
    }

    /// No time.
    pub fn zero() -> (r: Self)
        ensures
            r@ == 0,
    {
        Duration { secs: 0, nanos: 0 }
    }

    /// A span of some seconds.
    pub fn from_secs(secs: u64) -> (r: Self)
        ensures
            r@ == secs * 1_000_000_000,
    {
        Duration { secs, nanos: 0 }
    }

    /// A span of some milliseconds.
    pub fn from_millis(millis: u64) -> (r: Self)
        ensures
            r@ == millis * 1_000_000,
    {
        Duration { secs: millis / 1000, nanos: (millis % 1000) as u32 * 1_000_000 }
    }

    /// The whole seconds.
    pub fn as_secs(&self) -> (r: u64)
        ensures
            r == self@ / 1_000_000_000,
    {
        proof {
            use_type_invariant(self);
        }
        self.secs
    }

    /// The nanoseconds beside the whole seconds.
    pub fn subsec_nanos(&self) -> (r: u32)
        ensures
            r == self@ % 1_000_000_000,
    {
        proof {
            use_type_invariant(self);
        }
        self.nanos
    }

    /// Whether this is no time.
    pub fn is_zero(&self) -> (r: bool)
        ensures
            r == (self@ == 0),
    {
        self.secs == 0 && self.nanos == 0
    }

    /// Whether this is shorter than another one.
    pub fn is_shorter(&self, other: &Duration) -> (r: bool)
        ensures
            r == (self@ < other@),
    {
        proof {
            use_type_invariant(self);
            use_type_invariant(other);
        }
        self.secs < other.secs || (self.secs == other.secs && self.nanos < other.nanos)
    }

    /// The shorter of two.
    pub fn shorter(self, other: Duration) -> (r: Duration)
        ensures
            r@ == if self@ < other@ {
                self@
            } else {
                other@
            },
    {
        if self.is_shorter(&other) {
            self
        } else {
            other
        }
    }

    /// The longer of two.
    pub fn longer(self, other: Duration) -> (r: Duration)
        ensures
            r@ == if self@ < other@ {
                other@
            } else {
                self@
            },
            r@ <= longest(),
    {
        proof {
            use_type_invariant(&self);
            use_type_invariant(&other);
        }
        if self.is_shorter(&other) {
            other
        } else {
            self
        }
    }

    /// A multiple, or `None` where it is too long.
    pub fn checked_mul(self, factor: u32) -> (r: Option<Duration>)
        ensures
            match r {
                Some(d) => d@ == self@ * factor,
                None => self@ * factor > longest(),
            },
    {
        proof {
            use_type_invariant(&self);
            assert(self.nanos * factor <= 999_999_999 * 0xffff_ffff) by (nonlinear_arith)
                requires
                    self.nanos < 1_000_000_000,
                    factor <= 0xffff_ffff,
            ;
            let s = self.secs as int;
            let n = self.nanos as int;
            let f = factor as int;
            assert((s * 1_000_000_000 + n) * f == s * f * 1_000_000_000 + n * f)
                by (nonlinear_arith);
        }
        let total: u64 = self.nanos as u64 * factor as u64;
        let extra: u64 = total / 1_000_000_000;
        let nanos: u32 = (total % 1_000_000_000) as u32;
        match self.secs.checked_mul(factor as u64) {
            Some(secs) => match secs.checked_add(extra) {
                Some(secs) => Some(Duration { secs, nanos }),
                None => None,
            },
            None => None,
        }
    }

    /// The sum of two, or the longest span where it is too long.
    pub fn saturating_add(self, other: Duration) -> (r: Duration)
        ensures
            r@ == if self@ + other@ <= longest() {
                self@ + other@
            } else {
                longest()
            },
    {
        proof {
            use_type_invariant(&self);
            use_type_invariant(&other);
        }
        let sum: u32 = self.nanos + other.nanos;
        let carried: u64 = if sum >= 1_000_000_000 {
            1
        } else {
            0
        };
        let nanos: u32 = if sum >= 1_000_000_000 {
            sum - 1_000_000_000
        } else {
            sum
        };
        match self.secs.checked_add(other.secs) {
            Some(secs) => match secs.checked_add(carried) {
                Some(secs) => Duration { secs, nanos },
                None => Duration { secs: u64::MAX, nanos: 999_999_999 },
            },
            None => Duration { secs: u64::MAX, nanos: 999_999_999 },
        }
    }
}

} // verus!

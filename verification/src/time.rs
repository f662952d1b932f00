//! Spans of time and moments on the wall clock.

use vstd::prelude::*;

verus! {

/// How many nanoseconds a second has.
pub const NANOS_PER_SEC: u32 = 1_000_000_000;

/// A span of time, to the nanosecond.
#[derive(Debug, Clone, Copy, PartialEq, Eq, PartialOrd, Ord)]
pub struct Duration {
    secs: u64,
    nanos: u32,
}

impl View for Duration {
    type V = nat;

    /// How many nanoseconds the span has.
    closed spec fn view(&self) -> nat {
        self.secs as nat * 1_000_000_000 + self.nanos as nat
    }
}

/// The longest span there is.
pub open spec fn longest() -> nat {
    u64::MAX as nat * 1_000_000_000 + 999_999_999
}

impl Duration {
    #[verifier::type_invariant]
    spec fn normal(self) -> bool {
        self.nanos < NANOS_PER_SEC
    }

    /// A span of whole seconds and the nanoseconds of one further second.
    pub fn new(secs: u64, nanos: u32) -> (out: Duration)
        requires
            nanos < NANOS_PER_SEC,
        ensures
            out@ == secs as nat * 1_000_000_000 + nanos as nat,
    {
        Duration { secs, nanos }
    }

    /// No time at all.
    pub fn zero() -> (out: Duration)
        ensures
            out@ == 0,
    {
        Duration { secs: 0, nanos: 0 }
    }

    /// A span of whole seconds.
    pub fn from_secs(secs: u64) -> (out: Duration)
        ensures
            out@ == secs as nat * 1_000_000_000,
    {
        Duration { secs, nanos: 0 }
    }

    /// A span of whole milliseconds.
    pub fn from_millis(millis: u64) -> (out: Duration)
        ensures
            out@ == millis as nat * 1_000_000,
    {
        Duration { secs: millis / 1000, nanos: ((millis % 1000) as u32) * 1_000_000 }
    }

    /// The span of so many nanoseconds.
    pub fn from_nanos(nanos: u128) -> (out: Duration)
        requires
            nanos <= longest(),
        ensures
            out@ == nanos,
    {
        let secs: u128 = nanos / 1_000_000_000;
        let rest: u128 = nanos % 1_000_000_000;
        Duration { secs: secs as u64, nanos: rest as u32 }
    }

    /// The whole seconds of the span.
    pub fn as_secs(&self) -> (secs: u64)
        ensures
            secs as nat == self@ / 1_000_000_000,
    {
        proof {
            use_type_invariant(self);
        }
        self.secs
    }

    /// The nanoseconds of the span that are not part of a whole second.
    pub fn subsec_nanos(&self) -> (nanos: u32)
        ensures
            nanos as nat == self@ % 1_000_000_000,
            nanos < NANOS_PER_SEC,
    {
        proof {
            use_type_invariant(self);
        }
        self.nanos
    }

    /// The nanoseconds of the span.
    pub fn as_nanos(&self) -> (nanos: u128)
        ensures
            nanos as nat == self@,
            nanos <= longest(),
    {
        proof {
            use_type_invariant(self);
        }
        (self.secs as u128) * 1_000_000_000 + self.nanos as u128
    }

    /// The whole milliseconds of the span.
    pub fn as_millis(&self) -> (millis: u128)
        ensures
            millis as nat == self@ / 1_000_000,
    {
        self.as_nanos() / 1_000_000
    }

    /// Whether this span is at least as long as another one.
    pub fn reaches(&self, other: &Duration) -> (yes: bool)
        ensures
            yes == (self@ >= other@),
    {
        self.as_nanos() >= other.as_nanos()
    }

    /// The shorter of two spans.
    pub fn shorter(self, other: Duration) -> (out: Duration)
        ensures
            out@ == if self@ <= other@ {
                self@
            } else {
                other@
            },
    {
        if other.reaches(&self) {
            self
        } else {
            other
        }
    }

    /// A span twice as long.
    pub fn doubled(self) -> (out: Duration)
        requires
            2 * self@ <= longest(),
        ensures
            out@ == 2 * self@,
    {
        Duration::from_nanos(2 * self.as_nanos())
    }
}

/// A moment on the wall clock: seconds before or after the start of 1970, and the nanoseconds
/// that have passed of the next one.
#[derive(Debug, Clone, Copy, PartialEq, Eq)]
pub struct Moment {
    secs: i64,
    nanos: u32,
}

impl View for Moment {
    type V = int;

    /// How many nanoseconds lie between the start of 1970 and the moment.
    closed spec fn view(&self) -> int {
        self.secs as int * 1_000_000_000 + self.nanos as int
    }
}

impl Moment {
    #[verifier::type_invariant]
    spec fn normal(self) -> bool {
        self.nanos < NANOS_PER_SEC
    }

    /// The moment that many seconds and nanoseconds from the start of 1970.
    pub fn new(secs: i64, nanos: u32) -> (out: Moment)
        requires
            nanos < NANOS_PER_SEC,
        ensures
            out@ == secs as int * 1_000_000_000 + nanos as int,
    {
        Moment { secs, nanos }
    }

    /// How much time lies between an earlier moment and this one: none where it is not earlier.
    pub fn since(&self, earlier: &Moment) -> (out: Duration)
        ensures
            out@ == if self@ >= earlier@ {
                self@ - earlier@
            } else {
                0
            },
    {
        proof {
            use_type_invariant(self);
            use_type_invariant(earlier);
        }
        let here: i128 = (self.secs as i128) * 1_000_000_000 + self.nanos as i128;
        let there: i128 = (earlier.secs as i128) * 1_000_000_000 + earlier.nanos as i128;
        if here >= there {
            Duration::from_nanos((here - there) as u128)
        } else {
            Duration::zero()
        }
    }
}

} // verus!

//! Spans of time, points in time and the pause between attempts.
use vstd::arithmetic::power2::*;
use vstd::prelude::*;

verus! {

/// Nanoseconds in a second.
pub const NANOS_PER_SEC: u128 = 1_000_000_000;

/// The longest span, in nanoseconds: as many seconds as 64 bits count, and one
/// nanosecond less than another second.
pub const MAX_NANOS: u128 = 18_446_744_073_709_551_615_999_999_999;

/// A span of time. Its view is its length in nanoseconds.
#[derive(Debug, Clone, Copy, PartialEq, Eq, Structural)]
pub struct Duration {
    nanos: u128,
}

impl View for Duration {
    type V = nat;

    closed spec fn view(&self) -> nat {
        self.nanos as nat
    }
}

impl Duration {
    #[verifier::type_invariant]
    spec fn in_range(self) -> bool {
        self.nanos <= MAX_NANOS
    }

    /// The empty span.
    pub fn zero() -> (d: Duration)
        ensures
            d@ == 0,
    {
        Duration { nanos: 0 }
    }

    /// A span of whole seconds.
    pub fn from_secs(secs: u64) -> (d: Duration)
        ensures
            d@ == secs * 1_000_000_000,
    {
        Duration { nanos: secs as u128 * 1_000_000_000 }
    }

    /// A span of whole milliseconds.
    pub fn from_millis(millis: u64) -> (d: Duration)
        ensures
            d@ == millis * 1_000_000,
    {
        Duration { nanos: millis as u128 * 1_000_000 }
    }

    /// A span of whole nanoseconds.
    pub fn from_nanos(nanos: u64) -> (d: Duration)
        ensures
            d@ == nanos,
    {
        Duration { nanos: nanos as u128 }
    }

    /// The length in nanoseconds.
    pub fn as_nanos(self) -> (n: u128)
        ensures
            n == self@,
            n <= MAX_NANOS,
    {
        proof {
            use_type_invariant(&self);
        }
        self.nanos
    }

    /// The whole seconds in the span.
    pub fn as_secs(self) -> (n: u64)
        ensures
            n == self@ / 1_000_000_000,
    {
        proof {
            use_type_invariant(&self);
        }
        (self.nanos / 1_000_000_000) as u64
    }

    /// Whether the span is empty.
    pub fn is_zero(self) -> (r: bool)
        ensures
            r == (self@ == 0),
    {
        self.nanos == 0
    }

    /// Whether the span is longer than another.
    pub fn exceeds(self, other: Duration) -> (r: bool)
        ensures
            r == (self@ > other@),
    {
        self.nanos > other.nanos
    }
}

/// The pause after one more failure: the first pause after the first failure, then
/// twice the pause before, up to the longest one.
pub open spec fn backed_off(pause: nat, initial: nat, longest: nat) -> nat {
    if pause == 0 {
        initial
    } else if pause * 2 <= longest {
        pause * 2
    } else {
        longest
    }
}

/// The pause after one more failure.
pub fn next_backoff(pause: Duration, initial: Duration, longest: Duration) -> (d: Duration)
    ensures
        d@ == backed_off(pause@, initial@, longest@),
{
    proof {
        use_type_invariant(&pause);
        use_type_invariant(&longest);
    }
    if pause.nanos == 0 {
        initial
    } else {
        let doubled: u128 = pause.nanos * 2;
        if doubled <= longest.nanos {
            Duration { nanos: doubled }
        } else {
            longest
        }
    }
}

/// Where the first pause does not exceed the longest one, no pause does, and no
/// failure makes the pause shorter.
pub proof fn backoff_is_bounded(pause: nat, initial: nat, longest: nat)
    requires
        initial <= longest,
        pause <= longest,
    ensures
        backed_off(pause, initial, longest) <= longest,
        pause <= backed_off(pause, initial, longest),
{
}

/// A reading of a clock that only moves forward, in nanoseconds since it started.
#[derive(Debug, Clone, Copy, PartialEq, Eq, Structural)]
pub struct Instant {
    pub nanos: u64,
}

impl View for Instant {
    type V = nat;

    open spec fn view(&self) -> nat {
        self.nanos as nat
    }
}

/// A point on that clock at which something is due. It may lie beyond anything that the
/// clock will ever read.
#[derive(Debug, Clone, Copy, PartialEq, Eq, Structural)]
pub struct Deadline {
    pub nanos: u128,
}

impl View for Deadline {
    type V = nat;

    open spec fn view(&self) -> nat {
        self.nanos as nat
    }
}

impl Instant {
    /// The point that lies a span behind a reading.
    pub fn after(self, span: Duration) -> (d: Deadline)
        ensures
            d@ == self@ + span@,
    {
        let nanos: u128 = span.as_nanos();
        Deadline { nanos: self.nanos as u128 + nanos }
    }

    /// Whether a deadline has come.
    pub fn reached(self, d: Deadline) -> (r: bool)
        ensures
            r == (d@ <= self@),
    {
        d.nanos <= self.nanos as u128
    }
}

/// A point in time, in nanoseconds since the start of 1970 (UTC), negative before it.
#[derive(Debug, Clone, Copy, PartialEq, Eq, Structural)]
pub struct Timestamp {
    pub nanos: i128,
}

impl View for Timestamp {
    type V = int;

    open spec fn view(&self) -> int {
        self.nanos as int
    }
}

/// The nanoseconds since the start of 1970, none for a point before it.
pub open spec fn since_epoch(t: int) -> nat {
    if t < 0 {
        0
    } else {
        t as nat
    }
}

/// The pause after so many failures in a row.
pub open spec fn pause_after(failures: nat, initial: nat, longest: nat) -> nat
    decreases failures,
{
    if failures == 0 {
        0
    } else {
        backed_off(pause_after((failures - 1) as nat, initial, longest), initial, longest)
    }
}

/// The first failure brings the first pause, and every further one twice as much, up to the
/// longest pause.
pub proof fn pauses_double(failures: nat, initial: nat, longest: nat)
    requires
        0 < initial <= longest,
    ensures
        pause_after(failures + 1, initial, longest) == if initial * pow2(failures) <= longest {
            initial * pow2(failures)
        } else {
            longest
        },
    decreases failures,
{
    reveal_with_fuel(pause_after, 2);
    if failures == 0 {
        lemma2_to64();
        assert(initial * pow2(0) == initial) by (nonlinear_arith)
            requires
                pow2(0) == 1,
        ;
    } else {
        let before = (failures - 1) as nat;
        pauses_double(before, initial, longest);
        lemma_pow2_unfold(failures);
        lemma_pow2_pos(before);
        let p = pow2(before);
        assert(initial * (2 * p) == 2 * (initial * p)) by (nonlinear_arith);
        assert(initial * p > 0) by (nonlinear_arith)
            requires
                initial > 0,
                p > 0,
        ;
    }
}

/// A point in time since the start of 1970 is as many nanoseconds as have passed since then.
pub proof fn nanoseconds_since_the_epoch(t: int)
    ensures
        t >= 0 ==> since_epoch(t) == t,
        t < 0 ==> since_epoch(t) == 0,
{
}

} // verus!

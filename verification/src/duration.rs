//! An exact span of time: whole seconds and the nanoseconds beyond them,
//! with no calendar behind it.
use vstd::prelude::*;

verus! {

/// The nanoseconds in one second.
pub const NANOS_PER_SEC: u32 = 1_000_000_000;

/// What a duration is, for specifications: a count of whole seconds and a
/// count of nanoseconds on top of them.
pub struct Span {
    pub secs: int,
    pub nanos: int,
}

impl Span {
    /// The span of no time at all.
    pub open spec fn zero() -> Span {
        Span { secs: 0, nanos: 0 }
    }

    /// The seconds fit a `u64` and the nanoseconds stay below one second.
    pub open spec fn valid(self) -> bool {
        &&& 0 <= self.secs <= u64::MAX
        &&& 0 <= self.nanos < NANOS_PER_SEC
    }

    /// The whole span in nanoseconds.
    pub open spec fn total_nanos(self) -> int {
        self.secs * NANOS_PER_SEC + self.nanos
    }

    /// The span that a count of nanoseconds makes.
    pub open spec fn of_nanos(nanos: int) -> Span {
        Span { secs: nanos / (NANOS_PER_SEC as int), nanos: nanos % (NANOS_PER_SEC as int) }
    }
}

/// A valid span is the span of its count of nanoseconds.
pub proof fn lemma_span_of_total(d: Span)
    requires
        d.valid(),
    ensures
        Span::of_nanos(d.total_nanos()) == d,
{
}

/// A span of time. The nanoseconds are always less than one second.
#[derive(Clone, Copy, Debug, PartialEq, Eq, Hash)]
pub struct Duration {
    secs: u64,
    nanos: u32,
}

impl View for Duration {
    type V = Span;

    closed spec fn view(&self) -> Span {
        Span { secs: self.secs as int, nanos: self.nanos as int }
    }
}

impl Duration {
    #[verifier::type_invariant]
    spec fn normal(self) -> bool {
        self.nanos < NANOS_PER_SEC
    }

    /// A duration of `secs` seconds and `nanos` nanoseconds. A second or more
    /// of nanoseconds is carried over into the seconds, which must still fit.
    pub fn new(secs: u64, nanos: u32) -> (d: Duration)
        requires
            secs + nanos / NANOS_PER_SEC <= u64::MAX,
        ensures
            d@.secs == secs + nanos / NANOS_PER_SEC,
            d@.nanos == nanos % NANOS_PER_SEC,
            d@.valid(),
    {
        Duration { secs: secs + (nanos / NANOS_PER_SEC) as u64, nanos: nanos % NANOS_PER_SEC }
    }

    /// The whole seconds.
    pub fn as_secs(&self) -> (secs: u64)
        ensures
            secs == self@.secs,
    {
        self.secs
    }

    /// The nanoseconds beyond the whole seconds.
    pub fn subsec_nanos(&self) -> (nanos: u32)
        ensures
            nanos == self@.nanos,
            self@.valid(),
    {
        proof {
            use_type_invariant(self);
        }
        self.nanos
    }
}

} // verus!

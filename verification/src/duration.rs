//! Spans of time as whole seconds and nanoseconds.
use vstd::prelude::*;

verus! {

/// A span of time. `nanos` stays below one second.
#[derive(Clone, Copy, Debug, PartialEq, Eq, Structural)]
pub struct Duration {
    pub secs: u64,
    pub nanos: u32,
}

impl Duration {
    /// The nanoseconds make less than one second.
    pub open spec fn wf(self) -> bool {
        self.nanos < 1_000_000_000
    }

    /// The span in whole microseconds, rounded down.
    pub open spec fn micros(self) -> int {
        self.secs * 1_000_000 + (self.nanos / 1_000)
    }

    /// The span in nanoseconds.
    pub open spec fn total_nanos(self) -> int {
        self.secs * 1_000_000_000 + self.nanos
    }

    /// A span of whole seconds.
    pub fn from_secs(secs: u64) -> (d: Self)
        ensures
            d.wf(),
            d.total_nanos() == secs * 1_000_000_000,
            d.secs == secs,
    {
        Duration { secs, nanos: 0 }
    }

    /// A span of whole microseconds.
    pub fn from_micros(micros: u64) -> (d: Self)
        ensures
            d.wf(),
            d.total_nanos() == micros * 1_000,
            d.micros() == micros,
    {
        let rest: u64 = micros % 1_000_000;
        Duration { secs: micros / 1_000_000, nanos: (rest as u32) * 1_000 }
    }

    /// The whole seconds of the span.
    pub fn as_secs(&self) -> (secs: u64)
        ensures
            secs == self.secs,
            self.wf() ==> secs == self.total_nanos() / 1_000_000_000,
    {
        self.secs
    }

    /// The whole microseconds of the span.
    pub fn as_micros(&self) -> (micros: u128)
        ensures
            micros == self.micros(),
            self.wf() ==> micros == self.total_nanos() / 1_000,
    {
        (self.secs as u128) * 1_000_000 + (self.nanos / 1_000) as u128
    }

    /// The sum of two spans.
    pub fn plus(&self, other: &Self) -> (d: Self)
        requires
            self.wf(),
            other.wf(),
            self.secs + other.secs < u64::MAX,
        ensures
            d.wf(),
            d.total_nanos() == self.total_nanos() + other.total_nanos(),
    {
        let nanos: u32 = self.nanos + other.nanos;
        if nanos >= 1_000_000_000 {
            Duration { secs: self.secs + other.secs + 1, nanos: nanos - 1_000_000_000 }
        } else {
            Duration { secs: self.secs + other.secs, nanos }
        }
    }
}

/// The whole seconds and microseconds of a span are those that fit in it.
pub proof fn law_units_fit_in_the_span(d: Duration)
    requires
        d.wf(),
    ensures
        d.secs * 1_000_000_000 <= d.total_nanos() < (d.secs + 1) * 1_000_000_000,
        d.micros() * 1_000 <= d.total_nanos() < (d.micros() + 1) * 1_000,
        (d.total_nanos() - d.nanos) % 1_000_000_000 == 0,
{
}

/// Two spans are the same where they are equally long.
pub proof fn law_length_tells_spans_apart(a: Duration, b: Duration)
    requires
        a.wf(),
        b.wf(),
        a.total_nanos() == b.total_nanos(),
    ensures
        a == b,
{
}

} // verus!

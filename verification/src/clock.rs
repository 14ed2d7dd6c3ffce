//! Time as plain numbers: nanoseconds on the program's monotonic clock.

use vstd::prelude::*;

verus! {

/// Nanoseconds in a second.
pub const NANOS_PER_SEC: u64 = 1_000_000_000;

/// A point on the program's monotonic clock, in nanoseconds since its start.
#[derive(Clone, Copy, Debug, PartialEq, Eq, Structural)]
pub struct Moment {
    /// Nanoseconds since the clock's start.
    pub nanos: u64,
}

/// A length of time, in nanoseconds.
#[derive(Clone, Copy, Debug, PartialEq, Eq, Structural)]
pub struct Span {
    /// Nanoseconds.
    pub nanos: u64,
}

impl Span {
    /// A span of whole seconds.
    pub fn from_secs(secs: u64) -> (s: Self)
        requires
            secs * NANOS_PER_SEC <= u64::MAX,
        ensures
            s.nanos == secs * NANOS_PER_SEC,
    {
        Span { nanos: secs * NANOS_PER_SEC }
    }
}

impl Moment {
    /// The moment a span later.
    pub fn plus(self, span: Span) -> (m: Self)
        requires
            self.nanos + span.nanos <= u64::MAX,
        ensures
            m.nanos == self.nanos + span.nanos,
    {
        Moment { nanos: self.nanos + span.nanos }
    }

    /// The time since an earlier moment, and none since a later one.
    pub fn since(self, earlier: Moment) -> (s: Span)
        ensures
            s.nanos == if self.nanos >= earlier.nanos {
                self.nanos - earlier.nanos
            } else {
                0
            },
    {
        Span { nanos: self.nanos.saturating_sub(earlier.nanos) }
    }
}

} // verus!

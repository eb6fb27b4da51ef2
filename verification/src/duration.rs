//! Connection delay periods.

use vstd::prelude::*;

verus! {

pub const NANOS_PER_SEC: u32 = 1000000000;

/// A delay period: whole seconds plus a sub-second nanosecond part.
/// The nanosecond part lying below one second is a caller invariant: it is
/// required, not checked at run time, exactly as the wire format assumes it.
#[derive(Debug, Clone, Copy, PartialEq, Eq, Structural)]
pub struct Duration {
    pub secs: u64,
    pub nanos: u32,
}

impl Duration {
    /// The caller invariant on every duration handled here.
    pub open spec fn wf(self) -> bool {
        self.nanos < NANOS_PER_SEC
    }

    pub fn new(secs: u64, nanos: u32) -> (r: Duration)
        requires
            nanos < NANOS_PER_SEC,
        ensures
            r == (Duration { secs, nanos }),
            r.wf(),
    {
        Duration { secs, nanos }
    }

    /// The canonical in-process representation: whole seconds and the
    /// sub-second nanoseconds.
    pub open spec fn spec_to_pair(self) -> (u64, u32) {
        (self.secs, self.nanos)
    }

    pub open spec fn spec_from_pair(p: (u64, u32)) -> Duration {
        Duration { secs: p.0, nanos: p.1 }
    }

    pub fn to_pair(&self) -> (r: (u64, u32))
        ensures
            r == self.spec_to_pair(),
    {
        (self.secs, self.nanos)
    }

    pub fn from_pair(p: (u64, u32)) -> (r: Duration)
        requires
            p.1 < NANOS_PER_SEC,
        ensures
            r == Duration::spec_from_pair(p),
            r.wf(),
    {
        Duration { secs: p.0, nanos: p.1 }
    }
}

/// Splitting any valid duration into its pair and rebuilding it yields the
/// same duration.
pub proof fn lemma_duration_round_trip(d: Duration)
    requires
        d.wf(),
    ensures
        Duration::spec_from_pair(d.spec_to_pair()) == d,
{
}

} // verus!

//! Points in time, as the driver's clock reads them.

use vstd::prelude::*;

verus! {

/// Nanoseconds in a millisecond.
pub const NANOS_PER_MS: u64 = 1_000_000;

/// The longest timer that anything here ever starts: 80 % of the longest
/// refresh that a registration can have (65535 s).
pub const LONGEST_TIMER: u64 = 52_428_000_000_000;

/// A reading of the driver's monotonic clock: nanoseconds since an origin
/// that the driver picks once and keeps.
#[derive(Debug, Clone, Copy, PartialEq, Eq, Structural)]
pub struct Instant {
    pub nanos: u64,
}

impl Instant {
    /// Every timer started at this instant ends within the range of the clock.
    /// The range is 584 years; only its last fifteen hours are outside.
    pub open spec fn in_range(self) -> bool {
        self.nanos <= u64::MAX - LONGEST_TIMER
    }

    /// The instant `ns` nanoseconds later.
    pub open spec fn after(self, ns: int) -> Instant {
        Instant { nanos: (self.nanos + ns) as u64 }
    }

    /// Whole milliseconds from `earlier` to this instant, 0 if `earlier` is
    /// the later one.
    pub open spec fn ms_since(self, earlier: Instant) -> int {
        if self.nanos >= earlier.nanos {
            (self.nanos - earlier.nanos) / (NANOS_PER_MS as int)
        } else {
            0
        }
    }

    /// The instant `ms` milliseconds after the origin.
    pub fn from_millis(ms: u64) -> (r: Instant)
        requires
            ms * NANOS_PER_MS <= u64::MAX,
        ensures
            r.nanos == ms * NANOS_PER_MS,
    {
        Instant { nanos: ms * NANOS_PER_MS }
    }

    /// Whether every timer started now ends within the range of the clock.
    pub fn is_in_range(&self) -> (r: bool)
        ensures
            r == self.in_range(),
    {
        self.nanos <= u64::MAX - LONGEST_TIMER
    }

    /// The instant `ns` nanoseconds later.
    pub fn plus(self, ns: u64) -> (r: Instant)
        requires
            self.nanos + ns <= u64::MAX,
        ensures
            r == self.after(ns as int),
    {
        Instant { nanos: self.nanos + ns }
    }

    /// Whole milliseconds from `earlier` to this instant, 0 if `earlier` is
    /// the later one.
    pub fn millis_since(self, earlier: Instant) -> (r: u64)
        ensures
            r == self.ms_since(earlier),
    {
        if self.nanos >= earlier.nanos {
            (self.nanos - earlier.nanos) / NANOS_PER_MS
        } else {
            0
        }
    }
}

} // verus!

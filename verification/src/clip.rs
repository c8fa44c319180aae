//! The clip interval: the unit of output of segmentation.
use vstd::prelude::*;

verus! {

/// Largest timestamp (in milliseconds) the segmentation engine accepts.
/// Keeping every time below 2^32 lets all intermediate products of the
/// splitting arithmetic fit in a `u64`.
pub const TIME_LIMIT_MS: u64 = 0xFFFF_FFFF;

/// Placeholder quality score, in thousandths. No content-based scoring is
/// performed; every emitted clip carries the same default regardless of the
/// reason it was split off.
pub const DEFAULT_SCORE_MILLI: u32 = 500;

/// A half-open time window `[start_ms, end_ms)` cut out of one source video.
#[derive(Clone, Copy, Debug, PartialEq, Eq, Structural)]
pub struct Clip {
    /// Start offset from the beginning of the source, in milliseconds.
    pub start_ms: u64,
    /// End offset (exclusive), in milliseconds.
    pub end_ms: u64,
    /// Length of the window; always exactly `end_ms - start_ms`.
    pub duration_ms: u64,
    /// Quality score in thousandths of 1. Reserved for future ranking.
    pub score_milli: u32,
}

impl Clip {
    /// A clip is well formed when it is non-empty, ends no later than the
    /// media's total duration, and its stored duration is consistent.
    pub open spec fn wf(self, total_ms: u64) -> bool {
        &&& self.start_ms < self.end_ms
        &&& self.end_ms <= total_ms
        &&& self.duration_ms == self.end_ms - self.start_ms
    }

    /// Builds a well-formed clip with the default score.
    pub fn new(start_ms: u64, end_ms: u64) -> (c: Clip)
        requires
            start_ms < end_ms,
        ensures
            c.start_ms == start_ms,
            c.end_ms == end_ms,
            c.duration_ms == end_ms - start_ms,
            c.score_milli == DEFAULT_SCORE_MILLI,
    {
        Clip { start_ms, end_ms, duration_ms: end_ms - start_ms, score_milli: DEFAULT_SCORE_MILLI }
    }
}

} // verus!

//! The spectrum frame model: magnitude sequences and the bounds and sums the
//! pipeline's contracts are stated over.

use vstd::prelude::*;

verus! {

/// Upper bound on every magnitude a spectrum frame may hold. The transform
/// establishes it and every later stage preserves it; it keeps all of the
/// pipeline's integer arithmetic far from overflow.
pub const MAG_MAX: u64 = 0x8000_0000;

/// Every magnitude of the frame is at most [`MAG_MAX`].
pub open spec fn frame_bounded(s: Seq<u64>) -> bool {
    forall|i: int| 0 <= i < s.len() ==> s[i] <= MAG_MAX
}

/// Every magnitude of the frame is zero.
pub open spec fn frame_zero(s: Seq<u64>) -> bool {
    forall|i: int| 0 <= i < s.len() ==> s[i] == 0
}

/// Why one processing cycle was skipped. Such errors never unwind the
/// pipeline: the previous published frame simply stays in place.
#[derive(Debug, Clone, Copy, PartialEq, Eq, Structural)]
pub enum CycleError {
    /// The sample buffer's length is not the configured resolution.
    MismatchedBuffer,
    /// An empty frame reached a stage that needs at least one bin.
    EmptyFrame,
}

impl CycleError {
    /// A short account of the skipped cycle, for the log.
    pub fn message(&self) -> (m: &'static str) {
        match self {
            CycleError::MismatchedBuffer => "sample buffer length differs from the configured resolution; cycle skipped",
            CycleError::EmptyFrame => "empty frame reached the shaper; cycle skipped",
        }
    }
}

/// A bin-for-bin copy of a frame.
#[verifier::loop_isolation(false)]
pub fn copy_frame(s: &Vec<u64>) -> (out: Vec<u64>)
    ensures
        out@ == s@,
{
    let len = s.len();
    let mut out: Vec<u64> = Vec::new();
    let mut i: usize = 0;
    while i < len
        invariant
            out@.len() == i,
            i <= len,
            forall|t: int| 0 <= t < i ==> out@[t] == s@[t],
        decreases len - i,
    {
        out.push(s[i]);
        i = i + 1;
    }
    proof {
        assert(out@ =~= s@);
    }
    out
}

/// Sum of the magnitudes at positions `a..b`.
pub open spec fn sum_range(s: Seq<u64>, a: int, b: int) -> int
    decreases b - a,
{
    if a >= b {
        0
    } else {
        s[a] + sum_range(s, a + 1, b)
    }
}

/// Splitting a sum at its last position.
pub proof fn lemma_sum_range_snoc(s: Seq<u64>, a: int, b: int)
    requires
        a < b,
    ensures
        sum_range(s, a, b) == sum_range(s, a, b - 1) + s[b - 1],
    decreases b - a,
{
    if a + 1 < b {
        lemma_sum_range_snoc(s, a + 1, b);
        assert(sum_range(s, a, b) == s[a] + sum_range(s, a + 1, b));
        assert(sum_range(s, a, b - 1) == s[a] + sum_range(s, a + 1, b - 1));
    } else {
        assert(sum_range(s, a, b) == s[a] + sum_range(s, a + 1, b));
        assert(sum_range(s, a + 1, b) == 0);
        assert(sum_range(s, a, b - 1) == 0);
    }
}

} // verus!

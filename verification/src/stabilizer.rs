//! The temporal stabilizer: blends each shaped frame with prior state by a
//! weighted history average and a gravity-decay law, then smooths across
//! neighbouring bins.
//!
//! Order per cycle, fixed for every session: history average, then gravity
//! decay against the previous decayed frame, then horizontal smoothing. The
//! stored state is the decayed frame, before horizontal smoothing.

use vstd::prelude::*;

use crate::frame::{frame_bounded, lemma_sum_range_snoc, sum_range, MAG_MAX};

verus! {

/// Gravity-decay value of bin `i`: the larger of the new and the previous
/// value (absent bins count as zero), divided by the gravity factor (in
/// thousandths).
pub open spec fn gravity_val_spec(new: Seq<u64>, prev: Seq<u64>, gravity: int, i: int) -> int {
    let n = if i < new.len() {
        new[i] as int
    } else {
        0
    };
    let p = if i < prev.len() {
        prev[i] as int
    } else {
        0
    };
    let m = if n > p {
        n
    } else {
        p
    };
    (m * 1000) / gravity
}

/// The decayed frame: as long as the longer of the two frames.
pub open spec fn gravity_seq_spec(new: Seq<u64>, prev: Seq<u64>, gravity: int) -> Seq<u64> {
    let len = if new.len() > prev.len() {
        new.len()
    } else {
        prev.len()
    };
    Seq::new(len, |i: int| gravity_val_spec(new, prev, gravity, i) as u64)
}

/// A value divided by a gravity of at least 1.0 never grows and never turns
/// negative.
proof fn lemma_gravity_le(m: int, gravity: int)
    requires
        0 <= m,
        1000 <= gravity,
    ensures
        0 <= (m * 1000) / gravity <= m,
{
    vstd::arithmetic::mul::lemma_mul_nonnegative(m, 1000);
    vstd::arithmetic::div_mod::lemma_div_pos_is_pos(m * 1000, gravity);
    vstd::arithmetic::div_mod::lemma_div_is_ordered_by_denominator(m * 1000, 1000, gravity);
    vstd::arithmetic::mul::lemma_mul_is_commutative(m, 1000);
    vstd::arithmetic::div_mod::lemma_div_multiples_vanish(m, 1000);
}

/// Combines the new frame with the previous one: an immediate rise on
/// louder bins, a gradual decay elsewhere.
#[verifier::loop_isolation(false)]
pub fn apply_gravity(new: &Vec<u64>, prev: &Vec<u64>, gravity: u32) -> (out: Vec<u64>)
    requires
        frame_bounded(new@),
        frame_bounded(prev@),
        1000 <= gravity,
    ensures
        out@ == gravity_seq_spec(new@, prev@, gravity as int),
        frame_bounded(out@),
        out@.len() == if new@.len() > prev@.len() {
            new@.len()
        } else {
            prev@.len()
        },
{
    let len: usize = if new.len() > prev.len() {
        new.len()
    } else {
        prev.len()
    };
    let mut out: Vec<u64> = Vec::new();
    let mut i: usize = 0;
    while i < len
        invariant
            out@.len() == i,
            i <= len,
            forall|t: int|
                0 <= t < i ==> #[trigger] out@[t] as int == gravity_val_spec(
                    new@,
                    prev@,
                    gravity as int,
                    t,
                ),
            forall|t: int| 0 <= t < i ==> out@[t] <= MAG_MAX,
        decreases len - i,
    {
        let n: u64 = if i < new.len() {
            new[i]
        } else {
            0
        };
        let p: u64 = if i < prev.len() {
            prev[i]
        } else {
            0
        };
        let m: u64 = if n > p {
            n
        } else {
            p
        };
        proof {
            lemma_gravity_le(m as int, gravity as int);
            vstd::arithmetic::mul::lemma_mul_upper_bound(m as int, MAG_MAX as int, 1000, 1000);
        }
        let v: u64 = (m * 1000) / (gravity as u64);
        out.push(v);
        i = i + 1;
    }
    proof {
        assert(out@ =~= gravity_seq_spec(new@, prev@, gravity as int));
    }
    out
}

/// Weighted sum of bin `x` over the first `upto` history frames: frame `z`
/// (0 is oldest) weighs `z + 1`, so recent frames dominate.
pub open spec fn weighted_sum_spec(history: Seq<Seq<u64>>, x: int, upto: int) -> int
    decreases upto,
{
    if upto <= 0 {
        0
    } else {
        let f = history[upto - 1];
        let v = if 0 <= x < f.len() {
            f[x] as int
        } else {
            0
        };
        weighted_sum_spec(history, x, upto - 1) + v * upto
    }
}

/// Sum of the weights `1 ..= n`.
pub open spec fn weight_total_spec(n: int) -> int
    decreases n,
{
    if n <= 0 {
        0
    } else {
        weight_total_spec(n - 1) + n
    }
}

/// Weight totals over at most 101 frames stay small.
proof fn lemma_weight_total_le(n: int)
    requires
        0 <= n <= 101,
    ensures
        0 <= weight_total_spec(n) <= 101 * n,
    decreases n,
{
    if n > 0 {
        lemma_weight_total_le(n - 1);
    }
}

/// The weight total of at least one frame is positive.
proof fn lemma_weight_total_pos(n: int)
    requires
        1 <= n,
    ensures
        1 <= weight_total_spec(n),
    decreases n,
{
    if n > 1 {
        lemma_weight_total_pos(n - 1);
    } else {
        assert(weight_total_spec(0) == 0);
    }
}

/// Bin `x` of the history average.
pub open spec fn history_avg_val_spec(history: Seq<Seq<u64>>, x: int) -> int {
    weighted_sum_spec(history, x, history.len() as int) / weight_total_spec(history.len() as int)
}

/// The history average, as long as the newest frame.
pub open spec fn history_avg_seq_spec(history: Seq<Seq<u64>>) -> Seq<u64> {
    let len = if history.len() > 0 {
        history[history.len() - 1].len()
    } else {
        0
    };
    Seq::new(len, |x: int| history_avg_val_spec(history, x) as u64)
}

/// A weighted sum of bounded bins is bounded by the weight total times the
/// bound.
proof fn lemma_weighted_sum_bound(history: Seq<Seq<u64>>, x: int, upto: int)
    requires
        upto <= history.len(),
        forall|z: int| 0 <= z < history.len() ==> frame_bounded(#[trigger] history[z]),
    ensures
        0 <= weighted_sum_spec(history, x, upto) <= weight_total_spec(upto) * (MAG_MAX as int),
    decreases upto,
{
    if upto <= 0 {
        vstd::arithmetic::mul::lemma_mul_by_zero_is_zero(MAG_MAX as int);
    } else {
        lemma_weighted_sum_bound(history, x, upto - 1);
        let f = history[upto - 1];
        let v = if 0 <= x < f.len() {
            f[x] as int
        } else {
            0
        };
        vstd::arithmetic::mul::lemma_mul_upper_bound(v, MAG_MAX as int, upto, upto);
        vstd::arithmetic::mul::lemma_mul_is_commutative(v, upto);
        assert((weight_total_spec(upto - 1) + upto) * (MAG_MAX as int) == weight_total_spec(
            upto - 1,
        ) * (MAG_MAX as int) + upto * (MAG_MAX as int)) by (nonlinear_arith);
    }
}

/// Blends the buffered frames into one, weighting recent frames more, which
/// lowers perceived latency. The result is as long as the newest frame.
#[verifier::loop_isolation(false)]
pub fn smooth_buffer(history: &Vec<Vec<u64>>) -> (out: Vec<u64>)
    requires
        1 <= history@.len() <= 101,
        forall|z: int| 0 <= z < history@.len() ==> frame_bounded(#[trigger] history@[z]@),
    ensures
        out@ == history_avg_seq_spec(history@.map_values(|f: Vec<u64>| f@)),
        out@.len() == history@[history@.len() - 1]@.len(),
        frame_bounded(out@),
{
    let ghost hseq = history@.map_values(|f: Vec<u64>| f@);
    let hlen = history.len();
    let len = history[hlen - 1].len();
    let mut total: u64 = 0;
    let mut k: usize = 0;
    while k < hlen
        invariant
            k <= hlen,
            total == weight_total_spec(k as int),
            total <= 101 * k,
        decreases hlen - k,
    {
        total = total + ((k as u64) + 1);
        k = k + 1;
    }
    proof {
        lemma_weight_total_pos(hlen as int);
    }
    let mut out: Vec<u64> = Vec::new();
    let mut x: usize = 0;
    while x < len
        invariant
            out@.len() == x,
            x <= len,
            forall|t: int|
                0 <= t < x ==> #[trigger] out@[t] as int == history_avg_val_spec(hseq, t),
            forall|t: int| 0 <= t < x ==> out@[t] <= MAG_MAX,
        decreases len - x,
    {
        let mut acc: u64 = 0;
        let mut z: usize = 0;
        while z < hlen
            invariant
                z <= hlen,
                acc as int == weighted_sum_spec(hseq, x as int, z as int),
                acc as int <= weight_total_spec(z as int) * (MAG_MAX as int),
            decreases hlen - z,
        {
            let f = &history[z];
            let v: u64 = if x < f.len() {
                f[x]
            } else {
                0
            };
            proof {
                assert(hseq[z as int] == history@[z as int]@);
                assert(frame_bounded(history@[z as int]@));
                assert(weight_total_spec(z as int + 1) == weight_total_spec(z as int) + (z as int
                    + 1));
                lemma_weight_total_le(z as int);
                lemma_weight_total_le(z as int + 1);
                vstd::arithmetic::mul::lemma_mul_upper_bound(v as int, MAG_MAX as int, z as int + 1, 102);
                vstd::arithmetic::mul::lemma_mul_nonnegative(v as int, z as int + 1);
                vstd::arithmetic::mul::lemma_mul_inequality(v as int, MAG_MAX as int, z as int + 1);
                vstd::arithmetic::mul::lemma_mul_is_commutative(v as int, z as int + 1);
                vstd::arithmetic::mul::lemma_mul_is_commutative(MAG_MAX as int, z as int + 1);
                vstd::arithmetic::mul::lemma_mul_inequality(
                    weight_total_spec(z as int),
                    10201,
                    MAG_MAX as int,
                );
                assert((weight_total_spec(z as int) + (z as int + 1)) * (MAG_MAX as int)
                    == weight_total_spec(z as int) * (MAG_MAX as int) + (z as int + 1) * (
                MAG_MAX as int)) by (nonlinear_arith);
            }
            acc = acc + v * ((z as u64) + 1);
            z = z + 1;
        }
        proof {
            lemma_weighted_sum_bound(hseq, x as int, hlen as int);
            vstd::arithmetic::div_mod::lemma_div_pos_is_pos(acc as int, total as int);
            vstd::arithmetic::div_mod::lemma_div_is_ordered(
                acc as int,
                weight_total_spec(hlen as int) * (MAG_MAX as int),
                total as int,
            );
            vstd::arithmetic::div_mod::lemma_div_multiples_vanish(
                MAG_MAX as int,
                weight_total_spec(hlen as int),
            );
        }
        let val: u64 = acc / total;
        out.push(val);
        x = x + 1;
    }
    proof {
        assert(out@ =~= history_avg_seq_spec(hseq));
    }
    out
}

/// Bin `i` after one horizontal smoothing pass: the mean of the forward
/// window of at most `w` bins.
pub open spec fn smooth_val_spec(s: Seq<u64>, w: int, i: int) -> int {
    let hi = if i + w < s.len() {
        i + w
    } else {
        s.len() as int
    };
    sum_range(s, i, hi) / (hi - i)
}

/// The frame after one horizontal smoothing pass.
pub open spec fn smooth_seq_spec(s: Seq<u64>, w: int) -> Seq<u64> {
    Seq::new(s.len(), |i: int| smooth_val_spec(s, w, i) as u64)
}

/// The frame after `passes` horizontal smoothing passes.
pub open spec fn smooth_iter_seq_spec(s: Seq<u64>, w: int, passes: int) -> Seq<u64>
    decreases passes,
{
    if passes <= 0 {
        s
    } else {
        smooth_iter_seq_spec(smooth_seq_spec(s, w), w, passes - 1)
    }
}

/// One horizontal smoothing pass.
#[verifier::loop_isolation(false)]
fn smooth_pass(s: &Vec<u64>, w: u32) -> (out: Vec<u64>)
    requires
        frame_bounded(s@),
        s@.len() <= 0x0100_0000,
        1 <= w <= 1024,
    ensures
        out@ == smooth_seq_spec(s@, w as int),
        out@.len() == s@.len(),
        frame_bounded(out@),
{
    let len = s.len();
    let mut out: Vec<u64> = Vec::new();
    let mut i: usize = 0;
    while i < len
        invariant
            out@.len() == i,
            i <= len,
            forall|t: int|
                0 <= t < i ==> #[trigger] out@[t] as int == smooth_val_spec(s@, w as int, t),
            forall|t: int| 0 <= t < i ==> out@[t] <= MAG_MAX,
        decreases len - i,
    {
        let hi: usize = if i + (w as usize) < len {
            i + (w as usize)
        } else {
            len
        };
        let mut acc: u64 = 0;
        let mut c: usize = i;
        while c < hi
            invariant
                i <= c <= hi,
                hi <= len,
                acc as int == sum_range(s@, i as int, c as int),
                acc as int <= (c - i) * (MAG_MAX as int),
            decreases hi - c,
        {
            proof {
                lemma_sum_range_snoc(s@, i as int, c as int + 1);
            }
            acc = acc + s[c];
            c = c + 1;
        }
        proof {
            vstd::arithmetic::div_mod::lemma_div_pos_is_pos(acc as int, hi as int - i as int);
            vstd::arithmetic::div_mod::lemma_div_is_ordered(
                acc as int,
                (hi - i) as int * (MAG_MAX as int),
                (hi - i) as int,
            );
            vstd::arithmetic::div_mod::lemma_div_multiples_vanish(MAG_MAX as int, (hi - i) as int);
        }
        let val: u64 = acc / ((hi - i) as u64);
        out.push(val);
        i = i + 1;
    }
    proof {
        assert(out@ =~= smooth_seq_spec(s@, w as int));
    }
    out
}

/// Applies `passes` horizontal smoothing passes.
#[verifier::loop_isolation(false)]
pub fn smooth_horizontal(s: &Vec<u64>, w: u32, passes: u32) -> (out: Vec<u64>)
    requires
        frame_bounded(s@),
        s@.len() <= 0x0100_0000,
        1 <= w <= 1024,
        passes <= 100,
    ensures
        out@ == smooth_iter_seq_spec(s@, w as int, passes as int),
        out@.len() == s@.len(),
        frame_bounded(out@),
{
    let ghost orig = s@;
    let mut cur = crate::frame::copy_frame(s);
    let mut k: u32 = 0;
    while k < passes
        invariant
            k <= passes,
            smooth_iter_seq_spec(orig, w as int, passes as int) == smooth_iter_seq_spec(
                cur@,
                w as int,
                (passes - k) as int,
            ),
            cur@.len() == orig.len(),
            frame_bounded(cur@),
        decreases passes - k,
    {
        let next = smooth_pass(&cur, w);
        cur = next;
        k = k + 1;
    }
    cur
}

/// Holds the state the stabilizer carries between cycles and applies all
/// three mechanisms to each incoming frame.
pub struct TemporalStabilizer {
    /// Decay divisor in thousandths, at least 1000.
    pub gravity: u32,
    /// How many recent frames the history average blends (0 and 1 both mean
    /// only the current frame).
    pub buffering: u32,
    /// Window of one horizontal smoothing pass.
    pub smoothing_size: u32,
    /// Number of horizontal smoothing passes.
    pub smoothing_amount: u32,
    /// The previous decayed frame.
    pub prev: Vec<u64>,
    /// The rolling window of recent shaped frames, oldest first.
    pub history: Vec<Vec<u64>>,
}

impl TemporalStabilizer {
    /// The option ranges the stabilizer's arithmetic is proved under, and
    /// the state bounds it maintains.
    pub open spec fn wf(&self) -> bool {
        &&& 1000 <= self.gravity
        &&& self.buffering <= 100
        &&& 1 <= self.smoothing_size <= 1024
        &&& self.smoothing_amount <= 100
        &&& frame_bounded(self.prev@)
        &&& self.prev@.len() <= 0x0100_0000
        &&& self.history@.len() <= 101
        &&& forall|z: int|
            0 <= z < self.history@.len() ==> frame_bounded(#[trigger] self.history@[z]@)
        &&& forall|z: int|
            0 <= z < self.history@.len() ==> (#[trigger] self.history@[z]@).len() <= 0x0100_0000
    }

    /// A fresh stabilizer: no prior state, so the previous frame counts as
    /// all-zero.
    pub fn new(c: &crate::config::Config) -> (t: TemporalStabilizer)
        requires
            crate::config::valid_config(*c),
        ensures
            t.wf(),
            t.gravity == c.processing.gravity,
            t.buffering == c.processing.buffering,
            t.smoothing_size == c.visual.smoothing_size,
            t.smoothing_amount == c.visual.smoothing_amount,
            t.prev@.len() == 0,
            t.history@.len() == 0,
    {
        TemporalStabilizer {
            gravity: c.processing.gravity,
            buffering: c.processing.buffering,
            smoothing_size: c.visual.smoothing_size,
            smoothing_amount: c.visual.smoothing_amount,
            prev: Vec::new(),
            history: Vec::new(),
        }
    }

    /// Stabilizes one frame: the frame joins the rolling history, whose
    /// weighted average is decayed against the previous cycle's result by
    /// the gravity law and then smoothed horizontally. The decayed frame,
    /// before smoothing, becomes the state for the next cycle.
    #[verifier::loop_isolation(false)]
    pub fn stabilize(&mut self, frame: Vec<u64>) -> (out: Vec<u64>)
        requires
            old(self).wf(),
            frame_bounded(frame@),
            frame@.len() <= 0x0100_0000,
        ensures
            final(self).wf(),
            final(self).gravity == old(self).gravity,
            final(self).buffering == old(self).buffering,
            final(self).smoothing_size == old(self).smoothing_size,
            final(self).smoothing_amount == old(self).smoothing_amount,
            ({
                let cap = if old(self).buffering > 1 {
                    old(self).buffering as int
                } else {
                    1
                };
                let pushed = old(self).history@.push(frame).map_values(|f: Vec<u64>| f@);
                let trimmed = pushed.subrange(
                    if pushed.len() > cap {
                        pushed.len() - cap
                    } else {
                        0
                    },
                    pushed.len() as int,
                );
                let avg = history_avg_seq_spec(trimmed);
                let decayed = gravity_seq_spec(avg, old(self).prev@, old(self).gravity as int);
                &&& final(self).history@.map_values(|f: Vec<u64>| f@) == trimmed
                &&& final(self).prev@ == decayed
                &&& out@ == smooth_iter_seq_spec(
                    decayed,
                    old(self).smoothing_size as int,
                    old(self).smoothing_amount as int,
                )
            }),
            frame_bounded(out@),
    {
        let cap: usize = if self.buffering > 1 {
            self.buffering as usize
        } else {
            1
        };
        let ghost pushedv = old(self).history@.push(frame);
        self.history.push(frame);
        let hlen = self.history.len();
        if hlen > cap {
            let start: usize = hlen - cap;
            let mut trimmed: Vec<Vec<u64>> = Vec::new();
            let mut t: usize = start;
            while t < hlen
                invariant
                    self.history@ == pushedv,
                    start <= t <= hlen,
                    hlen == pushedv.len(),
                    trimmed@.len() == t - start,
                    forall|u: int|
                        0 <= u < trimmed@.len() ==> #[trigger] trimmed@[u]@ == pushedv[
                            start + u
                        ]@,
                decreases hlen - t,
            {
                let f = crate::frame::copy_frame(&self.history[t]);
                trimmed.push(f);
                t = t + 1;
            }
            self.history = trimmed;
        }
        proof {
            let lo: int = if pushedv.len() > cap as int {
                pushedv.len() - cap as int
            } else {
                0
            };
            assert(self.history@.map_values(|f: Vec<u64>| f@) =~= pushedv.map_values(
                |f: Vec<u64>| f@,
            ).subrange(lo, pushedv.len() as int));
            assert forall|z: int| 0 <= z < self.history@.len() implies frame_bounded(
                #[trigger] self.history@[z]@,
            ) && self.history@[z]@.len() <= 0x0100_0000 by {
                assert(self.history@[z]@ == pushedv[lo + z]@);
            }
            assert(self.history@[self.history@.len() - 1]@ == frame@);
        }
        let avg = smooth_buffer(&self.history);
        let decayed = apply_gravity(&avg, &self.prev, self.gravity);
        let out = smooth_horizontal(&decayed, self.smoothing_size, self.smoothing_amount);
        self.prev = decayed;
        proof {
            let pushed0 = pushedv.map_values(|f: Vec<u64>| f@);
            assert(self.history@.map_values(|f: Vec<u64>| f@) =~= pushed0.subrange(
                if pushed0.len() > cap as int {
                    pushed0.len() - cap as int
                } else {
                    0
                },
                pushed0.len() as int,
            ));
        }
        out
    }
}

/// One gravity-decay step from a non-negative value, with gravity above
/// 1.0, never turns negative, never grows, and strictly falls while the
/// value is positive.
pub proof fn lemma_gravity_decay_step(v: int, g: int)
    requires
        0 <= v,
        1000 < g,
    ensures
        0 <= (v * 1000) / g <= v,
        v > 0 ==> (v * 1000) / g < v,
{
    lemma_gravity_le(v, g);
    if v > 0 {
        vstd::arithmetic::mul::lemma_mul_strict_inequality(1000, g, v);
        vstd::arithmetic::mul::lemma_mul_is_commutative(1000, v);
        vstd::arithmetic::mul::lemma_mul_is_commutative(g, v);
        assert(v * g - 1 == (v - 1) * g + (g - 1)) by (nonlinear_arith);
        vstd::arithmetic::div_mod::lemma_fundamental_div_mod_converse_div(
            v * g - 1,
            g,
            v - 1,
            g - 1,
        );
        vstd::arithmetic::div_mod::lemma_div_is_ordered(v * 1000, v * g - 1, g);
    }
}

/// On an all-zero incoming frame the stabilizer's gravity value at a live
/// position is exactly one decay step of the previous value: it never turns
/// negative, never grows, and strictly falls while the value is positive.
pub proof fn lemma_gravity_zero_frame(zeros: Seq<u64>, prev: Seq<u64>, g: int, i: int)
    requires
        crate::frame::frame_zero(zeros),
        0 <= i < prev.len(),
        1000 < g,
    ensures
        gravity_val_spec(zeros, prev, g, i) == (prev[i] * 1000) / g,
        0 <= gravity_val_spec(zeros, prev, g, i) <= prev[i],
        prev[i] > 0 ==> gravity_val_spec(zeros, prev, g, i) < prev[i],
{
    lemma_gravity_decay_step(prev[i] as int, g);
}

/// The value at an impulse's position after `k` all-zero frames under the
/// gravity law.
pub open spec fn decay_iter_spec(v: int, g: int, k: int) -> int
    decreases k,
{
    if k <= 0 {
        v
    } else {
        (decay_iter_spec(v, g, k - 1) * 1000) / g
    }
}

/// Gravity decay of a single impulse followed by silence: the sequence of
/// values never turns negative, never rises, and falls strictly at every
/// step until it reaches zero.
pub proof fn lemma_gravity_decay_chain(v: int, g: int, k: int)
    requires
        0 <= v,
        1000 < g,
        0 <= k,
    ensures
        0 <= decay_iter_spec(v, g, k + 1) <= decay_iter_spec(v, g, k) <= v,
        decay_iter_spec(v, g, k) > 0 ==> decay_iter_spec(v, g, k + 1) < decay_iter_spec(v, g, k),
    decreases k,
{
    assert(decay_iter_spec(v, g, 0) == v);
    if k == 0 {
        lemma_gravity_decay_step(v, g);
        assert(decay_iter_spec(v, g, 1) == (decay_iter_spec(v, g, 0) * 1000) / g);
    } else {
        lemma_gravity_decay_chain(v, g, k - 1);
        lemma_gravity_decay_step(decay_iter_spec(v, g, k), g);
        assert(decay_iter_spec(v, g, k + 1) == (decay_iter_spec(v, g, k) * 1000) / g);
    }
}

} // verus!

//! The frequency shaper: non-linear bin redistribution ("normalization"),
//! favourite-band emphasis and low-frequency compensation.

use vstd::prelude::*;

use crate::fixed::{pow_quarter, pow_quarter_spec, FP_ONE};
use crate::frame::{frame_bounded, CycleError, MAG_MAX};
use crate::transform::CEILING_HZ;

verus! {

/// Exponent of the partial loudness compensation applied before
/// redistribution, in quarters: three quarters.
pub const LOUDNESS_QUARTERS: u32 = 3;

/// Loudness weight of bin `i` of `len`: `((i + 1) / len) ^ (3/4)` in fixed
/// point.
pub open spec fn loudness_spec(i: int, len: int) -> int {
    pow_quarter_spec(((i + 1) * FP_ONE) / len, LOUDNESS_QUARTERS as int)
}

/// Bin `i` scaled by its loudness weight.
pub open spec fn scaled_val_spec(s: Seq<u64>, i: int) -> int {
    (s[i] * loudness_spec(i, s.len() as int)) / (FP_ONE as int)
}

/// The whole loudness-scaled frame.
pub open spec fn scaled_seq_spec(s: Seq<u64>) -> Seq<u64> {
    Seq::new(s.len(), |i: int| scaled_val_spec(s, i) as u64)
}

/// Scales every bin by its loudness weight: low bins are damped most, the
/// last bin keeps its value's scale.
#[verifier::loop_isolation(false)]
pub fn scale_loudness(frame: &Vec<u64>) -> (out: Vec<u64>)
    requires
        1 <= frame@.len() <= 16384,
        frame_bounded(frame@),
    ensures
        out@ == scaled_seq_spec(frame@),
        out@.len() == frame@.len(),
        forall|i: int| 0 <= i < out@.len() ==> #[trigger] out@[i] as int == scaled_val_spec(
            frame@,
            i,
        ),
        frame_bounded(out@),
{
    let len = frame.len();
    let mut out: Vec<u64> = Vec::new();
    let mut i: usize = 0;
    while i < len
        invariant
            out@.len() == i,
            i <= len,
            forall|t: int| 0 <= t < i ==> #[trigger] out@[t] as int == scaled_val_spec(frame@, t),
            forall|t: int| 0 <= t < i ==> out@[t] <= MAG_MAX,
        decreases len - i,
    {
        let num: usize = (i + 1) * (FP_ONE as usize);
        proof {
            vstd::arithmetic::mul::lemma_mul_inequality(i + 1, len as int, FP_ONE as int);
            vstd::arithmetic::div_mod::lemma_div_is_ordered(
                (i + 1) * FP_ONE,
                (len as int) * FP_ONE,
                len as int,
            );
            vstd::arithmetic::mul::lemma_mul_is_commutative(len as int, FP_ONE as int);
            vstd::arithmetic::div_mod::lemma_div_multiples_vanish(FP_ONE as int, len as int);
            vstd::arithmetic::div_mod::lemma_div_pos_is_pos((i + 1) * FP_ONE, len as int);
        }
        let lf: usize = num / len;
        let lw: u64 = pow_quarter(lf as u64, LOUDNESS_QUARTERS);
        let v = frame[i];
        proof {
            vstd::arithmetic::mul::lemma_mul_upper_bound(
                v as int,
                MAG_MAX as int,
                lw as int,
                FP_ONE as int,
            );
            vstd::arithmetic::mul::lemma_mul_inequality(lw as int, FP_ONE as int, v as int);
            vstd::arithmetic::mul::lemma_mul_is_commutative(v as int, lw as int);
            vstd::arithmetic::mul::lemma_mul_is_commutative(v as int, FP_ONE as int);
            vstd::arithmetic::div_mod::lemma_div_is_ordered(
                (v as int) * (lw as int),
                (v as int) * FP_ONE,
                FP_ONE as int,
            );
            vstd::arithmetic::div_mod::lemma_div_multiples_vanish(v as int, FP_ONE as int);
            vstd::arithmetic::mul::lemma_mul_is_commutative(FP_ONE as int, v as int);
            vstd::arithmetic::mul::lemma_mul_nonnegative(v as int, lw as int);
            vstd::arithmetic::div_mod::lemma_div_pos_is_pos((v as int) * (lw as int), FP_ONE as int);
        }
        let scaled: u64 = (v * lw) / (FP_ONE as u64);
        out.push(scaled);
        i = i + 1;
    }
    proof {
        assert(out@ =~= scaled_seq_spec(frame@));
    }
    out
}

/// Target slot of input bin `i` under redistribution with a quarters
/// exponent `q`: `i * (len / (i + 1)) ^ (q/4)`, clamped into the frame.
pub open spec fn offset_spec(len: int, q: int, i: int) -> int {
    let ratio = (len * FP_ONE) / (i + 1);
    let p = pow_quarter_spec(ratio, q);
    let off = (i * p) / (FP_ONE as int);
    if off < len {
        off
    } else {
        len - 1
    }
}

/// Largest value among the first `upto` input bins that map to slot `j`;
/// -1 when none does.
pub open spec fn slot_max_spec(s: Seq<u64>, q: int, j: int, upto: int) -> int
    decreases upto,
{
    if upto <= 0 {
        -1
    } else {
        let prev = slot_max_spec(s, q, j, upto - 1);
        if offset_spec(s.len() as int, q, upto - 1) == j {
            if s[upto - 1] > prev {
                s[upto - 1] as int
            } else {
                prev
            }
        } else {
            prev
        }
    }
}

/// Whether any input bin maps to slot `j`.
pub open spec fn slot_filled_spec(s: Seq<u64>, q: int, j: int) -> bool {
    slot_max_spec(s, q, j, s.len() as int) >= 0
}

/// A slot maximum is either -1 or one of the frame's values, so it stays
/// within the frame's bound.
pub proof fn lemma_slot_max_range(s: Seq<u64>, q: int, j: int, upto: int, m: int)
    requires
        upto <= s.len(),
        forall|i: int| 0 <= i < s.len() ==> s[i] <= m,
        0 <= m,
    ensures
        -1 <= slot_max_spec(s, q, j, upto) <= m,
    decreases upto,
{
    if upto > 0 {
        lemma_slot_max_range(s, q, j, upto - 1, m);
    }
}

/// The slot an input bin maps to holds at least that bin's value.
pub proof fn lemma_slot_hit(s: Seq<u64>, q: int, i: int, upto: int)
    requires
        0 <= i < upto <= s.len(),
    ensures
        slot_max_spec(s, q, offset_spec(s.len() as int, q, i), upto) >= s[i],
    decreases upto,
{
    if i < upto - 1 {
        lemma_slot_hit(s, q, i, upto - 1);
    }
}

/// Input bin 0 maps to slot 0.
pub proof fn lemma_offset_zero(len: int, q: int)
    requires
        1 <= len,
        0 <= q,
    ensures
        offset_spec(len, q, 0) == 0,
{
    let ratio = (len * FP_ONE) / 1;
    let p = pow_quarter_spec(ratio, q);
    vstd::arithmetic::mul::lemma_mul_by_zero_is_zero(p);
    vstd::arithmetic::div_mod::lemma_basic_div(0, FP_ONE as int);
}

/// The last input bin maps to the last slot.
pub proof fn lemma_offset_last(len: int, q: int)
    requires
        1 <= len,
        0 <= q,
    ensures
        offset_spec(len, q, len - 1) == len - 1,
{
    vstd::arithmetic::div_mod::lemma_div_multiples_vanish(FP_ONE as int, len);
    assert((len * FP_ONE) / len == FP_ONE);
    crate::fixed::lemma_pow_quarter_unit(q);
    vstd::arithmetic::mul::lemma_mul_is_commutative(len - 1, FP_ONE as int);
    vstd::arithmetic::div_mod::lemma_div_multiples_vanish(len - 1, FP_ONE as int);
    assert(((len - 1) * FP_ONE) / (FP_ONE as int) == len - 1);
}

/// Slot 0 and the last slot are always filled.
pub proof fn lemma_edges_filled(s: Seq<u64>, q: int)
    requires
        1 <= s.len(),
        0 <= q,
    ensures
        slot_filled_spec(s, q, 0),
        slot_filled_spec(s, q, s.len() - 1),
{
    let len = s.len() as int;
    lemma_offset_zero(len, q);
    lemma_slot_hit(s, q, 0, len);
    lemma_offset_last(len, q);
    lemma_slot_hit(s, q, len - 1, len);
}

/// Target slot of bin `i`, computed executably.
#[verifier::loop_isolation(false)]
fn offset_of(len: usize, q: u32, i: usize) -> (off: usize)
    requires
        1 <= len <= 16384,
        q <= 4,
        i < len,
    ensures
        off as int == offset_spec(len as int, q as int, i as int),
        off < len,
{
    proof {
        vstd::arithmetic::mul::lemma_mul_inequality(len as int, 16384, FP_ONE as int);
    }
    let num: u64 = (len as u64) * (FP_ONE as u64);
    proof {
        vstd::arithmetic::div_mod::lemma_div_pos_is_pos(num as int, i as int + 1);
        vstd::arithmetic::div_mod::lemma_div_basics_5(num as int, i as int + 1);
    }
    let ratio: u64 = num / ((i + 1) as u64);
    let p: u64 = pow_quarter(ratio, q);
    proof {
        vstd::arithmetic::mul::lemma_mul_upper_bound(i as int, 16384, p as int, 0x1_0000_0000);
        vstd::arithmetic::mul::lemma_mul_nonnegative(i as int, p as int);
        vstd::arithmetic::div_mod::lemma_div_pos_is_pos((i as int) * (p as int), FP_ONE as int);
    }
    let off_u: u64 = ((i as u64) * p) / (FP_ONE as u64);
    if off_u < len as u64 {
        off_u as usize
    } else {
        len - 1
    }
}

/// Nearest filled slot at or before `j` (slot 0 serves as the base case; it
/// is always filled).
pub open spec fn prev_filled_spec(s: Seq<u64>, q: int, j: int) -> int
    decreases j,
{
    if j <= 0 {
        0
    } else if slot_filled_spec(s, q, j) {
        j
    } else {
        prev_filled_spec(s, q, j - 1)
    }
}

/// Nearest filled slot at or after `j` (the last slot serves as the base
/// case; it is always filled).
pub open spec fn next_filled_spec(s: Seq<u64>, q: int, j: int) -> int
    decreases s.len() - j,
{
    if j >= s.len() - 1 {
        s.len() - 1
    } else if slot_filled_spec(s, q, j) {
        j
    } else {
        next_filled_spec(s, q, j + 1)
    }
}

/// Linear interpolation from `a` to `b` at step `t` of `g` (sign-split so
/// every division acts on a non-negative value).
pub open spec fn interp_spec(a: int, b: int, t: int, g: int) -> int {
    if b >= a {
        a + ((b - a) * t) / g
    } else {
        a - ((a - b) * t) / g
    }
}

/// Value of output slot `j` after redistribution: the maximum of the input
/// bins placed there, or, for an empty slot, the linear interpolation
/// between its nearest placed neighbours.
pub open spec fn redistribute_val_spec(s: Seq<u64>, q: int, j: int) -> int {
    let len = s.len() as int;
    if slot_filled_spec(s, q, j) {
        slot_max_spec(s, q, j, len)
    } else {
        let pj = prev_filled_spec(s, q, j);
        let nj = next_filled_spec(s, q, j);
        interp_spec(
            slot_max_spec(s, q, pj, len),
            slot_max_spec(s, q, nj, len),
            j - pj,
            nj - pj,
        )
    }
}

/// The whole redistributed frame.
pub open spec fn redistribute_seq_spec(s: Seq<u64>, q: int) -> Seq<u64> {
    Seq::new(s.len(), |j: int| redistribute_val_spec(s, q, j) as u64)
}

/// Below a filled slot, across a run of unfilled slots, the nearest filled
/// predecessor stays that slot.
proof fn lemma_prev_filled_run(s: Seq<u64>, q: int, last: int, j: int)
    requires
        0 <= last <= j,
        slot_filled_spec(s, q, last),
        forall|u: int| last < u <= j ==> !slot_filled_spec(s, q, u),
    ensures
        prev_filled_spec(s, q, j) == last,
    decreases j - last,
{
    if j > last {
        lemma_prev_filled_run(s, q, last, j - 1);
    }
}

/// Above a filled slot, across a run of unfilled slots, the nearest filled
/// successor stays that slot.
proof fn lemma_next_filled_run(s: Seq<u64>, q: int, j: int, nf: int)
    requires
        0 <= j <= nf <= s.len() - 1,
        slot_filled_spec(s, q, nf),
        forall|u: int| j <= u < nf ==> !slot_filled_spec(s, q, u),
    ensures
        next_filled_spec(s, q, j) == nf,
    decreases nf - j,
{
    if j < nf {
        lemma_next_filled_run(s, q, j + 1, nf);
    }
}

/// A scaled step of a non-negative distance stays within the distance.
proof fn lemma_scaled_step_le(d: int, t: int, g: int)
    requires
        0 <= d,
        0 <= t <= g,
        0 < g,
    ensures
        0 <= (d * t) / g <= d,
{
    vstd::arithmetic::mul::lemma_mul_nonnegative(d, t);
    vstd::arithmetic::div_mod::lemma_div_pos_is_pos(d * t, g);
    vstd::arithmetic::mul::lemma_mul_inequality(t, g, d);
    vstd::arithmetic::mul::lemma_mul_is_commutative(d, t);
    vstd::arithmetic::mul::lemma_mul_is_commutative(d, g);
    vstd::arithmetic::div_mod::lemma_div_is_ordered(d * t, d * g, g);
    vstd::arithmetic::div_mod::lemma_div_multiples_vanish(d, g);
}

/// Redistributes bins towards perceptual spacing: input bin `i` lands on
/// slot `i * (len/(i+1))^(q/4)`; colliding bins keep their maximum, and
/// slots left empty are linearly interpolated between their placed
/// neighbours. The frame's length does not change.
#[verifier::loop_isolation(false)]
pub fn redistribute(s: &Vec<u64>, q: u32) -> (out: Vec<u64>)
    requires
        1 <= s@.len() <= 16384,
        q <= 4,
        frame_bounded(s@),
    ensures
        out@ == redistribute_seq_spec(s@, q as int),
        out@.len() == s@.len(),
        frame_bounded(out@),
{
    let len = s.len();
    let ghost qi = q as int;

    // Placement with maximum tie-break.
    let mut out0: Vec<u64> = Vec::new();
    let mut filled: Vec<bool> = Vec::new();
    let mut j: usize = 0;
    while j < len
        invariant
            out0@.len() == j,
            filled@.len() == j,
            j <= len,
            forall|t: int| 0 <= t < j ==> out0@[t] == 0u64,
            forall|t: int| 0 <= t < j ==> !(#[trigger] filled@[t]),
        decreases len - j,
    {
        out0.push(0);
        filled.push(false);
        j = j + 1;
    }
    let mut i: usize = 0;
    while i < len
        invariant
            out0@.len() == len,
            filled@.len() == len,
            i <= len,
            forall|t: int|
                0 <= t < len ==> (#[trigger] filled@[t] <==> slot_max_spec(s@, qi, t, i as int)
                    >= 0),
            forall|t: int|
                0 <= t < len ==> (filled@[t] ==> #[trigger] out0@[t] as int == slot_max_spec(
                    s@,
                    qi,
                    t,
                    i as int,
                )),
            forall|t: int| 0 <= t < len ==> (!filled@[t] ==> out0@[t] == 0u64),
        decreases len - i,
    {
        let off = offset_of(len, q, i);
        let v = s[i];
        if !filled[off] || v > out0[off] {
            out0[off] = v;
            filled[off] = true;
        }
        i = i + 1;
    }

    // Interpolation of the slots left empty.
    proof {
        lemma_edges_filled(s@, qi);
    }
    let mut out: Vec<u64> = Vec::new();
    let mut last: usize = 0;
    let mut j: usize = 0;
    while j < len
        invariant
            out0@.len() == len,
            filled@.len() == len,
            out@.len() == j,
            j <= len,
            forall|t: int| 0 <= t < len ==> (#[trigger] filled@[t] <==> slot_filled_spec(s@, qi, t)),
            forall|t: int|
                0 <= t < len ==> (filled@[t] ==> #[trigger] out0@[t] as int == slot_max_spec(
                    s@,
                    qi,
                    t,
                    len as int,
                )),
            forall|t: int|
                0 <= t < j ==> #[trigger] out@[t] as int == redistribute_val_spec(s@, qi, t),
            forall|t: int| 0 <= t < j ==> #[trigger] out@[t] <= MAG_MAX,
            j > 0 ==> last < j,
            j > 0 ==> filled@[last as int],
            j > 0 ==> forall|u: int| last < u < j ==> !(#[trigger] filled@[u]),
            j == 0 ==> last == 0,
        decreases len - j,
    {
        if filled[j] {
            let v = out0[j];
            proof {
                lemma_slot_max_range(s@, qi, j as int, len as int, MAG_MAX as int);
            }
            out.push(v);
            last = j;
        } else {
            let mut nf: usize = j + 1;
            while nf < len - 1 && !filled[nf]
                invariant
                    j < nf <= len - 1,
                    forall|u: int| j <= u < nf ==> !(#[trigger] filled@[u]),
                decreases len - nf,
            {
                nf = nf + 1;
            }
            let a = out0[last];
            let b = out0[nf];
            let g: u64 = (nf - last) as u64;
            let t: u64 = (j - last) as u64;
            proof {
                assert forall|u: int| last < u <= j implies !slot_filled_spec(s@, qi, u) by {
                    assert(!filled@[u]);
                }
                assert forall|u: int| j <= u < nf implies !slot_filled_spec(s@, qi, u) by {
                    assert(!filled@[u]);
                }
                assert(filled@[nf as int]);
                lemma_prev_filled_run(s@, qi, last as int, j as int);
                lemma_next_filled_run(s@, qi, j as int, nf as int);
                lemma_slot_max_range(s@, qi, last as int, len as int, MAG_MAX as int);
                lemma_slot_max_range(s@, qi, nf as int, len as int, MAG_MAX as int);
                if b >= a {
                    lemma_scaled_step_le(b as int - a as int, t as int, g as int);
                    vstd::arithmetic::mul::lemma_mul_upper_bound(
                        b as int - a as int,
                        MAG_MAX as int,
                        t as int,
                        16384,
                    );
                } else {
                    lemma_scaled_step_le(a as int - b as int, t as int, g as int);
                    vstd::arithmetic::mul::lemma_mul_upper_bound(
                        a as int - b as int,
                        MAG_MAX as int,
                        t as int,
                        16384,
                    );
                }
            }
            let val: u64 = if b >= a {
                a + ((b - a) * t) / g
            } else {
                a - ((a - b) * t) / g
            };
            out.push(val);
        }
        j = j + 1;
    }
    proof {
        assert(out@ =~= redistribute_seq_spec(s@, qi));
    }
    out
}

/// Fade weight of inserted bin `pos` among `m`: full in the segment's
/// middle, tapering linearly towards both edges; constant when fading is
/// off.
pub open spec fn pass_fade_spec(fade: bool, m: int, pos: int) -> int {
    if !fade {
        FP_ONE as int
    } else {
        let wdt = m / 4 + 1;
        let d0 = if pos + 1 < m - pos {
            pos + 1
        } else {
            m - pos
        };
        let d = if d0 > wdt {
            wdt
        } else {
            d0
        };
        (d * FP_ONE) / wdt
    }
}

/// Value of an inserted bin: its neighbours' midpoint, pulled back towards
/// the left neighbour by the fade weight.
pub open spec fn insert_val_spec(u: int, v: int, f: int) -> int {
    let avg = (u + v) / 2;
    if avg >= u {
        u + ((avg - u) * f) / (FP_ONE as int)
    } else {
        u - ((u - avg) * f) / (FP_ONE as int)
    }
}

/// Length after one insertion pass over the segment `a..b`.
pub open spec fn insert_pass_len_spec(len: int, a: int, b: int) -> int {
    if 0 <= a && a + 1 < b && b <= len {
        len + (b - a - 1)
    } else {
        len
    }
}

/// Value of output bin `j` after one insertion pass: bins outside the
/// segment shift, bins inside alternate between originals and inserted
/// midpoints.
pub open spec fn insert_pass_val_spec(s: Seq<u64>, a: int, b: int, fade: bool, j: int) -> int {
    let m = b - a - 1;
    if j < a {
        s[j] as int
    } else if j < a + 2 * m + 1 {
        let rel = j - a;
        if rel % 2 == 0 {
            s[a + rel / 2] as int
        } else {
            let pos = (rel - 1) / 2;
            insert_val_spec(
                s[a + pos] as int,
                s[a + pos + 1] as int,
                pass_fade_spec(fade, m, pos),
            )
        }
    } else {
        s[j - m] as int
    }
}

/// The whole frame after one insertion pass; a segment of fewer than two
/// bins leaves the frame unchanged.
pub open spec fn insert_pass_seq_spec(s: Seq<u64>, a: int, b: int, fade: bool) -> Seq<u64> {
    if 0 <= a && a + 1 < b && b <= s.len() {
        Seq::new(
            (s.len() + (b - a - 1)) as nat,
            |j: int| insert_pass_val_spec(s, a, b, fade, j) as u64,
        )
    } else {
        s
    }
}

/// Doubles the resolution of the segment `a..b` once: between each pair of
/// neighbours an interpolated bin is inserted, faded near the segment's
/// edges when `fade` is set.
#[verifier::loop_isolation(false)]
fn insert_pass(s: &Vec<u64>, a: usize, b: usize, fade: bool) -> (out: Vec<u64>)
    requires
        s@.len() <= 0x0100_0000,
        frame_bounded(s@),
        a <= s@.len(),
        b <= s@.len(),
    ensures
        out@ == insert_pass_seq_spec(s@, a as int, b as int, fade),
        out@.len() == insert_pass_len_spec(s@.len() as int, a as int, b as int),
        frame_bounded(out@),
        out@.len() <= 2 * s@.len(),
{
    let len = s.len();
    if a + 1 >= b {
        let mut out: Vec<u64> = Vec::new();
        let mut j: usize = 0;
        while j < len
            invariant
                out@.len() == j,
                j <= len,
                forall|t: int| 0 <= t < j ==> out@[t] == s@[t],
            decreases len - j,
        {
            out.push(s[j]);
            j = j + 1;
        }
        proof {
            assert(out@ =~= s@);
        }
        return out;
    }
    let m = b - a - 1;
    let mut out: Vec<u64> = Vec::new();
    let ghost ai = a as int;
    let ghost bi = b as int;

    let mut j: usize = 0;
    while j < a
        invariant
            out@.len() == j,
            j <= a,
            forall|t: int|
                0 <= t < j ==> #[trigger] out@[t] as int == insert_pass_val_spec(s@, ai, bi, fade, t),
            forall|t: int| 0 <= t < j ==> out@[t] <= MAG_MAX,
        decreases a - j,
    {
        out.push(s[j]);
        j = j + 1;
    }

    let mut pos: usize = 0;
    while pos < m
        invariant
            out@.len() == a + 2 * pos,
            pos <= m,
            forall|t: int|
                0 <= t < out@.len() ==> #[trigger] out@[t] as int == insert_pass_val_spec(
                    s@,
                    ai,
                    bi,
                    fade,
                    t,
                ),
            forall|t: int| 0 <= t < out@.len() ==> out@[t] <= MAG_MAX,
        decreases m - pos,
    {
        let u = s[a + pos];
        let v = s[a + pos + 1];
        out.push(u);
        let avg: u64 = (u + v) / 2;
        let f: u64 = if !fade {
            FP_ONE as u64
        } else {
            let wdt: usize = m / 4 + 1;
            let d0: usize = if pos + 1 < m - pos {
                pos + 1
            } else {
                m - pos
            };
            let d: usize = if d0 > wdt {
                wdt
            } else {
                d0
            };
            proof {
                vstd::arithmetic::mul::lemma_mul_inequality(d as int, wdt as int, FP_ONE as int);
                vstd::arithmetic::mul::lemma_mul_nonnegative(d as int, FP_ONE as int);
                vstd::arithmetic::div_mod::lemma_div_is_ordered(
                    (d as int) * FP_ONE,
                    (wdt as int) * FP_ONE,
                    wdt as int,
                );
                vstd::arithmetic::mul::lemma_mul_is_commutative(wdt as int, FP_ONE as int);
                vstd::arithmetic::div_mod::lemma_div_multiples_vanish(FP_ONE as int, wdt as int);
                vstd::arithmetic::div_mod::lemma_div_pos_is_pos((d as int) * FP_ONE, wdt as int);
            }
            (((d as u64) * (FP_ONE as u64)) / (wdt as u64)) as u64
        };
        proof {
            if avg >= u {
                lemma_scaled_step_le(avg as int - u as int, f as int, FP_ONE as int);
            } else {
                lemma_scaled_step_le(u as int - avg as int, f as int, FP_ONE as int);
            }
        }
        let ins: u64 = if avg >= u {
            u + ((avg - u) * f) / (FP_ONE as u64)
        } else {
            u - ((u - avg) * f) / (FP_ONE as u64)
        };
        out.push(ins);
        pos = pos + 1;
    }

    out.push(s[b - 1]);
    let mut j: usize = b;
    while j < len
        invariant
            out@.len() == j + m,
            b <= j <= len,
            forall|t: int|
                0 <= t < out@.len() ==> #[trigger] out@[t] as int == insert_pass_val_spec(
                    s@,
                    ai,
                    bi,
                    fade,
                    t,
                ),
            forall|t: int| 0 <= t < out@.len() ==> out@[t] <= MAG_MAX,
        decreases len - j,
    {
        out.push(s[j]);
        j = j + 1;
    }
    proof {
        assert(out@ =~= insert_pass_seq_spec(s@, ai, bi, fade));
    }
    out
}

/// First bin past the band reaching `hz` in a frame of `len` bins spanning
/// `ceiling` Hz.
pub open spec fn band_edge_spec(len: int, hz: int, ceiling: int) -> int {
    (len * hz) / ceiling
}

/// Maps a frequency to its bin edge in a frame of `len` bins.
fn band_edge(len: usize, hz: u32, ceiling: u32) -> (e: usize)
    requires
        len <= 0x0100_0000,
        hz <= ceiling,
        1 <= ceiling <= 20000,
    ensures
        e as int == band_edge_spec(len as int, hz as int, ceiling as int),
        e <= len,
{
    proof {
        vstd::arithmetic::mul::lemma_mul_upper_bound(len as int, 0x0100_0000, hz as int, 20000);
        vstd::arithmetic::mul::lemma_mul_nonnegative(len as int, hz as int);
        vstd::arithmetic::mul::lemma_mul_inequality(hz as int, ceiling as int, len as int);
        vstd::arithmetic::mul::lemma_mul_is_commutative(len as int, hz as int);
        vstd::arithmetic::mul::lemma_mul_is_commutative(len as int, ceiling as int);
        vstd::arithmetic::div_mod::lemma_div_is_ordered(
            (len as int) * (hz as int),
            (len as int) * (ceiling as int),
            ceiling as int,
        );
        vstd::arithmetic::div_mod::lemma_div_multiples_vanish(len as int, ceiling as int);
        vstd::arithmetic::mul::lemma_mul_is_commutative(ceiling as int, len as int);
        vstd::arithmetic::div_mod::lemma_div_pos_is_pos((len as int) * (hz as int), ceiling as int);
    }
    (((len as u64) * (hz as u64)) / (ceiling as u64)) as usize
}

/// The favourite band's frame after `d` doubling passes; each pass maps the
/// band onto the then-current length.
pub open spec fn fav_emph_seq_spec(s: Seq<u64>, low: int, high: int, d: int) -> Seq<u64>
    decreases d,
{
    if d <= 0 {
        s
    } else {
        let a = band_edge_spec(s.len() as int, low, CEILING_HZ as int);
        let b = band_edge_spec(s.len() as int, high, CEILING_HZ as int);
        fav_emph_seq_spec(insert_pass_seq_spec(s, a, b, true), low, high, d - 1)
    }
}

/// Repeatedly doubles the favourite band's resolution, fading the inserted
/// bins near the band's edges.
#[verifier::loop_isolation(false)]
pub fn favourite_emphasis(s: Vec<u64>, low: u32, high: u32, d: u16) -> (out: Vec<u64>)
    requires
        s@.len() <= 0x0001_0000,
        frame_bounded(s@),
        low <= high <= 20000,
        d <= 4,
    ensures
        out@ == fav_emph_seq_spec(s@, low as int, high as int, d as int),
        frame_bounded(out@),
        out@.len() <= 0x0100_0000,
        s@.len() > 0 ==> out@.len() > 0,
{
    let ghost orig = s@;
    let mut cur = s;
    let mut k: u16 = 0;
    proof {
        vstd::arithmetic::power2::lemma2_to64();
    }
    while k < d
        invariant
            k <= d,
            fav_emph_seq_spec(orig, low as int, high as int, d as int) == fav_emph_seq_spec(
                cur@,
                low as int,
                high as int,
                (d - k) as int,
            ),
            frame_bounded(cur@),
            cur@.len() as int <= 0x0001_0000 * vstd::arithmetic::power2::pow2(k as nat),
            orig.len() > 0 ==> cur@.len() > 0,
        decreases d - k,
    {
        proof {
            vstd::arithmetic::power2::lemma2_to64();
            if k < 4 {
                vstd::arithmetic::power2::lemma_pow2_strictly_increases(k as nat, 4);
            }
            vstd::arithmetic::power2::lemma_pow2_unfold((k + 1) as nat);
        }
        let len = cur.len();
        let a = band_edge(len, low, CEILING_HZ as u32);
        let b = band_edge(len, high, CEILING_HZ as u32);
        proof {
            vstd::arithmetic::mul::lemma_mul_inequality(low as int, high as int, len as int);
            vstd::arithmetic::mul::lemma_mul_is_commutative(len as int, low as int);
            vstd::arithmetic::mul::lemma_mul_is_commutative(len as int, high as int);
            vstd::arithmetic::div_mod::lemma_div_is_ordered(
                (len as int) * (low as int),
                (len as int) * (high as int),
                CEILING_HZ as int,
            );
        }
        let next = insert_pass(&cur, a, b, true);
        cur = next;
        k = k + 1;
    }
    proof {
        vstd::arithmetic::power2::lemma2_to64();
        if (k as nat) < 4 {
            vstd::arithmetic::power2::lemma_pow2_strictly_increases(k as nat, 4);
        }
    }
    cur
}

/// The low band's frame after `d` plain (unfaded) doubling passes; each
/// pass maps the band below the threshold onto the then-current length.
pub open spec fn low_double_seq_spec(s: Seq<u64>, thr: int, maxf: int, d: int) -> Seq<u64>
    decreases d,
{
    if d <= 0 {
        s
    } else {
        let t = band_edge_spec(s.len() as int, thr, maxf);
        low_double_seq_spec(insert_pass_seq_spec(s, 0, t, false), thr, maxf, d - 1)
    }
}

/// Repeatedly doubles the resolution of the band below the threshold.
#[verifier::loop_isolation(false)]
fn low_double(s: Vec<u64>, thr: u32, maxf: u32, d: u16) -> (out: Vec<u64>)
    requires
        s@.len() <= 4096,
        frame_bounded(s@),
        d <= 4,
        thr <= maxf,
        100 <= maxf <= 20000,
    ensures
        out@ == low_double_seq_spec(s@, thr as int, maxf as int, d as int),
        frame_bounded(out@),
        out@.len() <= 0x0001_0000,
        s@.len() > 0 ==> out@.len() > 0,
{
    let ghost orig = s@;
    let mut cur = s;
    let mut k: u16 = 0;
    proof {
        vstd::arithmetic::power2::lemma2_to64();
    }
    while k < d
        invariant
            k <= d,
            low_double_seq_spec(orig, thr as int, maxf as int, d as int) == low_double_seq_spec(
                cur@,
                thr as int,
                maxf as int,
                (d - k) as int,
            ),
            frame_bounded(cur@),
            cur@.len() as int <= 4096 * vstd::arithmetic::power2::pow2(k as nat),
            orig.len() > 0 ==> cur@.len() > 0,
        decreases d - k,
    {
        proof {
            vstd::arithmetic::power2::lemma2_to64();
            if k < 4 {
                vstd::arithmetic::power2::lemma_pow2_strictly_increases(k as nat, 4);
            }
            vstd::arithmetic::power2::lemma_pow2_unfold((k + 1) as nat);
        }
        let len = cur.len();
        let t = band_edge(len, thr, maxf);
        let next = insert_pass(&cur, 0, t, false);
        cur = next;
        k = k + 1;
    }
    proof {
        vstd::arithmetic::power2::lemma2_to64();
        if (k as nat) < 4 {
            vstd::arithmetic::power2::lemma_pow2_strictly_increases(k as nat, 4);
        }
    }
    cur
}

/// Value of bin `j` after box smoothing restricted to the band below `t`:
/// the mean of the window reaching forward at most `w` bins but never past
/// the band's edge.
pub open spec fn low_smooth_val_spec(s: Seq<u64>, t: int, w: int, j: int) -> int {
    if 0 <= j < t {
        let hi = if j + w < t {
            j + w
        } else {
            t
        };
        crate::frame::sum_range(s, j, hi) / (hi - j)
    } else {
        s[j] as int
    }
}

/// The whole frame after in-band box smoothing.
pub open spec fn low_smooth_seq_spec(s: Seq<u64>, t: int, w: int) -> Seq<u64> {
    Seq::new(s.len(), |j: int| low_smooth_val_spec(s, t, w, j) as u64)
}

/// Box-smooths the band below `t` with a forward window of `w` bins.
#[verifier::loop_isolation(false)]
fn low_smooth(s: &Vec<u64>, t: usize, w: u32) -> (out: Vec<u64>)
    requires
        s@.len() <= 0x0100_0000,
        frame_bounded(s@),
        t <= s@.len(),
        1 <= w <= 1024,
    ensures
        out@ == low_smooth_seq_spec(s@, t as int, w as int),
        out@.len() == s@.len(),
        frame_bounded(out@),
{
    let len = s.len();
    let mut out: Vec<u64> = Vec::new();
    let mut j: usize = 0;
    while j < len
        invariant
            out@.len() == j,
            j <= len,
            forall|u: int|
                0 <= u < j ==> #[trigger] out@[u] as int == low_smooth_val_spec(
                    s@,
                    t as int,
                    w as int,
                    u,
                ),
            forall|u: int| 0 <= u < j ==> out@[u] <= MAG_MAX,
        decreases len - j,
    {
        if j < t {
            let hi: usize = if j + (w as usize) < t {
                j + (w as usize)
            } else {
                t
            };
            let mut acc: u64 = 0;
            let mut c: usize = j;
            while c < hi
                invariant
                    j <= c <= hi,
                    acc as int == crate::frame::sum_range(s@, j as int, c as int),
                    acc as int <= (c - j) * (MAG_MAX as int),
                decreases hi - c,
            {
                proof {
                    crate::frame::lemma_sum_range_snoc(s@, j as int, c as int + 1);
                }
                acc = acc + s[c];
                c = c + 1;
            }
            proof {
                vstd::arithmetic::div_mod::lemma_div_pos_is_pos(acc as int, hi as int - j as int);
                vstd::arithmetic::div_mod::lemma_div_is_ordered(
                    acc as int,
                    (hi - j) as int * (MAG_MAX as int),
                    (hi - j) as int,
                );
                vstd::arithmetic::div_mod::lemma_div_multiples_vanish(
                    MAG_MAX as int,
                    (hi - j) as int,
                );
            }
            let val: u64 = acc / ((hi - j) as u64);
            out.push(val);
        } else {
            out.push(s[j]);
        }
        j = j + 1;
    }
    proof {
        assert(out@ =~= low_smooth_seq_spec(s@, t as int, w as int));
    }
    out
}

/// Value of bin `j` after the low-end fade: bins below `t` are scaled by a
/// factor that rises linearly from `1000 - fading` thousandths at bin 0 to
/// full scale at the band's edge.
pub open spec fn low_fade_val_spec(s: Seq<u64>, t: int, fading: int, j: int) -> int {
    if 0 <= j < t {
        let factor = 1000 - (fading * (t - j)) / t;
        (s[j] * factor) / 1000
    } else {
        s[j] as int
    }
}

/// The whole frame after the low-end fade.
pub open spec fn low_fade_seq_spec(s: Seq<u64>, t: int, fading: int) -> Seq<u64> {
    Seq::new(s.len(), |j: int| low_fade_val_spec(s, t, fading, j) as u64)
}

/// Scales down the very lowest bins, which otherwise overwhelm the picture.
#[verifier::loop_isolation(false)]
fn low_fade(s: &Vec<u64>, t: usize, fading: u32) -> (out: Vec<u64>)
    requires
        s@.len() <= 0x0100_0000,
        frame_bounded(s@),
        1 <= t <= s@.len(),
        fading <= 1000,
    ensures
        out@ == low_fade_seq_spec(s@, t as int, fading as int),
        out@.len() == s@.len(),
        frame_bounded(out@),
{
    let len = s.len();
    let mut out: Vec<u64> = Vec::new();
    let mut j: usize = 0;
    while j < len
        invariant
            out@.len() == j,
            j <= len,
            forall|u: int|
                0 <= u < j ==> #[trigger] out@[u] as int == low_fade_val_spec(
                    s@,
                    t as int,
                    fading as int,
                    u,
                ),
            forall|u: int| 0 <= u < j ==> out@[u] <= MAG_MAX,
        decreases len - j,
    {
        if j < t {
            proof {
                lemma_scaled_step_le(fading as int, (t - j) as int, t as int);
                vstd::arithmetic::mul::lemma_mul_upper_bound(
                    fading as int,
                    1000,
                    (t - j) as int,
                    0x0100_0000,
                );
            }
            let red: u64 = ((fading as u64) * ((t - j) as u64)) / (t as u64);
            let factor: u64 = 1000 - red;
            let v = s[j];
            proof {
                vstd::arithmetic::mul::lemma_mul_upper_bound(
                    v as int,
                    MAG_MAX as int,
                    factor as int,
                    1000,
                );
                vstd::arithmetic::mul::lemma_mul_inequality(factor as int, 1000, v as int);
                vstd::arithmetic::mul::lemma_mul_is_commutative(v as int, factor as int);
                vstd::arithmetic::mul::lemma_mul_is_commutative(v as int, 1000);
                vstd::arithmetic::div_mod::lemma_div_is_ordered(
                    (v as int) * (factor as int),
                    (v as int) * 1000,
                    1000,
                );
                vstd::arithmetic::div_mod::lemma_div_multiples_vanish(v as int, 1000);
                vstd::arithmetic::mul::lemma_mul_is_commutative(1000, v as int);
                vstd::arithmetic::mul::lemma_mul_nonnegative(v as int, factor as int);
                vstd::arithmetic::div_mod::lemma_div_pos_is_pos((v as int) * (factor as int), 1000);
            }
            let val: u64 = (v * factor) / 1000;
            out.push(val);
        } else {
            out.push(s[j]);
        }
        j = j + 1;
    }
    proof {
        assert(out@ =~= low_fade_seq_spec(s@, t as int, fading as int));
    }
    out
}

/// The whole low-frequency compensation: in-band doubling, in-band box
/// smoothing, then the low-end fade. A zero threshold switches it off.
pub open spec fn low_comp_seq_spec(
    s: Seq<u64>,
    thr: int,
    maxf: int,
    d: int,
    w: int,
    fading: int,
) -> Seq<u64> {
    if thr <= 0 {
        s
    } else {
        let s1 = low_double_seq_spec(s, thr, maxf, d);
        let t = band_edge_spec(s1.len() as int, thr, maxf);
        let s2 = if w >= 1 {
            low_smooth_seq_spec(s1, t, w)
        } else {
            s1
        };
        if fading >= 1 && t >= 1 {
            low_fade_seq_spec(s2, t, fading)
        } else {
            s2
        }
    }
}

/// Compensates the low band's sparse raw resolution and visual weight.
pub fn low_compensation(s: Vec<u64>, thr: u32, maxf: u32, d: u16, w: u32, fading: u32) -> (out:
    Vec<u64>)
    requires
        s@.len() <= 4096,
        frame_bounded(s@),
        2 * thr <= maxf,
        100 <= maxf <= 20000,
        d <= 4,
        w <= 1024,
        fading <= 1000,
    ensures
        out@ == low_comp_seq_spec(
            s@,
            thr as int,
            maxf as int,
            d as int,
            w as int,
            fading as int,
        ),
        frame_bounded(out@),
        out@.len() <= 0x0001_0000,
        s@.len() > 0 ==> out@.len() > 0,
{
    if thr == 0 {
        return s;
    }
    let s1 = low_double(s, thr, maxf, d);
    let t = band_edge(s1.len(), thr, maxf);
    let s2 = if w >= 1 {
        low_smooth(&s1, t, w)
    } else {
        s1
    };
    if fading >= 1 && t >= 1 {
        low_fade(&s2, t, fading)
    } else {
        s2
    }
}

/// Reshapes each spectrum frame: loudness scaling, bin redistribution,
/// low-frequency compensation, then favourite-band emphasis.
pub struct FrequencyShaper {
    /// Exponent of the bin redistribution, in quarters.
    pub normalisation_factoring: u32,
    /// Lower edge of the favourite band, in Hz.
    pub fav_frequency_range_low: u32,
    /// Upper edge of the favourite band, in Hz.
    pub fav_frequency_range_high: u32,
    /// How often the favourite band's resolution is doubled.
    pub fav_frequency_doubling: u16,
    /// Frequency below which the low band is compensated; 0 switches the
    /// compensation off.
    pub low_frequency_threshold: u32,
    /// How often the low band is doubled.
    pub low_frequency_doubling: u16,
    /// In-band box-smoothing window; 0 switches it off.
    pub low_frequency_smoothing: u32,
    /// Low-end fade in thousandths.
    pub low_frequency_fading: u32,
    /// Highest displayed frequency, in Hz.
    pub max_frequency: u32,
}

impl FrequencyShaper {
    /// The option ranges the shaper's arithmetic is proved under.
    pub open spec fn wf(&self) -> bool {
        &&& self.normalisation_factoring <= 4
        &&& self.fav_frequency_range_low <= self.fav_frequency_range_high <= 20000
        &&& self.fav_frequency_doubling <= 4
        &&& 2 * self.low_frequency_threshold <= self.max_frequency
        &&& self.low_frequency_doubling <= 4
        &&& self.low_frequency_smoothing <= 1024
        &&& self.low_frequency_fading <= 1000
        &&& 100 <= self.max_frequency <= 20000
    }

    pub fn new(c: &crate::config::Config) -> (t: FrequencyShaper)
        requires
            crate::config::valid_config(*c),
        ensures
            t.wf(),
            t.normalisation_factoring == c.processing.normalisation_factoring,
            t.fav_frequency_range_low == c.processing.fav_frequency_range_low,
            t.fav_frequency_range_high == c.processing.fav_frequency_range_high,
            t.fav_frequency_doubling == c.processing.fav_frequency_doubling,
            t.low_frequency_threshold == c.processing.low_frequency_threshold,
            t.low_frequency_doubling == c.processing.low_frequency_doubling,
            t.low_frequency_smoothing == c.processing.low_frequency_smoothing,
            t.low_frequency_fading == c.processing.low_frequency_fading,
            t.max_frequency == c.visual.max_frequency,
    {
        FrequencyShaper {
            normalisation_factoring: c.processing.normalisation_factoring,
            fav_frequency_range_low: c.processing.fav_frequency_range_low,
            fav_frequency_range_high: c.processing.fav_frequency_range_high,
            fav_frequency_doubling: c.processing.fav_frequency_doubling,
            low_frequency_threshold: c.processing.low_frequency_threshold,
            low_frequency_doubling: c.processing.low_frequency_doubling,
            low_frequency_smoothing: c.processing.low_frequency_smoothing,
            low_frequency_fading: c.processing.low_frequency_fading,
            max_frequency: c.visual.max_frequency,
        }
    }

    /// The shaped frame: every stage composed.
    pub open spec fn shape_seq_spec(&self, s: Seq<u64>) -> Seq<u64> {
        let s1 = redistribute_seq_spec(scaled_seq_spec(s), self.normalisation_factoring as int);
        let s2 = low_comp_seq_spec(
            s1,
            self.low_frequency_threshold as int,
            self.max_frequency as int,
            self.low_frequency_doubling as int,
            self.low_frequency_smoothing as int,
            self.low_frequency_fading as int,
        );
        fav_emph_seq_spec(
            s2,
            self.fav_frequency_range_low as int,
            self.fav_frequency_range_high as int,
            self.fav_frequency_doubling as int,
        )
    }

    /// Applies all shaping stages to one frame. An empty frame skips the
    /// cycle; the shaped frame is never empty.
    pub fn shape(&self, frame: Vec<u64>) -> (r: Result<Vec<u64>, CycleError>)
        requires
            self.wf(),
            frame@.len() <= 4096,
            frame_bounded(frame@),
        ensures
            r is Ok <==> frame@.len() > 0,
            r == Result::<Vec<u64>, CycleError>::Err(CycleError::EmptyFrame) <==> frame@.len()
                == 0,
            r matches Ok(out) ==> {
                &&& out@ == self.shape_seq_spec(frame@)
                &&& frame_bounded(out@)
                &&& 0 < out@.len() <= 0x0100_0000
            },
    {
        if frame.len() == 0 {
            return Err(CycleError::EmptyFrame);
        }
        let x1 = scale_loudness(&frame);
        let x2 = redistribute(&x1, self.normalisation_factoring);
        let x3 = low_compensation(
            x2,
            self.low_frequency_threshold,
            self.max_frequency,
            self.low_frequency_doubling,
            self.low_frequency_smoothing,
            self.low_frequency_fading,
        );
        let x4 = favourite_emphasis(
            x3,
            self.fav_frequency_range_low,
            self.fav_frequency_range_high,
            self.fav_frequency_doubling,
        );
        Ok(x4)
    }
}

/// On a constant frame every slot maximum is the constant or empty.
proof fn lemma_slot_max_const(s: Seq<u64>, q: int, c: u64, j: int, upto: int)
    requires
        upto <= s.len(),
        forall|i: int| 0 <= i < s.len() ==> s[i] == c,
    ensures
        slot_max_spec(s, q, j, upto) == -1 || slot_max_spec(s, q, j, upto) == c,
    decreases upto,
{
    if upto > 0 {
        lemma_slot_max_const(s, q, c, j, upto - 1);
    }
}

/// The nearest filled predecessor is a filled slot at or before `j`.
proof fn lemma_prev_filled_is_filled(s: Seq<u64>, q: int, j: int)
    requires
        1 <= s.len(),
        0 <= q,
        0 <= j < s.len(),
    ensures
        0 <= prev_filled_spec(s, q, j) <= j,
        slot_filled_spec(s, q, prev_filled_spec(s, q, j)),
    decreases j,
{
    lemma_edges_filled(s, q);
    if j > 0 && !slot_filled_spec(s, q, j) {
        lemma_prev_filled_is_filled(s, q, j - 1);
    }
}

/// The nearest filled successor is a filled slot at or after `j`.
proof fn lemma_next_filled_is_filled(s: Seq<u64>, q: int, j: int)
    requires
        1 <= s.len(),
        0 <= q,
        0 <= j < s.len(),
    ensures
        j <= next_filled_spec(s, q, j) <= s.len() - 1,
        slot_filled_spec(s, q, next_filled_spec(s, q, j)),
    decreases s.len() - j,
{
    lemma_edges_filled(s, q);
    if j < s.len() - 1 && !slot_filled_spec(s, q, j) {
        lemma_next_filled_is_filled(s, q, j + 1);
    }
}

/// Redistribution introduces no oscillation on an already-flat frame: every
/// output slot of `redistribute` on a constant frame carries the same
/// constant, placed slots because every placed value is the constant, and
/// interpolated slots because both their endpoints are.
pub proof fn lemma_redistribute_flat(s: Seq<u64>, q: int, c: u64, j: int)
    requires
        1 <= s.len(),
        0 <= q,
        forall|i: int| 0 <= i < s.len() ==> s[i] == c,
        0 <= j < s.len(),
    ensures
        redistribute_val_spec(s, q, j) == c,
{
    let len = s.len() as int;
    lemma_slot_max_const(s, q, c, j, len);
    if !slot_filled_spec(s, q, j) {
        let pj = prev_filled_spec(s, q, j);
        let nj = next_filled_spec(s, q, j);
        lemma_prev_filled_is_filled(s, q, j);
        lemma_next_filled_is_filled(s, q, j);
        lemma_slot_max_const(s, q, c, pj, len);
        lemma_slot_max_const(s, q, c, nj, len);
        let g = nj - pj;
        vstd::arithmetic::mul::lemma_mul_by_zero_is_zero(j - pj);
        vstd::arithmetic::div_mod::lemma_div_basics(g);
        assert(interp_spec(c as int, c as int, j - pj, g) == c);
    }
}

/// The whole redistributed frame of a constant frame is that constant.
pub proof fn lemma_redistribute_seq_flat(s: Seq<u64>, q: int, c: u64)
    requires
        1 <= s.len(),
        0 <= q,
        forall|i: int| 0 <= i < s.len() ==> s[i] == c,
    ensures
        forall|j: int|
            0 <= j < s.len() ==> #[trigger] redistribute_seq_spec(s, q)[j] == c,
{
    assert forall|j: int| 0 <= j < s.len() implies #[trigger] redistribute_seq_spec(s, q)[j]
        == c by {
        lemma_redistribute_flat(s, q, c, j);
    }
}

} // verus!

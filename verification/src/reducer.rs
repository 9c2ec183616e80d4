//! The bar reducer: merges adjacent bins so the displayed bar count is
//! stable and independent of the transform resolution.

use vstd::prelude::*;

use crate::frame::{frame_bounded, lemma_sum_range_snoc, sum_range, MAG_MAX};

verus! {

/// Bin `i` after one pair-merge pass: the mean of bins `2i` and `2i + 1`,
/// or the odd trailing bin unchanged.
pub open spec fn pair_merge_val_spec(s: Seq<u64>, i: int) -> int {
    if 2 * i + 1 < s.len() {
        (s[2 * i] + s[2 * i + 1]) / 2
    } else {
        s[2 * i] as int
    }
}

/// The frame halved once by pair merging.
pub open spec fn pair_merge_seq_spec(s: Seq<u64>) -> Seq<u64> {
    Seq::new(((s.len() + 1) / 2) as nat, |i: int| pair_merge_val_spec(s, i) as u64)
}

/// The frame halved `k` times.
pub open spec fn bar_reduce_seq_spec(s: Seq<u64>, k: int) -> Seq<u64>
    decreases k,
{
    if k <= 0 {
        s
    } else {
        bar_reduce_seq_spec(pair_merge_seq_spec(s), k - 1)
    }
}

/// One pair-merge pass.
#[verifier::loop_isolation(false)]
fn pair_merge(s: &Vec<u64>) -> (out: Vec<u64>)
    requires
        frame_bounded(s@),
        s@.len() <= 0x0100_0000,
    ensures
        out@ == pair_merge_seq_spec(s@),
        out@.len() == (s@.len() + 1) / 2,
        frame_bounded(out@),
{
    let len = s.len();
    let half = (len + 1) / 2;
    let mut out: Vec<u64> = Vec::new();
    let mut i: usize = 0;
    while i < half
        invariant
            out@.len() == i,
            i <= half,
            forall|t: int|
                0 <= t < i ==> #[trigger] out@[t] as int == pair_merge_val_spec(s@, t),
            forall|t: int| 0 <= t < i ==> out@[t] <= MAG_MAX,
        decreases half - i,
    {
        if 2 * i + 1 < len {
            let v: u64 = (s[2 * i] + s[2 * i + 1]) / 2;
            out.push(v);
        } else {
            out.push(s[2 * i]);
        }
        i = i + 1;
    }
    proof {
        assert(out@ =~= pair_merge_seq_spec(s@));
    }
    out
}

/// Halves the frame's scale `bar_reduction` times by merging adjacent
/// pairs into their mean. The length never grows: each pass keeps
/// `(len + 1) / 2` bins.
#[verifier::loop_isolation(false)]
pub fn bar_reduction(buffer: &mut Vec<u64>, bar_reduction: u32)
    requires
        frame_bounded(old(buffer)@),
        old(buffer)@.len() <= 0x0100_0000,
        bar_reduction <= 32,
    ensures
        final(buffer)@ == bar_reduce_seq_spec(old(buffer)@, bar_reduction as int),
        final(buffer)@.len() <= old(buffer)@.len(),
        frame_bounded(final(buffer)@),
        old(buffer)@.len() > 0 ==> final(buffer)@.len() > 0,
{
    let ghost orig = buffer@;
    let mut k: u32 = 0;
    while k < bar_reduction
        invariant
            k <= bar_reduction,
            bar_reduce_seq_spec(orig, bar_reduction as int) == bar_reduce_seq_spec(
                buffer@,
                (bar_reduction - k) as int,
            ),
            buffer@.len() <= orig.len(),
            buffer@.len() <= 0x0100_0000,
            frame_bounded(buffer@),
            orig.len() > 0 ==> buffer@.len() > 0,
        decreases bar_reduction - k,
    {
        let next = pair_merge(buffer);
        *buffer = next;
        k = k + 1;
    }
}

/// First input bin of output group `j` when `len` bins shrink to `target`.
pub open spec fn group_edge_spec(len: int, target: int, j: int) -> int {
    (j * len) / target
}

/// Output bin `j` of the stride decimation: the mean of its input group.
pub open spec fn reduce_val_spec(s: Seq<u64>, target: int, j: int) -> int {
    let a = group_edge_spec(s.len() as int, target, j);
    let b = group_edge_spec(s.len() as int, target, j + 1);
    sum_range(s, a, b) / (b - a)
}

/// The frame decimated to exactly `target` bins.
pub open spec fn reduce_seq_spec(s: Seq<u64>, target: int) -> Seq<u64> {
    Seq::new(target as nat, |j: int| reduce_val_spec(s, target, j) as u64)
}

/// Group edges are ordered and end at the frame's end; consecutive edges
/// are strictly apart when the target is achievable.
proof fn lemma_group_edges(len: int, target: int, j: int)
    requires
        1 <= target <= len,
        0 <= j < target,
    ensures
        0 <= group_edge_spec(len, target, j) < group_edge_spec(len, target, j + 1)
            <= len,
{
    let a = (j * len) / target;
    let b = ((j + 1) * len) / target;
    vstd::arithmetic::mul::lemma_mul_nonnegative(j, len);
    vstd::arithmetic::div_mod::lemma_div_pos_is_pos(j * len, target);
    // b reaches at most the frame's end
    vstd::arithmetic::mul::lemma_mul_inequality(j + 1, target, len);
    vstd::arithmetic::div_mod::lemma_div_is_ordered((j + 1) * len, target * len, target);
    vstd::arithmetic::mul::lemma_mul_is_commutative(target, len);
    vstd::arithmetic::div_mod::lemma_div_multiples_vanish(len, target);
    // consecutive edges strictly apart
    assert((j + 1) * len == j * len + len) by (nonlinear_arith);
    vstd::arithmetic::div_mod::lemma_div_is_ordered(j * len + target, j * len + len, target);
    vstd::arithmetic::div_mod::lemma_div_plus_one(j * len, target);
}

/// Reduces the frame to exactly `target` bins when that is achievable
/// (`target <= len`), each output bin the mean of its input group; a target
/// beyond the frame's length leaves the frame unchanged. The length never
/// grows.
#[verifier::loop_isolation(false)]
pub fn reduce_to_target(s: Vec<u64>, target: usize) -> (out: Vec<u64>)
    requires
        frame_bounded(s@),
        s@.len() <= 0x0100_0000,
    ensures
        target <= s@.len() ==> out@ == reduce_seq_spec(s@, target as int),
        target <= s@.len() ==> out@.len() == target,
        target > s@.len() ==> out@ == s@,
        out@.len() <= s@.len(),
        frame_bounded(out@),
{
    let len = s.len();
    if target > len {
        return s;
    }
    let mut out: Vec<u64> = Vec::new();
    let mut j: usize = 0;
    while j < target
        invariant
            out@.len() == j,
            j <= target,
            forall|t: int|
                0 <= t < j ==> #[trigger] out@[t] as int == reduce_val_spec(s@, target as int, t),
            forall|t: int| 0 <= t < j ==> out@[t] <= MAG_MAX,
        decreases target - j,
    {
        proof {
            lemma_group_edges(len as int, target as int, j as int);
            vstd::arithmetic::mul::lemma_mul_upper_bound(j as int, 0x0100_0000, len as int, 0x0100_0000);
            vstd::arithmetic::mul::lemma_mul_upper_bound(
                j as int + 1,
                0x0100_0000,
                len as int,
                0x0100_0000,
            );
            vstd::arithmetic::mul::lemma_mul_nonnegative(j as int + 1, len as int);
        }
        let a: usize = ((j as u64) * (len as u64) / (target as u64)) as usize;
        let b: usize = (((j + 1) as u64) * (len as u64) / (target as u64)) as usize;
        let mut acc: u64 = 0;
        let mut c: usize = a;
        while c < b
            invariant
                a <= c <= b,
                acc as int == sum_range(s@, a as int, c as int),
                acc as int <= (c - a) * (MAG_MAX as int),
            decreases b - c,
        {
            proof {
                lemma_sum_range_snoc(s@, a as int, c as int + 1);
            }
            acc = acc + s[c];
            c = c + 1;
        }
        proof {
            vstd::arithmetic::div_mod::lemma_div_pos_is_pos(acc as int, b as int - a as int);
            vstd::arithmetic::div_mod::lemma_div_is_ordered(
                acc as int,
                (b - a) as int * (MAG_MAX as int),
                (b - a) as int,
            );
            vstd::arithmetic::div_mod::lemma_div_multiples_vanish(MAG_MAX as int, (b - a) as int);
        }
        let val: u64 = acc / ((b - a) as u64);
        out.push(val);
        j = j + 1;
    }
    proof {
        assert(out@ =~= reduce_seq_spec(s@, target as int));
    }
    out
}

/// One depth-thinning pass beyond the first bin: of each following group of
/// three bins, the first pair leaves its maximum, the third stays; a
/// trailing single bin stays.
pub open spec fn drop_groups_spec(s: Seq<u64>, j: int) -> Seq<u64>
    decreases s.len() - j,
{
    if j < 0 || j >= s.len() {
        Seq::empty()
    } else if j + 2 < s.len() {
        let kept: u64 = if s[j] < s[j + 1] {
            s[j + 1]
        } else {
            s[j]
        };
        seq![kept] + seq![s[j + 2]] + drop_groups_spec(s, j + 3)
    } else if j + 1 < s.len() {
        let kept: u64 = if s[j] < s[j + 1] {
            s[j + 1]
        } else {
            s[j]
        };
        seq![kept]
    } else {
        seq![s[j]]
    }
}

/// The whole frame after one depth-thinning pass.
pub open spec fn drop_pass_seq_spec(s: Seq<u64>) -> Seq<u64> {
    if s.len() == 0 {
        s
    } else {
        seq![s[0]] + drop_groups_spec(s, 1)
    }
}

/// The frame after `k` depth-thinning passes.
pub open spec fn iter_drop_seq_spec(s: Seq<u64>, k: int) -> Seq<u64>
    decreases k,
{
    if k <= 0 {
        s
    } else {
        iter_drop_seq_spec(drop_pass_seq_spec(s), k - 1)
    }
}

/// Thinned groups never hold more bins than their source.
proof fn lemma_drop_groups_len(s: Seq<u64>, j: int)
    requires
        0 <= j,
    ensures
        j <= s.len() ==> drop_groups_spec(s, j).len() <= s.len() - j,
        frame_bounded(s) ==> forall|t: int|
            0 <= t < drop_groups_spec(s, j).len() ==> #[trigger] drop_groups_spec(s, j)[t]
                <= MAG_MAX,
    decreases s.len() - j,
{
    if j < s.len() && j + 2 < s.len() {
        lemma_drop_groups_len(s, j + 3);
    }
}

/// One depth-thinning pass, executably.
#[verifier::loop_isolation(false)]
fn drop_pass(s: &Vec<u64>) -> (out: Vec<u64>)
    requires
        frame_bounded(s@),
        s@.len() <= 0x0100_0000,
    ensures
        out@ == drop_pass_seq_spec(s@),
        out@.len() <= s@.len(),
        frame_bounded(out@),
{
    let len = s.len();
    let mut out: Vec<u64> = Vec::new();
    if len == 0 {
        return out;
    }
    out.push(s[0]);
    let mut j: usize = 1;
    while j + 1 < len
        invariant
            1 <= j <= len + 2,
            out@.len() <= j,
            out@ + drop_groups_spec(s@, j as int) == drop_pass_seq_spec(s@),
            frame_bounded(out@),
        decreases len + 3 - j,
    {
        let kept: u64 = if s[j] < s[j + 1] {
            s[j + 1]
        } else {
            s[j]
        };
        out.push(kept);
        if j + 2 < len {
            out.push(s[j + 2]);
        }
        proof {
            lemma_drop_groups_len(s@, j as int + 3);
            assert(out@ + drop_groups_spec(s@, j as int + 3) =~= drop_pass_seq_spec(s@));
        }
        j = j + 3;
    }
    if j < len {
        out.push(s[j]);
    }
    proof {
        lemma_drop_groups_len(s@, j as int);
        lemma_drop_groups_len(s@, 1);
        assert(out@ =~= drop_pass_seq_spec(s@));
    }
    out
}

/// How many thinning passes depth `z` receives: one per ten depth steps
/// scaled by the drop factor (in tenths), capped by the maximum drop.
pub open spec fn drop_amount_spec(z: int, resolution_drop: int, max_drop: int) -> int {
    let a = (z * resolution_drop) / 100;
    if a > max_drop {
        max_drop
    } else {
        a
    }
}

/// Thins the resolution of buffered frames the further they sit from the
/// camera: frame `z` loses bins by `drop_amount_spec(z, ..)` thinning
/// passes. The newest frame (depth 0) is never touched.
#[verifier::loop_isolation(false)]
pub fn reduce_buffer(frames: &mut Vec<Vec<u64>>, resolution_drop: u32, max_drop: u16)
    requires
        forall|z: int| 0 <= z < old(frames)@.len() ==> frame_bounded(#[trigger] old(frames)@[z]@),
        forall|z: int| 0 <= z < old(frames)@.len() ==> (#[trigger] old(frames)@[z]@).len()
            <= 0x0100_0000,
        old(frames)@.len() <= 1024,
        resolution_drop <= 1000,
    ensures
        final(frames)@.len() == old(frames)@.len(),
        forall|z: int|
            0 <= z < final(frames)@.len() ==> #[trigger] final(frames)@[z]@ == iter_drop_seq_spec(
                old(frames)@[z]@,
                drop_amount_spec(z, resolution_drop as int, max_drop as int),
            ),
        forall|z: int| 0 <= z < final(frames)@.len() ==> frame_bounded(#[trigger] final(frames)@[z]@),
{
    let ghost orig = frames@;
    let len = frames.len();
    let mut z: usize = 0;
    while z < len
        invariant
            frames@.len() == len,
            orig.len() == len,
            z <= len,
            forall|t: int|
                z <= t < len ==> #[trigger] frames@[t]@ == orig[t]@ && frame_bounded(frames@[t]@)
                    && frames@[t]@.len() <= 0x0100_0000,
            forall|t: int|
                0 <= t < z ==> #[trigger] frames@[t]@ == iter_drop_seq_spec(
                    orig[t]@,
                    drop_amount_spec(t, resolution_drop as int, max_drop as int),
                ),
            forall|t: int| 0 <= t < z ==> frame_bounded(#[trigger] frames@[t]@),
        decreases len - z,
    {
        proof {
            vstd::arithmetic::mul::lemma_mul_upper_bound(z as int, 1024, resolution_drop as int, 1000);
            vstd::arithmetic::mul::lemma_mul_nonnegative(z as int, resolution_drop as int);
            vstd::arithmetic::div_mod::lemma_div_pos_is_pos(
                (z as int) * (resolution_drop as int),
                100,
            );
        }
        let a0: u64 = ((z as u64) * (resolution_drop as u64)) / 100;
        let amount: u64 = if a0 > max_drop as u64 {
            max_drop as u64
        } else {
            a0
        };
        if amount > 0 {
            let ghost cur0 = frames@[z as int]@;
            let mut cur: Vec<u64> = drop_pass(&frames[z]);
            let mut k: u64 = 1;
            while k < amount
                invariant
                    1 <= k <= amount,
                    iter_drop_seq_spec(cur0, amount as int) == iter_drop_seq_spec(
                        cur@,
                        (amount - k) as int,
                    ),
                    frame_bounded(cur@),
                    cur@.len() <= 0x0100_0000,
                decreases amount - k,
            {
                let next = drop_pass(&cur);
                cur = next;
                k = k + 1;
            }
            frames[z] = cur;
        }
        z = z + 1;
    }
}

} // verus!

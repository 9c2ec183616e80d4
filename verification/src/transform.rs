//! The spectral transform: windowing, forward discrete Fourier transform,
//! half-spectrum extraction and frequency cropping.

use vstd::prelude::*;

use crate::fixed::{
    cos_turn, cos_turn_spec, isqrt, isqrt_spec, lemma_isqrt_le, lemma_isqrt_spec_bounds, sin_turn,
    sin_turn_spec, FP_ONE,
};
use crate::frame::{frame_bounded, CycleError, MAG_MAX};

verus! {

/// Share of the half-spectrum that survives the empirical crop, as a
/// fraction `CROP_NUM / CROP_DEN`.
pub const CROP_NUM: usize = 455;

pub const CROP_DEN: usize = 1000;

/// Assumed usable ceiling of the capture band, in Hz; the maximum-frequency
/// cutoff is expressed as a share of it.
pub const CEILING_HZ: usize = 20000;

/// Raised-cosine (Hann) window coefficient for position `i` of `n`.
pub open spec fn hann_spec(i: int, n: int) -> int {
    (FP_ONE - cos_turn_spec(i, n - 1)) / 2
}

/// The window coefficient actually applied: the Hann value when windowing is
/// enabled, 1.0 otherwise.
pub open spec fn window_val_spec(use_window: bool, i: int, n: int) -> int {
    if use_window {
        hann_spec(i, n)
    } else {
        FP_ONE as int
    }
}

/// Sample `i` scaled by its window coefficient (sign-split so that the
/// fixed-point division acts on a non-negative value).
pub open spec fn windowed_sample_spec(s: Seq<i64>, use_window: bool, i: int, n: int) -> int {
    let w = window_val_spec(use_window, i, n);
    if s[i] >= 0 {
        (s[i] * w) / (FP_ONE as int)
    } else {
        -(((-s[i]) * w) / (FP_ONE as int))
    }
}

/// The whole windowed buffer.
pub open spec fn windowed_seq_spec(s: Seq<i64>, use_window: bool, n: int) -> Seq<i64> {
    Seq::new(n as nat, |i: int| windowed_sample_spec(s, use_window, i, n) as i64)
}

/// Real part of output bin `k`: the sum of the first `j` input terms against
/// the cosine table of denominator `n`.
pub open spec fn dft_re_partial(xw: Seq<i64>, k: int, j: int, n: int) -> int
    decreases j,
{
    if j <= 0 {
        0
    } else {
        dft_re_partial(xw, k, j - 1, n) + xw[j - 1] * cos_turn_spec(((j - 1) * k) % n, n)
    }
}

/// Imaginary part of output bin `k` over the first `j` input terms.
pub open spec fn dft_im_partial(xw: Seq<i64>, k: int, j: int, n: int) -> int
    decreases j,
{
    if j <= 0 {
        0
    } else {
        dft_im_partial(xw, k, j - 1, n) + xw[j - 1] * sin_turn_spec(((j - 1) * k) % n, n)
    }
}

/// Magnitude of output bin `k`: the Euclidean norm of the bin's complex
/// value, scaled back into magnitude units.
pub open spec fn dft_mag_spec(xw: Seq<i64>, k: int, n: int) -> int {
    let re = dft_re_partial(xw, k, n, n);
    let im = dft_im_partial(xw, k, n, n);
    isqrt_spec(re * re + im * im) / (FP_ONE as int)
}

/// Length of the frame the transform emits: half spectrum, empirically
/// cropped, then cut at the configured maximum frequency.
pub open spec fn cropped_len_spec(n: int, max_frequency: int) -> int {
    (((n / 2) * CROP_NUM) / (CROP_DEN as int)) * max_frequency / (CEILING_HZ as int)
}

/// The scaled product of two values in the unit interval stays in it.
proof fn lemma_mul_div_in_unit(a: int, w: int)
    requires
        0 <= a <= FP_ONE,
        0 <= w <= FP_ONE,
    ensures
        0 <= (a * w) / (FP_ONE as int) <= FP_ONE,
{
    vstd::arithmetic::mul::lemma_mul_upper_bound(a, FP_ONE as int, w, FP_ONE as int);
    vstd::arithmetic::mul::lemma_mul_nonnegative(a, w);
    vstd::arithmetic::div_mod::lemma_div_pos_is_pos(a * w, FP_ONE as int);
    vstd::arithmetic::div_mod::lemma_div_is_ordered(
        a * w,
        (FP_ONE as int) * (FP_ONE as int),
        FP_ONE as int,
    );
    vstd::arithmetic::div_mod::lemma_div_multiples_vanish(FP_ONE as int, FP_ONE as int);
}

/// Product of two values bounded by one unit, in magnitude squared units.
proof fn lemma_mul_unit_bound(x: int, c: int)
    requires
        -65536 <= x <= 65536,
        -65536 <= c <= 65536,
    ensures
        -4294967296 <= x * c <= 4294967296,
{
    assert(-4294967296 <= x * c <= 4294967296) by (nonlinear_arith)
        requires
            -65536 <= x <= 65536,
            -65536 <= c <= 65536,
    ;
}

/// Bounds the magnitude computed from transform sums of at most
/// 16384 unit-bounded terms: squares fit, and the scaled square root stays
/// under [`MAG_MAX`].
proof fn lemma_mag_from_parts(re: int, im: int)
    requires
        -70368744177664 <= re <= 70368744177664,
        -70368744177664 <= im <= 70368744177664,
    ensures
        0 <= re * re <= 4951760157141521099596496896,
        0 <= im * im <= 4951760157141521099596496896,
        0 <= isqrt_spec(re * re + im * im) <= 99520000000000,
        0 <= isqrt_spec(re * re + im * im) / (FP_ONE as int) <= MAG_MAX,
{
    assert(0 <= re * re <= 4951760157141521099596496896) by (nonlinear_arith)
        requires
            -70368744177664 <= re <= 70368744177664,
    ;
    assert(0 <= im * im <= 4951760157141521099596496896) by (nonlinear_arith)
        requires
            -70368744177664 <= im <= 70368744177664,
    ;
    let sum = re * re + im * im;
    lemma_isqrt_spec_bounds(sum);
    lemma_isqrt_le(sum, 99520000000000);
    vstd::arithmetic::div_mod::lemma_div_pos_is_pos(isqrt_spec(sum), FP_ONE as int);
    vstd::arithmetic::div_mod::lemma_div_is_ordered(
        isqrt_spec(sum),
        99520000000000,
        FP_ONE as int,
    );
}

/// Turns one fixed-size sample buffer into a magnitude spectrum.
pub struct SpectralTransform {
    /// Samples consumed per transform.
    pub resolution: usize,
    /// Whether the raised-cosine window is applied first.
    pub windowing: bool,
    /// Highest displayed frequency in Hz.
    pub max_frequency: u32,
}

impl SpectralTransform {
    /// The option ranges the transform's arithmetic is proved under.
    pub open spec fn wf(&self) -> bool {
        &&& 32 <= self.resolution <= 16384
        &&& self.resolution % 2 == 0
        &&& 100 <= self.max_frequency <= 20000
    }

    /// Number of bins `process` emits for well-formed options.
    pub open spec fn out_len(&self) -> int {
        cropped_len_spec(self.resolution as int, self.max_frequency as int)
    }

    pub fn new(resolution: usize, windowing: bool, max_frequency: u32) -> (t: SpectralTransform)
        requires
            32 <= resolution <= 16384,
            resolution % 2 == 0,
            100 <= max_frequency <= 20000,
        ensures
            t.wf(),
            t.resolution == resolution,
            t.windowing == windowing,
            t.max_frequency == max_frequency,
    {
        SpectralTransform { resolution, windowing, max_frequency }
    }

    /// Windows the buffer, takes the discrete Fourier transform's first
    /// half, and crops it: bin `k` of the result is exactly
    /// `dft_mag_spec(windowed_seq_spec(..), k, n)`. A buffer of any other
    /// length than the configured resolution is rejected and the cycle
    /// skipped.
    #[verifier::loop_isolation(false)]
    pub fn process(&self, samples: &Vec<i64>) -> (r: Result<Vec<u64>, CycleError>)
        requires
            self.wf(),
            forall|i: int| 0 <= i < samples@.len() ==> -FP_ONE <= #[trigger] samples@[i] <= FP_ONE,
        ensures
            r is Ok <==> samples@.len() == self.resolution,
            r == Result::<Vec<u64>, CycleError>::Err(CycleError::MismatchedBuffer)
                <==> samples@.len() != self.resolution,
            r matches Ok(out) ==> {
                &&& out@.len() == self.out_len()
                &&& forall|k: int|
                    0 <= k < out@.len() ==> out@[k] as int == dft_mag_spec(
                        windowed_seq_spec(samples@, self.windowing, self.resolution as int),
                        k,
                        self.resolution as int,
                    )
                &&& frame_bounded(out@)
            },
    {
        if samples.len() != self.resolution {
            return Err(CycleError::MismatchedBuffer);
        }
        let n = self.resolution;
        let ghost sseq = samples@;

        // Window table: Hann coefficients, or a flat 1.0 table.
        let mut w: Vec<i64> = Vec::new();
        let mut i: usize = 0;
        while i < n
            invariant
                w@.len() == i,
                i <= n,
                forall|t: int|
                    0 <= t < i ==> w@[t] as int == window_val_spec(self.windowing, t, n as int),
                forall|t: int| 0 <= t < i ==> 0 <= #[trigger] w@[t] <= FP_ONE,
            decreases n - i,
        {
            if self.windowing {
                let c = cos_turn(i as i64, (n - 1) as i64);
                w.push((FP_ONE - c) / 2);
            } else {
                w.push(FP_ONE);
            }
            i = i + 1;
        }

        // Windowed samples.
        let mut xw: Vec<i64> = Vec::new();
        let mut i: usize = 0;
        while i < n
            invariant
                xw@.len() == i,
                i <= n,
                forall|t: int|
                    0 <= t < i ==> xw@[t] as int == windowed_sample_spec(
                        sseq,
                        self.windowing,
                        t,
                        n as int,
                    ),
                forall|t: int| 0 <= t < i ==> -FP_ONE <= #[trigger] xw@[t] <= FP_ONE,
            decreases n - i,
        {
            let s = samples[i];
            let wi = w[i];
            let v: i64 = if s >= 0 {
                proof {
                    lemma_mul_div_in_unit(s as int, wi as int);
                }
                (s * wi) / FP_ONE
            } else {
                proof {
                    lemma_mul_div_in_unit(-(s as int), wi as int);
                }
                -((-s * wi) / FP_ONE)
            };
            xw.push(v);
            i = i + 1;
        }
        proof {
            assert(xw@ =~= windowed_seq_spec(sseq, self.windowing, n as int));
        }

        // Twiddle tables over the full turn.
        let mut cos_tbl: Vec<i64> = Vec::new();
        let mut m: usize = 0;
        while m < n
            invariant
                cos_tbl@.len() == m,
                m <= n,
                forall|t: int| 0 <= t < m ==> cos_tbl@[t] as int == cos_turn_spec(t, n as int),
                forall|t: int| 0 <= t < m ==> -FP_ONE <= #[trigger] cos_tbl@[t] <= FP_ONE,
            decreases n - m,
        {
            cos_tbl.push(cos_turn(m as i64, n as i64));
            m = m + 1;
        }
        let mut sin_tbl: Vec<i64> = Vec::new();
        let mut m: usize = 0;
        while m < n
            invariant
                sin_tbl@.len() == m,
                m <= n,
                forall|t: int| 0 <= t < m ==> sin_tbl@[t] as int == sin_turn_spec(t, n as int),
                forall|t: int| 0 <= t < m ==> -FP_ONE <= #[trigger] sin_tbl@[t] <= FP_ONE,
            decreases n - m,
        {
            sin_tbl.push(sin_turn(m as i64, n as i64));
            m = m + 1;
        }

        // Half spectrum, cropped twice.
        let c1: usize = ((n / 2) * CROP_NUM) / CROP_DEN;
        proof {
            vstd::arithmetic::mul::lemma_mul_upper_bound(
                c1 as int,
                3727,
                self.max_frequency as int,
                20000,
            );
        }
        let c2: usize = (c1 * (self.max_frequency as usize)) / CEILING_HZ;
        let mut out: Vec<u64> = Vec::new();
        let mut k: usize = 0;
        while k < c2
            invariant
                out@.len() == k,
                k <= c2,
                forall|t: int| 0 <= t < k ==> out@[t] as int == dft_mag_spec(xw@, t, n as int),
                forall|t: int| 0 <= t < k ==> out@[t] <= MAG_MAX,
            decreases c2 - k,
        {
            let mut re: i64 = 0;
            let mut im: i64 = 0;
            let mut j: usize = 0;
            while j < n
                invariant
                    j <= n,
                    re == dft_re_partial(xw@, k as int, j as int, n as int),
                    im == dft_im_partial(xw@, k as int, j as int, n as int),
                    -(j as int) * 4294967296 <= re <= (j as int) * 4294967296,
                    -(j as int) * 4294967296 <= im <= (j as int) * 4294967296,
                decreases n - j,
            {
                proof {
                    vstd::arithmetic::mul::lemma_mul_upper_bound(j as int, 16384, k as int, 16384);
                }
                let t: usize = (j * k) % n;
                let xj = xw[j];
                let ct = cos_tbl[t];
                let st = sin_tbl[t];
                proof {
                    lemma_mul_unit_bound(xj as int, ct as int);
                    lemma_mul_unit_bound(xj as int, st as int);
                }
                re = re + xj * ct;
                im = im + xj * st;
                j = j + 1;
            }
            proof {
                lemma_mag_from_parts(re as int, im as int);
            }
            let re2: u128 = ((re as i128) * (re as i128)) as u128;
            let im2: u128 = ((im as i128) * (im as i128)) as u128;
            let ms: u64 = isqrt(re2 + im2);
            let mag: u64 = ms / (FP_ONE as u64);
            out.push(mag);
            k = k + 1;
        }
        Ok(out)
    }
}

/// The whole spectrum the transform emits for one sample buffer.
pub open spec fn mags_seq_spec(samples: Seq<i64>, use_window: bool, n: int, maxf: int) -> Seq<
    u64,
> {
    Seq::new(
        cropped_len_spec(n, maxf) as nat,
        |k: int| dft_mag_spec(windowed_seq_spec(samples, use_window, n), k, n) as u64,
    )
}

/// The emitted frame never exceeds the crop of the largest half-spectrum.
pub proof fn lemma_cropped_len_le(n: int, maxf: int)
    requires
        0 <= n <= 16384,
        0 <= maxf <= 20000,
    ensures
        0 <= cropped_len_spec(n, maxf) <= 3727,
{
    let c1 = ((n / 2) * CROP_NUM) / (CROP_DEN as int);
    vstd::arithmetic::mul::lemma_mul_nonnegative(n / 2, CROP_NUM as int);
    vstd::arithmetic::div_mod::lemma_div_pos_is_pos((n / 2) * CROP_NUM, CROP_DEN as int);
    vstd::arithmetic::mul::lemma_mul_inequality(n / 2, 8192, CROP_NUM as int);
    vstd::arithmetic::div_mod::lemma_div_is_ordered(
        (n / 2) * CROP_NUM,
        8192 * (CROP_NUM as int),
        CROP_DEN as int,
    );
    vstd::arithmetic::mul::lemma_mul_nonnegative(c1, maxf);
    vstd::arithmetic::div_mod::lemma_div_pos_is_pos(c1 * maxf, CEILING_HZ as int);
    vstd::arithmetic::mul::lemma_mul_inequality(maxf, CEILING_HZ as int, c1);
    vstd::arithmetic::mul::lemma_mul_is_commutative(c1, maxf);
    vstd::arithmetic::mul::lemma_mul_is_commutative(c1, CEILING_HZ as int);
    vstd::arithmetic::div_mod::lemma_div_is_ordered(
        c1 * maxf,
        c1 * (CEILING_HZ as int),
        CEILING_HZ as int,
    );
    vstd::arithmetic::div_mod::lemma_div_multiples_vanish(c1, CEILING_HZ as int);
    vstd::arithmetic::mul::lemma_mul_is_commutative(CEILING_HZ as int, c1);
}

/// The crop keeps its bins in the same order at every cutoff, so the emitted
/// length never shrinks when the maximum displayed frequency grows.
pub proof fn lemma_cropped_len_monotone(n: int, mf1: int, mf2: int)
    requires
        0 <= n,
        0 <= mf1 <= mf2,
    ensures
        cropped_len_spec(n, mf1) <= cropped_len_spec(n, mf2),
{
    let c1 = ((n / 2) * CROP_NUM) / (CROP_DEN as int);
    vstd::arithmetic::div_mod::lemma_div_pos_is_pos(n / 2, 1);
    vstd::arithmetic::mul::lemma_mul_nonnegative(n / 2, CROP_NUM as int);
    vstd::arithmetic::div_mod::lemma_div_pos_is_pos((n / 2) * CROP_NUM, CROP_DEN as int);
    vstd::arithmetic::mul::lemma_mul_inequality(mf1, mf2, c1);
    assert(c1 * mf1 <= c1 * mf2) by {
        vstd::arithmetic::mul::lemma_mul_is_commutative(c1, mf1);
        vstd::arithmetic::mul::lemma_mul_is_commutative(c1, mf2);
    }
    vstd::arithmetic::div_mod::lemma_div_is_ordered(c1 * mf1, c1 * mf2, CEILING_HZ as int);
}

/// All-zero windowed samples make every partial transform sum zero.
proof fn lemma_dft_partial_zero(xw: Seq<i64>, k: int, j: int, n: int)
    requires
        forall|i: int| 0 <= i < xw.len() ==> xw[i] == 0,
        j <= xw.len(),
    ensures
        dft_re_partial(xw, k, j, n) == 0,
        dft_im_partial(xw, k, j, n) == 0,
    decreases j,
{
    if j > 0 {
        lemma_dft_partial_zero(xw, k, j - 1, n);
        vstd::arithmetic::mul::lemma_mul_by_zero_is_zero(cos_turn_spec(((j - 1) * k) % n, n));
        vstd::arithmetic::mul::lemma_mul_by_zero_is_zero(sin_turn_spec(((j - 1) * k) % n, n));
    }
}

/// An all-zero sample buffer transforms to an all-zero spectrum: windowing
/// keeps every sample zero, every transform sum is then zero, and so is
/// every magnitude.
pub proof fn lemma_transform_zero(s: Seq<i64>, use_window: bool, n: int, k: int)
    requires
        forall|i: int| 0 <= i < s.len() ==> s[i] == 0,
        2 <= n <= s.len(),
    ensures
        dft_mag_spec(windowed_seq_spec(s, use_window, n), k, n) == 0,
{
    let xw = windowed_seq_spec(s, use_window, n);
    assert forall|i: int| 0 <= i < xw.len() implies xw[i] == 0 by {
        vstd::arithmetic::mul::lemma_mul_by_zero_is_zero(window_val_spec(use_window, i, n));
        assert(windowed_sample_spec(s, use_window, i, n) == 0);
    }
    lemma_dft_partial_zero(xw, k, n, n);
    lemma_isqrt_spec_bounds(0);
    assert(isqrt_spec(0) == 0);
}

} // verus!

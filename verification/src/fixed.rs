//! Fixed-point arithmetic for the spectrum pipeline.
//!
//! Signal values (samples, window coefficients, magnitudes) are carried as
//! integers scaled by [`FP_ONE`]: the integer `FP_ONE` stands for 1.0.

use vstd::prelude::*;

verus! {

/// Scale of the crate's fixed-point values: 1.0 is represented as `FP_ONE`.
pub const FP_ONE: i64 = 65536;

/// Integer square root, defined constructively: the largest `r >= 0` with
/// `r * r <= x` (0 for negative arguments).
pub open spec fn isqrt_spec(x: int) -> int
    decreases x,
{
    if x < 1 {
        0
    } else {
        let r = isqrt_spec(x - 1);
        if (r + 1) * (r + 1) <= x {
            r + 1
        } else {
            r
        }
    }
}

/// `isqrt_spec(x)` is the integer square root: non-negative, with its square
/// at most `x` and the next square above `x`.
pub proof fn lemma_isqrt_spec_bounds(x: int)
    requires
        x >= 0,
    ensures
        isqrt_spec(x) >= 0,
        isqrt_spec(x) * isqrt_spec(x) <= x,
        x < (isqrt_spec(x) + 1) * (isqrt_spec(x) + 1),
    decreases x,
{
    if x < 1 {
    } else {
        lemma_isqrt_spec_bounds(x - 1);
        let r = isqrt_spec(x - 1);
        if (r + 1) * (r + 1) <= x {
            assert(x < (r + 2) * (r + 2)) by (nonlinear_arith)
                requires
                    r >= 0,
                    x - 1 < (r + 1) * (r + 1),
            ;
        }
    }
}

/// Any `s` whose square brackets `x` is the integer square root of `x`.
pub proof fn lemma_isqrt_unique(x: int, s: int)
    requires
        x >= 0,
        s >= 0,
        s * s <= x,
        x < (s + 1) * (s + 1),
    ensures
        s == isqrt_spec(x),
{
    lemma_isqrt_spec_bounds(x);
    let r = isqrt_spec(x);
    assert(s == r) by (nonlinear_arith)
        requires
            r >= 0,
            s >= 0,
            s * s <= x,
            x < (s + 1) * (s + 1),
            r * r <= x,
            x < (r + 1) * (r + 1),
    ;
}

/// Integer square root of a `u128`, by binary search.
pub fn isqrt(x: u128) -> (r: u64)
    ensures
        r as int == isqrt_spec(x as int),
{
    let mut lo: u128 = 0;
    let mut hi: u128 = if x < u64::MAX as u128 {
        x
    } else {
        u64::MAX as u128
    };
    proof {
        assert((x as int + 1) * (x as int + 1) > x as int) by (nonlinear_arith)
            requires
                x as int >= 0,
        ;
        if x >= u64::MAX as u128 {
            assert((u64::MAX as int + 1) * (u64::MAX as int + 1) > u128::MAX as int);
        }
    }
    while lo < hi
        invariant
            lo <= hi,
            hi <= u64::MAX as u128,
            (lo as int) * (lo as int) <= x as int,
            (x as int) < (hi as int + 1) * (hi as int + 1),
        decreases hi - lo,
    {
        let mid: u128 = lo + (hi - lo + 1) / 2;
        proof {
            assert((mid as int) * (mid as int) <= (u64::MAX as int) * (u64::MAX as int))
                by (nonlinear_arith)
                requires
                    0 <= mid as int <= u64::MAX as int,
            ;
            assert((u64::MAX as int) * (u64::MAX as int) <= u128::MAX as int);
        }
        if mid * mid <= x {
            lo = mid;
        } else {
            hi = mid - 1;
        }
    }
    proof {
        lemma_isqrt_unique(x as int, lo as int);
    }
    lo as u64
}

/// `isqrt_spec(x) <= b` whenever `x < (b + 1)^2`.
pub proof fn lemma_isqrt_le(x: int, b: int)
    requires
        x >= 0,
        b >= 0,
        x < (b + 1) * (b + 1),
    ensures
        isqrt_spec(x) <= b,
{
    lemma_isqrt_spec_bounds(x);
    let r = isqrt_spec(x);
    assert(r <= b) by (nonlinear_arith)
        requires
            r >= 0,
            b >= 0,
            r * r <= x,
            x < (b + 1) * (b + 1),
    ;
}

/// 2 * pi in fixed point: round(2 * pi * FP_ONE).
pub const TWO_PI_FP: i64 = 411775;

/// pi / 2 in fixed point, rounded up; the largest angle the quarter-wave
/// polynomial is evaluated at.
pub const HALF_PI_FP: i64 = 102944;

/// Quarter-wave cosine: a fixed-point polynomial approximation of
/// `cos(2 * pi * num / den)` for a fraction of a turn in `[0, 1/4]`,
/// clamped into `[0, FP_ONE]`.
pub open spec fn cos_quarter_spec(num: int, den: int) -> int {
    let x0 = (TWO_PI_FP * num) / den;
    let x = if x0 > HALF_PI_FP {
        HALF_PI_FP as int
    } else {
        x0
    };
    let x2 = (x * x) / (FP_ONE as int);
    let x4 = (x2 * x2) / (FP_ONE as int);
    let x6 = (x4 * x2) / (FP_ONE as int);
    let x8 = (x6 * x2) / (FP_ONE as int);
    let t = FP_ONE - x2 / 2 + x4 / 24 - x6 / 720 + x8 / 40320;
    if t > FP_ONE {
        FP_ONE as int
    } else if t < 0 {
        0
    } else {
        t
    }
}

/// The quotient `(a * b) / d` of bounded non-negative factors is bounded by
/// the quotient of the bounds' product.
proof fn lemma_mul_div_bound(a: int, amax: int, b: int, bmax: int, d: int)
    requires
        0 <= a <= amax,
        0 <= b <= bmax,
        0 < d,
    ensures
        0 <= (a * b) / d <= (amax * bmax) / d,
{
    vstd::arithmetic::mul::lemma_mul_upper_bound(a, amax, b, bmax);
    vstd::arithmetic::mul::lemma_mul_nonnegative(a, b);
    vstd::arithmetic::div_mod::lemma_div_is_ordered(a * b, amax * bmax, d);
    vstd::arithmetic::div_mod::lemma_div_pos_is_pos(a * b, d);
}

fn cos_quarter(num: i64, den: i64) -> (r: i64)
    requires
        0 <= num <= 0x40000,
        1 <= den <= 0x40000,
    ensures
        r == cos_quarter_spec(num as int, den as int),
        0 <= r <= FP_ONE,
{
    let x0: i64 = (TWO_PI_FP * num) / den;
    proof {
        vstd::arithmetic::div_mod::lemma_div_pos_is_pos(TWO_PI_FP as int * num as int, den as int);
    }
    let x: i64 = if x0 > HALF_PI_FP {
        HALF_PI_FP
    } else {
        x0
    };
    proof {
        lemma_mul_div_bound(x as int, HALF_PI_FP as int, x as int, HALF_PI_FP as int, FP_ONE as int);
    }
    let x2: i64 = (x * x) / FP_ONE;
    proof {
        lemma_mul_div_bound(x2 as int, 162000, x2 as int, 162000, FP_ONE as int);
    }
    let x4: i64 = (x2 * x2) / FP_ONE;
    proof {
        lemma_mul_div_bound(x4 as int, 401000, x2 as int, 162000, FP_ONE as int);
    }
    let x6: i64 = (x4 * x2) / FP_ONE;
    proof {
        lemma_mul_div_bound(x6 as int, 1000000, x2 as int, 162000, FP_ONE as int);
    }
    let x8: i64 = (x6 * x2) / FP_ONE;
    let t: i64 = FP_ONE - x2 / 2 + x4 / 24 - x6 / 720 + x8 / 40320;
    if t > FP_ONE {
        FP_ONE
    } else if t < 0 {
        0
    } else {
        t
    }
}

/// Fixed-point cosine of `num / den` turns (the fraction is taken modulo a
/// full turn), by quadrant symmetry over the quarter-wave polynomial.
pub open spec fn cos_turn_spec(num: int, den: int) -> int {
    let m = num % den;
    if 4 * m <= den {
        cos_quarter_spec(m, den)
    } else if 2 * m <= den {
        -cos_quarter_spec(den - 2 * m, 2 * den)
    } else if 4 * m <= 3 * den {
        -cos_quarter_spec(2 * m - den, 2 * den)
    } else {
        cos_quarter_spec(den - m, den)
    }
}

pub fn cos_turn(num: i64, den: i64) -> (r: i64)
    requires
        0 <= num <= 0x7000_0000,
        1 <= den <= 0x20000,
    ensures
        r == cos_turn_spec(num as int, den as int),
        -FP_ONE <= r <= FP_ONE,
{
    let m: i64 = num % den;
    proof {
        vstd::arithmetic::div_mod::lemma_mod_bound(num as int, den as int);
    }
    if 4 * m <= den {
        cos_quarter(m, den)
    } else if 2 * m <= den {
        -cos_quarter(den - 2 * m, 2 * den)
    } else if 4 * m <= 3 * den {
        -cos_quarter(2 * m - den, 2 * den)
    } else {
        cos_quarter(den - m, den)
    }
}

/// Fixed-point sine of `num / den` turns, as the cosine a quarter turn behind.
pub open spec fn sin_turn_spec(num: int, den: int) -> int {
    cos_turn_spec(4 * num + 3 * den, 4 * den)
}

pub fn sin_turn(num: i64, den: i64) -> (r: i64)
    requires
        0 <= num <= 0x1000_0000,
        1 <= den <= 0x8000,
    ensures
        r == sin_turn_spec(num as int, den as int),
        -FP_ONE <= r <= FP_ONE,
{
    cos_turn(4 * num + 3 * den, 4 * den)
}

/// Square root in fixed point: for `x` in `FP_ONE` scale, the integer square
/// root of `x * FP_ONE` is again in `FP_ONE` scale.
pub open spec fn sqrt_fp_spec(x: int) -> int {
    isqrt_spec(x * FP_ONE)
}

pub fn sqrt_fp(x: u64) -> (r: u64)
    ensures
        r == sqrt_fp_spec(x as int),
{
    proof {
        vstd::arithmetic::mul::lemma_mul_upper_bound(
            x as int,
            u64::MAX as int,
            FP_ONE as int,
            FP_ONE as int,
        );
    }
    isqrt((x as u128) * (FP_ONE as u128))
}

/// Fourth root in fixed point: the fixed-point square root applied twice.
pub open spec fn fourth_root_fp_spec(x: int) -> int {
    sqrt_fp_spec(sqrt_fp_spec(x))
}

/// Fixed-point power with a non-negative integer exponent:
/// `q` fixed-point multiplications of `f` starting from 1.0.
pub open spec fn fixed_pow_spec(f: int, q: int) -> int
    decreases q,
{
    if q <= 0 {
        FP_ONE as int
    } else {
        (fixed_pow_spec(f, q - 1) * f) / (FP_ONE as int)
    }
}

/// `x` raised to the power `q / 4`, in fixed point: the `q`-th fixed-point
/// power of the fixed-point fourth root of `x`.
pub open spec fn pow_quarter_spec(x: int, q: int) -> int {
    fixed_pow_spec(fourth_root_fp_spec(x), q)
}

/// The fixed-point integer power of 1.0 is 1.0.
pub proof fn lemma_fixed_pow_unit(q: int)
    requires
        q >= 0,
    ensures
        fixed_pow_spec(FP_ONE as int, q) == FP_ONE,
    decreases q,
{
    if q > 0 {
        lemma_fixed_pow_unit(q - 1);
        vstd::arithmetic::div_mod::lemma_div_multiples_vanish(FP_ONE as int, FP_ONE as int);
    }
}

/// The quarter-power of 1.0 is 1.0.
pub proof fn lemma_pow_quarter_unit(q: int)
    requires
        q >= 0,
    ensures
        pow_quarter_spec(FP_ONE as int, q) == FP_ONE,
{
    lemma_isqrt_unique((FP_ONE as int) * (FP_ONE as int), FP_ONE as int);
    assert(fourth_root_fp_spec(FP_ONE as int) == FP_ONE);
    lemma_fixed_pow_unit(q);
}

pub fn pow_quarter(x: u64, q: u32) -> (r: u64)
    requires
        q <= 4,
        x <= 0x1_0000_0000,
    ensures
        r == pow_quarter_spec(x as int, q as int),
        r <= 0x1_0000_0000,
        x <= FP_ONE ==> r <= FP_ONE,
{
    let s: u64 = sqrt_fp(x);
    proof {
        lemma_isqrt_le(x as int * FP_ONE, 0x1_00_0000);
        if x <= FP_ONE {
            lemma_isqrt_le(x as int * FP_ONE, FP_ONE as int);
        }
    }
    let fr: u64 = sqrt_fp(s);
    proof {
        lemma_isqrt_le(s as int * FP_ONE, 0x10_0000);
        if x <= FP_ONE {
            lemma_isqrt_le(s as int * FP_ONE, FP_ONE as int);
        }
    }
    let mut p: u64 = FP_ONE as u64;
    let mut k: u32 = 0;
    while k < q
        invariant
            k <= q <= 4,
            fr <= 0x10_0000,
            x <= FP_ONE ==> fr <= FP_ONE,
            p == fixed_pow_spec(fr as int, k as int),
            k == 0 ==> p <= 0x1_0000,
            k == 1 ==> p <= 0x10_0000,
            k == 2 ==> p <= 0x100_0000,
            k == 3 ==> p <= 0x1000_0000,
            k == 4 ==> p <= 0x1_0000_0000,
            x <= FP_ONE ==> p <= FP_ONE,
        decreases q - k,
    {
        proof {
            vstd::arithmetic::mul::lemma_mul_upper_bound(p as int, 0x1000_0000, fr as int, 0x10_0000);
            if x <= FP_ONE {
                vstd::arithmetic::mul::lemma_mul_upper_bound(p as int, FP_ONE as int, fr as int, FP_ONE as int);
            }
            if k == 0 {
                vstd::arithmetic::mul::lemma_mul_upper_bound(p as int, 0x1_0000, fr as int, 0x10_0000);
            } else if k == 1 {
                vstd::arithmetic::mul::lemma_mul_upper_bound(p as int, 0x10_0000, fr as int, 0x10_0000);
            } else if k == 2 {
                vstd::arithmetic::mul::lemma_mul_upper_bound(p as int, 0x100_0000, fr as int, 0x10_0000);
            }
        }
        p = (((p as u128) * (fr as u128)) / (FP_ONE as u128)) as u64;
        k = k + 1;
    }
    p
}

} // verus!

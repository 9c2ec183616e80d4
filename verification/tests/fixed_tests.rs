use audiovis::fixed::{cos_turn, isqrt, pow_quarter, sin_turn, sqrt_fp, FP_ONE};

#[test]
fn isqrt_small_values() {
    assert_eq!(isqrt(0), 0);
    assert_eq!(isqrt(1), 1);
    assert_eq!(isqrt(2), 1);
    assert_eq!(isqrt(3), 1);
    assert_eq!(isqrt(4), 2);
    assert_eq!(isqrt(15), 3);
    assert_eq!(isqrt(16), 4);
    assert_eq!(isqrt(99), 9);
    assert_eq!(isqrt(100), 10);
}

#[test]
fn isqrt_large_values() {
    assert_eq!(isqrt(1u128 << 64), 1u64 << 32);
    assert_eq!(isqrt(u128::MAX), u64::MAX);
    let x: u128 = 99_520_000_000_000;
    let r = isqrt(x);
    assert!((r as u128) * (r as u128) <= x);
    assert!(x < (r as u128 + 1) * (r as u128 + 1));
}

#[test]
fn sqrt_fp_of_one_is_one() {
    assert_eq!(sqrt_fp(FP_ONE as u64), FP_ONE as u64);
    // sqrt(4.0) == 2.0 in fixed point
    assert_eq!(sqrt_fp(4 * FP_ONE as u64), 2 * FP_ONE as u64);
}

#[test]
fn cosine_of_zero_is_one() {
    assert_eq!(cos_turn(0, 2048), FP_ONE);
}

#[test]
fn cosine_of_half_turn_is_minus_one() {
    let c = cos_turn(1024, 2048);
    assert!((c + FP_ONE).abs() <= 8, "cos(pi) = {c}");
}

#[test]
fn cosine_of_quarter_turn_is_zero() {
    let c = cos_turn(512, 2048);
    assert!(c.abs() <= 8, "cos(pi/2) = {c}");
}

#[test]
fn sine_of_quarter_turn_is_one() {
    let s = sin_turn(512, 2048);
    assert!((s - FP_ONE).abs() <= 8, "sin(pi/2) = {s}");
    let s0 = sin_turn(0, 2048);
    assert!(s0.abs() <= 8, "sin(0) = {s0}");
}

#[test]
fn cosine_matches_reference_cosine() {
    for m in 0..256i64 {
        let c = cos_turn(m, 256);
        let reference = (f64::cos(2.0 * std::f64::consts::PI * (m as f64) / 256.0)
            * (FP_ONE as f64)) as i64;
        assert!(
            (c - reference).abs() <= 16,
            "cos at {m}/256: fixed {c}, reference {reference}"
        );
    }
}

#[test]
fn quarter_power_of_one_is_one() {
    for q in 0..=4u32 {
        assert_eq!(pow_quarter(FP_ONE as u64, q), FP_ONE as u64);
    }
}

#[test]
fn quarter_power_computes_square_root() {
    // 4.0 ^ (2/4) = 2.0, up to the fixed-point grain
    let r = pow_quarter(4 * FP_ONE as u64, 2);
    assert!((r as i64 - 2 * FP_ONE).abs() <= 8, "sqrt(4.0) = {r}");
}

#[test]
fn quarter_power_zero_exponent_is_one() {
    assert_eq!(pow_quarter(12345, 0), FP_ONE as u64);
}

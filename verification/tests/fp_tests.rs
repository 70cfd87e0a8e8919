//! Fixed-point scalar arithmetic: exact products, quotients, square roots
//! and the trig polynomials.

use pathtracer::fp::{fp_div, fp_mul, fp_sincos, fp_sqrt, idiv, isqrt_u128, FP_ONE, PI_FP};

#[test]
fn fp_mul_exact_products() {
    // 3.5 * 2 == 7
    assert_eq!(fp_mul(229376, 131072), 458752);
    // 1 * 1 == 1
    assert_eq!(fp_mul(FP_ONE, FP_ONE), FP_ONE);
    // 0.5 * 0.5 == 0.25
    assert_eq!(fp_mul(32768, 32768), 16384);
    assert_eq!(fp_mul(0, 12345), 0);
}

#[test]
fn fp_mul_rounds_toward_zero() {
    // -1.5 * 0.5 == -0.75 exactly
    assert_eq!(fp_mul(-98304, 32768), -49152);
    // (1/65536) * (1/65536) truncates to zero from either sign
    assert_eq!(fp_mul(1, 1), 0);
    assert_eq!(fp_mul(-1, 1), 0);
}

#[test]
fn fp_div_exact_quotients() {
    // 7 / 2 == 3.5
    assert_eq!(fp_div(458752, 131072), 229376);
    // 1 / 3 truncates toward zero
    assert_eq!(fp_div(FP_ONE, 3 * FP_ONE), 21845);
    assert_eq!(fp_div(-FP_ONE, 3 * FP_ONE), -21845);
}

#[test]
fn fp_sqrt_exact_squares() {
    // sqrt(4) == 2
    assert_eq!(fp_sqrt(4 * FP_ONE), 2 * FP_ONE);
    // sqrt(1) == 1
    assert_eq!(fp_sqrt(FP_ONE), FP_ONE);
    // sqrt(0.25) == 0.5
    assert_eq!(fp_sqrt(16384), 32768);
    assert_eq!(fp_sqrt(0), 0);
}

#[test]
fn isqrt_brackets() {
    assert_eq!(isqrt_u128(0), 0);
    assert_eq!(isqrt_u128(15), 3);
    assert_eq!(isqrt_u128(16), 4);
    assert_eq!(isqrt_u128(17), 4);
    let big: u128 = (1u128 << 100) - 1;
    let r: u128 = isqrt_u128(big);
    assert!(r * r <= big);
    assert!((r + 1) * (r + 1) > big);
}

#[test]
fn idiv_truncates() {
    assert_eq!(idiv(7, 2), 3);
    assert_eq!(idiv(-7, 2), -3);
    assert_eq!(idiv(6, 3), 2);
}

#[test]
fn sincos_at_zero_and_quarter_turn() {
    let (s0, c0) = fp_sincos(0);
    assert_eq!(s0, 0);
    assert_eq!(c0, FP_ONE);
    // At Pi/2 the polynomial sine is within a few ulp of one and the
    // cosine within a few ulp of zero.
    let (s1, c1) = fp_sincos(102943);
    assert!((s1 - FP_ONE).abs() < 64, "sin(pi/2) = {}", s1);
    assert!(c1.abs() < 64, "cos(pi/2) = {}", c1);
    // At Pi: sine near zero, cosine near minus one.
    let (s2, c2) = fp_sincos(PI_FP);
    assert!(s2.abs() < 64);
    assert!((c2 + FP_ONE).abs() < 64);
}

//! The fixed-point scalar and the complex recurrence.

use pixi::complex::{cmul, cpow, step, Complex};
use pixi::fixed::{fx_add, fx_mul, fx_sub, SCALE};

#[test]
fn mul_quarters() {
    // 0.5 * 0.5 == 0.25
    assert_eq!(fx_mul(SCALE / 2, SCALE / 2), Some(SCALE / 4));
}

#[test]
fn mul_truncates_toward_zero() {
    // -1e-6 * 1e-6 is a millionth of a millionth: truncates to zero,
    // not toward negative infinity.
    assert_eq!(fx_mul(-1, 1), Some(0));
    assert_eq!(fx_mul(-(SCALE + SCALE / 2), 1), Some(-1));
}

#[test]
fn mul_overflow_is_reported() {
    assert_eq!(fx_mul(i64::MAX, i64::MAX), None);
    assert_eq!(fx_mul(i64::MAX, -2 * SCALE), None);
    // A full-magnitude value scaled by exactly one stays representable.
    assert_eq!(fx_mul(i64::MAX, -SCALE), Some(-i64::MAX));
}

#[test]
fn add_sub_checked() {
    assert_eq!(fx_add(2 * SCALE, 3 * SCALE), Some(5 * SCALE));
    assert_eq!(fx_add(i64::MAX, 1), None);
    assert_eq!(fx_sub(i64::MIN + 1, 2), None);
    assert_eq!(fx_sub(3 * SCALE, 5 * SCALE), Some(-2 * SCALE));
}

#[test]
fn step_squares_origin_seed() {
    // z = 0, c = 0.5 + 0i, power 2: z' = 0.5 + 0i.
    let z = Complex::new(0, 0);
    let c = Complex::new(SCALE / 2, 0);
    assert_eq!(step(z, c, 2), Some(Complex::new(SCALE / 2, 0)));
}

#[test]
fn step_squares_one_plus_i() {
    // (1 + i)^2 == 2i.
    let z = Complex::new(SCALE, SCALE);
    let c = Complex::new(0, 0);
    assert_eq!(step(z, c, 2), Some(Complex::new(0, 2 * SCALE)));
}

#[test]
fn step_adds_seed_after_power() {
    // (2i)^2 + (1 + i) = -4 + 1 + i = -3 + i.
    let z = Complex::new(0, 2 * SCALE);
    let c = Complex::new(SCALE, SCALE);
    assert_eq!(step(z, c, 2), Some(Complex::new(-3 * SCALE, SCALE)));
}

#[test]
fn cube_of_two() {
    // 2^3 == 8 by repeated complex multiplication.
    assert_eq!(cpow(Complex::new(2 * SCALE, 0), 3), Some(Complex::new(8 * SCALE, 0)));
}

#[test]
fn complex_product() {
    // (1 + 2i)(3 + 4i) = 3 - 8 + (4 + 6)i = -5 + 10i.
    let a = Complex::new(SCALE, 2 * SCALE);
    let b = Complex::new(3 * SCALE, 4 * SCALE);
    assert_eq!(cmul(a, b), Some(Complex::new(-5 * SCALE, 10 * SCALE)));
}

#[test]
fn step_reports_divergence_as_none() {
    let z = Complex::new(i64::MAX, i64::MAX);
    let c = Complex::new(0, 0);
    assert_eq!(step(z, c, 2), None);
}

//! Fixed-point scalars: the library's model of the real line.
//!
//! A value of the plane is an `i64` counting millionths of a unit
//! (`SCALE` units per 1.0). Multiplication rescales its mathematical
//! product by `SCALE`, truncating toward zero as the hardware does.

use vstd::prelude::*;

verus! {

/// Fixed-point units per 1.0 of real value.
pub const SCALE: i64 = 1_000_000;

/// Truncating (round-toward-zero) division by a positive divisor,
/// as `/` computes it on machine integers.
pub open spec fn div_trunc(a: int, d: int) -> int {
    if a >= 0 {
        a / d
    } else {
        -((-a) / d)
    }
}

/// The mathematical product of two fixed-point values, rescaled to
/// fixed point by a single truncating division.
pub open spec fn mul_value(a: int, b: int) -> int {
    div_trunc(a * b, SCALE as int)
}

/// Whether a model value is representable as a fixed-point scalar.
/// The range is symmetric: the lone extra negative value of `i64` is
/// treated as unrepresentable, so negation never overflows.
pub open spec fn in_fx(a: int) -> bool {
    -(i64::MAX as int) <= a <= i64::MAX as int
}

/// Magnitude of a scalar as an unsigned value, total on all of `i64`.
fn abs_u128(a: i64) -> (r: u128)
    ensures
        r == if a >= 0 { a as int } else { -(a as int) },
{
    if a >= 0 {
        a as u128
    } else {
        (-(a as i128)) as u128
    }
}

/// Checked fixed-point multiplication: `Some` exactly when the rescaled
/// product is representable.
pub fn fx_mul(a: i64, b: i64) -> (r: Option<i64>)
    ensures
        r matches Some(v) ==> v == mul_value(a as int, b as int),
        r is Some <==> in_fx(mul_value(a as int, b as int)),
{
    let neg: bool = (a < 0) != (b < 0);
    let ma: u128 = abs_u128(a);
    let mb: u128 = abs_u128(b);
    proof {
        lemma_abs_mul(a as int, b as int);
        assert(ma * mb <= 0x8000000000000000u128 * 0x8000000000000000u128) by (nonlinear_arith)
            requires
                ma <= 0x8000000000000000u128,
                mb <= 0x8000000000000000u128,
        ;
    }
    let p: u128 = ma * mb;
    let q: u128 = p / (SCALE as u128);
    proof {
        lemma_div_trunc_sign(a as int * b as int, ma as int * mb as int, SCALE as int);
    }
    if neg {
        if q <= i64::MAX as u128 {
            Some(-(q as i64))
        } else {
            None
        }
    } else {
        if q <= i64::MAX as u128 {
            Some(q as i64)
        } else {
            None
        }
    }
}

/// The magnitude of a product is the product of the magnitudes.
proof fn lemma_abs_mul(a: int, b: int)
    ensures
        (if a >= 0 { a } else { -a }) * (if b >= 0 { b } else { -b }) == (if a * b >= 0 { a * b } else { -(a * b) }),
        (a * b >= 0) <==> (a >= 0 && b >= 0) || (a <= 0 && b <= 0),
{
    assert((if a >= 0 { a } else { -a }) * (if b >= 0 { b } else { -b }) == (if a * b >= 0 { a * b } else { -(a * b) })) by (nonlinear_arith);
    assert((a * b >= 0) <==> (a >= 0 && b >= 0) || (a <= 0 && b <= 0)) by (nonlinear_arith);
}

/// Truncating division of `x` by a positive `d`, computed on the
/// magnitude `m` of `x`.
proof fn lemma_div_trunc_sign(x: int, m: int, d: int)
    requires
        d > 0,
        m == if x >= 0 { x } else { -x },
    ensures
        x >= 0 ==> div_trunc(x, d) == m / d,
        x < 0 ==> div_trunc(x, d) == -(m / d),
{
}

/// Checked fixed-point addition (plain integer addition, `Some` exactly
/// when the sum is representable; the sum `i64::MIN` is rejected so that
/// every representable scalar has a representable negation).
pub fn fx_add(a: i64, b: i64) -> (r: Option<i64>)
    ensures
        r matches Some(v) ==> v == a + b,
        r is Some <==> in_fx(a + b),
{
    match a.checked_add(b) {
        Some(v) => if v == i64::MIN {
            None
        } else {
            Some(v)
        },
        None => None,
    }
}

/// Checked fixed-point subtraction, with the same symmetric range.
pub fn fx_sub(a: i64, b: i64) -> (r: Option<i64>)
    ensures
        r matches Some(v) ==> v == a - b,
        r is Some <==> in_fx(a - b),
{
    match a.checked_sub(b) {
        Some(v) => if v == i64::MIN {
            None
        } else {
            Some(v)
        },
        None => None,
    }
}

} // verus!

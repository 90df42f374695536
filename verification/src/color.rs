//! The color model: HSV to RGBA conversion in fixed point.
//!
//! Hue is measured in millionths of a degree and reduced modulo 360
//! degrees; saturation and value are fixed-point fractions of one. The
//! sector arithmetic mirrors the classic conversion: an integer sector
//! index selects which of value, `p`, `q` and `t` lands in each channel,
//! and each channel is scaled to the 8-bit depth by a truncating
//! division. A sector outside the six legal ones (impossible for the
//! arithmetic, but defended) yields opaque black.

use vstd::prelude::*;
use vstd::arithmetic::div_mod::{
    lemma_div_is_ordered, lemma_fundamental_div_mod_converse, lemma_small_mod,
};
use crate::fixed::SCALE;

verus! {

/// Millionths of a degree in a full turn.
pub const TURN: u64 = 360_000_000;

/// Millionths of a degree in one 60-degree sector.
pub const SECTOR: u64 = 60_000_000;

/// An 8-bit RGBA color.
#[derive(Clone, Copy, Debug, PartialEq, Eq, Structural)]
pub struct Rgba {
    pub r: u8,
    pub g: u8,
    pub b: u8,
    pub a: u8,
}

/// The three color channels of the conversion, in the model.
/// `hue % TURN` is the Euclidean reduction of the hue into `[0, 360)`
/// degrees; every division is by a positive constant on non-negative
/// operands, so it coincides with the machine's truncating division.
pub open spec fn hsv_channels(hue: int, sat: int, val: int) -> (int, int, int) {
    let h = hue % (TURN as int);
    let sector = h / (SECTOR as int);
    let f = (h % (SECTOR as int)) / 60;
    let p = val * (SCALE - sat) / (SCALE as int);
    let q = val * (SCALE - f * sat / (SCALE as int)) / (SCALE as int);
    let t = val * (SCALE - (SCALE - f) * sat / (SCALE as int)) / (SCALE as int);
    let bv = 255 * val / (SCALE as int);
    let bp = 255 * p / (SCALE as int);
    let bq = 255 * q / (SCALE as int);
    let bt = 255 * t / (SCALE as int);
    if sector == 0 {
        (bv, bt, bp)
    } else if sector == 1 {
        (bq, bv, bp)
    } else if sector == 2 {
        (bp, bv, bt)
    } else if sector == 3 {
        (bp, bq, bv)
    } else if sector == 4 {
        (bt, bp, bv)
    } else if sector == 5 {
        (bv, bp, bq)
    } else {
        (0, 0, 0)
    }
}

/// Euclidean reduction of a hue into `[0, TURN)`.
fn hue_mod(hue: i64) -> (r: u64)
    ensures
        r == (hue as int) % (TURN as int),
        r < TURN,
{
    if hue >= 0 {
        (hue as u64) % TURN
    } else {
        let m: u64 = (((-(hue as i128)) as u128) % (TURN as u128)) as u64;
        proof {
            let x = hue as int;
            let d = TURN as int;
            let qq = (-x) / d;
            vstd::arithmetic::div_mod::lemma_fundamental_div_mod(-x, d);
            if m == 0 {
                lemma_fundamental_div_mod_converse(x, d, -qq, 0);
            } else {
                lemma_fundamental_div_mod_converse(x, d, -qq - 1, d - m);
            }
        }
        if m == 0 {
            0
        } else {
            TURN - m
        }
    }
}

/// `v * w / SCALE` for fixed-point fractions, staying within one.
fn scaled_frac(v: u64, w: u64) -> (r: u64)
    requires
        v <= SCALE,
        w <= SCALE,
    ensures
        r == (v as int) * (w as int) / (SCALE as int),
        r <= SCALE,
{
    proof {
        assert((v as int) * (w as int) <= 1_000_000_000_000) by (nonlinear_arith)
            requires
                v <= 1_000_000u64,
                w <= 1_000_000u64,
        ;
        lemma_div_is_ordered((v as int) * (w as int), 1_000_000_000_000, SCALE as int);
    }
    (v * w) / (SCALE as u64)
}

/// `255 * x / SCALE` as an 8-bit channel value.
fn byte_of(x: u64) -> (r: u8)
    requires
        x <= SCALE,
    ensures
        r == 255 * (x as int) / (SCALE as int),
{
    proof {
        lemma_div_is_ordered(255 * (x as int), 255_000_000, SCALE as int);
    }
    ((255 * x) / (SCALE as u64)) as u8
}

/// Standard HSV to RGB conversion at 8 bits per channel, alpha opaque;
/// the caller sets the blend alpha afterward. Saturation and value are
/// fixed-point fractions in `[0, 1]`; any hue is accepted and reduced
/// modulo 360 degrees.
pub fn hsv_to_rgba(hue: i64, sat: i64, val: i64) -> (c: Rgba)
    requires
        0 <= sat <= SCALE,
        0 <= val <= SCALE,
    ensures
        c.r == hsv_channels(hue as int, sat as int, val as int).0,
        c.g == hsv_channels(hue as int, sat as int, val as int).1,
        c.b == hsv_channels(hue as int, sat as int, val as int).2,
        c.a == 255,
{
    let h = hue_mod(hue);
    let sector = h / SECTOR;
    let f = (h % SECTOR) / 60;
    let sat64 = sat as u64;
    let val64 = val as u64;
    let p = scaled_frac(val64, (SCALE as u64) - sat64);
    let fs = scaled_frac(f, sat64);
    let q = scaled_frac(val64, (SCALE as u64) - fs);
    let gs = scaled_frac((SCALE as u64) - f, sat64);
    let t = scaled_frac(val64, (SCALE as u64) - gs);
    let bv = byte_of(val64);
    let bp = byte_of(p);
    let bq = byte_of(q);
    let bt = byte_of(t);
    if sector == 0 {
        Rgba { r: bv, g: bt, b: bp, a: 255 }
    } else if sector == 1 {
        Rgba { r: bq, g: bv, b: bp, a: 255 }
    } else if sector == 2 {
        Rgba { r: bp, g: bv, b: bt, a: 255 }
    } else if sector == 3 {
        Rgba { r: bp, g: bq, b: bv, a: 255 }
    } else if sector == 4 {
        Rgba { r: bt, g: bp, b: bv, a: 255 }
    } else if sector == 5 {
        Rgba { r: bv, g: bp, b: bq, a: 255 }
    } else {
        Rgba { r: 0, g: 0, b: 0, a: 255 }
    }
}

/// At full saturation and full value the conversion is a fully
/// saturated color for every hue of the circle: some channel sits at
/// the maximum 255 and some channel sits at the minimum 0.
pub proof fn lemma_full_saturation_extremes(hue: int)
    requires
        0 <= hue < TURN,
    ensures
        hsv_channels(hue, SCALE as int, SCALE as int).0 == 255
            || hsv_channels(hue, SCALE as int, SCALE as int).1 == 255
            || hsv_channels(hue, SCALE as int, SCALE as int).2 == 255,
        hsv_channels(hue, SCALE as int, SCALE as int).0 == 0
            || hsv_channels(hue, SCALE as int, SCALE as int).1 == 0
            || hsv_channels(hue, SCALE as int, SCALE as int).2 == 0,
{
    lemma_small_mod(hue as nat, TURN as nat);
    let h = hue % (TURN as int);
    let sector = h / (SECTOR as int);
    assert(0 <= sector < 6) by (nonlinear_arith)
        requires
            0 <= h < 360_000_000,
            sector == h / 60_000_000,
    ;
    assert(SCALE * (SCALE - SCALE) / (SCALE as int) == 0);
    assert(255int * 0int / (SCALE as int) == 0);
    assert(255 * (SCALE as int) / (SCALE as int) == 255);
}

} // verus!

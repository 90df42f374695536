//! HSV conversion: the pure primaries, the ramp, and hue reduction.

use pixi::color::{hsv_to_rgba, Rgba};
use pixi::fixed::SCALE;

const DEG: i64 = 1_000_000;

#[test]
fn primaries_at_cardinal_hues() {
    assert_eq!(hsv_to_rgba(0, SCALE, SCALE), Rgba { r: 255, g: 0, b: 0, a: 255 });
    assert_eq!(hsv_to_rgba(120 * DEG, SCALE, SCALE), Rgba { r: 0, g: 255, b: 0, a: 255 });
    assert_eq!(hsv_to_rgba(240 * DEG, SCALE, SCALE), Rgba { r: 0, g: 0, b: 255, a: 255 });
}

#[test]
fn secondaries_between_sectors() {
    assert_eq!(hsv_to_rgba(60 * DEG, SCALE, SCALE), Rgba { r: 255, g: 255, b: 0, a: 255 });
    assert_eq!(hsv_to_rgba(180 * DEG, SCALE, SCALE), Rgba { r: 0, g: 255, b: 255, a: 255 });
    assert_eq!(hsv_to_rgba(300 * DEG, SCALE, SCALE), Rgba { r: 255, g: 0, b: 255, a: 255 });
}

#[test]
fn full_saturation_ramps_continuously() {
    // Mid-sector the middle channel ramps: at 30 degrees the green
    // channel holds half intensity, and the extremes stay extreme.
    let c = hsv_to_rgba(30 * DEG, SCALE, SCALE);
    assert_eq!(c.r, 255);
    assert_eq!(c.b, 0);
    assert_eq!(c.g, 127);
    // Every sampled hue of the circle keeps one channel at the
    // minimum and one at the maximum.
    let mut hue: i64 = 0;
    while hue < 360 * DEG {
        let c = hsv_to_rgba(hue, SCALE, SCALE);
        let lo = c.r.min(c.g).min(c.b);
        let hi = c.r.max(c.g).max(c.b);
        assert_eq!(lo, 0);
        assert_eq!(hi, 255);
        hue += DEG / 7;
    }
}

#[test]
fn hue_reduces_modulo_full_turns() {
    assert_eq!(hsv_to_rgba(360 * DEG, SCALE, SCALE), hsv_to_rgba(0, SCALE, SCALE));
    assert_eq!(hsv_to_rgba(-60 * DEG, SCALE, SCALE), hsv_to_rgba(300 * DEG, SCALE, SCALE));
    assert_eq!(hsv_to_rgba(725 * DEG, SCALE, SCALE), hsv_to_rgba(5 * DEG, SCALE, SCALE));
}

#[test]
fn zero_saturation_is_gray() {
    assert_eq!(hsv_to_rgba(200 * DEG, 0, SCALE), Rgba { r: 255, g: 255, b: 255, a: 255 });
    let half = hsv_to_rgba(200 * DEG, 0, SCALE / 2);
    assert_eq!(half, Rgba { r: 127, g: 127, b: 127, a: 255 });
}

#[test]
fn zero_value_is_black() {
    assert_eq!(hsv_to_rgba(90 * DEG, SCALE, 0), Rgba { r: 0, g: 0, b: 0, a: 255 });
}

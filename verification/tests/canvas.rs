//! Projection, accumulation, export and the histogram.

use pixi::canvas::{project, AccumMode, Canvas, Px};
use pixi::complex::Complex;
use pixi::fixed::SCALE;

/// One channel of the "over" composite, recomputed independently.
fn over(sv: u64, dv: u64, a: u64) -> u16 {
    ((sv * a + dv * (65535 - a)) / 65535) as u16
}

#[test]
fn origin_projects_center_with_truncation_bias() {
    // 100x100 at zoom 50: the origin lands on column 49 (49.5
    // truncated); the row formula carries the opposite half-pixel
    // bias and truncates to row 50.
    let r = project(Complex::new(0, 0), 100, 100, 50);
    assert_eq!(r, Some((49, 50)));
}

#[test]
fn right_overflow_is_out_of_bounds() {
    // Re(z) = 1.02 pushes the column to 100 on a 100-wide frame.
    let r = project(Complex::new(102 * SCALE / 100, 0), 100, 100, 50);
    assert_eq!(r, None);
}

#[test]
fn fraction_left_of_frame_truncates_onto_column_zero() {
    let r = project(Complex::new(-SCALE, 0), 100, 100, 50);
    assert_eq!(r, Some((0, 50)));
    let r = project(Complex::new(-102 * SCALE / 100, 0), 100, 100, 50);
    assert_eq!(r, None);
}

#[test]
fn vertical_overflow_is_out_of_bounds() {
    // Positive imaginary part far enough up gives a negative row.
    let r = project(Complex::new(0, 2 * SCALE), 100, 100, 50);
    assert_eq!(r, None);
    // Below the frame: row past the height.
    let r = project(Complex::new(0, -2 * SCALE), 100, 100, 50);
    assert_eq!(r, None);
}

#[test]
fn density_write_counts_hits() {
    let mut canvas = Canvas::new(10, 10, AccumMode::Density);
    let white = Px { r: 65535, g: 65535, b: 65535, a: 65535 };
    // The origin at zoom 10 on a 10x10 frame lands on (4, 5).
    canvas.draw_point(Complex::new(0, 0), white, 10);
    assert_eq!(canvas.data[5 * 10 + 4].r, 1);
    canvas.draw_point(Complex::new(0, 0), white, 10);
    assert_eq!(canvas.data[5 * 10 + 4].r, 2);
    // Out-of-frame points are dropped silently.
    let before: Vec<u16> = canvas.data.iter().map(|p| p.r).collect();
    canvas.draw_point(Complex::new(2 * SCALE, 0), white, 10);
    let after: Vec<u16> = canvas.data.iter().map(|p| p.r).collect();
    assert_eq!(before, after);
}

#[test]
fn density_counter_saturates() {
    let mut canvas = Canvas::new(2, 2, AccumMode::Density);
    let white = Px { r: 65535, g: 65535, b: 65535, a: 65535 };
    for _ in 0..70000 {
        canvas.draw_point(Complex::new(0, 0), white, 1);
    }
    let top: u16 = canvas.data.iter().map(|p| p.r).max().unwrap();
    assert_eq!(top, 65535);
}

#[test]
fn blend_write_composites_over() {
    let mut canvas = Canvas::new(10, 10, AccumMode::Blend);
    let color = Px { r: 65535, g: 65535, b: 65535, a: 52428 };
    canvas.draw_point(Complex::new(0, 0), color, 10);
    let p = canvas.data[5 * 10 + 4];
    assert_eq!(p.r, over(65535, 0, 52428));
    assert_eq!(p.g, over(65535, 0, 52428));
    assert_eq!(p.b, over(65535, 0, 52428));
    // The background is opaque, and stays opaque.
    assert_eq!(p.a, 65535);
}

#[test]
fn export_shifts_channels_down_to_bytes() {
    let mut canvas = Canvas::new(3, 2, AccumMode::Density);
    let white = Px { r: 65535, g: 65535, b: 65535, a: 65535 };
    for _ in 0..256 {
        canvas.draw_point(Complex::new(0, 0), white, 1);
    }
    let bytes = canvas.export();
    assert_eq!(bytes.len(), 4 * 6);
    // The hit pixel shows gray level 1 (256 >> 8), opaque.
    let hit = bytes.chunks(4).find(|c| c[0] != 0).unwrap();
    assert_eq!(hit, &[1, 1, 1, 255]);
    // Untouched pixels are black, opaque.
    assert_eq!(&bytes[0..4], &[0, 0, 0, 255]);
}

#[test]
fn export_twice_is_byte_identical() {
    let mut canvas = Canvas::new(8, 8, AccumMode::Blend);
    let color = Px { r: 65535, g: 30000, b: 12345, a: 52428 };
    canvas.draw_point(Complex::new(0, 0), color, 4);
    canvas.draw_point(Complex::new(SCALE / 2, SCALE / 2), color, 4);
    let first = canvas.export();
    let second = canvas.export();
    assert_eq!(first, second);
}

#[test]
fn histogram_bands_touched_pixels() {
    let mut canvas = Canvas::new(4, 4, AccumMode::Density);
    let white = Px { r: 65535, g: 65535, b: 65535, a: 65535 };
    // Untouched pixels are not banded at all.
    assert_eq!(canvas.buckets(), vec![0u32; 14]);
    canvas.draw_point(Complex::new(0, 0), white, 1);
    let b = canvas.buckets();
    assert_eq!(b[0], 1);
    assert_eq!(b.iter().sum::<u32>(), 1);
    // Push one pixel into the sixth band (counts 25000..30000).
    for _ in 0..26000 {
        canvas.draw_point(Complex::new(0, 0), white, 1);
    }
    let b = canvas.buckets();
    assert_eq!(b[5], 1);
    assert_eq!(b.iter().sum::<u32>(), 1);
}

//! The coordinate grid: the exact walk and its cross product.

use pixi::fixed::SCALE;
use pixi::grid::{cross, generate};

#[test]
fn unit_bounds_half_delta() {
    // bounds 1.0, delta 0.5: exactly -1.0, -0.5, 0.0, 0.5; the upper
    // bound itself is excluded.
    let axis = generate(SCALE, SCALE / 2);
    assert_eq!(axis, vec![-SCALE, -SCALE / 2, 0, SCALE / 2]);
    let seeds = cross(&axis);
    assert_eq!(seeds.len(), 16);
    assert_eq!(seeds[0], (-SCALE, -SCALE));
    assert_eq!(seeds[1], (-SCALE, -SCALE / 2));
    assert_eq!(seeds[4], (-SCALE / 2, -SCALE));
    assert_eq!(seeds[15], (SCALE / 2, SCALE / 2));
}

#[test]
fn walk_is_reproducible() {
    let a = generate(3 * SCALE / 5, SCALE / 20);
    let b = generate(3 * SCALE / 5, SCALE / 20);
    assert_eq!(a, b);
    assert_eq!(a.len(), 24);
    for (i, x) in a.iter().enumerate() {
        assert_eq!(*x, -3 * SCALE / 5 + (i as i64) * (SCALE / 20));
        assert!(*x < 3 * SCALE / 5);
    }
}

#[test]
fn uneven_step_rounds_the_count_up() {
    // bounds 0.5, delta 0.4: ceil(1.0 / 0.4) = 3 samples.
    let axis = generate(SCALE / 2, 2 * SCALE / 5);
    assert_eq!(axis, vec![-500_000, -100_000, 300_000]);
}

#[test]
fn coarse_step_yields_single_sample() {
    let axis = generate(SCALE / 2, 2 * SCALE);
    assert_eq!(axis, vec![-SCALE / 2]);
    assert_eq!(cross(&axis).len(), 1);
}

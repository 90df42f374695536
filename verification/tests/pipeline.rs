//! End-to-end renders: the batch dispatcher, the incremental walk,
//! the session bookkeeping, and configuration validation.

use pixi::canvas::{AccumMode, Canvas, Px};
use pixi::config::{Config, ConfigError};
use pixi::dispatch::{
    advance, advance_tick, iterate_coordinate, render_all, render_frame, RenderState,
};
use pixi::complex::Complex;
use pixi::fixed::SCALE;
use pixi::grid::{cross, generate};
use pixi::session::SessionState;
use pixi::worker::{commit, run};

fn small_config(mode: AccumMode) -> Config {
    Config {
        width: 10,
        height: 10,
        bounds: SCALE / 10,
        delta: SCALE / 10,
        power: 2,
        colour_factor: 700_000,
        opacity: 52428,
        zoom: 10,
        loop_limit: 5,
        speed: 1,
        off_re: 0,
        off_im: 0,
        warmup: false,
        escape: false,
        mode,
    }
}

#[test]
fn origin_seed_blends_five_times_on_center_pixel() {
    // The trajectory of seed (0, 0) stays at the origin for all five
    // iterations, so all five writes land on the center pixel and the
    // blended channel approaches the closed form
    // 65535 * (1 - (1 - opacity)^5), each truncating write losing at
    // most one unit.
    let cfg = small_config(AccumMode::Blend);
    assert_eq!(cfg.validate(), Ok(()));
    let mut canvas = Canvas::new(cfg.width, cfg.height, cfg.mode);
    let mut session = SessionState::new(1);
    let color = Px { r: 65535, g: 65535, b: 65535, a: cfg.opacity };
    let pts = run(&cfg, 0, 0);
    assert_eq!(pts.len(), 5);
    for p in pts.iter() {
        assert_eq!(*p, Complex::new(0, 0));
    }
    commit(&mut canvas, &pts, color, cfg.zoom);
    session.counter += 1;
    let p = canvas.data[5 * 10 + 4];
    let o = cfg.opacity as f64 / 65535.0;
    let exact = (1.0 - (1.0 - o).powi(5)) * 65535.0;
    assert!((p.r as f64) <= exact && exact - (p.r as f64) <= 5.0);
    assert_eq!(p.g, p.r);
    assert_eq!(p.b, p.r);
    assert_eq!(p.a, 65535);
    // Every other pixel is untouched.
    for (i, q) in canvas.data.iter().enumerate() {
        if i != 54 {
            assert_eq!(*q, Px { r: 0, g: 0, b: 0, a: 65535 });
        }
    }
    assert_eq!(session.counter, 1);
}

#[test]
fn batch_render_counts_every_seed() {
    let cfg = small_config(AccumMode::Density);
    assert_eq!(cfg.validate(), Ok(()));
    let axis = generate(cfg.bounds, cfg.delta);
    assert_eq!(axis, vec![-SCALE / 10, 0]);
    let seeds = cross(&axis);
    assert_eq!(seeds.len(), 4);
    let mut canvas = Canvas::new(cfg.width, cfg.height, cfg.mode);
    let mut session = SessionState::new(seeds.len() as u32);
    let color = Px { r: 65535, g: 65535, b: 65535, a: cfg.opacity };
    render_all(&mut canvas, &mut session, &cfg, &seeds, color);
    assert_eq!(session.counter, 4);
    // The origin seed alone lands five hits on the center pixel.
    assert!(canvas.data[5 * 10 + 4].r >= 5);
}

#[test]
fn whole_frame_from_config_alone() {
    let cfg = small_config(AccumMode::Density);
    let color = Px { r: 65535, g: 65535, b: 65535, a: cfg.opacity };
    let (canvas, session) = render_frame(&cfg, color);
    assert_eq!(session.counter, 4);
    assert_eq!(session.max, 4);
    // The one-call frame equals the pipeline assembled by hand.
    let axis = generate(cfg.bounds, cfg.delta);
    let seeds = cross(&axis);
    let mut by_hand = Canvas::new(cfg.width, cfg.height, cfg.mode);
    let mut s2 = SessionState::new(seeds.len() as u32);
    render_all(&mut by_hand, &mut s2, &cfg, &seeds, color);
    assert_eq!(canvas.data, by_hand.data);
}

#[test]
fn coverage_is_order_independent() {
    // The concurrency property, on concrete data: rendering the same
    // seeds in opposite orders touches exactly the same pixels.
    let cfg = Config { bounds: SCALE / 2, delta: SCALE / 8, zoom: 8, ..small_config(AccumMode::Density) };
    assert_eq!(cfg.validate(), Ok(()));
    let axis = generate(cfg.bounds, cfg.delta);
    let seeds = cross(&axis);
    let mut reversed = seeds.clone();
    reversed.reverse();
    let color = Px { r: 65535, g: 65535, b: 65535, a: cfg.opacity };

    let mut forward = Canvas::new(cfg.width, cfg.height, cfg.mode);
    let mut s1 = SessionState::new(seeds.len() as u32);
    render_all(&mut forward, &mut s1, &cfg, &seeds, color);

    let mut backward = Canvas::new(cfg.width, cfg.height, cfg.mode);
    let mut s2 = SessionState::new(reversed.len() as u32);
    render_all(&mut backward, &mut s2, &cfg, &reversed, color);

    let touched_forward: Vec<bool> = forward.data.iter().map(|p| p.r > 0).collect();
    let touched_backward: Vec<bool> = backward.data.iter().map(|p| p.r > 0).collect();
    assert_eq!(touched_forward, touched_backward);
    assert!(touched_forward.iter().any(|&t| t));
}

#[test]
fn incremental_walk_matches_batch_for_one_seed() {
    let cfg = Config { speed: 3, ..small_config(AccumMode::Density) };
    assert_eq!(cfg.validate(), Ok(()));
    let seeds = vec![(0i64, 0i64)];
    let color = Px { r: 65535, g: 65535, b: 65535, a: cfg.opacity };
    let mut canvas = Canvas::new(cfg.width, cfg.height, cfg.mode);
    let mut state = RenderState {
        seed_ix: 0,
        z: Complex::new(cfg.off_re, cfg.off_im),
        iters: 0,
        warmed: false,
        done: false,
    };
    // Three ticks of three micro-steps: five draws, the move to the
    // next seed, then the terminal transition; the rest are no-ops.
    for _ in 0..3 {
        advance_tick(&mut state, &mut canvas, &cfg, &seeds, color);
    }
    assert!(state.done);
    assert_eq!(canvas.data[5 * 10 + 4].r, 5);
    // Once finished, further ticks change nothing.
    let before: Vec<u16> = canvas.data.iter().map(|p| p.r).collect();
    advance_tick(&mut state, &mut canvas, &cfg, &seeds, color);
    assert!(state.done);
    let after: Vec<u16> = canvas.data.iter().map(|p| p.r).collect();
    assert_eq!(before, after);
}

#[test]
fn warmup_discards_the_first_point() {
    // With warm-up, seed (0.1, 0) records its points only after one
    // unrecorded iteration; the budget still allows loop_limit
    // recorded points.
    let cfg = Config { warmup: true, ..small_config(AccumMode::Density) };
    let pts = run(&cfg, SCALE / 10, 0);
    assert_eq!(pts.len(), 5);
    // Without warm-up the first recorded point is z1 = c itself; with
    // warm-up it is z2 = c^2 + c.
    let plain = run(&Config { warmup: false, ..cfg }, SCALE / 10, 0);
    assert_eq!(plain[0], Complex::new(SCALE / 10, 0));
    assert_eq!(pts[0], Complex::new(SCALE / 100 + SCALE / 10, 0));
}

#[test]
fn escape_variant_stops_after_the_escaping_point() {
    // Seed (2, 2) leaves the 0.1-bounded square immediately: the
    // escaping point is recorded and the trajectory ends.
    let cfg = Config { escape: true, ..small_config(AccumMode::Density) };
    let pts = run(&cfg, 2 * SCALE, 2 * SCALE);
    assert_eq!(pts.len(), 1);
    let plain = run(&Config { escape: false, ..cfg }, 2 * SCALE, 2 * SCALE);
    assert!(plain.len() > 1);
}

#[test]
fn worker_turn_commits_and_counts() {
    let cfg = small_config(AccumMode::Density);
    let mut canvas = Canvas::new(cfg.width, cfg.height, cfg.mode);
    let mut session = SessionState::new(1);
    let color = Px { r: 65535, g: 65535, b: 65535, a: cfg.opacity };
    iterate_coordinate(&mut canvas, &mut session, &cfg, 0, 0, color);
    assert_eq!(session.counter, 1);
    assert_eq!(canvas.data[5 * 10 + 4].r, 5);
}

#[test]
fn advance_is_terminal_once_done() {
    let cfg = small_config(AccumMode::Density);
    let seeds: Vec<(i64, i64)> = vec![];
    let color = Px { r: 65535, g: 65535, b: 65535, a: cfg.opacity };
    let mut canvas = Canvas::new(cfg.width, cfg.height, cfg.mode);
    let mut state = RenderState {
        seed_ix: 0,
        z: Complex::new(0, 0),
        iters: 0,
        warmed: false,
        done: false,
    };
    advance(&mut state, &mut canvas, &cfg, &seeds, color);
    assert!(state.done);
    let snapshot = state;
    advance(&mut state, &mut canvas, &cfg, &seeds, color);
    assert_eq!(state, snapshot);
}

#[test]
fn session_throttles_redraws() {
    let mut s = SessionState::new(100);
    // Not the thirtieth event, no force: no redraw.
    assert!(!s.on_render_tick(false));
    assert_eq!(s.render_count, 1);
    // The thirtieth event triggers a redraw and restarts the count.
    s.render_count = 30;
    assert!(s.on_render_tick(false));
    assert_eq!(s.render_count, 1);
    assert!(!s.just_finished);
    // A finished render is shown once, then the throttle goes quiet.
    s.counter = 100;
    s.render_count = 30;
    assert!(s.on_render_tick(false));
    assert!(s.just_finished);
    s.render_count = 30;
    assert!(!s.on_render_tick(false));
    // A forced refresh bypasses the throttle.
    assert!(s.on_render_tick(true));
}

#[test]
fn render_counter_wraps_like_a_byte() {
    let mut s = SessionState::new(100);
    s.just_finished = true;
    s.counter = 100;
    s.render_count = 255;
    assert!(!s.on_render_tick(false));
    assert_eq!(s.render_count, 0);
}

#[test]
fn validation_rejects_each_bad_parameter() {
    let good = small_config(AccumMode::Blend);
    assert_eq!(good.validate(), Ok(()));
    assert_eq!(Config { width: 0, ..good }.validate(), Err(ConfigError::BadWidth));
    assert_eq!(Config { width: 40000, ..good }.validate(), Err(ConfigError::BadWidth));
    assert_eq!(Config { height: 0, ..good }.validate(), Err(ConfigError::BadHeight));
    assert_eq!(Config { bounds: 0, ..good }.validate(), Err(ConfigError::BadBounds));
    assert_eq!(
        Config { bounds: 1001 * SCALE, ..good }.validate(),
        Err(ConfigError::BadBounds)
    );
    assert_eq!(Config { delta: 0, ..good }.validate(), Err(ConfigError::BadDelta));
    assert_eq!(Config { delta: -1, ..good }.validate(), Err(ConfigError::BadDelta));
    assert_eq!(
        Config { bounds: 1000 * SCALE, delta: 1, ..good }.validate(),
        Err(ConfigError::GridTooLarge)
    );
    assert_eq!(Config { power: 0, ..good }.validate(), Err(ConfigError::BadPower));
    assert_eq!(Config { zoom: 0, ..good }.validate(), Err(ConfigError::BadZoom));
    assert_eq!(Config { loop_limit: 0, ..good }.validate(), Err(ConfigError::BadLoopLimit));
    assert_eq!(Config { speed: 0, ..good }.validate(), Err(ConfigError::BadSpeed));
}

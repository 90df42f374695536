//! The dispatcher: fan the seed grid out over trajectory workers.
//!
//! Seeds are independent, so a caller may partition them arbitrarily
//! across threads; each worker iterates its seed privately and only
//! the per-seed commit touches the canvas. The serial batch loop here
//! is the reference semantics: whatever the partition, every pixel a
//! seed's trajectory touches is touched, and under density
//! accumulation the set of touched pixels is proved independent of
//! the order seeds are processed in.

use vstd::prelude::*;
use vstd::arithmetic::mul::lemma_mul_inequality;
use crate::canvas::{draw_seq, init_px, project_spec, AccumMode, Canvas, Px};
use crate::complex::{step_ck, Complex};
use crate::config::Config;
use crate::grid::grid_len;
use crate::session::SessionState;
use crate::worker::{commit, commit_seq, escaped, run, traj_spec, zviews};

verus! {

/// The model of a seed list.
pub open spec fn seedviews(s: Seq<(i64, i64)>) -> Seq<(int, int)> {
    s.map_values(|p: (i64, i64)| (p.0 as int, p.1 as int))
}

/// The buffer after a whole batch render: every seed's trajectory
/// committed in list order.
pub open spec fn render_seq(data: Seq<Px>, cfg: Config, seeds: Seq<(int, int)>, color: Px) -> Seq<
    Px,
>
    decreases seeds.len(),
{
    if seeds.len() == 0 {
        data
    } else {
        render_seq(
            commit_seq(
                data,
                cfg.width as int,
                cfg.height as int,
                cfg.zoom as int,
                cfg.mode,
                traj_spec(cfg, seeds[0]),
                color,
            ),
            cfg,
            seeds.drop_first(),
            color,
        )
    }
}

/// Rendering one more seed commits its trajectory onto the rendered
/// buffer.
pub proof fn lemma_render_snoc(
    data: Seq<Px>,
    cfg: Config,
    seeds: Seq<(int, int)>,
    s: (int, int),
    color: Px,
)
    ensures
        render_seq(data, cfg, seeds.push(s), color) == commit_seq(
            render_seq(data, cfg, seeds, color),
            cfg.width as int,
            cfg.height as int,
            cfg.zoom as int,
            cfg.mode,
            traj_spec(cfg, s),
            color,
        ),
    decreases seeds.len(),
{
    if seeds.len() == 0 {
        let d1 = commit_seq(
            data,
            cfg.width as int,
            cfg.height as int,
            cfg.zoom as int,
            cfg.mode,
            traj_spec(cfg, s),
            color,
        );
        assert(seeds.push(s)[0] == s);
        assert(seeds.push(s).drop_first() =~= Seq::<(int, int)>::empty());
        assert(render_seq(data, cfg, seeds.push(s), color) == render_seq(
            d1,
            cfg,
            Seq::<(int, int)>::empty(),
            color,
        ));
        assert(render_seq(d1, cfg, Seq::<(int, int)>::empty(), color) == d1);
        assert(render_seq(data, cfg, seeds, color) == data);
    } else {
        let d0 = commit_seq(
            data,
            cfg.width as int,
            cfg.height as int,
            cfg.zoom as int,
            cfg.mode,
            traj_spec(cfg, seeds[0]),
            color,
        );
        assert(seeds.push(s)[0] == seeds[0]);
        assert(seeds.push(s).drop_first() =~= seeds.drop_first().push(s));
        assert(render_seq(data, cfg, seeds.push(s), color) == render_seq(
            d0,
            cfg,
            seeds.drop_first().push(s),
            color,
        ));
        lemma_render_snoc(d0, cfg, seeds.drop_first(), s, color);
        assert(render_seq(data, cfg, seeds, color) == render_seq(d0, cfg, seeds.drop_first(), color));
    }
}

/// One worker's full turn: iterate the seed, commit its buffered
/// points in one critical section, and count it completed.
pub fn iterate_coordinate(
    canvas: &mut Canvas,
    session: &mut SessionState,
    cfg: &Config,
    cx: i64,
    cy: i64,
    color: Px,
)
    requires
        cfg.valid(),
        old(canvas).wf(),
        old(canvas).width == cfg.width,
        old(canvas).height == cfg.height,
        old(canvas).mode == cfg.mode,
        old(session).counter < u32::MAX,
    ensures
        final(canvas).wf(),
        final(canvas).width == old(canvas).width,
        final(canvas).height == old(canvas).height,
        final(canvas).mode == old(canvas).mode,
        final(canvas).data@ == commit_seq(
            old(canvas).data@,
            cfg.width as int,
            cfg.height as int,
            cfg.zoom as int,
            cfg.mode,
            traj_spec(*cfg, (cx as int, cy as int)),
            color,
        ),
        final(session).counter == old(session).counter + 1,
        final(session).max == old(session).max,
        final(session).just_finished == old(session).just_finished,
        final(session).render_count == old(session).render_count,
{
    let pts = run(cfg, cx, cy);
    commit(canvas, &pts, color, cfg.zoom);
    session.counter = session.counter + 1;
}

/// The serial batch render: process every seed of the grid in list
/// order, counting each into the session. A parallel dispatcher doing
/// the same seeds in any order touches the same pixels (see
/// `lemma_coverage_order_independent`).
pub fn render_all(
    canvas: &mut Canvas,
    session: &mut SessionState,
    cfg: &Config,
    seeds: &Vec<(i64, i64)>,
    color: Px,
)
    requires
        cfg.valid(),
        old(canvas).wf(),
        old(canvas).width == cfg.width,
        old(canvas).height == cfg.height,
        old(canvas).mode == cfg.mode,
        old(session).counter + seeds@.len() <= u32::MAX,
    ensures
        final(canvas).wf(),
        final(canvas).width == old(canvas).width,
        final(canvas).height == old(canvas).height,
        final(canvas).mode == old(canvas).mode,
        final(canvas).data@ == render_seq(old(canvas).data@, *cfg, seedviews(seeds@), color),
        final(session).counter == old(session).counter + seeds@.len(),
        final(session).max == old(session).max,
        final(session).just_finished == old(session).just_finished,
        final(session).render_count == old(session).render_count,
{
    let n: usize = seeds.len();
    let mut i: usize = 0;
    proof {
        assert(seedviews(seeds@).take(0) =~= Seq::<(int, int)>::empty());
    }
    while i < n
        invariant
            0 <= i <= n,
            n == seeds@.len(),
            cfg.valid(),
            canvas.wf(),
            canvas.width == cfg.width,
            canvas.height == cfg.height,
            canvas.mode == cfg.mode,
            canvas.width == old(canvas).width,
            canvas.height == old(canvas).height,
            canvas.mode == old(canvas).mode,
            old(session).counter + n <= u32::MAX,
            canvas.data@ == render_seq(
                old(canvas).data@,
                *cfg,
                seedviews(seeds@).take(i as int),
                color,
            ),
            session.counter == old(session).counter + i,
            session.max == old(session).max,
            session.just_finished == old(session).just_finished,
            session.render_count == old(session).render_count,
        decreases n - i,
    {
        let ghost taken = seedviews(seeds@).take(i as int);
        let (cx, cy) = seeds[i];
        iterate_coordinate(canvas, session, cfg, cx, cy, color);
        proof {
            assert(seedviews(seeds@).take(i + 1) =~= taken.push(
                (seeds@[i as int].0 as int, seeds@[i as int].1 as int),
            ));
            lemma_render_snoc(
                old(canvas).data@,
                *cfg,
                taken,
                (seeds@[i as int].0 as int, seeds@[i as int].1 as int),
                color,
            );
        }
        i = i + 1;
    }
    proof {
        assert(seedviews(seeds@).take(n as int) =~= seedviews(seeds@));
    }
}

/// One axis coordinate of the configuration's grid.
pub open spec fn axis_at(cfg: Config, i: int) -> int {
    -(cfg.bounds as int) + i * cfg.delta as int
}

/// Samples per axis of the configuration's grid.
pub open spec fn axis_len(cfg: Config) -> int {
    grid_len(cfg.bounds as int, cfg.delta as int)
}

/// Every seed of the configuration's grid, row-major: the full cross
/// product of the axis walk with itself.
pub open spec fn grid_seeds_spec(cfg: Config) -> Seq<(int, int)> {
    let n = axis_len(cfg);
    Seq::new((n * n) as nat, |k: int| (axis_at(cfg, k / n), axis_at(cfg, k % n)))
}

/// The buffer a fresh canvas starts from.
pub open spec fn init_data(cfg: Config) -> Seq<Px> {
    Seq::new((cfg.width as int * cfg.height as int) as nat, |i: int| init_px())
}

/// One whole batch frame from the configuration alone: enumerate the
/// grid, render every seed serially, and return the canvas together
/// with the completed session (its counter at the grid size, so the
/// session reports finished).
pub fn render_frame(cfg: &Config, color: Px) -> (r: (Canvas, SessionState))
    requires
        cfg.valid(),
    ensures
        r.0.wf(),
        r.0.width == cfg.width,
        r.0.height == cfg.height,
        r.0.mode == cfg.mode,
        r.0.data@ == render_seq(init_data(*cfg), *cfg, grid_seeds_spec(*cfg), color),
        r.1.counter == grid_seeds_spec(*cfg).len(),
        r.1.max == grid_seeds_spec(*cfg).len(),
        r.1.finished(),
        !r.1.just_finished,
        r.1.render_count == 0,
{
    let axis = crate::grid::generate(cfg.bounds, cfg.delta);
    let seeds = crate::grid::cross(&axis);
    let ghost n = axis@.len() as int;
    proof {
        assert(n * n <= 32768 * 32768) by (nonlinear_arith)
            requires
                0 <= n <= 32768,
        ;
        assert(seedviews(seeds@) =~= grid_seeds_spec(*cfg)) by {
            assert forall|k: int| 0 <= k < seeds@.len() implies seedviews(seeds@)[k]
                == grid_seeds_spec(*cfg)[k] by {
                assert(0 < n) by (nonlinear_arith)
                    requires
                        0 <= n,
                        0 <= k < n * n,
                ;
                vstd::arithmetic::div_mod::lemma_multiply_divide_lt(k, n, n);
                vstd::arithmetic::div_mod::lemma_mod_division_less_than_divisor(k, n);
                vstd::arithmetic::div_mod::lemma_div_pos_is_pos(k, n);
                assert(seeds@[k] == crate::grid::pair_at(axis@, k));
            }
        }
    }
    let mut canvas = Canvas::new(cfg.width, cfg.height, cfg.mode);
    let mut session = SessionState::new(seeds.len() as u32);
    proof {
        assert(canvas.data@ =~= init_data(*cfg));
    }
    render_all(&mut canvas, &mut session, cfg, &seeds, color);
    (canvas, session)
}

/// The walk state of the incremental (live) variant: one seed in
/// flight at a time, advanced a bounded number of iterations per
/// presentation tick. Owned, together with the canvas, by whoever
/// holds the session's lock; never advanced concurrently.
#[derive(Clone, Copy, Debug, PartialEq, Eq, Structural)]
pub struct RenderState {
    /// Index of the seed currently in flight.
    pub seed_ix: usize,
    /// Current value of the recurrence for that seed.
    pub z: Complex,
    /// Iterations already recorded for that seed.
    pub iters: u32,
    /// Whether the warm-up point of that seed has been discarded.
    pub warmed: bool,
    /// Whether the whole grid walk has finished; terminal.
    pub done: bool,
}

/// The state a fresh walk starts from, and the state the walk resets
/// to when it moves to the next seed.
pub open spec fn seed_start(cfg: Config, ix: int, done: bool) -> RenderState {
    RenderState {
        seed_ix: ix as usize,
        z: Complex { re: cfg.off_re, im: cfg.off_im },
        iters: 0,
        warmed: false,
        done: done,
    }
}

/// One micro-step of the incremental walk: a finished walk stays put;
/// an exhausted grid finishes the walk; otherwise the current seed
/// advances one iteration of the recurrence — a warm-up point is
/// consumed unrecorded, a recorded point is drawn at once — and the
/// walk moves to the next seed when the iteration budget is spent,
/// the value escapes, or the value leaves the representable square.
pub open spec fn adv_spec(
    cfg: Config,
    seeds: Seq<(int, int)>,
    st: RenderState,
    data: Seq<Px>,
    color: Px,
) -> (RenderState, Seq<Px>) {
    if st.done {
        (st, data)
    } else if st.seed_ix >= seeds.len() {
        (RenderState { done: true, ..st }, data)
    } else {
        let c = seeds[st.seed_ix as int];
        match step_ck(st.z.view(), c, cfg.power as nat) {
            None => (seed_start(cfg, st.seed_ix + 1, false), data),
            Some(w) => {
                if cfg.warmup && !st.warmed {
                    (RenderState { z: Complex { re: w.0 as i64, im: w.1 as i64 }, warmed: true, ..st }, data)
                } else {
                    let d2 = draw_seq(
                        data,
                        cfg.width as int,
                        cfg.height as int,
                        cfg.zoom as int,
                        cfg.mode,
                        w,
                        color,
                    );
                    if st.iters + 1 >= cfg.loop_limit || (cfg.escape && escaped(
                        w,
                        cfg.bounds as int,
                    )) {
                        (seed_start(cfg, st.seed_ix + 1, false), d2)
                    } else {
                        (
                            RenderState {
                                z: Complex { re: w.0 as i64, im: w.1 as i64 },
                                iters: (st.iters + 1) as u32,
                                ..st
                            },
                            d2,
                        )
                    }
                }
            },
        }
    }
}

/// A finished walk is terminal: no later micro-step changes the state
/// or the canvas again.
pub proof fn lemma_done_terminal(
    cfg: Config,
    seeds: Seq<(int, int)>,
    st: RenderState,
    data: Seq<Px>,
    color: Px,
)
    requires
        st.done,
    ensures
        adv_spec(cfg, seeds, st, data, color) == (st, data),
{
}

/// One micro-step of the incremental walk, performed on the shared
/// canvas and walk state.
pub fn advance(
    state: &mut RenderState,
    canvas: &mut Canvas,
    cfg: &Config,
    seeds: &Vec<(i64, i64)>,
    color: Px,
)
    requires
        cfg.valid(),
        old(canvas).wf(),
        old(canvas).width == cfg.width,
        old(canvas).height == cfg.height,
        old(canvas).mode == cfg.mode,
        old(state).seed_ix <= seeds@.len(),
    ensures
        final(canvas).wf(),
        final(canvas).width == old(canvas).width,
        final(canvas).height == old(canvas).height,
        final(canvas).mode == old(canvas).mode,
        final(state).seed_ix <= seeds@.len(),
        (*final(state), final(canvas).data@) == adv_spec(
            *cfg,
            seedviews(seeds@),
            *old(state),
            old(canvas).data@,
            color,
        ),
{
    if state.done {
        return;
    }
    if state.seed_ix >= seeds.len() {
        state.done = true;
        return;
    }
    let (cx, cy) = seeds[state.seed_ix];
    let c = Complex { re: cx, im: cy };
    match crate::complex::step(state.z, c, cfg.power) {
        None => {
            *state = RenderState {
                seed_ix: state.seed_ix + 1,
                z: Complex { re: cfg.off_re, im: cfg.off_im },
                iters: 0,
                warmed: false,
                done: false,
            };
        },
        Some(w) => {
            if cfg.warmup && !state.warmed {
                state.z = w;
                state.warmed = true;
            } else {
                canvas.draw_point(w, color, cfg.zoom);
                if state.iters >= cfg.loop_limit - 1 || (cfg.escape && crate::worker::escaped_exec(
                    w,
                    cfg.bounds,
                )) {
                    *state = RenderState {
                        seed_ix: state.seed_ix + 1,
                        z: Complex { re: cfg.off_re, im: cfg.off_im },
                        iters: 0,
                        warmed: false,
                        done: false,
                    };
                } else {
                    state.z = w;
                    state.iters = state.iters + 1;
                }
            }
        },
    }
}

/// The walk state and canvas after `n` micro-steps.
pub open spec fn tick_spec(
    cfg: Config,
    seeds: Seq<(int, int)>,
    st: RenderState,
    data: Seq<Px>,
    color: Px,
    n: nat,
) -> (RenderState, Seq<Px>)
    decreases n,
{
    if n == 0 {
        (st, data)
    } else {
        let stepped = adv_spec(cfg, seeds, st, data, color);
        tick_spec(cfg, seeds, stepped.0, stepped.1, color, (n - 1) as nat)
    }
}

/// One presentation tick of the incremental walk: advance exactly
/// `speed` micro-steps (finished steps are no-ops), pacing the render
/// to the presentation's refresh rate.
pub fn advance_tick(
    state: &mut RenderState,
    canvas: &mut Canvas,
    cfg: &Config,
    seeds: &Vec<(i64, i64)>,
    color: Px,
)
    requires
        cfg.valid(),
        old(canvas).wf(),
        old(canvas).width == cfg.width,
        old(canvas).height == cfg.height,
        old(canvas).mode == cfg.mode,
        old(state).seed_ix <= seeds@.len(),
    ensures
        final(canvas).wf(),
        final(canvas).width == old(canvas).width,
        final(canvas).height == old(canvas).height,
        final(canvas).mode == old(canvas).mode,
        final(state).seed_ix <= seeds@.len(),
        (*final(state), final(canvas).data@) == tick_spec(
            *cfg,
            seedviews(seeds@),
            *old(state),
            old(canvas).data@,
            color,
            cfg.speed as nat,
        ),
{
    let steps = cfg.speed;
    let mut k: u32 = 0;
    while k < steps
        invariant
            0 <= k <= steps,
            steps == cfg.speed,
            cfg.valid(),
            canvas.wf(),
            canvas.width == cfg.width,
            canvas.height == cfg.height,
            canvas.mode == cfg.mode,
            canvas.width == old(canvas).width,
            canvas.height == old(canvas).height,
            canvas.mode == old(canvas).mode,
            state.seed_ix <= seeds@.len(),
            tick_spec(
                *cfg,
                seedviews(seeds@),
                *state,
                canvas.data@,
                color,
                (steps - k) as nat,
            ) == tick_spec(
                *cfg,
                seedviews(seeds@),
                *old(state),
                old(canvas).data@,
                color,
                steps as nat,
            ),
        decreases steps - k,
    {
        advance(state, canvas, cfg, seeds, color);
        k = k + 1;
    }
}

/// The flat buffer index a plane point lands on, if it is in frame.
pub open spec fn pidx(w: int, h: int, zm: int, z: (int, int)) -> Option<int> {
    match project_spec(z, w, h, zm) {
        None => None,
        Some(p) => Some(p.1 * w + p.0),
    }
}

/// Whether a density pixel has been touched at least once.
pub open spec fn covered(data: Seq<Px>, i: int) -> bool {
    data[i].r > 0
}

/// Whether some point of a trajectory lands on buffer index `i`.
pub open spec fn pts_hit(pts: Seq<(int, int)>, w: int, h: int, zm: int, i: int) -> bool {
    exists|j: int| 0 <= j < pts.len() && pidx(w, h, zm, #[trigger] pts[j]) == Some(i)
}

/// Whether some seed of a list sends a trajectory point onto buffer
/// index `i`.
pub open spec fn seeds_hit(cfg: Config, seeds: Seq<(int, int)>, i: int) -> bool {
    exists|k: int|
        0 <= k < seeds.len() && pts_hit(
            traj_spec(cfg, #[trigger] seeds[k]),
            cfg.width as int,
            cfg.height as int,
            cfg.zoom as int,
            i,
        )
}

/// Drawing never changes the size of a frame-sized buffer: the write
/// index of an in-frame point lies inside the buffer.
pub proof fn lemma_draw_len(
    data: Seq<Px>,
    w: int,
    h: int,
    zm: int,
    mode: AccumMode,
    z: (int, int),
    color: Px,
)
    requires
        1 <= w,
        1 <= h,
        data.len() == w * h,
    ensures
        draw_seq(data, w, h, zm, mode, z, color).len() == data.len(),
{
    match project_spec(z, w, h, zm) {
        None => {},
        Some(p) => {
            lemma_mul_inequality(p.1, h - 1, w);
            assert((h - 1) * w == h * w - w) by (nonlinear_arith);
            assert(w * h == h * w) by (nonlinear_arith);
            assert(p.1 * w >= 0) by (nonlinear_arith)
                requires
                    p.1 >= 0,
                    w >= 1,
            ;
        },
    }
}

/// Committing never changes the size of a frame-sized buffer.
pub proof fn lemma_commit_len(
    data: Seq<Px>,
    w: int,
    h: int,
    zm: int,
    mode: AccumMode,
    pts: Seq<(int, int)>,
    color: Px,
)
    requires
        1 <= w,
        1 <= h,
        data.len() == w * h,
    ensures
        commit_seq(data, w, h, zm, mode, pts, color).len() == data.len(),
    decreases pts.len(),
{
    if pts.len() > 0 {
        lemma_draw_len(data, w, h, zm, mode, pts[0], color);
        lemma_commit_len(
            draw_seq(data, w, h, zm, mode, pts[0], color),
            w,
            h,
            zm,
            mode,
            pts.drop_first(),
            color,
        );
    }
}

/// Drawing one point under density accumulation covers exactly the
/// pixel it projects to, and uncovers nothing.
proof fn lemma_draw_covered(
    data: Seq<Px>,
    w: int,
    h: int,
    zm: int,
    z: (int, int),
    color: Px,
    i: int,
)
    requires
        1 <= w,
        1 <= h,
        data.len() == w * h,
        0 <= i < data.len(),
    ensures
        covered(draw_seq(data, w, h, zm, AccumMode::Density, z, color), i) <==> covered(data, i)
            || pidx(w, h, zm, z) == Some(i),
{
    match project_spec(z, w, h, zm) {
        None => {},
        Some(p) => {
            lemma_mul_inequality(p.1, h - 1, w);
            assert((h - 1) * w == h * w - w) by (nonlinear_arith);
            assert(w * h == h * w) by (nonlinear_arith);
            assert(p.1 * w >= 0) by (nonlinear_arith)
                requires
                    p.1 >= 0,
                    w >= 1,
            ;
        },
    }
}

/// A committed trajectory covers exactly what it hits, on top of what
/// was already covered.
proof fn lemma_commit_covered(
    data: Seq<Px>,
    w: int,
    h: int,
    zm: int,
    pts: Seq<(int, int)>,
    color: Px,
    i: int,
)
    requires
        1 <= w,
        1 <= h,
        data.len() == w * h,
        0 <= i < data.len(),
    ensures
        covered(commit_seq(data, w, h, zm, AccumMode::Density, pts, color), i) <==> covered(
            data,
            i,
        ) || pts_hit(pts, w, h, zm, i),
    decreases pts.len(),
{
    if pts.len() == 0 {
        assert(!pts_hit(pts, w, h, zm, i));
    } else {
        let d1 = draw_seq(data, w, h, zm, AccumMode::Density, pts[0], color);
        lemma_draw_covered(data, w, h, zm, pts[0], color, i);
        lemma_draw_len(data, w, h, zm, AccumMode::Density, pts[0], color);
        lemma_commit_covered(d1, w, h, zm, pts.drop_first(), color, i);
        assert(pts_hit(pts, w, h, zm, i) <==> pidx(w, h, zm, pts[0]) == Some(i) || pts_hit(
            pts.drop_first(),
            w,
            h,
            zm,
            i,
        )) by {
            if pts_hit(pts, w, h, zm, i) {
                let j = choose|j: int|
                    0 <= j < pts.len() && pidx(w, h, zm, #[trigger] pts[j]) == Some(i);
                if j > 0 {
                    assert(pts.drop_first()[j - 1] == pts[j]);
                }
            }
            if pidx(w, h, zm, pts[0]) == Some(i) {
                assert(0 <= 0 < pts.len() && pidx(w, h, zm, pts[0]) == Some(i));
            }
            if pts_hit(pts.drop_first(), w, h, zm, i) {
                let j = choose|j: int|
                    0 <= j < pts.drop_first().len() && pidx(w, h, zm, #[trigger] pts.drop_first()[j])
                        == Some(i);
                assert(pts[j + 1] == pts.drop_first()[j]);
            }
        }
    }
}

/// A batch render covers exactly the union of what its seeds hit, on
/// top of what was already covered.
proof fn lemma_render_covered(
    data: Seq<Px>,
    cfg: Config,
    seeds: Seq<(int, int)>,
    color: Px,
    i: int,
)
    requires
        cfg.valid(),
        cfg.mode == AccumMode::Density,
        data.len() == cfg.width as int * cfg.height as int,
        0 <= i < data.len(),
    ensures
        covered(render_seq(data, cfg, seeds, color), i) <==> covered(data, i) || seeds_hit(
            cfg,
            seeds,
            i,
        ),
    decreases seeds.len(),
{
    let w = cfg.width as int;
    let h = cfg.height as int;
    let zm = cfg.zoom as int;
    if seeds.len() == 0 {
        assert(!seeds_hit(cfg, seeds, i));
    } else {
        let d1 = commit_seq(data, w, h, zm, AccumMode::Density, traj_spec(cfg, seeds[0]), color);
        lemma_commit_covered(data, w, h, zm, traj_spec(cfg, seeds[0]), color, i);
        lemma_commit_len(data, w, h, zm, AccumMode::Density, traj_spec(cfg, seeds[0]), color);
        lemma_render_covered(d1, cfg, seeds.drop_first(), color, i);
        assert(seeds_hit(cfg, seeds, i) <==> pts_hit(traj_spec(cfg, seeds[0]), w, h, zm, i)
            || seeds_hit(cfg, seeds.drop_first(), i)) by {
            if seeds_hit(cfg, seeds, i) {
                let k = choose|k: int|
                    0 <= k < seeds.len() && pts_hit(
                        traj_spec(cfg, #[trigger] seeds[k]),
                        w,
                        h,
                        zm,
                        i,
                    );
                if k > 0 {
                    assert(seeds.drop_first()[k - 1] == seeds[k]);
                }
            }
            if pts_hit(traj_spec(cfg, seeds[0]), w, h, zm, i) {
                assert(0 <= 0 < seeds.len() && pts_hit(traj_spec(cfg, seeds[0]), w, h, zm, i));
            }
            if seeds_hit(cfg, seeds.drop_first(), i) {
                let k = choose|k: int|
                    0 <= k < seeds.drop_first().len() && pts_hit(
                        traj_spec(cfg, #[trigger] seeds.drop_first()[k]),
                        w,
                        h,
                        zm,
                        i,
                    );
                assert(seeds[k + 1] == seeds.drop_first()[k]);
            }
        }
    }
}

/// The concurrency law of the batch dispatcher: under density
/// accumulation, two renders of seed lists holding the same seeds —
/// one worker processing them serially, or any permutation a worker
/// pool induces — cover exactly the same set of pixels, whatever the
/// order and however the blending of overlapping writes would have
/// interleaved.
pub proof fn lemma_coverage_order_independent(
    data: Seq<Px>,
    cfg: Config,
    seeds1: Seq<(int, int)>,
    seeds2: Seq<(int, int)>,
    color: Px,
)
    requires
        cfg.valid(),
        cfg.mode == AccumMode::Density,
        data.len() == cfg.width as int * cfg.height as int,
        forall|s: (int, int)| seeds1.contains(s) <==> seeds2.contains(s),
    ensures
        forall|i: int|
            0 <= i < data.len() ==> (covered(
                #[trigger] render_seq(data, cfg, seeds1, color),
                i,
            ) <==> covered(render_seq(data, cfg, seeds2, color), i)),
{
    let w = cfg.width as int;
    let h = cfg.height as int;
    let zm = cfg.zoom as int;
    assert forall|i: int|
        0 <= i < data.len() implies (covered(
        #[trigger] render_seq(data, cfg, seeds1, color),
        i,
    ) <==> covered(render_seq(data, cfg, seeds2, color), i)) by {
        lemma_render_covered(data, cfg, seeds1, color, i);
        lemma_render_covered(data, cfg, seeds2, color, i);
        assert(seeds_hit(cfg, seeds1, i) <==> seeds_hit(cfg, seeds2, i)) by {
            if seeds_hit(cfg, seeds1, i) {
                let k = choose|k: int|
                    0 <= k < seeds1.len() && pts_hit(
                        traj_spec(cfg, #[trigger] seeds1[k]),
                        w,
                        h,
                        zm,
                        i,
                    );
                assert(seeds1.contains(seeds1[k]));
                assert(seeds2.contains(seeds1[k]));
                let m = choose|m: int| 0 <= m < seeds2.len() && seeds2[m] == seeds1[k];
                assert(pts_hit(traj_spec(cfg, seeds2[m]), w, h, zm, i));
            }
            if seeds_hit(cfg, seeds2, i) {
                let k = choose|k: int|
                    0 <= k < seeds2.len() && pts_hit(
                        traj_spec(cfg, #[trigger] seeds2[k]),
                        w,
                        h,
                        zm,
                        i,
                    );
                assert(seeds2.contains(seeds2[k]));
                assert(seeds1.contains(seeds2[k]));
                let m = choose|m: int| 0 <= m < seeds1.len() && seeds1[m] == seeds2[k];
                assert(pts_hit(traj_spec(cfg, seeds1[m]), w, h, zm, i));
            }
        }
    }
}

} // verus!

//! The trajectory worker: iterate one seed, then write its points.
//!
//! One worker owns a seed `c`, iterates `z <- z^power + c` up to the
//! configured budget, buffers every produced point locally, and only
//! then appends the whole buffer to the canvas — the expensive
//! iteration happens before any shared state is touched, so a caller
//! dispatching workers in parallel holds its lock only for the commit.
//!
//! A trajectory ends when the budget is spent, when a value leaves the
//! representable square (reported by the checked step, never wrapped),
//! or — in the escape variant — when both parts of `z` leave the
//! sampled square in magnitude.

use vstd::prelude::*;
use vstd::math::abs;
use crate::canvas::{draw_seq, Canvas, Px, MAX_ZOOM};
use crate::complex::{step, step_ck, Complex};
use crate::config::Config;

verus! {

/// The model of a buffer of complex points.
pub open spec fn zviews(s: Seq<Complex>) -> Seq<(int, int)> {
    s.map_values(|z: Complex| z.view())
}

/// The escape condition: both parts of `z` beyond `bounds` in
/// magnitude.
pub open spec fn escaped(z: (int, int), bounds: int) -> bool {
    abs(z.0) > bounds && abs(z.1) > bounds
}

/// Whether one point of a trajectory escapes the sampled square.
pub fn escaped_exec(z: Complex, bounds: i64) -> (r: bool)
    requires
        bounds > 0,
    ensures
        r == escaped(z.view(), bounds as int),
{
    (z.re > bounds || z.re < -bounds) && (z.im > bounds || z.im < -bounds)
}

/// The points a trajectory still produces from value `z` with `k`
/// iterations of budget left: each step either stops the trajectory
/// (unrepresentable value) or records the new value, and the escape
/// variant stops after recording an escaping value.
pub open spec fn traj_from(
    z: (int, int),
    c: (int, int),
    p: nat,
    bounds: int,
    esc: bool,
    k: nat,
) -> Seq<(int, int)>
    decreases k,
{
    if k == 0 {
        Seq::empty()
    } else {
        match step_ck(z, c, p) {
            None => Seq::empty(),
            Some(w) => seq![w] + (if esc && escaped(w, bounds) {
                Seq::empty()
            } else {
                traj_from(w, c, p, bounds, esc, (k - 1) as nat)
            }),
        }
    }
}

/// The whole recorded trajectory of seed `c`: the walk starts at the
/// configured offset, optionally discards one warm-up point, and then
/// records up to `loop_limit` values.
pub open spec fn traj_spec(cfg: Config, c: (int, int)) -> Seq<(int, int)> {
    let z0 = (cfg.off_re as int, cfg.off_im as int);
    let rest = cfg.loop_limit as nat;
    if cfg.warmup {
        match step_ck(z0, c, cfg.power as nat) {
            None => Seq::empty(),
            Some(z1) => traj_from(z1, c, cfg.power as nat, cfg.bounds as int, cfg.escape, rest),
        }
    } else {
        traj_from(z0, c, cfg.power as nat, cfg.bounds as int, cfg.escape, rest)
    }
}

/// Iterate one seed and return its recorded points, in order.
pub fn run(cfg: &Config, cx: i64, cy: i64) -> (r: Vec<Complex>)
    requires
        cfg.valid(),
    ensures
        zviews(r@) == traj_spec(*cfg, (cx as int, cy as int)),
{
    let ghost cv = (cx as int, cy as int);
    let c = Complex { re: cx, im: cy };
    let mut out: Vec<Complex> = Vec::new();
    let mut z = Complex { re: cfg.off_re, im: cfg.off_im };
    proof {
        assert(zviews(out@) =~= Seq::<(int, int)>::empty());
    }
    if cfg.warmup {
        match step(z, c, cfg.power) {
            None => {
                return out;
            },
            Some(w) => {
                z = w;
            },
        }
    }
    let limit = cfg.loop_limit;
    let mut i: u32 = 0;
    let mut done = false;
    while !done && i < limit
        invariant
            0 <= i <= limit,
            cfg.valid(),
            limit == cfg.loop_limit,
            c.view() == cv,
            !done ==> zviews(out@) + traj_from(
                z.view(),
                cv,
                cfg.power as nat,
                cfg.bounds as int,
                cfg.escape,
                (limit - i) as nat,
            ) == traj_spec(*cfg, cv),
            done ==> zviews(out@) == traj_spec(*cfg, cv),
        decreases limit - i, (if done { 0int } else { 1int }),
    {
        let ghost pre = zviews(out@);
        let ghost krem = (limit - i) as nat;
        match step(z, c, cfg.power) {
            None => {
                proof {
                    assert(traj_from(z.view(), cv, cfg.power as nat, cfg.bounds as int, cfg.escape, krem)
                        =~= Seq::<(int, int)>::empty());
                    assert(pre + Seq::<(int, int)>::empty() =~= pre);
                }
                done = true;
            },
            Some(w) => {
                let ghost tail = if cfg.escape && escaped(w.view(), cfg.bounds as int) {
                    Seq::<(int, int)>::empty()
                } else {
                    traj_from(
                        w.view(),
                        cv,
                        cfg.power as nat,
                        cfg.bounds as int,
                        cfg.escape,
                        (krem - 1) as nat,
                    )
                };
                proof {
                    assert(traj_from(z.view(), cv, cfg.power as nat, cfg.bounds as int, cfg.escape, krem)
                        == seq![w.view()] + tail);
                }
                z = w;
                out.push(w);
                proof {
                    assert(zviews(out@) =~= pre + seq![w.view()]);
                    assert((pre + seq![w.view()]) + tail =~= pre + (seq![w.view()] + tail));
                }
                if cfg.escape && escaped_exec(w, cfg.bounds) {
                    proof {
                        assert(zviews(out@) + tail =~= zviews(out@));
                    }
                    done = true;
                } else {
                    i = i + 1;
                }
            },
        }
    }
    proof {
        if !done {
            assert(traj_from(z.view(), cv, cfg.power as nat, cfg.bounds as int, cfg.escape, 0nat)
                =~= Seq::<(int, int)>::empty());
            assert(zviews(out@) + Seq::<(int, int)>::empty() =~= zviews(out@));
        }
    }
    out
}

/// The buffer after committing a whole trajectory, first point to
/// last: each point drawn as `draw_seq` says.
pub open spec fn commit_seq(
    data: Seq<Px>,
    w: int,
    h: int,
    zm: int,
    mode: crate::canvas::AccumMode,
    pts: Seq<(int, int)>,
    color: Px,
) -> Seq<Px>
    decreases pts.len(),
{
    if pts.len() == 0 {
        data
    } else {
        commit_seq(draw_seq(data, w, h, zm, mode, pts[0], color), w, h, zm, mode, pts.drop_first(), color)
    }
}

/// Committing one more point draws it onto the committed buffer.
pub proof fn lemma_commit_snoc(
    data: Seq<Px>,
    w: int,
    h: int,
    zm: int,
    mode: crate::canvas::AccumMode,
    pts: Seq<(int, int)>,
    z: (int, int),
    color: Px,
)
    ensures
        commit_seq(data, w, h, zm, mode, pts.push(z), color) == draw_seq(
            commit_seq(data, w, h, zm, mode, pts, color),
            w,
            h,
            zm,
            mode,
            z,
            color,
        ),
    decreases pts.len(),
{
    if pts.len() == 0 {
        assert(pts.push(z)[0] == z);
        assert(pts.push(z).drop_first() =~= Seq::<(int, int)>::empty());
        assert(commit_seq(data, w, h, zm, mode, pts.push(z), color) == commit_seq(
            draw_seq(data, w, h, zm, mode, z, color),
            w,
            h,
            zm,
            mode,
            Seq::<(int, int)>::empty(),
            color,
        ));
        assert(commit_seq(draw_seq(data, w, h, zm, mode, z, color), w, h, zm, mode, Seq::<(int, int)>::empty(), color)
            == draw_seq(data, w, h, zm, mode, z, color));
        assert(commit_seq(data, w, h, zm, mode, pts, color) == data);
    } else {
        let d0 = draw_seq(data, w, h, zm, mode, pts[0], color);
        assert(pts.push(z)[0] == pts[0]);
        assert(pts.push(z).drop_first() =~= pts.drop_first().push(z));
        assert(commit_seq(data, w, h, zm, mode, pts.push(z), color) == commit_seq(
            d0,
            w,
            h,
            zm,
            mode,
            pts.drop_first().push(z),
            color,
        ));
        lemma_commit_snoc(d0, w, h, zm, mode, pts.drop_first(), z, color);
        assert(commit_seq(data, w, h, zm, mode, pts, color) == commit_seq(
            d0,
            w,
            h,
            zm,
            mode,
            pts.drop_first(),
            color,
        ));
    }
}

/// Append a buffered trajectory to the canvas, one bounds-checked
/// write per point, in trajectory order. This is the whole critical
/// section a parallel caller runs per seed.
pub fn commit(canvas: &mut Canvas, pts: &Vec<Complex>, color: Px, zoom: u32)
    requires
        old(canvas).wf(),
        1 <= zoom <= MAX_ZOOM,
    ensures
        final(canvas).wf(),
        final(canvas).width == old(canvas).width,
        final(canvas).height == old(canvas).height,
        final(canvas).mode == old(canvas).mode,
        final(canvas).data@ == commit_seq(
            old(canvas).data@,
            old(canvas).width as int,
            old(canvas).height as int,
            zoom as int,
            old(canvas).mode,
            zviews(pts@),
            color,
        ),
{
    let n: usize = pts.len();
    let mut k: usize = 0;
    proof {
        assert(zviews(pts@).take(0) =~= Seq::<(int, int)>::empty());
    }
    while k < n
        invariant
            0 <= k <= n,
            n == pts@.len(),
            1 <= zoom <= MAX_ZOOM,
            canvas.wf(),
            canvas.width == old(canvas).width,
            canvas.height == old(canvas).height,
            canvas.mode == old(canvas).mode,
            canvas.data@ == commit_seq(
                old(canvas).data@,
                old(canvas).width as int,
                old(canvas).height as int,
                zoom as int,
                old(canvas).mode,
                zviews(pts@).take(k as int),
                color,
            ),
        decreases n - k,
    {
        let ghost taken = zviews(pts@).take(k as int);
        canvas.draw_point(pts[k], color, zoom);
        proof {
            assert(zviews(pts@).take(k + 1) =~= taken.push(pts@[k as int].view()));
            lemma_commit_snoc(
                old(canvas).data@,
                old(canvas).width as int,
                old(canvas).height as int,
                zoom as int,
                old(canvas).mode,
                taken,
                pts@[k as int].view(),
                color,
            );
        }
        k = k + 1;
    }
    proof {
        assert(zviews(pts@).take(n as int) =~= zviews(pts@));
    }
}

} // verus!

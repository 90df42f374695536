//! The shared raster: projection, bounds-checked accumulation, export.
//!
//! A canvas is a row-major buffer of 16-bit RGBA pixels with one of two
//! accumulation policies: blending a translucent color over the pixel,
//! or saturating-incrementing a per-pixel density counter (kept in the
//! red channel). Every write is bounds-checked by the projection; a
//! point that projects outside the frame is silently dropped, never
//! indexed. Export downsamples each channel to 8 bits by an arithmetic
//! right shift.

use vstd::prelude::*;
use vstd::arithmetic::div_mod::lemma_div_is_ordered;
use vstd::arithmetic::mul::lemma_mul_inequality;
use vstd::arithmetic::power::pow;
use crate::complex::Complex;
use crate::fixed::SCALE;

verus! {

/// Largest width or height of a canvas, in pixels.
pub const MAX_DIM: u32 = 32768;

/// Largest zoom (pixels per plane unit).
pub const MAX_ZOOM: u32 = 1_000_000;

/// A 16-bit RGBA pixel. Under density accumulation only the red
/// channel is used, as the counter.
#[derive(Clone, Copy, Debug, PartialEq, Eq, Structural)]
pub struct Px {
    pub r: u16,
    pub g: u16,
    pub b: u16,
    pub a: u16,
}

/// How a write combines with the pixel already present.
#[derive(Clone, Copy, Debug, PartialEq, Eq, Structural)]
pub enum AccumMode {
    /// Saturating-increment a per-pixel counter.
    Density,
    /// Alpha-blend the written color over the pixel.
    Blend,
}

/// The pixel every canvas starts from: black, fully opaque.
pub open spec fn init_px() -> Px {
    Px { r: 0, g: 0, b: 0, a: 65535 }
}

/// The affine projection from the plane onto pixel coordinates, in the
/// model. `half` is one half pixel in plane-scaled units: the real map
/// is `px = width/2 + re*zoom - 0.5`, `py = height/2 - im*zoom + 0.5`,
/// truncated toward zero (a fractional position less than one pixel
/// left of the frame truncates onto column zero). `None` means the
/// point is out of bounds, and its write is dropped.
pub open spec fn project_spec(z: (int, int), w: int, h: int, zm: int) -> Option<(int, int)> {
    let half = 500_000int;
    let s = SCALE as int;
    let px_m = w * half + z.0 * zm - half;
    let py_m = h * half - z.1 * zm + half;
    if px_m + s < 0 {
        None
    } else if py_m < 0 {
        None
    } else {
        let px = if px_m < 0 {
            0int
        } else {
            px_m / s
        };
        let py = py_m / s;
        if px >= w || py >= h {
            None
        } else {
            Some((px, py))
        }
    }
}

/// Model of an optional pixel position.
pub open spec fn opt_pos_view(r: Option<(u32, u32)>) -> Option<(int, int)> {
    match r {
        Some(p) => Some((p.0 as int, p.1 as int)),
        None => None,
    }
}

/// Project a plane point onto the pixel grid, or report it out of
/// bounds.
pub fn project(z: Complex, width: u32, height: u32, zoom: u32) -> (r: Option<(u32, u32)>)
    requires
        1 <= width <= MAX_DIM,
        1 <= height <= MAX_DIM,
        1 <= zoom <= MAX_ZOOM,
    ensures
        opt_pos_view(r) == project_spec(z.view(), width as int, height as int, zoom as int),
{
    proof {
        assert(-(0x8000000000000000i128 * 0x100000i128) <= z.re as i128 * zoom as i128
            <= 0x8000000000000000i128 * 0x100000i128) by (nonlinear_arith)
            requires
                -0x8000000000000000i128 <= z.re as i128 <= 0x7fffffffffffffffi128,
                0 <= zoom as i128 <= 0x100000i128,
        ;
        assert(-(0x8000000000000000i128 * 0x100000i128) <= z.im as i128 * zoom as i128
            <= 0x8000000000000000i128 * 0x100000i128) by (nonlinear_arith)
            requires
                -0x8000000000000000i128 <= z.im as i128 <= 0x7fffffffffffffffi128,
                0 <= zoom as i128 <= 0x100000i128,
        ;
    }
    let px_m: i128 = (width as i128) * 500_000 + (z.re as i128) * (zoom as i128) - 500_000;
    let py_m: i128 = (height as i128) * 500_000 - (z.im as i128) * (zoom as i128) + 500_000;
    if px_m + 1_000_000 < 0 {
        return None;
    }
    if py_m < 0 {
        return None;
    }
    let px: u128 = if px_m < 0 {
        0
    } else {
        (px_m as u128) / 1_000_000
    };
    let py: u128 = (py_m as u128) / 1_000_000;
    if px >= width as u128 || py >= height as u128 {
        return None;
    }
    Some((px as u32, py as u32))
}

/// A saturating counter increment, in the model.
pub open spec fn satinc(x: int) -> int {
    if x >= 65535 {
        x
    } else {
        x + 1
    }
}

/// One channel of the "over" composite, in the model: the source
/// channel weighted by the source alpha, the destination channel by
/// its complement, rescaled by a truncating division.
pub open spec fn blend_ch_spec(sv: int, dv: int, a: int) -> int {
    (sv * a + dv * (65535 - a)) / 65535
}

/// The pixel after one write, in the model.
pub open spec fn write_px(p: Px, c: Px, mode: AccumMode) -> Px {
    match mode {
        AccumMode::Density => Px { r: satinc(p.r as int) as u16, g: p.g, b: p.b, a: p.a },
        AccumMode::Blend => Px {
            r: blend_ch_spec(c.r as int, p.r as int, c.a as int) as u16,
            g: blend_ch_spec(c.g as int, p.g as int, c.a as int) as u16,
            b: blend_ch_spec(c.b as int, p.b as int, c.a as int) as u16,
            a: blend_ch_spec(65535, p.a as int, c.a as int) as u16,
        },
    }
}

/// The buffer after drawing one plane point: unchanged if the point
/// projects out of bounds, otherwise one pixel rewritten.
pub open spec fn draw_seq(
    data: Seq<Px>,
    w: int,
    h: int,
    zm: int,
    mode: AccumMode,
    z: (int, int),
    c: Px,
) -> Seq<Px> {
    match project_spec(z, w, h, zm) {
        None => data,
        Some(p) => {
            let i = p.1 * w + p.0;
            data.update(i, write_px(data[i], c, mode))
        },
    }
}

/// One channel of the "over" composite.
fn blend_ch(sv: u16, dv: u16, a: u16) -> (r: u16)
    ensures
        r == blend_ch_spec(sv as int, dv as int, a as int),
        r <= 65535,
{
    proof {
        assert(0 <= (sv as int) * (a as int) <= 65535int * 65535) by (nonlinear_arith)
            requires
                0 <= sv as int <= 65535,
                0 <= a as int <= 65535,
        ;
        assert(0 <= (dv as int) * (65535 - a as int) <= 65535int * 65535) by (nonlinear_arith)
            requires
                0 <= dv as int <= 65535,
                0 <= a as int <= 65535,
        ;
    }
    let num: u64 = (sv as u64) * (a as u64) + (dv as u64) * (65535 - a as u64);
    proof {
        assert((sv as int) * (a as int) + (dv as int) * (65535 - a as int) <= 65535int * 65535)
            by (nonlinear_arith)
            requires
                0 <= sv as int <= 65535,
                0 <= dv as int <= 65535,
                0 <= a as int <= 65535,
        ;
        lemma_div_is_ordered(
            (sv as int) * (a as int) + (dv as int) * (65535 - a as int),
            65535int * 65535int,
            65535int,
        );
    }
    (num / 65535) as u16
}

/// The shared raster.
pub struct Canvas {
    pub width: u32,
    pub height: u32,
    pub mode: AccumMode,
    pub data: Vec<Px>,
}

impl Canvas {
    /// Well-formedness: the buffer covers the frame exactly.
    pub open spec fn wf(self) -> bool {
        &&& 1 <= self.width <= MAX_DIM
        &&& 1 <= self.height <= MAX_DIM
        &&& self.data@.len() == self.width as int * self.height as int
    }

    /// A fresh canvas: every pixel black and opaque.
    pub fn new(width: u32, height: u32, mode: AccumMode) -> (r: Canvas)
        requires
            1 <= width <= MAX_DIM,
            1 <= height <= MAX_DIM,
        ensures
            r.wf(),
            r.width == width,
            r.height == height,
            r.mode == mode,
            forall|i: int| 0 <= i < r.data@.len() ==> r.data@[i] == init_px(),
    {
        proof {
            assert(width as int * height as int <= 0x8000 * 0x8000) by (nonlinear_arith)
                requires
                    1 <= width as int <= 0x8000,
                    1 <= height as int <= 0x8000,
            ;
            assert(width as int * height as int >= 1) by (nonlinear_arith)
                requires
                    1 <= width as int,
                    1 <= height as int,
            ;
        }
        let len: usize = (width as usize) * (height as usize);
        let mut data: Vec<Px> = Vec::new();
        let mut i: usize = 0;
        while i < len
            invariant
                0 <= i <= len,
                data@.len() == i,
                forall|j: int| 0 <= j < i ==> data@[j] == init_px(),
            decreases len - i,
        {
            data.push(Px { r: 0, g: 0, b: 0, a: 65535 });
            i = i + 1;
        }
        Canvas { width, height, mode, data }
    }

    /// Draw one plane point: project it, and if it lands in the frame,
    /// accumulate the color into that pixel under the configured mode.
    /// An out-of-bounds point leaves the canvas untouched.
    pub fn draw_point(&mut self, z: Complex, color: Px, zoom: u32)
        requires
            old(self).wf(),
            1 <= zoom <= MAX_ZOOM,
        ensures
            final(self).wf(),
            final(self).width == old(self).width,
            final(self).height == old(self).height,
            final(self).mode == old(self).mode,
            final(self).data@ == draw_seq(
                old(self).data@,
                old(self).width as int,
                old(self).height as int,
                zoom as int,
                old(self).mode,
                z.view(),
                color,
            ),
    {
        match project(z, self.width, self.height, zoom) {
            None => {},
            Some((px, py)) => {
                proof {
                    lemma_mul_inequality(py as int, self.height as int - 1, self.width as int);
                    assert((self.height as int - 1) * self.width as int
                        == self.height as int * self.width as int - self.width as int)
                        by (nonlinear_arith);
                    assert(self.width as int * self.height as int
                        == self.height as int * self.width as int) by (nonlinear_arith);
                    assert(py as int * self.width as int >= 0) by (nonlinear_arith)
                        requires
                            py as int >= 0,
                            self.width as int >= 1,
                    ;
                    assert(self.height as int * self.width as int <= 0x8000 * 0x8000)
                        by (nonlinear_arith)
                        requires
                            1 <= self.width as int <= 0x8000,
                            1 <= self.height as int <= 0x8000,
                    ;
                }
                let idx: usize = (py as usize) * (self.width as usize) + (px as usize);
                let p = self.data[idx];
                match self.mode {
                    AccumMode::Density => {
                        let nr: u16 = if p.r == 65535 {
                            65535
                        } else {
                            p.r + 1
                        };
                        self.data.set(idx, Px { r: nr, g: p.g, b: p.b, a: p.a });
                    },
                    AccumMode::Blend => {
                        let np = Px {
                            r: blend_ch(color.r, p.r, color.a),
                            g: blend_ch(color.g, p.g, color.a),
                            b: blend_ch(color.b, p.b, color.a),
                            a: blend_ch(65535, p.a, color.a),
                        };
                        self.data.set(idx, np);
                    },
                }
            },
        }
    }

    /// A displayable snapshot of the canvas at 8 bits per channel,
    /// RGBA byte order, each channel downsampled by an arithmetic
    /// right shift by 8 bits (a division by 256). Under density
    /// accumulation the counter is shown as a gray level with opaque
    /// alpha.
    pub fn export(&self) -> (r: Vec<u8>)
        requires
            self.wf(),
        ensures
            r@ == export_seq(self.data@, self.mode),
            r@.len() == 4 * self.data@.len(),
    {
        let n: usize = self.data.len();
        let mut out: Vec<u8> = Vec::new();
        let mut i: usize = 0;
        proof {
            assert(self.data@.take(0) =~= Seq::<Px>::empty());
        }
        while i < n
            invariant
                0 <= i <= n,
                n == self.data@.len(),
                self.wf(),
                out@.len() == 4 * i,
                out@ == export_seq(self.data@.take(i as int), self.mode),
            decreases n - i,
        {
            let p = self.data[i];
            proof {
                lemma_div_is_ordered(p.r as int, 65535, 256);
                lemma_div_is_ordered(p.g as int, 65535, 256);
                lemma_div_is_ordered(p.b as int, 65535, 256);
                lemma_div_is_ordered(p.a as int, 65535, 256);
            }
            match self.mode {
                AccumMode::Density => {
                    let c: u8 = (p.r / 256) as u8;
                    out.push(c);
                    out.push(c);
                    out.push(c);
                    out.push(255);
                },
                AccumMode::Blend => {
                    out.push((p.r / 256) as u8);
                    out.push((p.g / 256) as u8);
                    out.push((p.b / 256) as u8);
                    out.push((p.a / 256) as u8);
                },
            }
            proof {
                assert(self.data@.take(i + 1).drop_last() =~= self.data@.take(i as int));
                assert(self.data@.take(i + 1).last() == self.data@[i as int]);
                assert(out@ =~= export_seq(self.data@.take(i + 1), self.mode));
            }
            i = i + 1;
        }
        proof {
            assert(self.data@.take(n as int) =~= self.data@);
        }
        out
    }

    /// A density histogram for diagnostics: how many touched pixels
    /// fall into each band of 5000 counts. The counter is 16-bit, so
    /// fourteen bands cover every value.
    pub fn buckets(&self) -> (r: Vec<u32>)
        requires
            self.wf(),
        ensures
            r@.len() == 14,
            forall|k: int| 0 <= k < 14 ==> #[trigger] r@[k] == bucket_count(self.data@, k),
    {
        let n: usize = self.data.len();
        let mut r: Vec<u32> = Vec::new();
        let mut j: usize = 0;
        while j < 14
            invariant
                0 <= j <= 14,
                r@.len() == j,
                forall|k: int| 0 <= k < j ==> #[trigger] r@[k] == 0,
            decreases 14 - j,
        {
            r.push(0);
            j = j + 1;
        }
        proof {
            assert(self.data@.take(0) =~= Seq::<Px>::empty());
        }
        let mut i: usize = 0;
        while i < n
            invariant
                0 <= i <= n,
                n == self.data@.len(),
                self.wf(),
                r@.len() == 14,
                forall|k: int| 0 <= k < 14
                    ==> #[trigger] r@[k] == bucket_count(self.data@.take(i as int), k),
            decreases n - i,
        {
            let p = self.data[i];
            let ghost prefix = self.data@.take(i as int);
            if p.r > 0 {
                proof {
                    lemma_div_is_ordered(p.r as int, 65535, 5000);
                    lemma_bucket_count_le(prefix, p.r as int / 5000);
                    assert(self.width as int * self.height as int <= 0x8000 * 0x8000)
                        by (nonlinear_arith)
                        requires
                            1 <= self.width as int <= 0x8000,
                            1 <= self.height as int <= 0x8000,
                    ;
                }
                let b: usize = (p.r / 5000) as usize;
                let cur: u32 = r[b];
                r.set(b, cur + 1);
            }
            proof {
                assert(self.data@.take(i + 1).drop_last() =~= prefix);
                assert(self.data@.take(i + 1).last() == self.data@[i as int]);
            }
            i = i + 1;
        }
        proof {
            assert(self.data@.take(n as int) =~= self.data@);
        }
        r
    }
}

/// The four bytes one pixel exports: each channel shifted down to 8
/// bits; a density counter is shown as a gray level with opaque alpha.
pub open spec fn px_bytes(p: Px, mode: AccumMode) -> Seq<u8> {
    match mode {
        AccumMode::Density => seq![
            (p.r as int / 256) as u8,
            (p.r as int / 256) as u8,
            (p.r as int / 256) as u8,
            255u8,
        ],
        AccumMode::Blend => seq![
            (p.r as int / 256) as u8,
            (p.g as int / 256) as u8,
            (p.b as int / 256) as u8,
            (p.a as int / 256) as u8,
        ],
    }
}

/// The full 8-bit RGBA export of a buffer, four bytes per pixel in
/// buffer order.
pub open spec fn export_seq(data: Seq<Px>, mode: AccumMode) -> Seq<u8>
    decreases data.len(),
{
    if data.len() == 0 {
        Seq::empty()
    } else {
        export_seq(data.drop_last(), mode) + px_bytes(data.last(), mode)
    }
}

/// Export reads the canvas and nothing else: the same buffer under the
/// same mode yields byte-identical output, so exporting twice without
/// an intervening write produces the same bytes.
pub proof fn lemma_export_deterministic(a: Seq<Px>, b: Seq<Px>, mode: AccumMode)
    requires
        a == b,
    ensures
        export_seq(a, mode) == export_seq(b, mode),
{
}

/// How many pixels of the buffer hold a nonzero density counter in
/// band `k`, each band 5000 counts wide.
pub open spec fn bucket_count(s: Seq<Px>, k: int) -> int
    decreases s.len(),
{
    if s.len() == 0 {
        0
    } else {
        bucket_count(s.drop_last(), k) + if s.last().r > 0 && s.last().r as int / 5000 == k {
            1int
        } else {
            0int
        }
    }
}

/// A band never counts more pixels than the buffer holds.
pub proof fn lemma_bucket_count_le(s: Seq<Px>, k: int)
    ensures
        0 <= bucket_count(s, k) <= s.len(),
    decreases s.len(),
{
    if s.len() > 0 {
        lemma_bucket_count_le(s.drop_last(), k);
    }
}

/// The exact channel value after `n` identical "over" composites of
/// source `s` with alpha `a` (both in 16-bit units) over an initial
/// value `v0`, carried without division as the numerator over
/// `65535^n`. One executable write performs one step of this
/// recurrence, rescaling by a single truncating division.
pub open spec fn composite_n(s: int, a: int, v0: int, n: nat) -> int
    decreases n,
{
    if n == 0 {
        v0
    } else {
        s * a * pow(65535, (n - 1) as nat) + (65535 - a) * composite_n(s, a, v0, (n - 1) as nat)
    }
}

/// Closed form of repeated "over" compositing: after `n` composites of
/// the same source the accumulator is the source weighted by
/// `1 - (1 - a/65535)^n` plus the initial value weighted by
/// `(1 - a/65535)^n`, stated here over the common denominator
/// `65535^n`.
pub proof fn lemma_blend_closed_form(s: int, a: int, v0: int, n: nat)
    ensures
        composite_n(s, a, v0, n) == s * (pow(65535, n) - pow(65535 - a, n)) + v0 * pow(
            65535 - a,
            n,
        ),
    decreases n,
{
    reveal(pow);
    if n == 0 {
        assert(pow(65535, 0) == 1);
        assert(pow(65535 - a, 0) == 1);
    } else {
        lemma_blend_closed_form(s, a, v0, (n - 1) as nat);
        let p1 = pow(65535, (n - 1) as nat);
        let q1 = pow(65535 - a, (n - 1) as nat);
        let c = composite_n(s, a, v0, (n - 1) as nat);
        assert(pow(65535, n) == 65535 * p1);
        assert(pow(65535 - a, n) == (65535 - a) * q1);
        lemma_composite_step(s, a, 65535, v0, p1, q1, c);
    }
}

/// The ring identity behind one induction step of the closed form.
#[verifier::rlimit(100)]
proof fn lemma_composite_step(s: int, a: int, d: int, v0: int, p1: int, q1: int, c: int)
    requires
        c == s * (p1 - q1) + v0 * q1,
    ensures
        s * a * p1 + (d - a) * c == s * (d * p1 - (d - a) * q1) + v0 * ((d - a) * q1),
{
    assert(s * a * p1 + (d - a) * (s * (p1 - q1) + v0 * q1) == s * (d * p1 - (d - a) * q1) + v0 * (
    (d - a) * q1)) by (nonlinear_arith);
}

/// The blended alpha law: starting from a fully transparent
/// accumulator, `n` composites of the same source alpha `a` accumulate
/// the coverage `1 - (1 - a/65535)^n`, stated in 16-bit units over the
/// common denominator `65535^n`.
pub proof fn lemma_blend_alpha_closed_form(a: int, n: nat)
    ensures
        composite_n(65535, a, 0, n) == 65535 * (pow(65535, n) - pow(65535 - a, n)),
{
    lemma_blend_closed_form(65535, a, 0, n);
}

} // verus!

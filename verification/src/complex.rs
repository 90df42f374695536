//! The complex recurrence: one step of `z <- z^power + c`.
//!
//! A complex value is a pair of fixed-point scalars. The exponent is a
//! positive integer and the power is taken by repeated multiplication,
//! each partial product rescaled exactly as `fixed::mul_value` says.
//! Every operation is checked: a value that leaves the representable
//! square is reported as `None` and the trajectory is abandoned, never
//! wrapped or clamped.

use vstd::prelude::*;
use crate::fixed::{fx_add, fx_mul, fx_sub, in_fx, mul_value};

verus! {

/// A point of the complex plane in fixed-point units.
#[derive(Clone, Copy, Debug, PartialEq, Eq, Structural)]
pub struct Complex {
    pub re: i64,
    pub im: i64,
}

impl Complex {
    /// The mathematical model of the value: its two components as integers.
    pub open spec fn view(self) -> (int, int) {
        (self.re as int, self.im as int)
    }

    pub fn new(re: i64, im: i64) -> (r: Complex)
        ensures
            r.re == re,
            r.im == im,
    {
        Complex { re, im }
    }
}

/// Model of an optional complex value.
pub open spec fn opt_view(r: Option<Complex>) -> Option<(int, int)> {
    match r {
        Some(z) => Some(z.view()),
        None => None,
    }
}

/// Checked complex product in the model: each component is the usual
/// `(ac - bd, ad + bc)`, with every partial product rescaled by a
/// truncating division, `None` as soon as a part is unrepresentable.
pub open spec fn cmul_ck(a: (int, int), b: (int, int)) -> Option<(int, int)> {
    let rr = mul_value(a.0, b.0);
    let ii = mul_value(a.1, b.1);
    let ri = mul_value(a.0, b.1);
    let ir = mul_value(a.1, b.0);
    if in_fx(rr) && in_fx(ii) && in_fx(ri) && in_fx(ir) && in_fx(rr - ii) && in_fx(ri + ir) {
        Some((rr - ii, ri + ir))
    } else {
        None
    }
}

/// Checked complex sum in the model.
pub open spec fn cadd_ck(a: (int, int), b: (int, int)) -> Option<(int, int)> {
    if in_fx(a.0 + b.0) && in_fx(a.1 + b.1) {
        Some((a.0 + b.0, a.1 + b.1))
    } else {
        None
    }
}

/// Checked integer power of a complex value: `p` successive products,
/// multiplying the accumulator by `z` from the left to the right.
/// Exponents below one are taken as one.
pub open spec fn cpow_ck(z: (int, int), p: nat) -> Option<(int, int)>
    decreases p,
{
    if p <= 1 {
        Some(z)
    } else {
        match cpow_ck(z, (p - 1) as nat) {
            Some(w) => cmul_ck(w, z),
            None => None,
        }
    }
}

/// One step of the recurrence in the model: `z^p`, then `+ c`.
pub open spec fn step_ck(z: (int, int), c: (int, int), p: nat) -> Option<(int, int)> {
    match cpow_ck(z, p) {
        Some(w) => cadd_ck(w, c),
        None => None,
    }
}

/// Once a power is unrepresentable, every higher power is too.
proof fn lemma_cpow_none_mono(z: (int, int), a: nat, b: nat)
    requires
        2 <= a <= b,
        cpow_ck(z, a) is None,
    ensures
        cpow_ck(z, b) is None,
    decreases b,
{
    if b > a {
        lemma_cpow_none_mono(z, a, (b - 1) as nat);
    }
}

/// Checked complex multiplication.
pub fn cmul(a: Complex, b: Complex) -> (r: Option<Complex>)
    ensures
        opt_view(r) == cmul_ck(a.view(), b.view()),
{
    let rr = match fx_mul(a.re, b.re) {
        Some(v) => v,
        None => {
            return None;
        },
    };
    let ii = match fx_mul(a.im, b.im) {
        Some(v) => v,
        None => {
            return None;
        },
    };
    let ri = match fx_mul(a.re, b.im) {
        Some(v) => v,
        None => {
            return None;
        },
    };
    let ir = match fx_mul(a.im, b.re) {
        Some(v) => v,
        None => {
            return None;
        },
    };
    let re = match fx_sub(rr, ii) {
        Some(v) => v,
        None => {
            return None;
        },
    };
    let im = match fx_add(ri, ir) {
        Some(v) => v,
        None => {
            return None;
        },
    };
    Some(Complex { re, im })
}

/// Checked integer power by repeated multiplication.
pub fn cpow(z: Complex, p: u32) -> (r: Option<Complex>)
    requires
        p >= 1,
    ensures
        opt_view(r) == cpow_ck(z.view(), p as nat),
{
    let mut acc = z;
    let mut k: u32 = 1;
    while k < p
        invariant
            1 <= k <= p,
            cpow_ck(z.view(), k as nat) == Some(acc.view()),
        decreases p - k,
    {
        match cmul(acc, z) {
            Some(w) => {
                acc = w;
            },
            None => {
                proof {
                    assert(cpow_ck(z.view(), (k + 1) as nat) is None);
                    if k + 1 < p {
                        lemma_cpow_none_mono(z.view(), (k + 1) as nat, p as nat);
                    }
                }
                return None;
            },
        }
        k = k + 1;
    }
    Some(acc)
}

/// One step of the generalized Mandelbrot recurrence, `z^p + c`.
pub fn step(z: Complex, c: Complex, p: u32) -> (r: Option<Complex>)
    requires
        p >= 1,
    ensures
        opt_view(r) == step_ck(z.view(), c.view(), p as nat),
{
    let w = match cpow(z, p) {
        Some(w) => w,
        None => {
            return None;
        },
    };
    let re = match fx_add(w.re, c.re) {
        Some(v) => v,
        None => {
            return None;
        },
    };
    let im = match fx_add(w.im, c.im) {
        Some(v) => v,
        None => {
            return None;
        },
    };
    Some(Complex { re, im })
}

} // verus!

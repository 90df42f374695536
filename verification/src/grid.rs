//! The coordinate grid: the ordered seeds of a render.
//!
//! One axis walks `-bounds, -bounds + delta, ...` strictly below
//! `bounds`; the full grid is the cross product of the axis with
//! itself, materialized in a fixed row-major order so that a render is
//! reproducible whatever order the seeds are later processed in.

use vstd::prelude::*;
use vstd::arithmetic::div_mod::{lemma_fundamental_div_mod, lemma_fundamental_div_mod_converse};
use vstd::arithmetic::mul::lemma_mul_inequality;
use crate::fixed::SCALE;

verus! {

/// Largest half-extent of the sampled square, in fixed-point units.
pub const MAX_BOUND: i64 = 1000 * SCALE;

/// Largest number of samples per axis that a grid may hold.
pub const MAX_AXIS: u64 = 32768;

/// Number of samples on one axis: the count of multiples of `delta`
/// from `-bounds` strictly below `bounds`, that is `ceil(2*bounds/delta)`.
pub open spec fn grid_len(bounds: int, delta: int) -> int {
    (2 * bounds + delta - 1) / delta
}

/// The seed a flat row-major index of the cross product denotes.
pub open spec fn pair_at(xs: Seq<i64>, k: int) -> (i64, i64) {
    (xs[k / xs.len() as int], xs[k % xs.len() as int])
}

/// The ordered axis coordinates `-bounds + i * delta`, every one
/// strictly below `bounds`, and the next one at or beyond it.
pub fn generate(bounds: i64, delta: i64) -> (r: Vec<i64>)
    requires
        0 < bounds <= MAX_BOUND,
        0 < delta,
        grid_len(bounds as int, delta as int) <= MAX_AXIS,
    ensures
        r@.len() == grid_len(bounds as int, delta as int),
        forall|i: int| 0 <= i < r@.len() ==> r@[i] == -(bounds as int) + i * delta,
        forall|i: int| 0 <= i < r@.len() ==> r@[i] < bounds,
        -(bounds as int) + grid_len(bounds as int, delta as int) * delta >= bounds,
{
    let num: u64 = 2 * (bounds as u64) + (delta as u64 - 1);
    let n: u64 = num / (delta as u64);
    proof {
        assert(n == grid_len(bounds as int, delta as int));
        lemma_fundamental_div_mod(num as int, delta as int);
        assert(n * delta >= 2 * bounds);
        assert(n * delta <= 2 * bounds + delta - 1);
    }
    let mut r: Vec<i64> = Vec::new();
    let mut i: u64 = 0;
    while i < n
        invariant
            0 <= i <= n,
            n <= MAX_AXIS,
            n == grid_len(bounds as int, delta as int),
            n * delta <= 2 * bounds + delta - 1,
            0 < bounds <= MAX_BOUND,
            0 < delta,
            r@.len() == i,
            forall|j: int| 0 <= j < i ==> r@[j] == -(bounds as int) + j * delta,
        decreases n - i,
    {
        proof {
            lemma_mul_inequality(i as int, n as int - 1, delta as int);
            assert((n - 1) * delta == n * delta - delta) by (nonlinear_arith);
            assert(0 <= i as int * delta as int) by (nonlinear_arith)
                requires
                    0 <= i as int,
                    0 < delta as int,
            ;
            assert(i as int * delta as int <= 2 * bounds - 1);
        }
        let x: i64 = -bounds + (i as i64) * delta;
        r.push(x);
        i = i + 1;
    }
    proof {
        assert forall|j: int| 0 <= j < r@.len() implies r@[j] < bounds by {
            lemma_mul_inequality(j, n as int - 1, delta as int);
            assert((n - 1) * delta == n * delta - delta) by (nonlinear_arith);
        }
    }
    r
}

/// Every ordered pair of axis coordinates, row-major: entry
/// `i * n + j` pairs coordinate `i` with coordinate `j`.
pub fn cross(xs: &Vec<i64>) -> (r: Vec<(i64, i64)>)
    requires
        xs@.len() <= MAX_AXIS,
    ensures
        r@.len() == xs@.len() * xs@.len(),
        forall|k: int| 0 <= k < r@.len() ==> #[trigger] r@[k] == pair_at(xs@, k),
{
    let n: usize = xs.len();
    if n == 0 {
        let r: Vec<(i64, i64)> = Vec::new();
        proof {
            assert(r@.len() == xs@.len() * xs@.len()) by (nonlinear_arith)
                requires
                    r@.len() == 0,
                    xs@.len() == 0,
            ;
        }
        return r;
    }
    let mut r: Vec<(i64, i64)> = Vec::new();
    let mut i: usize = 0;
    while i < n
        invariant
            0 < n == xs@.len() <= MAX_AXIS,
            0 <= i <= n,
            r@.len() == i * n,
            forall|k: int| 0 <= k < r@.len() ==> #[trigger] r@[k] == pair_at(xs@, k),
        decreases n - i,
    {
        let mut j: usize = 0;
        proof {
            lemma_mul_inequality(i as int, n as int, n as int);
        }
        while j < n
            invariant
                0 < n == xs@.len() <= MAX_AXIS,
                0 <= i < n,
                0 <= j <= n,
                i * n <= n * n,
                r@.len() == i * n + j,
                forall|k: int| 0 <= k < r@.len() ==> #[trigger] r@[k] == pair_at(xs@, k),
            decreases n - j,
        {
            r.push((xs[i], xs[j]));
            proof {
                let k = i * n + j;
                lemma_fundamental_div_mod_converse(k as int, n as int, i as int, j as int);
                assert(r@[k as int] == pair_at(xs@, k as int));
            }
            j = j + 1;
        }
        proof {
            assert((i + 1) * n == i * n + n) by (nonlinear_arith);
        }
        i = i + 1;
    }
    r
}

} // verus!

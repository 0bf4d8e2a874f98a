//! The grid builder: allocates a regular lattice of flat points.
//!
//! A lattice of resolution `n` over a square domain of side `s` (fixed
//! point) is an `n * n` sequence of points stored row-major:
//! `index(i, j) = i * n + j`.  Point `(i, j)` sits at
//! `x = step * i - s / 2`, `y = step * j - s / 2`, `z = 0`, where
//! `step = s / n` (truncated).

use vstd::prelude::*;
use vstd::arithmetic::div_mod::{
    lemma_div_is_ordered_by_denominator, lemma_fundamental_div_mod,
    lemma_fundamental_div_mod_converse_div, lemma_fundamental_div_mod_converse_mod,
};
use vstd::arithmetic::mul::lemma_mul_inequality;
use crate::vec3::Vec3;

verus! {

/// Largest accepted lattice resolution.
pub const RESOLUTION_MAX: usize = 4096;

/// Largest accepted domain side, fixed point (`512.0` in real terms).
pub const DOMAIN_MAX: i64 = 0x200_0000;

/// The point of the lattice at row `i`, column `j`.
pub open spec fn grid_point(i: int, j: int, n: int, s: int) -> Vec3 {
    Vec3 {
        x: ((s / n) * i - s / 2) as i64,
        y: ((s / n) * j - s / 2) as i64,
        z: 0,
    }
}

/// The whole lattice of resolution `n`, row-major.
pub open spec fn grid_seq(n: int, s: int) -> Seq<Vec3> {
    Seq::new((n * n) as nat, |idx: int| grid_point(idx / n, idx % n, n, s))
}

/// Each grid coordinate lies within `[-s/2, s/2]`.
pub proof fn lemma_grid_point_bounds(i: int, j: int, n: int, s: int)
    requires
        0 <= i < n,
        0 <= j < n,
        1 <= s,
    ensures
        -(s / 2) <= (s / n) * i - s / 2 <= s / 2,
        -(s / 2) <= (s / n) * j - s / 2 <= s / 2,
{
    let step = s / n;
    lemma_grid_coord_bounds(i, n, s);
    lemma_grid_coord_bounds(j, n, s);
}

/// One grid coordinate, `(s / n) * i - s / 2` for `i < n`, lies within
/// `[-s/2, s/2]`.
pub proof fn lemma_grid_coord_bounds(i: int, n: int, s: int)
    requires
        0 <= i < n,
        1 <= s,
    ensures
        -(s / 2) <= (s / n) * i - s / 2 <= s / 2,
{
    let step = s / n;
    lemma_fundamental_div_mod(s, n);
    vstd::arithmetic::div_mod::lemma_remainder_lower(s, n);
    assert(n * step <= s);
    assert(step >= 0) by {
        vstd::arithmetic::div_mod::lemma_div_pos_is_pos(s, n);
    }
    assert(step * i >= 0) by (nonlinear_arith)
        requires
            step >= 0,
            i >= 0,
    ;
    if step == 0 {
        assert(step * i == 0) by (nonlinear_arith)
            requires
                step == 0,
        ;
    } else {
        lemma_mul_inequality(i, n - 1, step);
        assert(i * step == step * i) by (nonlinear_arith);
        assert((n - 1) * step == n * step - step) by (nonlinear_arith);
        assert(step * i <= s - step);
        assert(step * i <= s - 1);
        assert(s / 2 + s / 2 >= s - 1);
        assert(step * i - s / 2 <= s / 2);
    }
}

/// Every lattice point lies in the centered domain with height zero.
pub proof fn lemma_grid_seq_bounds(n: int, s: int)
    requires
        1 <= n,
        1 <= s,
    ensures
        grid_seq(n, s).len() == n * n,
        forall|i: int|
            0 <= i < n * n ==> -(s / 2) <= (#[trigger] grid_seq(n, s)[i].x as int) <= s / 2,
        forall|i: int|
            0 <= i < n * n ==> -(s / 2) <= (#[trigger] grid_seq(n, s)[i].y as int) <= s / 2,
        forall|i: int| 0 <= i < n * n ==> (#[trigger] grid_seq(n, s)[i].z as int) == 0,
{
    assert(n * n >= 0) by (nonlinear_arith)
        requires
            n >= 0,
    ;
    assert forall|i: int|
        0 <= i < n * n implies -(s / 2) <= (#[trigger] grid_seq(n, s)[i].x as int) <= s / 2 by {
        lemma_grid_cell_bounds(i, n, s);
    }
    assert forall|i: int|
        0 <= i < n * n implies -(s / 2) <= (#[trigger] grid_seq(n, s)[i].y as int) <= s / 2 by {
        lemma_grid_cell_bounds(i, n, s);
    }
    assert forall|i: int| 0 <= i < n * n implies (#[trigger] grid_seq(n, s)[i].z as int) == 0 by {
        lemma_grid_cell_bounds(i, n, s);
    }
}

/// One lattice point lies in the centered domain with height zero.
pub proof fn lemma_grid_cell_bounds(i: int, n: int, s: int)
    requires
        1 <= n,
        1 <= s,
        0 <= i < n * n,
    ensures
        -(s / 2) <= (grid_seq(n, s)[i].x as int) <= s / 2,
        -(s / 2) <= (grid_seq(n, s)[i].y as int) <= s / 2,
        (grid_seq(n, s)[i].z as int) == 0,
{
    vstd::arithmetic::div_mod::lemma_remainder_lower(i, n);
    vstd::arithmetic::div_mod::lemma_remainder_upper(i, n);
    lemma_fundamental_div_mod(i, n);
    assert(0 <= i / n < n) by (nonlinear_arith)
        requires
            i == n * (i / n) + i % n,
            0 <= i % n < n,
            0 <= i < n * n,
            n >= 1,
    ;
    lemma_grid_coord_bounds(i / n, n, s);
    lemma_grid_coord_bounds(i % n, n, s);
}

/// Builds the lattice: `n * n` flat points spanning the centered domain.
#[verifier::loop_isolation(false)]
pub fn build_grid(n: usize, s: i64) -> (v: Vec<Vec3>)
    requires
        1 <= n <= RESOLUTION_MAX,
        1 <= s <= DOMAIN_MAX,
    ensures
        v@ == grid_seq(n as int, s as int),
        v@.len() == n * n,
{
    let step: i64 = ((s as u64) / (n as u64)) as i64;
    let half: i64 = ((s as u64) / 2) as i64;
    proof {
        lemma_div_is_ordered_by_denominator(s as int, 1, n as int);
        assert(step as int == s as int / n as int);
        assert(step <= s);
    }
    let mut v: Vec<Vec3> = Vec::new();
    let mut i: usize = 0;
    while i < n
        invariant
            0 <= i <= n,
            v@.len() == i * n,
            forall|idx: int|
                0 <= idx < v@.len() ==> v@[idx] == grid_point(idx / (n as int), idx % (n as int), n as int, s as int),
        decreases n - i,
    {
        let mut j: usize = 0;
        while j < n
            invariant
                0 <= i < n,
                0 <= j <= n,
                v@.len() == i * n + j,
                forall|idx: int|
                    0 <= idx < v@.len() ==> v@[idx] == grid_point(idx / (n as int), idx % (n as int), n as int, s as int),
            decreases n - j,
        {
            proof {
                assert((i * n + j) + 1 <= n * n) by (nonlinear_arith)
                    requires
                        0 <= i < n,
                        0 <= j < n,
                ;
                lemma_mul_inequality(i as int, n as int - 1, n as int);
                lemma_grid_point_bounds(i as int, j as int, n as int, s as int);
                lemma_fundamental_div_mod_converse_div(
                    (i * n + j) as int,
                    n as int,
                    i as int,
                    j as int,
                );
                lemma_fundamental_div_mod_converse_mod(
                    (i * n + j) as int,
                    n as int,
                    i as int,
                    j as int,
                );
            }
            let p = Vec3 { x: step * (i as i64) - half, y: step * (j as i64) - half, z: 0 };
            v.push(p);
            j = j + 1;
        }
        i = i + 1;
        proof {
            assert((i - 1) * n + n == i * n) by (nonlinear_arith);
        }
    }
    proof {
        assert(v@ =~= grid_seq(n as int, s as int));
    }
    v
}

} // verus!

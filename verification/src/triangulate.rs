//! The triangulator: converts lattice topology into a triangle list.
//!
//! Each cell `(i, j)` with `i, j` in `[0, n - 1)` yields two triangles over
//! the quad with corners `(i, j)`, `(i+1, j)`, `(i, j+1)`, `(i+1, j+1)`:
//! `(index(i, j), index(i+1, j), index(i, j+1))` and
//! `(index(i, j+1), index(i+1, j), index(i+1, j+1))`, in this order, so
//! both share one winding.  The list depends only on the resolution.

use vstd::prelude::*;
use vstd::arithmetic::div_mod::{
    lemma_fundamental_div_mod, lemma_fundamental_div_mod_converse_div,
    lemma_fundamental_div_mod_converse_mod, lemma_remainder_lower, lemma_remainder_upper,
};
use crate::grid::RESOLUTION_MAX;

verus! {

/// Triangle number `q` (of `2 * (n-1) * (n-1)`) of the lattice of
/// resolution `n`: cell-major, the even triangle of each cell first.
pub open spec fn tri_at(q: int, n: int) -> (u32, u32, u32) {
    let row = q / (2 * (n - 1));
    let rem = q % (2 * (n - 1));
    let col = rem / 2;
    if rem % 2 == 0 {
        ((row * n + col) as u32, ((row + 1) * n + col) as u32, (row * n + col + 1) as u32)
    } else {
        ((row * n + col + 1) as u32, ((row + 1) * n + col) as u32, ((row + 1) * n + col + 1) as u32)
    }
}

/// The full triangle list of the lattice of resolution `n`.
pub open spec fn spec_triangles(n: int) -> Seq<(u32, u32, u32)> {
    Seq::new((2 * ((n - 1) * (n - 1))) as nat, |q: int| tri_at(q, n))
}

/// The components of triangle `q` are lattice indices below `n * n`.
pub proof fn lemma_tri_at_in_range(q: int, n: int)
    requires
        1 <= n <= RESOLUTION_MAX,
        0 <= q < 2 * ((n - 1) * (n - 1)),
    ensures
        (tri_at(q, n).0 as int) < n * n,
        (tri_at(q, n).1 as int) < n * n,
        (tri_at(q, n).2 as int) < n * n,
{
    assert(n >= 2) by (nonlinear_arith)
        requires
            0 <= q < 2 * ((n - 1) * (n - 1)),
            n >= 1,
    ;
    let row = q / (2 * (n - 1));
    let rem = q % (2 * (n - 1));
    let col = rem / 2;
    lemma_remainder_lower(q, 2 * (n - 1));
    lemma_remainder_upper(q, 2 * (n - 1));
    assert(0 <= rem < 2 * (n - 1));
    assert(0 <= col < n - 1);
    lemma_fundamental_div_mod(q, 2 * (n - 1));
    assert(0 <= row < n - 1) by (nonlinear_arith)
        requires
            q == 2 * (n - 1) * row + rem,
            0 <= rem < 2 * (n - 1),
            0 <= q < 2 * ((n - 1) * (n - 1)),
            n >= 2,
    ;
    assert((row + 1) * n + col + 1 < n * n) by (nonlinear_arith)
        requires
            0 <= row < n - 1,
            0 <= col < n - 1,
    ;
    assert(row * n + col >= 0) by (nonlinear_arith)
        requires
            row >= 0,
            col >= 0,
            n >= 1,
    ;
    assert(row * n + n == (row + 1) * n) by (nonlinear_arith);
    assert(n * n <= 0x1000000) by (nonlinear_arith)
        requires
            0 <= n <= RESOLUTION_MAX,
    ;
}

/// Emits the triangle list for a lattice of resolution `n`:
/// two triangles per cell, one shared winding.
#[verifier::loop_isolation(false)]
pub fn triangulate(n: usize) -> (v: Vec<(u32, u32, u32)>)
    requires
        1 <= n <= RESOLUTION_MAX,
    ensures
        v@ == spec_triangles(n as int),
        v@.len() == 2 * (((n - 1) as int) * ((n - 1) as int)),
{
    let cells: usize = n - 1;
    let mut v: Vec<(u32, u32, u32)> = Vec::new();
    let mut i: usize = 0;
    while i < cells
        invariant
            0 <= i <= cells,
            v@.len() == 2 * (i * cells),
            v@ == spec_triangles(n as int).take(2 * (i as int * cells as int)),
        decreases cells - i,
    {
        let mut j: usize = 0;
        while j < cells
            invariant
                0 <= i < cells,
                0 <= j <= cells,
                v@.len() == 2 * (i * cells + j),
                v@ == spec_triangles(n as int).take(2 * (i as int * cells as int + j as int)),
            decreases cells - j,
        {
            proof {
                assert(i * cells + j < cells * cells) by (nonlinear_arith)
                    requires
                        0 <= i < cells,
                        0 <= j < cells,
                ;
                assert(cells * cells < RESOLUTION_MAX * RESOLUTION_MAX) by (nonlinear_arith)
                    requires
                        0 <= cells < RESOLUTION_MAX,
                ;
                assert(RESOLUTION_MAX * RESOLUTION_MAX == 0x1000000);
            }
            let q0: usize = 2 * (i * cells + j);
            proof {
                let qi = q0 as int;
                let d = 2 * (cells as int);
                assert(qi == i as int * d + 2 * j as int) by (nonlinear_arith)
                    requires
                        qi == 2 * (i as int * cells as int + j as int),
                        d == 2 * cells as int,
                ;
                lemma_fundamental_div_mod_converse_div(qi, d, i as int, 2 * j as int);
                lemma_fundamental_div_mod_converse_mod(qi, d, i as int, 2 * j as int);
                lemma_fundamental_div_mod_converse_div(qi + 1, d, i as int, 2 * j as int + 1);
                lemma_fundamental_div_mod_converse_mod(qi + 1, d, i as int, 2 * j as int + 1);
                assert(2 * ((n as int - 1) * (n as int - 1)) == 2 * (cells as int * cells as int));
                assert(qi + 1 < 2 * (cells as int * cells as int)) by (nonlinear_arith)
                    requires
                        qi == 2 * (i as int * cells as int + j as int),
                        0 <= i as int && (i as int) < cells as int,
                        0 <= j as int && (j as int) < cells as int,
                ;
                lemma_tri_at_in_range(qi, n as int);
                lemma_tri_at_in_range(qi + 1, n as int);
                assert(i as int * n as int + n as int == (i as int + 1) * n as int) by (nonlinear_arith);
                assert(i as int * n as int >= 0) by (nonlinear_arith)
                    requires
                        i as int >= 0,
                        n as int >= 0,
                ;
                assert((i as int + 1) * n as int + j as int + 1 <= n as int * n as int) by (nonlinear_arith)
                    requires
                        0 <= i as int && (i as int) < n as int - 1,
                        0 <= j as int && (j as int) < n as int - 1,
                ;
                assert(n as int * n as int <= 0x1000000) by (nonlinear_arith)
                    requires
                        0 <= n as int && n as int <= RESOLUTION_MAX,
                ;
            }
            let a: u32 = (i * n + j) as u32;
            let b: u32 = ((i + 1) * n + j) as u32;
            let c: u32 = (i * n + j + 1) as u32;
            let d: u32 = ((i + 1) * n + j + 1) as u32;
            v.push((a, b, c));
            v.push((c, b, d));
            proof {
                let tris = spec_triangles(n as int);
                let qi = q0 as int;
                assert(tris[qi] == (a, b, c));
                assert(tris[qi + 1] == (c, b, d));
                assert(tris.take(qi + 2) =~= tris.take(qi).push((a, b, c)).push((c, b, d)));
                assert(qi + 2 == 2 * (i as int * cells as int + (j as int + 1)));
            }
            j = j + 1;
        }
        i = i + 1;
        proof {
            assert((i as int - 1) * cells as int + cells as int == i as int * cells as int)
                by (nonlinear_arith);
        }
    }
    proof {
        assert(cells as int * cells as int == (n as int - 1) * (n as int - 1));
        assert(v@ =~= spec_triangles(n as int));
    }
    v
}

} // verus!

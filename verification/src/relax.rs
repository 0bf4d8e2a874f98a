//! The relaxer: repeated local averaging of the height channel.
//!
//! Each pass replaces every height by the mean of the old height and the
//! average of its four neighbours' old heights, with indices clamped at the
//! lattice border (a border vertex averages with itself there).  The whole
//! average buffer is computed from the pre-pass state before any vertex is
//! written, so a pass is order-independent.  Only the height channel moves;
//! the planar coordinates are fixed by the lattice.

use vstd::prelude::*;
use vstd::arithmetic::div_mod::{lemma_div_is_ordered, lemma_div_multiples_vanish};
use crate::vec3::Vec3;

verus! {

/// Largest height accepted by [`relax`]; far above anything the pipeline
/// produces, it merely keeps the neighbour sums inside `i64`.
pub const HEIGHT_LIMIT: i64 = 0x8_0000_0000_0000;

/// The clamped 4-neighbour average of the height at flat index `idx` of an
/// `n`-row lattice (row-major, `idx = i * n + j`): up `(i-1, j)`, down
/// `(i+1, j)`, left `(i, j-1)`, right `(i, j+1)`.
pub open spec fn avg_at(s: Seq<Vec3>, n: int, idx: int) -> int {
    let zu = if idx >= n {
        s[idx - n].z as int
    } else {
        s[idx].z as int
    };
    let zd = if idx + n < s.len() {
        s[idx + n].z as int
    } else {
        s[idx].z as int
    };
    let zl = if idx % n > 0 {
        s[idx - 1].z as int
    } else {
        s[idx].z as int
    };
    let zr = if idx % n < n - 1 {
        s[idx + 1].z as int
    } else {
        s[idx].z as int
    };
    (zu + zd + zl + zr) / 4
}

/// One smoothing pass over the whole lattice.
pub open spec fn relax_pass(s: Seq<Vec3>, n: int) -> Seq<Vec3> {
    Seq::new(
        s.len(),
        |idx: int| Vec3 {
            x: s[idx].x,
            y: s[idx].y,
            z: (((s[idx].z as int) + avg_at(s, n, idx)) / 2) as i64,
        },
    )
}

/// `p` smoothing passes.
pub open spec fn relax_seq(s: Seq<Vec3>, n: int, p: nat) -> Seq<Vec3>
    decreases p,
{
    if p == 0 {
        s
    } else {
        relax_pass(relax_seq(s, n, (p - 1) as nat), n)
    }
}

/// Smoothing is non-expansive: a pass keeps every height within the
/// pre-pass range `[lo, hi]`.  Each new height is a truncated mean of five
/// old heights.
pub proof fn lemma_relax_pass_range(s: Seq<Vec3>, n: int, lo: int, hi: int)
    requires
        1 <= n,
        s.len() == n * n,
        forall|i: int| 0 <= i < s.len() ==> lo <= (#[trigger] s[i].z as int) <= hi,
        -0x8_0000_0000_0000 <= lo,
        hi <= 0x8_0000_0000_0000,
        lo <= hi,
    ensures
        forall|i: int|
            0 <= i < s.len() ==> lo <= (#[trigger] relax_pass(s, n)[i].z as int) <= hi,
{
    assert forall|i: int|
        0 <= i < s.len() implies lo <= (#[trigger] relax_pass(s, n)[i].z as int) <= hi by {
        lemma_avg_at_range(s, n, i, lo, hi);
        let a = avg_at(s, n, i);
        let z = s[i].z as int;
        assert(2 * lo <= z + a <= 2 * hi);
        lemma_div_is_ordered(2 * lo, z + a, 2);
        lemma_div_is_ordered(z + a, 2 * hi, 2);
        lemma_div_multiples_vanish(lo, 2);
        lemma_div_multiples_vanish(hi, 2);
    }
}

/// The clamped neighbour average stays within the range of the heights.
pub proof fn lemma_avg_at_range(s: Seq<Vec3>, n: int, idx: int, lo: int, hi: int)
    requires
        1 <= n,
        s.len() == n * n,
        0 <= idx < s.len(),
        forall|i: int| 0 <= i < s.len() ==> lo <= (#[trigger] s[i].z as int) <= hi,
        lo <= hi,
    ensures
        lo <= avg_at(s, n, idx) <= hi,
{
    vstd::arithmetic::div_mod::lemma_remainder_lower(idx, n);
    vstd::arithmetic::div_mod::lemma_remainder_upper(idx, n);
    if idx < n {
        vstd::arithmetic::div_mod::lemma_small_mod(idx as nat, n as nat);
    }
    if idx % n < n - 1 {
        lemma_right_neighbor(idx, n, s.len() as int);
    }
    let zu = if idx >= n {
        s[idx - n].z as int
    } else {
        s[idx].z as int
    };
    let zd = if idx + n < s.len() {
        s[idx + n].z as int
    } else {
        s[idx].z as int
    };
    let zl = if idx % n > 0 {
        s[idx - 1].z as int
    } else {
        s[idx].z as int
    };
    let zr = if idx % n < n - 1 {
        s[idx + 1].z as int
    } else {
        s[idx].z as int
    };
    let t = zu + zd + zl + zr;
    assert(4 * lo <= t <= 4 * hi);
    lemma_div_is_ordered(4 * lo, t, 4);
    lemma_div_is_ordered(t, 4 * hi, 4);
    lemma_div_multiples_vanish(lo, 4);
    lemma_div_multiples_vanish(hi, 4);
}

/// In a row-major `n * n` lattice, a vertex not in the last column has its
/// right neighbour inside the lattice.
pub proof fn lemma_right_neighbor(idx: int, n: int, len: int)
    requires
        1 <= n,
        len == n * n,
        0 <= idx < len,
        idx % n < n - 1,
    ensures
        idx + 1 < len,
{
    vstd::arithmetic::div_mod::lemma_fundamental_div_mod(idx, n);
    let qd = idx / n;
    let r = idx % n;
    assert(idx + 1 < n * n) by (nonlinear_arith)
        requires
            idx == n * qd + r,
            0 <= r,
            r < n - 1,
            0 <= idx,
            idx < n * n,
            n >= 1,
    ;
}

/// Smoothing keeps the length and planar coordinates and never expands
/// the height range `[lo, hi]`.
pub proof fn lemma_relax_seq_props(s: Seq<Vec3>, n: int, p: nat, lo: int, hi: int)
    requires
        1 <= n,
        s.len() == n * n,
        forall|i: int| 0 <= i < s.len() ==> lo <= (#[trigger] s[i].z as int) <= hi,
        -0x8_0000_0000_0000 <= lo,
        hi <= 0x8_0000_0000_0000,
        lo <= hi,
    ensures
        relax_seq(s, n, p).len() == s.len(),
        forall|i: int| 0 <= i < s.len() ==> (#[trigger] relax_seq(s, n, p)[i].x) == s[i].x,
        forall|i: int| 0 <= i < s.len() ==> (#[trigger] relax_seq(s, n, p)[i].y) == s[i].y,
        forall|i: int|
            0 <= i < s.len() ==> lo <= (#[trigger] relax_seq(s, n, p)[i].z as int) <= hi,
    decreases p,
{
    if p > 0 {
        lemma_relax_seq_props(s, n, (p - 1) as nat, lo, hi);
        let prev = relax_seq(s, n, (p - 1) as nat);
        lemma_relax_pass_range(prev, n, lo, hi);
    }
}

/// Applies `passes` smoothing passes to the height channel in place.
#[verifier::loop_isolation(false)]
pub fn relax(v: &mut Vec<Vec3>, n: usize, passes: usize)
    requires
        1 <= n <= crate::grid::RESOLUTION_MAX,
        old(v)@.len() == n * n,
        forall|i: int| 0 <= i < old(v)@.len() ==> 0 <= (#[trigger] old(v)@[i].z as int) <= HEIGHT_LIMIT,
    ensures
        final(v)@ == relax_seq(old(v)@, n as int, passes as nat),
{
    let ghost orig = old(v)@;
    proof {
        assert(n as int * n as int <= 0x1000000) by (nonlinear_arith)
            requires
                0 <= n as int && n as int <= crate::grid::RESOLUTION_MAX,
        ;
    }
    let len = v.len();
    let mut p: usize = 0;
    while p < passes
        invariant
            0 <= p <= passes,
            v@ == relax_seq(orig, n as int, p as nat),
            v@.len() == len,
            forall|i: int| 0 <= i < v@.len() ==> 0 <= (#[trigger] v@[i].z as int) <= HEIGHT_LIMIT,
        decreases passes - p,
    {
        let ghost s = v@;
        let mut avg: Vec<i64> = Vec::new();
        let mut idx: usize = 0;
        while idx < len
            invariant
                0 <= idx <= len,
                avg@.len() == idx,
                forall|k: int| 0 <= k < idx ==> (#[trigger] avg@[k] as int) == avg_at(s, n as int, k),
            decreases len - idx,
        {
            let j: usize = idx % n;
            proof {
                if idx < n {
                    vstd::arithmetic::div_mod::lemma_small_mod(idx as nat, n as nat);
                }
                if (idx as int % n as int) < n as int - 1 {
                    lemma_right_neighbor(idx as int, n as int, len as int);
                }
            }
            let zu: i64 = if idx >= n {
                v[idx - n].z
            } else {
                v[idx].z
            };
            let zd: i64 = if idx + n < len {
                v[idx + n].z
            } else {
                v[idx].z
            };
            let zl: i64 = if j > 0 {
                v[idx - 1].z
            } else {
                v[idx].z
            };
            let zr: i64 = if j < n - 1 {
                v[idx + 1].z
            } else {
                v[idx].z
            };
            let a: i64 = (((zu + zd + zl + zr) as u64) / 4) as i64;
            avg.push(a);
            idx = idx + 1;
        }
        let mut out: Vec<Vec3> = Vec::new();
        let mut idx: usize = 0;
        while idx < len
            invariant
                0 <= idx <= len,
                out@ == relax_pass(s, n as int).take(idx as int),
            decreases len - idx,
        {
            proof {
                lemma_avg_at_range(s, n as int, idx as int, 0, HEIGHT_LIMIT as int);
            }
            let q = v[idx];
            let z: i64 = (((q.z + avg[idx]) as u64) / 2) as i64;
            out.push(Vec3 { x: q.x, y: q.y, z });
            proof {
                let sp = relax_pass(s, n as int);
                assert(sp[idx as int] == Vec3 { x: q.x, y: q.y, z });
                assert(sp.take(idx as int + 1) =~= sp.take(idx as int).push(sp[idx as int]));
            }
            idx = idx + 1;
        }
        *v = out;
        proof {
            assert(v@ =~= relax_pass(s, n as int));
            lemma_relax_pass_range(s, n as int, 0, HEIGHT_LIMIT as int);
        }
        p = p + 1;
    }
}

} // verus!

//! The normal computer: derives a unit shading normal per vertex.
//!
//! Every triangle contributes its unnormalized edge cross product — larger
//! triangles weigh more — to the running sum of each of its three corners;
//! afterwards each sum is scaled to unit length.  A vertex whose
//! accumulated vector is exactly zero (only degenerate incident triangles)
//! falls back to the straight-up normal `(0, 0, 1)`.

use vstd::prelude::*;
use crate::fixed::{
    abs_i, fx_mul, fx_mul_spec, isqrt, lemma_fx_mul_bound, lemma_sqrt_floor, scale_div,
    scale_div_spec, sqrt_floor,
};
use crate::vec3::Vec3;

verus! {

/// Largest coordinate magnitude accepted by [`compute_normals`].
pub const COORD_LIMIT: i64 = 0x100_0000;

/// Largest triangle count accepted by [`compute_normals`].
pub const TRIANGLES_LIMIT: usize = 0x200_0000;

/// Bound on one cross-product component under [`COORD_LIMIT`].
pub const CROSS_LIMIT: i64 = 0x8_0000_0000;

/// Bound on the growth of one accumulator component per triangle.
pub const ACC_STEP: i64 = 0x18_0000_0000;

/// Componentwise sum of two integer triples.
pub open spec fn add3(a: (int, int, int), b: (int, int, int)) -> (int, int, int) {
    (a.0 + b.0, a.1 + b.1, a.2 + b.2)
}

/// The integer triple held by a vector.
pub open spec fn tup(v: Vec3) -> (int, int, int) {
    (v.x as int, v.y as int, v.z as int)
}

/// The (unnormalized) face normal of a triangle: the fixed-point cross
/// product of its two edge vectors out of the first corner.
pub open spec fn face_normal(p: Seq<Vec3>, t: (u32, u32, u32)) -> (int, int, int) {
    let a = p[t.0 as int];
    let b = p[t.1 as int];
    let c = p[t.2 as int];
    let e1x = b.x - a.x;
    let e1y = b.y - a.y;
    let e1z = b.z - a.z;
    let e2x = c.x - a.x;
    let e2y = c.y - a.y;
    let e2z = c.z - a.z;
    (
        fx_mul_spec(e1y, e2z) - fx_mul_spec(e1z, e2y),
        fx_mul_spec(e1z, e2x) - fx_mul_spec(e1x, e2z),
        fx_mul_spec(e1x, e2y) - fx_mul_spec(e1y, e2x),
    )
}

/// The accumulated normals after the first `k` triangles: each triangle's
/// face normal added, corner by corner in order, to the running sums.
pub open spec fn acc_normals(p: Seq<Vec3>, ts: Seq<(u32, u32, u32)>, k: nat) -> Seq<(int, int, int)>
    decreases k,
{
    if k == 0 {
        Seq::new(p.len(), |i: int| (0, 0, 0))
    } else {
        let prev = acc_normals(p, ts, (k - 1) as nat);
        let t = ts[k - 1];
        let f = face_normal(p, t);
        let s1 = prev.update(t.0 as int, add3(prev[t.0 as int], f));
        let s2 = s1.update(t.1 as int, add3(s1[t.1 as int], f));
        s2.update(t.2 as int, add3(s2[t.2 as int], f))
    }
}

/// One accumulated vector scaled to unit length, or straight up when it is
/// zero.
pub open spec fn normalize_normal(a: (int, int, int)) -> Vec3 {
    let m2 = a.0 * a.0 + a.1 * a.1 + a.2 * a.2;
    if m2 == 0 {
        Vec3 { x: 0, y: 0, z: 65536 }
    } else {
        let m = sqrt_floor(m2);
        Vec3 {
            x: scale_div_spec(a.0, m) as i64,
            y: scale_div_spec(a.1, m) as i64,
            z: scale_div_spec(a.2, m) as i64,
        }
    }
}

/// The per-vertex unit normals of the triangulated surface.
pub open spec fn spec_normals(p: Seq<Vec3>, ts: Seq<(u32, u32, u32)>) -> Seq<Vec3> {
    Seq::new(p.len(), |i: int| normalize_normal(acc_normals(p, ts, ts.len())[i]))
}

/// Each face-normal component is bounded under bounded coordinates.
pub proof fn lemma_face_normal_bound(p: Seq<Vec3>, t: (u32, u32, u32))
    requires
        (t.0 as int) < p.len(),
        (t.1 as int) < p.len(),
        (t.2 as int) < p.len(),
        forall|i: int| 0 <= i < p.len() ==> abs_i(#[trigger] p[i].x as int) <= COORD_LIMIT,
        forall|i: int| 0 <= i < p.len() ==> abs_i(#[trigger] p[i].y as int) <= COORD_LIMIT,
        forall|i: int| 0 <= i < p.len() ==> abs_i(#[trigger] p[i].z as int) <= COORD_LIMIT,
    ensures
        abs_i(face_normal(p, t).0) <= CROSS_LIMIT,
        abs_i(face_normal(p, t).1) <= CROSS_LIMIT,
        abs_i(face_normal(p, t).2) <= CROSS_LIMIT,
{
    let a = p[t.0 as int];
    let b = p[t.1 as int];
    let c = p[t.2 as int];
    lemma_fx_mul_bound(b.y - a.y, c.z - a.z, 0x200_0000, 0x200_0000);
    lemma_fx_mul_bound(b.z - a.z, c.y - a.y, 0x200_0000, 0x200_0000);
    lemma_fx_mul_bound(b.z - a.z, c.x - a.x, 0x200_0000, 0x200_0000);
    lemma_fx_mul_bound(b.x - a.x, c.z - a.z, 0x200_0000, 0x200_0000);
    lemma_fx_mul_bound(b.x - a.x, c.y - a.y, 0x200_0000, 0x200_0000);
    lemma_fx_mul_bound(b.y - a.y, c.x - a.x, 0x200_0000, 0x200_0000);
}

/// A magnitude below consecutive squares bounds the component.
pub proof fn lemma_abs_le_root(a: int, m2: int, m: int)
    requires
        a * a <= m2,
        m2 < (m + 1) * (m + 1),
        0 <= m,
    ensures
        abs_i(a) <= m,
{
    assert(abs_i(a) <= m) by (nonlinear_arith)
        requires
            a * a <= m2,
            m2 < (m + 1) * (m + 1),
            0 <= m,
    ;
}

/// The accumulator always has one entry per vertex.
pub proof fn lemma_acc_normals_len(p: Seq<Vec3>, ts: Seq<(u32, u32, u32)>, k: nat)
    requires
        k <= ts.len(),
        forall|i: int|
            0 <= i < ts.len() ==> ((#[trigger] ts[i]).0 as int) < p.len() && (ts[i].1 as int)
                < p.len() && (ts[i].2 as int) < p.len(),
    ensures
        acc_normals(p, ts, k).len() == p.len(),
    decreases k,
{
    if k > 0 {
        lemma_acc_normals_len(p, ts, (k - 1) as nat);
        let prev = acc_normals(p, ts, (k - 1) as nat);
        let t = ts[k - 1];
        let f = face_normal(p, t);
        let s1 = prev.update(t.0 as int, add3(prev[t.0 as int], f));
        let s2 = s1.update(t.1 as int, add3(s1[t.1 as int], f));
        assert(acc_normals(p, ts, k) == s2.update(t.2 as int, add3(s2[t.2 as int], f)));
    }
}

/// Adding one triangle's face normal to its three corners, corner by
/// corner, advances the accumulator from `k` to `k + 1` triangles.
#[verifier::rlimit(100)]
proof fn lemma_acc_update(
    p: Seq<Vec3>,
    ts: Seq<(u32, u32, u32)>,
    k: nat,
    g0: Seq<Vec3>,
    g1: Seq<Vec3>,
    g2: Seq<Vec3>,
    g3: Seq<Vec3>,
    fx_: i64,
    fy_: i64,
    fz_: i64,
    bound: int,
)
    requires
        k < ts.len(),
        g0.len() == p.len(),
        forall|i: int|
            0 <= i < ts.len() ==> ((#[trigger] ts[i]).0 as int) < p.len() && (ts[i].1 as int)
                < p.len() && (ts[i].2 as int) < p.len(),
        forall|j: int|
            0 <= j < p.len() ==> #[trigger] acc_normals(p, ts, k)[j] == tup(g0[j]),
        forall|j: int|
            0 <= j < p.len() ==> abs_i(#[trigger] g0[j].x as int) <= bound && abs_i(
                g0[j].y as int,
            ) <= bound && abs_i(g0[j].z as int) <= bound,
        0 <= bound,
        bound + 3 * (CROSS_LIMIT as int) <= 0x3000_0000_0000_0000,
        face_normal(p, ts[k as int]).0 == fx_ as int,
        face_normal(p, ts[k as int]).1 == fy_ as int,
        face_normal(p, ts[k as int]).2 == fz_ as int,
        abs_i(fx_ as int) <= CROSS_LIMIT,
        abs_i(fy_ as int) <= CROSS_LIMIT,
        abs_i(fz_ as int) <= CROSS_LIMIT,
        g1 == g0.update(
            ts[k as int].0 as int,
            (Vec3 {
                x: (g0[ts[k as int].0 as int].x + fx_) as i64,
                y: (g0[ts[k as int].0 as int].y + fy_) as i64,
                z: (g0[ts[k as int].0 as int].z + fz_) as i64,
            }),
        ),
        g2 == g1.update(
            ts[k as int].1 as int,
            (Vec3 {
                x: (g1[ts[k as int].1 as int].x + fx_) as i64,
                y: (g1[ts[k as int].1 as int].y + fy_) as i64,
                z: (g1[ts[k as int].1 as int].z + fz_) as i64,
            }),
        ),
        g3 == g2.update(
            ts[k as int].2 as int,
            (Vec3 {
                x: (g2[ts[k as int].2 as int].x + fx_) as i64,
                y: (g2[ts[k as int].2 as int].y + fy_) as i64,
                z: (g2[ts[k as int].2 as int].z + fz_) as i64,
            }),
        ),
    ensures
        forall|j: int|
            0 <= j < p.len() ==> #[trigger] acc_normals(p, ts, (k + 1) as nat)[j] == tup(g3[j]),
        forall|j: int|
            0 <= j < p.len() ==> abs_i(#[trigger] g3[j].x as int) <= bound + 3 * (CROSS_LIMIT as int)
                && abs_i(g3[j].y as int) <= bound + 3 * (CROSS_LIMIT as int) && abs_i(
                g3[j].z as int,
            ) <= bound + 3 * (CROSS_LIMIT as int),
{
    lemma_acc_normals_len(p, ts, k);
    lemma_acc_normals_len(p, ts, (k + 1) as nat);
    let tt = ts[k as int];
    let f = face_normal(p, tt);
    let prev = acc_normals(p, ts, k);
    let s1 = prev.update(tt.0 as int, add3(prev[tt.0 as int], f));
    let s2 = s1.update(tt.1 as int, add3(s1[tt.1 as int], f));
    let s3 = s2.update(tt.2 as int, add3(s2[tt.2 as int], f));
    assert(acc_normals(p, ts, (k + 1) as nat) == s3);
    assert(prev[tt.0 as int] == tup(g0[tt.0 as int]));
    assert forall|j: int| 0 <= j < p.len() implies #[trigger] s1[j] == tup(g1[j]) && abs_i(
        g1[j].x as int,
    ) <= bound + CROSS_LIMIT as int && abs_i(g1[j].y as int) <= bound + CROSS_LIMIT as int && abs_i(
        g1[j].z as int,
    ) <= bound + CROSS_LIMIT as int by {
        assert(prev[j] == tup(g0[j]));
        assert(abs_i(g0[j].x as int) <= bound);
        assert(abs_i(g0[j].y as int) <= bound);
        assert(abs_i(g0[j].z as int) <= bound);
    }
    assert(s1[tt.1 as int] == tup(g1[tt.1 as int]));
    assert forall|j: int| 0 <= j < p.len() implies #[trigger] s2[j] == tup(g2[j]) && abs_i(
        g2[j].x as int,
    ) <= bound + 2 * CROSS_LIMIT as int && abs_i(g2[j].y as int) <= bound + 2 * CROSS_LIMIT as int
        && abs_i(g2[j].z as int) <= bound + 2 * CROSS_LIMIT as int by {
        assert(s1[j] == tup(g1[j]));
        assert(abs_i(g1[j].x as int) <= bound + CROSS_LIMIT as int);
        assert(abs_i(g1[j].y as int) <= bound + CROSS_LIMIT as int);
        assert(abs_i(g1[j].z as int) <= bound + CROSS_LIMIT as int);
    }
    assert(s2[tt.2 as int] == tup(g2[tt.2 as int]));
    assert forall|j: int|
        0 <= j < p.len() implies #[trigger] acc_normals(p, ts, (k + 1) as nat)[j] == tup(g3[j])
        && abs_i(g3[j].x as int) <= bound + 3 * (CROSS_LIMIT as int) && abs_i(g3[j].y as int)
        <= bound + 3 * (CROSS_LIMIT as int) && abs_i(g3[j].z as int) <= bound + 3 * (
    CROSS_LIMIT as int) by {
        assert(s2[j] == tup(g2[j]));
        assert(abs_i(g2[j].x as int) <= bound + 2 * CROSS_LIMIT as int);
        assert(abs_i(g2[j].y as int) <= bound + 2 * CROSS_LIMIT as int);
        assert(abs_i(g2[j].z as int) <= bound + 2 * CROSS_LIMIT as int);
    }
    assert forall|j: int|
        0 <= j < p.len() implies abs_i(#[trigger] g3[j].x as int) <= bound + 3 * (CROSS_LIMIT as int)
        && abs_i(g3[j].y as int) <= bound + 3 * (CROSS_LIMIT as int) && abs_i(g3[j].z as int)
        <= bound + 3 * (CROSS_LIMIT as int) by {
        assert(acc_normals(p, ts, (k + 1) as nat)[j] == tup(g3[j]) && abs_i(g3[j].x as int) <= bound
            + 3 * (CROSS_LIMIT as int) && abs_i(g3[j].y as int) <= bound + 3 * (CROSS_LIMIT as int)
            && abs_i(g3[j].z as int) <= bound + 3 * (CROSS_LIMIT as int));
    }
}

/// The squared magnitude of the integer triple held by a vector.
pub open spec fn norm_sq(v: Vec3) -> int {
    (v.x as int) * (v.x as int) + (v.y as int) * (v.y as int) + (v.z as int) * (v.z as int)
}

/// Every normalized normal is unit length within fixed-point granularity:
/// whenever the accumulated vector has magnitude at least `1.0`, the
/// squared magnitude of [`normalize_normal`] deviates from `1.0` by less
/// than seven parts in `2^16`.
pub proof fn lemma_unit_normal_magnitude(a: (int, int, int))
    requires
        a.0 * a.0 + a.1 * a.1 + a.2 * a.2 >= 65536 * 65536,
    ensures
        65536 * 65536 - 6 * 65536 - 3 <= norm_sq(normalize_normal(a)) <= 65536 * 65536 + 2 * 65536,
{
    let s2 = a.0 * a.0 + a.1 * a.1 + a.2 * a.2;
    assert(a.0 * a.0 >= 0) by (nonlinear_arith);
    assert(a.1 * a.1 >= 0) by (nonlinear_arith);
    assert(a.2 * a.2 >= 0) by (nonlinear_arith);
    let m = sqrt_floor(s2);
    lemma_sqrt_floor(s2);
    assert(m >= 65536) by {
        if m < 65536 {
            vstd::arithmetic::mul::lemma_mul_inequality(m + 1, 65536, m + 1);
            assert((m + 1) * (m + 1) <= 65536 * (m + 1)) by (nonlinear_arith)
                requires
                    0 <= m + 1 <= 65536,
            ;
            assert(65536 * (m + 1) <= 65536 * 65536) by (nonlinear_arith)
                requires
                    m + 1 <= 65536,
            ;
            assert(false);
        }
    }
    lemma_abs_le_root(a.0, s2, m);
    lemma_abs_le_root(a.1, s2, m);
    lemma_abs_le_root(a.2, s2, m);
    let f0 = lemma_component_bracket(a.0, m);
    let f1 = lemma_component_bracket(a.1, m);
    let f2 = lemma_component_bracket(a.2, m);
    let ff = f0 * f0 + f1 * f1 + f2 * f2;
    assert(abs_i(a.0) * abs_i(a.0) == a.0 * a.0) by (nonlinear_arith);
    assert(abs_i(a.1) * abs_i(a.1) == a.1 * a.1) by (nonlinear_arith);
    assert(abs_i(a.2) * abs_i(a.2) == a.2 * a.2) by (nonlinear_arith);
    // Upper bound: each f_i * m is at most |a_i| * 2^16; squaring and
    // summing bounds ff * m^2 by s2 * 2^32 < ((m+1) * 2^16)^2, and
    // m >= 2^16 turns that into (m * (2^16 + 1))^2.
    lemma_square_le(f0 * m, abs_i(a.0) * 65536);
    lemma_square_le(f1 * m, abs_i(a.1) * 65536);
    lemma_square_le(f2 * m, abs_i(a.2) * 65536);
    assert((f0 * m) * (f0 * m) == (f0 * f0) * (m * m)) by (nonlinear_arith);
    assert((f1 * m) * (f1 * m) == (f1 * f1) * (m * m)) by (nonlinear_arith);
    assert((f2 * m) * (f2 * m) == (f2 * f2) * (m * m)) by (nonlinear_arith);
    assert((abs_i(a.0) * 65536) * (abs_i(a.0) * 65536) == (a.0 * a.0) * (65536 * 65536)) by (nonlinear_arith)
        requires
            abs_i(a.0) * abs_i(a.0) == a.0 * a.0,
    ;
    assert((abs_i(a.1) * 65536) * (abs_i(a.1) * 65536) == (a.1 * a.1) * (65536 * 65536)) by (nonlinear_arith)
        requires
            abs_i(a.1) * abs_i(a.1) == a.1 * a.1,
    ;
    assert((abs_i(a.2) * 65536) * (abs_i(a.2) * 65536) == (a.2 * a.2) * (65536 * 65536)) by (nonlinear_arith)
        requires
            abs_i(a.2) * abs_i(a.2) == a.2 * a.2,
    ;
    assert(ff * (m * m) == (f0 * f0) * (m * m) + (f1 * f1) * (m * m) + (f2 * f2) * (m * m)) by (nonlinear_arith)
        requires
            ff == f0 * f0 + f1 * f1 + f2 * f2,
    ;
    assert(s2 * (65536 * 65536) == (a.0 * a.0) * (65536 * 65536) + (a.1 * a.1) * (65536 * 65536) + (
    a.2 * a.2) * (65536 * 65536)) by (nonlinear_arith)
        requires
            s2 == a.0 * a.0 + a.1 * a.1 + a.2 * a.2,
    ;
    assert(ff * (m * m) <= s2 * (65536 * 65536));
    assert(s2 * (65536 * 65536) < (m * m) * ((65536 + 1) * (65536 + 1))) by (nonlinear_arith)
        requires
            s2 < (m + 1) * (m + 1),
            m >= 65536,
            s2 >= 0,
    ;
    assert(ff <= 65536 * 65536 + 2 * 65536) by (nonlinear_arith)
        requires
            ff * (m * m) < (m * m) * ((65536 + 1) * (65536 + 1)),
            m >= 1,
            ff >= 0,
    ;
    // Lower bound: each (f_i + 1) * m exceeds |a_i| * 2^16; squaring and
    // summing pushes the shifted sum above s2 * 2^32 >= (m * 2^16)^2, and
    // the shift costs at most 2 * 2^16 + 1 per component.
    lemma_square_le(abs_i(a.0) * 65536, (f0 + 1) * m);
    lemma_square_le(abs_i(a.1) * 65536, (f1 + 1) * m);
    lemma_square_le(abs_i(a.2) * 65536, (f2 + 1) * m);
    assert(((f0 + 1) * m) * ((f0 + 1) * m) == ((f0 + 1) * (f0 + 1)) * (m * m)) by (nonlinear_arith);
    assert(((f1 + 1) * m) * ((f1 + 1) * m) == ((f1 + 1) * (f1 + 1)) * (m * m)) by (nonlinear_arith);
    assert(((f2 + 1) * m) * ((f2 + 1) * m) == ((f2 + 1) * (f2 + 1)) * (m * m)) by (nonlinear_arith);
    let gg = (f0 + 1) * (f0 + 1) + (f1 + 1) * (f1 + 1) + (f2 + 1) * (f2 + 1);
    assert(gg * (m * m) == ((f0 + 1) * (f0 + 1)) * (m * m) + ((f1 + 1) * (f1 + 1)) * (m * m) + ((f2
        + 1) * (f2 + 1)) * (m * m)) by (nonlinear_arith)
        requires
            gg == (f0 + 1) * (f0 + 1) + (f1 + 1) * (f1 + 1) + (f2 + 1) * (f2 + 1),
    ;
    assert(gg * (m * m) >= s2 * (65536 * 65536));
    assert(s2 * (65536 * 65536) >= (m * m) * (65536 * 65536)) by (nonlinear_arith)
        requires
            s2 >= m * m,
    ;
    assert(gg >= 65536 * 65536) by (nonlinear_arith)
        requires
            gg * (m * m) >= (m * m) * (65536 * 65536),
            m >= 1,
    ;
    assert((f0 + 1) * (f0 + 1) == f0 * f0 + 2 * f0 + 1) by (nonlinear_arith);
    assert((f1 + 1) * (f1 + 1) == f1 * f1 + 2 * f1 + 1) by (nonlinear_arith);
    assert((f2 + 1) * (f2 + 1) == f2 * f2 + 2 * f2 + 1) by (nonlinear_arith);
    assert(ff >= 65536 * 65536 - 6 * 65536 - 3);
    // The normalized components are the signed f_i, so the squared
    // magnitude is exactly ff.
    assert(s2 != 0);
    assert(scale_div_spec(a.0, m) * scale_div_spec(a.0, m) == f0 * f0) by (nonlinear_arith)
        requires
            scale_div_spec(a.0, m) == f0 || scale_div_spec(a.0, m) == -f0,
    ;
    assert(scale_div_spec(a.1, m) * scale_div_spec(a.1, m) == f1 * f1) by (nonlinear_arith)
        requires
            scale_div_spec(a.1, m) == f1 || scale_div_spec(a.1, m) == -f1,
    ;
    assert(scale_div_spec(a.2, m) * scale_div_spec(a.2, m) == f2 * f2) by (nonlinear_arith)
        requires
            scale_div_spec(a.2, m) == f2 || scale_div_spec(a.2, m) == -f2,
    ;
}

/// Squares preserve order on non-negative values.
proof fn lemma_square_le(x: int, y: int)
    requires
        0 <= x <= y,
    ensures
        x * x <= y * y,
{
    assert(x * x <= y * y) by (nonlinear_arith)
        requires
            0 <= x <= y,
    ;
}

/// Every vertex normal of the triangulated surface is unit length within
/// fixed-point granularity, provided its accumulated face normals do not
/// cancel below magnitude `1.0` (as happens only around degenerate
/// triangles).
pub proof fn lemma_vertex_normal_near_unit(p: Seq<Vec3>, ts: Seq<(u32, u32, u32)>, i: int)
    requires
        0 <= i < p.len(),
        ({
            let a = acc_normals(p, ts, ts.len())[i];
            a.0 * a.0 + a.1 * a.1 + a.2 * a.2 >= 65536 * 65536
        }),
    ensures
        65536 * 65536 - 6 * 65536 - 3 <= norm_sq(spec_normals(p, ts)[i]) <= 65536 * 65536 + 2
            * 65536,
{
    lemma_unit_normal_magnitude(acc_normals(p, ts, ts.len())[i]);
}

/// Brackets one normalized component: returns `f = |a| * 2^16 / m` with
/// `f * m <= |a| * 2^16 < (f + 1) * m`, `0 <= f <= 2^16`, and
/// `scale_div_spec(a, m)` equal to `f` up to sign.
proof fn lemma_component_bracket(a: int, m: int) -> (f: int)
    requires
        1 <= m,
        abs_i(a) <= m,
    ensures
        f == (abs_i(a) * 65536) / m,
        0 <= f <= 65536,
        0 <= f * m <= abs_i(a) * 65536,
        (f + 1) * m > abs_i(a) * 65536,
        scale_div_spec(a, m) == f || scale_div_spec(a, m) == -f,
{
    let w = abs_i(a) * 65536;
    assert(w >= 0) by (nonlinear_arith)
        requires
            w == abs_i(a) * 65536,
            abs_i(a) >= 0,
    ;
    let f = w / m;
    vstd::arithmetic::div_mod::lemma_fundamental_div_mod(w, m);
    vstd::arithmetic::div_mod::lemma_remainder_lower(w, m);
    vstd::arithmetic::div_mod::lemma_remainder_upper(w, m);
    assert(m * f <= w) by {
        assert(w == m * f + w % m);
    }
    assert(m * f == f * m) by (nonlinear_arith);
    assert((f + 1) * m == f * m + m) by (nonlinear_arith);
    vstd::arithmetic::div_mod::lemma_div_pos_is_pos(w, m);
    assert(f * m >= 0) by (nonlinear_arith)
        requires
            f >= 0,
            m >= 0,
    ;
    vstd::arithmetic::div_mod::lemma_div_pos_is_pos(w, m);
    vstd::arithmetic::mul::lemma_mul_inequality(abs_i(a), m, 65536);
    vstd::arithmetic::div_mod::lemma_div_is_ordered(w, m * 65536, m);
    vstd::arithmetic::div_mod::lemma_div_multiples_vanish(65536, m);
    assert(m * 65536 == 65536 * m) by (nonlinear_arith);
    assert(abs_i(a) * 65536 <= m * 65536) by (nonlinear_arith)
        requires
            abs_i(a) <= m,
    ;
    f
}

/// Sums the face normals of all triangles into per-vertex accumulators.
#[verifier::loop_isolation(false)]
#[verifier::rlimit(100)]
fn accumulate_normals(positions: &Vec<Vec3>, triangles: &Vec<(u32, u32, u32)>) -> (acc: Vec<Vec3>)
    requires
        triangles@.len() <= TRIANGLES_LIMIT,
        forall|i: int|
            0 <= i < triangles@.len() ==> ((#[trigger] triangles@[i]).0 as int) < positions@.len()
                && (triangles@[i].1 as int) < positions@.len() && (triangles@[i].2 as int)
                < positions@.len(),
        forall|i: int| 0 <= i < positions@.len() ==> abs_i(#[trigger] positions@[i].x as int) <= COORD_LIMIT,
        forall|i: int| 0 <= i < positions@.len() ==> abs_i(#[trigger] positions@[i].y as int) <= COORD_LIMIT,
        forall|i: int| 0 <= i < positions@.len() ==> abs_i(#[trigger] positions@[i].z as int) <= COORD_LIMIT,
    ensures
        acc@.len() == positions@.len(),
        forall|j: int|
            0 <= j < acc@.len() ==> #[trigger] acc_normals(positions@, triangles@, triangles@.len())[j]
                == ((acc@[j].x as int, acc@[j].y as int, acc@[j].z as int)),
        forall|j: int|
            0 <= j < acc@.len() ==> abs_i(#[trigger] acc@[j].x as int) <= 0x3000_0000_0000_0000
                && abs_i(acc@[j].y as int) <= 0x3000_0000_0000_0000 && abs_i(acc@[j].z as int)
                <= 0x3000_0000_0000_0000,
{
    let plen = positions.len();
    let tlen = triangles.len();
    let mut acc: Vec<Vec3> = Vec::new();
    let mut i: usize = 0;
    while i < plen
        invariant
            0 <= i <= plen,
            acc@.len() == i,
            forall|j: int| 0 <= j < i ==> (#[trigger] acc@[j]) == (Vec3 { x: 0, y: 0, z: 0 }),
        decreases plen - i,
    {
        acc.push(Vec3 { x: 0, y: 0, z: 0 });
        i = i + 1;
    }
    let mut k: usize = 0;
    while k < tlen
        invariant
            0 <= k <= tlen,
            acc@.len() == plen,
            forall|j: int|
                0 <= j < plen ==> #[trigger] acc_normals(positions@, triangles@, k as nat)[j] == ((
                    acc@[j].x as int,
                    acc@[j].y as int,
                    acc@[j].z as int,
                )),
            forall|j: int|
                0 <= j < plen ==> abs_i(#[trigger] acc@[j].x as int) <= k * (ACC_STEP as int)
                    && abs_i(acc@[j].y as int) <= k * (ACC_STEP as int) && abs_i(acc@[j].z as int)
                    <= k * (ACC_STEP as int),
        decreases tlen - k,
    {
        let t = triangles[k];
        let i0 = t.0 as usize;
        let i1 = t.1 as usize;
        let i2 = t.2 as usize;
        let pa = positions[i0];
        let pb = positions[i1];
        let pc = positions[i2];
        let e1x = pb.x - pa.x;
        let e1y = pb.y - pa.y;
        let e1z = pb.z - pa.z;
        let e2x = pc.x - pa.x;
        let e2y = pc.y - pa.y;
        let e2z = pc.z - pa.z;
        proof {
            lemma_face_normal_bound(positions@, triangles@[k as int]);
            assert((k + 1) * (ACC_STEP as int) == k * (ACC_STEP as int) + ACC_STEP as int)
                by (nonlinear_arith);
            assert(k * (ACC_STEP as int) <= 0x3000_0000_0000_0000 - ACC_STEP as int)
                by (nonlinear_arith)
                requires
                    0 <= k as int && (k as int) < TRIANGLES_LIMIT as int,
            ;
        }
        let fx_ = fx_mul(e1y, e2z) - fx_mul(e1z, e2y);
        let fy_ = fx_mul(e1z, e2x) - fx_mul(e1x, e2z);
        let fz_ = fx_mul(e1x, e2y) - fx_mul(e1y, e2x);
        let ghost g0 = acc@;
        let a0 = acc[i0];
        acc[i0] = Vec3 { x: a0.x + fx_, y: a0.y + fy_, z: a0.z + fz_ };
        let ghost g1 = acc@;
        let a1 = acc[i1];
        acc[i1] = Vec3 { x: a1.x + fx_, y: a1.y + fy_, z: a1.z + fz_ };
        let ghost g2 = acc@;
        let a2 = acc[i2];
        acc[i2] = Vec3 { x: a2.x + fx_, y: a2.y + fy_, z: a2.z + fz_ };
        proof {
            let tt = triangles@[k as int];
            let f = face_normal(positions@, tt);
            assert(f.0 == fx_ as int && f.1 == fy_ as int && f.2 == fz_ as int);
            lemma_acc_update(
                positions@,
                triangles@,
                k as nat,
                g0,
                g1,
                g2,
                acc@,
                fx_,
                fy_,
                fz_,
                k * (ACC_STEP as int),
            );

            assert forall|j: int|
                0 <= j < plen implies abs_i(#[trigger] acc@[j].x as int) <= (k + 1) * (ACC_STEP as int)
                && abs_i(acc@[j].y as int) <= (k + 1) * (ACC_STEP as int) && abs_i(acc@[j].z as int)
                <= (k + 1) * (ACC_STEP as int) by {
                assert(abs_i(acc@[j].x as int) <= k * (ACC_STEP as int) + 3 * (CROSS_LIMIT as int));
                assert(abs_i(acc@[j].y as int) <= k * (ACC_STEP as int) + 3 * (CROSS_LIMIT as int));
                assert(abs_i(acc@[j].z as int) <= k * (ACC_STEP as int) + 3 * (CROSS_LIMIT as int));
            }
        }
        let ghost kold = k as nat;
        k = k + 1;
        proof {
            assert(k as nat == kold + 1);
            assert forall|j: int|
                0 <= j < plen implies #[trigger] acc_normals(positions@, triangles@, k as nat)[j]
                == ((acc@[j].x as int, acc@[j].y as int, acc@[j].z as int)) by {
                assert(acc_normals(positions@, triangles@, (kold + 1) as nat)[j] == tup(acc@[j]));
            }
        }
    }
    proof {
        assert forall|j: int|
            0 <= j < plen implies abs_i(#[trigger] acc@[j].x as int) <= 0x3000_0000_0000_0000
            && abs_i(acc@[j].y as int) <= 0x3000_0000_0000_0000 && abs_i(acc@[j].z as int)
            <= 0x3000_0000_0000_0000 by {
            assert(tlen as int * (ACC_STEP as int) <= 0x3000_0000_0000_0000) by (nonlinear_arith)
                requires
                    0 <= tlen as int && (tlen as int) <= TRIANGLES_LIMIT as int,
            ;
        }
    }
    acc
}

/// Computes the area-weighted unit vertex normals of the surface given by
/// `positions` and `triangles`.
#[verifier::loop_isolation(false)]
#[verifier::rlimit(60)]
pub fn compute_normals(positions: &Vec<Vec3>, triangles: &Vec<(u32, u32, u32)>) -> (out: Vec<Vec3>)
    requires
        triangles@.len() <= TRIANGLES_LIMIT,
        forall|i: int|
            0 <= i < triangles@.len() ==> ((#[trigger] triangles@[i]).0 as int) < positions@.len()
                && (triangles@[i].1 as int) < positions@.len() && (triangles@[i].2 as int)
                < positions@.len(),
        forall|i: int| 0 <= i < positions@.len() ==> abs_i(#[trigger] positions@[i].x as int) <= COORD_LIMIT,
        forall|i: int| 0 <= i < positions@.len() ==> abs_i(#[trigger] positions@[i].y as int) <= COORD_LIMIT,
        forall|i: int| 0 <= i < positions@.len() ==> abs_i(#[trigger] positions@[i].z as int) <= COORD_LIMIT,
    ensures
        out@ == spec_normals(positions@, triangles@),
        out@.len() == positions@.len(),
        forall|i: int| 0 <= i < out@.len() ==> abs_i(#[trigger] out@[i].x as int) <= 65536,
        forall|i: int| 0 <= i < out@.len() ==> abs_i(#[trigger] out@[i].y as int) <= 65536,
        forall|i: int| 0 <= i < out@.len() ==> abs_i(#[trigger] out@[i].z as int) <= 65536,
{
    let plen = positions.len();
    let acc = accumulate_normals(positions, triangles);
    let mut out: Vec<Vec3> = Vec::new();
    let mut i: usize = 0;
    while i < plen
        invariant
            0 <= i <= plen,
            out@ == spec_normals(positions@, triangles@).take(i as int),
            forall|j: int| 0 <= j < i ==> abs_i(#[trigger] out@[j].x as int) <= 65536,
            forall|j: int| 0 <= j < i ==> abs_i(#[trigger] out@[j].y as int) <= 65536,
            forall|j: int| 0 <= j < i ==> abs_i(#[trigger] out@[j].z as int) <= 65536,
        decreases plen - i,
    {
        let a = acc[i];
        proof {
            assert(abs_i(acc@[i as int].x as int) <= 0x3000_0000_0000_0000);
            assert((a.x as int) * (a.x as int) <= 0x900_0000_0000_0000_0000_0000_0000_0000)
                by (nonlinear_arith)
                requires
                    abs_i(a.x as int) <= 0x3000_0000_0000_0000,
            ;
            assert((a.y as int) * (a.y as int) <= 0x900_0000_0000_0000_0000_0000_0000_0000)
                by (nonlinear_arith)
                requires
                    abs_i(a.y as int) <= 0x3000_0000_0000_0000,
            ;
            assert((a.z as int) * (a.z as int) <= 0x900_0000_0000_0000_0000_0000_0000_0000)
                by (nonlinear_arith)
                requires
                    abs_i(a.z as int) <= 0x3000_0000_0000_0000,
            ;
            assert((a.x as int) * (a.x as int) >= 0) by (nonlinear_arith);
            assert((a.y as int) * (a.y as int) >= 0) by (nonlinear_arith);
            assert((a.z as int) * (a.z as int) >= 0) by (nonlinear_arith);
        }
        let xx: i128 = (a.x as i128) * (a.x as i128);
        let yy: i128 = (a.y as i128) * (a.y as i128);
        let zz: i128 = (a.z as i128) * (a.z as i128);
        let m2: u128 = (xx + yy + zz) as u128;
        let p: Vec3 = if m2 == 0 {
            proof {
                assert((a.x as int) * (a.x as int) == 0 ==> a.x as int == 0) by (nonlinear_arith);
                assert((a.y as int) * (a.y as int) == 0 ==> a.y as int == 0) by (nonlinear_arith);
                assert((a.z as int) * (a.z as int) == 0 ==> a.z as int == 0) by (nonlinear_arith);
            }
            Vec3 { x: 0, y: 0, z: 65536 }
        } else {
            let m: u64 = isqrt(m2);
            proof {
                lemma_sqrt_floor(m2 as int);
                if m == 0 {
                    assert((m as int + 1) * (m as int + 1) == 1) by (nonlinear_arith)
                        requires
                            m as int == 0,
                    ;
                    assert(false);
                }
                assert(m >= 1);
                assert((m as int) * (m as int) <= m2 as int);
                assert((m as int) < 0x8000_0000_0000_0000) by (nonlinear_arith)
                    requires
                        (m as int) * (m as int) <= m2 as int,
                        (m2 as int) < 0x4000_0000_0000_0000_0000_0000_0000_0000,
                        0 <= m as int,
                ;
                lemma_abs_le_root(a.x as int, m2 as int, m as int);
                lemma_abs_le_root(a.y as int, m2 as int, m as int);
                lemma_abs_le_root(a.z as int, m2 as int, m as int);
            }
            Vec3 {
                x: scale_div(a.x, m as i64),
                y: scale_div(a.y, m as i64),
                z: scale_div(a.z, m as i64),
            }
        };
        out.push(p);
        proof {
            let sn = spec_normals(positions@, triangles@);
            assert(sn[i as int] == p);
            assert(sn.take(i as int + 1) =~= sn.take(i as int).push(sn[i as int]));
        }
        i = i + 1;
    }
    proof {
        assert(out@ =~= spec_normals(positions@, triangles@));
    }
    out
}

} // verus!

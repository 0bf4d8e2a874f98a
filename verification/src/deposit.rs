//! The deposition simulator: randomized directional slices perturb the
//! height channel, approximating dune and ridge formation.
//!
//! Per iteration the magnitude decays by the exact factor `99/100`, a pivot
//! point and a direction angle are drawn from the random source, and every
//! vertex moves by the falloff-weighted magnitude, up on the positive side
//! of the slice plane and down on the negative side.
//!
//! The slice distance is the square root of the signed projection `t` of
//! the vertex offset onto the direction.  For negative `t` that root is
//! undefined under real arithmetic; the policy here is to take the root of
//! `|t|` and carry the sign of `t` separately, so both sides of the plane
//! weather symmetrically.  When `t` is exactly zero the vertex does not
//! move.
//!
//! Angles are turn fractions: a draw `r` stands for the angle
//! `(r / 2^32) * 2pi`.  The sine is the rational approximation
//! `32v / (5 - 8v)` with `v = t(1 - 2t)` over a half turn `t`, exact at
//! `0`, quarter- and half-turn points, and the cosine is the sine a
//! quarter turn ahead.

use vstd::prelude::*;
use vstd::arithmetic::div_mod::{
    lemma_div_is_ordered, lemma_div_multiples_vanish, lemma_div_pos_is_pos,
};
use vstd::arithmetic::mul::lemma_mul_inequality;
use crate::fixed::{
    abs_i, fx_mul, fx_mul_spec, isqrt, lemma_fx_mul_bound, lemma_fx_mul_unit_bound, sqrt_floor,
    FX_FACTOR_MAX,
};
use crate::grid::DOMAIN_MAX;
use crate::rng::RandomSource;
use crate::vec3::Vec3;

verus! {

/// Largest accepted iteration count.
pub const ITERATIONS_MAX: usize = 0x10_0000;

/// Largest accepted deposition magnitude (`2^15` in real terms).
pub const MAGNITUDE_MAX: i64 = 0x8000_0000;

/// Largest height magnitude a pass accepts without risking overflow.
pub const PASS_Z_LIMIT: i64 = 0x10_0000_0000_0000;

/// The sine of `h / 2^32` turns, for `h` within a half turn: the rational
/// approximation `2^21 * a / (5 * 2^64 - 8 * a)` with `a = h * (2^32 - 2h)`.
pub open spec fn sin_half(h: int) -> int {
    let a = h * (0x1_0000_0000 - 2 * h);
    (0x20_0000 * a) / (0x5_0000_0000_0000_0000 - 8 * a)
}

/// The sine of `t / 2^32` turns, in fixed point.
pub open spec fn sin_turn(t: int) -> int {
    if t < 0x8000_0000 {
        sin_half(t)
    } else {
        -sin_half(t - 0x8000_0000)
    }
}

/// The cosine of `t / 2^32` turns: the sine a quarter turn ahead.
pub open spec fn cos_turn(t: int) -> int {
    sin_turn((t + 0x4000_0000) % 0x1_0000_0000)
}

/// The half-turn sine stays within `[0, 1]` in fixed point.
pub proof fn lemma_sin_half_bounds(h: int)
    requires
        0 <= h < 0x8000_0000,
    ensures
        0 <= sin_half(h) <= 65536,
        0 <= h * (0x1_0000_0000 - 2 * h) <= 0x2000_0000_0000_0000,
{
    let a = h * (0x1_0000_0000 - 2 * h);
    assert(0 <= a) by (nonlinear_arith)
        requires
            a == h * (0x1_0000_0000 - 2 * h),
            0 <= h < 0x8000_0000,
    ;
    assert(a <= 0x2000_0000_0000_0000) by (nonlinear_arith)
        requires
            a == h * (0x1_0000_0000 - 2 * h),
            0 <= h < 0x8000_0000,
    ;
    let num = 0x20_0000 * a;
    let den = 0x5_0000_0000_0000_0000 - 8 * a;
    assert(num <= 65536 * den);
    lemma_div_is_ordered(num, 65536 * den, den);
    lemma_div_multiples_vanish(65536, den);
    assert(den * 65536 == 65536 * den);
    lemma_div_pos_is_pos(num, den);
}

/// The full-turn sine stays within `[-1, 1]` in fixed point.
pub proof fn lemma_sin_turn_bounds(t: int)
    requires
        0 <= t < 0x1_0000_0000,
    ensures
        -65536 <= sin_turn(t) <= 65536,
{
    if t < 0x8000_0000 {
        lemma_sin_half_bounds(t);
    } else {
        lemma_sin_half_bounds(t - 0x8000_0000);
    }
}

/// Computes the fixed-point sine of `h / 2^32` turns, `h` in a half turn.
pub fn sin_half_fx(h: u32) -> (r: i64)
    requires
        h < 0x8000_0000,
    ensures
        r == sin_half(h as int),
        0 <= r <= 65536,
{
    proof {
        lemma_sin_half_bounds(h as int);
    }
    let hh: u128 = h as u128;
    let a: u128 = hh * (0x1_0000_0000 - 2 * hh);
    let num: u128 = 0x20_0000 * a;
    let den: u128 = 0x5_0000_0000_0000_0000 - 8 * a;
    let q: u128 = num / den;
    q as i64
}

/// Computes the fixed-point sine of `t / 2^32` turns.
pub fn sin_turn_fx(t: u32) -> (r: i64)
    ensures
        r == sin_turn(t as int),
        -65536 <= r <= 65536,
{
    if t < 0x8000_0000 {
        sin_half_fx(t)
    } else {
        let s = sin_half_fx(t - 0x8000_0000);
        -s
    }
}

/// Computes the fixed-point cosine of `t / 2^32` turns.
pub fn cos_turn_fx(t: u32) -> (r: i64)
    ensures
        r == cos_turn(t as int),
        -65536 <= r <= 65536,
{
    let t2: u32 = (((t as u64) + 0x4000_0000) % 0x1_0000_0000) as u32;
    proof {
        lemma_sin_turn_bounds(t2 as int);
    }
    sin_turn_fx(t2)
}

/// One decay step of the deposition magnitude: the exact factor `99/100`.
pub open spec fn decay(d: int) -> int {
    (d * 99) / 100
}

/// The magnitude after `k` decay steps.
pub open spec fn delta_at(d0: int, k: nat) -> int
    decreases k,
{
    if k == 0 {
        d0
    } else {
        decay(delta_at(d0, (k - 1) as nat))
    }
}

/// The decayed magnitude stays within `[0, d0]`.
pub proof fn lemma_delta_at_range(d0: int, k: nat)
    requires
        0 <= d0,
    ensures
        0 <= delta_at(d0, k) <= d0,
    decreases k,
{
    if k > 0 {
        lemma_delta_at_range(d0, (k - 1) as nat);
        let d = delta_at(d0, (k - 1) as nat);
        assert(d * 99 >= 0) by (nonlinear_arith)
            requires
                d >= 0,
        ;
        lemma_div_pos_is_pos(d * 99, 100);
        assert(d * 99 <= 100 * d) by (nonlinear_arith)
            requires
                d >= 0,
        ;
        lemma_div_is_ordered(d * 99, 100 * d, 100);
        lemma_div_multiples_vanish(d, 100);
    }
}

/// A pivot coordinate: the fraction `r / 2^32` of the domain, centered.
pub open spec fn pivot_coord(r: u32, s: int) -> int {
    ((r as int) * s) / 0x1_0000_0000 - s / 2
}

/// The pivot lies within the (closed) domain.
pub proof fn lemma_pivot_coord_range(r: u32, s: int)
    requires
        1 <= s,
    ensures
        -(s / 2) <= pivot_coord(r, s) <= s - s / 2,
{
    let p = (r as int) * s;
    assert(p >= 0) by (nonlinear_arith)
        requires
            p == (r as int) * s,
            s >= 0,
            r as int >= 0,
    ;
    lemma_div_pos_is_pos(p, 0x1_0000_0000);
    lemma_mul_inequality(r as int, 0x1_0000_0000, s);
    assert(p == s * (r as int) || p == (r as int) * s);
    assert((r as int) * s <= 0x1_0000_0000 * s) by (nonlinear_arith)
        requires
            0 <= r as int <= 0x1_0000_0000,
            s >= 0,
    ;
    lemma_div_is_ordered(p, 0x1_0000_0000 * s, 0x1_0000_0000);
    lemma_div_multiples_vanish(s, 0x1_0000_0000);
}

/// One vertex after one deposition slice: the height moves by the
/// falloff-weighted magnitude, following the sign of the projection `t`;
/// a vertex on the slice plane (`t == 0`) or beyond the influence radius
/// does not move.
pub open spec fn deposit_point(
    v: Vec3,
    px: int,
    py: int,
    dx: int,
    dy: int,
    delta: int,
    radius: int,
) -> Vec3 {
    let t = fx_mul_spec(dx, v.x - px) + fx_mul_spec(dy, v.y - py);
    if t == 0 {
        v
    } else {
        let r = sqrt_floor(abs_i(t) * 65536);
        if r >= radius {
            v
        } else {
            let u = (r * 65536) / radius;
            let w = 65536 - fx_mul_spec(u, u);
            let g = fx_mul_spec(w, w);
            let upd = fx_mul_spec(delta, g);
            if t > 0 {
                Vec3 { x: v.x, y: v.y, z: (v.z + upd) as i64 }
            } else {
                Vec3 { x: v.x, y: v.y, z: (v.z - upd) as i64 }
            }
        }
    }
}

/// One slice applied to the whole lattice.
pub open spec fn deposit_pass(
    s: Seq<Vec3>,
    px: int,
    py: int,
    dx: int,
    dy: int,
    delta: int,
    radius: int,
) -> Seq<Vec3> {
    Seq::new(s.len(), |i: int| deposit_point(s[i], px, py, dx, dy, delta, radius))
}

/// The lattice after `k` slices drawn from the fraction stream `vals`:
/// slice `j` uses `vals[3j]` and `vals[3j + 1]` for the pivot and
/// `vals[3j + 2]` for the direction angle, with magnitude
/// `delta_at(d0, j + 1)`.
pub open spec fn deposit_seq(
    s: Seq<Vec3>,
    vals: Seq<u32>,
    k: nat,
    box_s: int,
    d0: int,
    radius: int,
) -> Seq<Vec3>
    decreases k,
{
    if k == 0 {
        s
    } else {
        let prev = deposit_seq(s, vals, (k - 1) as nat, box_s, d0, radius);
        let px = pivot_coord(vals[3 * (k - 1)], box_s);
        let py = pivot_coord(vals[3 * (k - 1) + 1], box_s);
        let a = vals[3 * (k - 1) + 2] as int;
        deposit_pass(prev, px, py, cos_turn(a), sin_turn(a), delta_at(d0, k), radius)
    }
}

/// A slice leaves the planar coordinates alone and moves a height by at
/// most the magnitude.
pub proof fn lemma_deposit_point_props(
    v: Vec3,
    px: int,
    py: int,
    dx: int,
    dy: int,
    delta: int,
    radius: int,
)
    requires
        abs_i(dx) <= 65536,
        abs_i(dy) <= 65536,
        0 <= delta <= MAGNITUDE_MAX,
        1 <= radius,
        abs_i(v.z as int) <= PASS_Z_LIMIT,
    ensures
        deposit_point(v, px, py, dx, dy, delta, radius).x == v.x,
        deposit_point(v, px, py, dx, dy, delta, radius).y == v.y,
        v.z - delta <= (deposit_point(v, px, py, dx, dy, delta, radius).z as int) <= v.z + delta,
{
    let t = fx_mul_spec(dx, v.x - px) + fx_mul_spec(dy, v.y - py);
    if t != 0 {
        let ta = abs_i(t) * 65536;
        assert(ta >= 0);
        crate::fixed::lemma_sqrt_floor(ta);
        let r = sqrt_floor(ta);
        if r < radius {
            let u = (r * 65536) / radius;
            lemma_mul_inequality(r, radius, 65536);
            lemma_div_is_ordered(r * 65536, radius * 65536, radius);
            lemma_div_multiples_vanish(65536, radius);
            assert(radius * 65536 == 65536 * radius);
            assert(r * 65536 >= 0) by (nonlinear_arith)
                requires
                    r >= 0,
            ;
            lemma_div_pos_is_pos(r * 65536, radius);
            assert(0 <= u <= 65536);
            lemma_fx_mul_unit_bound(u, u);
            let w = 65536 - fx_mul_spec(u, u);
            assert(0 <= w <= 65536);
            lemma_fx_mul_unit_bound(w, w);
            let g = fx_mul_spec(w, w);
            assert(0 <= g <= 65536);
            lemma_fx_mul_unit_bound(delta, g);
            let upd = fx_mul_spec(delta, g);
            assert(0 <= upd <= delta);
        }
    }
}

/// A slice keeps every planar coordinate and grows the height bound by at
/// most the magnitude.
pub proof fn lemma_deposit_pass_props(
    s: Seq<Vec3>,
    px: int,
    py: int,
    dx: int,
    dy: int,
    delta: int,
    radius: int,
    zb: int,
)
    requires
        abs_i(dx) <= 65536,
        abs_i(dy) <= 65536,
        0 <= delta <= MAGNITUDE_MAX,
        1 <= radius,
        0 <= zb,
        zb + delta <= PASS_Z_LIMIT,
        forall|i: int| 0 <= i < s.len() ==> abs_i(#[trigger] s[i].z as int) <= zb,
    ensures
        deposit_pass(s, px, py, dx, dy, delta, radius).len() == s.len(),
        forall|i: int|
            0 <= i < s.len() ==> (#[trigger] deposit_pass(s, px, py, dx, dy, delta, radius)[i]).x
                == s[i].x,
        forall|i: int|
            0 <= i < s.len() ==> (#[trigger] deposit_pass(s, px, py, dx, dy, delta, radius)[i]).y
                == s[i].y,
        forall|i: int|
            0 <= i < s.len() ==> abs_i(
                (#[trigger] deposit_pass(s, px, py, dx, dy, delta, radius)[i]).z as int,
            ) <= zb + delta,
{
    assert forall|i: int| 0 <= i < s.len() implies (#[trigger] deposit_pass(
        s,
        px,
        py,
        dx,
        dy,
        delta,
        radius,
    )[i]).x == s[i].x && (deposit_pass(s, px, py, dx, dy, delta, radius)[i]).y == s[i].y && abs_i(
        deposit_pass(s, px, py, dx, dy, delta, radius)[i].z as int,
    ) <= zb + delta by {
        lemma_deposit_point_props(s[i], px, py, dx, dy, delta, radius);
    }
}

/// Deposition keeps the length and the planar coordinates: only heights
/// move.
pub proof fn lemma_deposit_seq_xy(
    s: Seq<Vec3>,
    vals: Seq<u32>,
    k: nat,
    box_s: int,
    d0: int,
    radius: int,
)
    ensures
        deposit_seq(s, vals, k, box_s, d0, radius).len() == s.len(),
        forall|i: int|
            0 <= i < s.len() ==> (#[trigger] deposit_seq(s, vals, k, box_s, d0, radius)[i].x)
                == s[i].x,
        forall|i: int|
            0 <= i < s.len() ==> (#[trigger] deposit_seq(s, vals, k, box_s, d0, radius)[i].y)
                == s[i].y,
    decreases k,
{
    if k > 0 {
        lemma_deposit_seq_xy(s, vals, (k - 1) as nat, box_s, d0, radius);
    }
}

/// The lattice after `k` slices depends only on the first `3k` fractions.
pub proof fn lemma_deposit_seq_prefix(
    s: Seq<Vec3>,
    v1: Seq<u32>,
    v2: Seq<u32>,
    k: nat,
    box_s: int,
    d0: int,
    radius: int,
)
    requires
        3 * k <= v1.len(),
        3 * k <= v2.len(),
        v1.take(3 * k as int) == v2.take(3 * k as int),
    ensures
        deposit_seq(s, v1, k, box_s, d0, radius) == deposit_seq(s, v2, k, box_s, d0, radius),
    decreases k,
{
    if k > 0 {
        let m = 3 * ((k - 1) as nat) as int;
        assert(v1.take(m) =~= v2.take(m)) by {
            assert forall|j: int| 0 <= j < m implies v1.take(m)[j] == v2.take(m)[j] by {
                assert(v1.take(3 * k as int)[j] == v1[j]);
                assert(v2.take(3 * k as int)[j] == v2[j]);
            }
        }
        lemma_deposit_seq_prefix(s, v1, v2, (k - 1) as nat, box_s, d0, radius);
        let kk = 3 * k as int;
        assert(v1.take(kk)[kk - 3] == v1[kk - 3]);
        assert(v1.take(kk)[kk - 2] == v1[kk - 2]);
        assert(v1.take(kk)[kk - 1] == v1[kk - 1]);
        assert(v2.take(kk)[kk - 3] == v2[kk - 3]);
        assert(v2.take(kk)[kk - 2] == v2[kk - 2]);
        assert(v2.take(kk)[kk - 1] == v2[kk - 1]);
        assert(v1[3 * (k - 1)] == v2[3 * (k - 1)]);
        assert(v1[3 * (k - 1) + 1] == v2[3 * (k - 1) + 1]);
        assert(v1[3 * (k - 1) + 2] == v2[3 * (k - 1) + 2]);
    }
}

/// Applies `iterations` deposition slices, drawing three fractions per
/// slice from the random source.
#[verifier::loop_isolation(false)]
pub fn deposit<R: RandomSource>(
    v: &mut Vec<Vec3>,
    rng: &mut R,
    iterations: usize,
    box_size: i64,
    magnitude: i64,
    radius: i64,
)
    requires
        1 <= box_size <= DOMAIN_MAX,
        1 <= radius <= DOMAIN_MAX,
        0 <= magnitude <= MAGNITUDE_MAX,
        iterations <= ITERATIONS_MAX,
        forall|i: int| 0 <= i < old(v)@.len() ==> abs_i(#[trigger] old(v)@[i].x as int) <= DOMAIN_MAX,
        forall|i: int| 0 <= i < old(v)@.len() ==> abs_i(#[trigger] old(v)@[i].y as int) <= DOMAIN_MAX,
        forall|i: int| 0 <= i < old(v)@.len() ==> (#[trigger] old(v)@[i].z as int) == 0,
    ensures
        final(rng).taken().len() == old(rng).taken().len() + 3 * iterations,
        final(rng).taken().take(old(rng).taken().len() as int) == old(rng).taken(),
        final(v)@ == deposit_seq(
            old(v)@,
            final(rng).taken().skip(old(rng).taken().len() as int),
            iterations as nat,
            box_size as int,
            magnitude as int,
            radius as int,
        ),
{
    let ghost orig = v@;
    let ghost base = rng.taken();
    let mut delta: i64 = magnitude;
    let mut it: usize = 0;
    while it < iterations
        invariant
            0 <= it <= iterations,
            delta as int == delta_at(magnitude as int, it as nat),
            0 <= delta <= magnitude,
            rng.taken().len() == base.len() + 3 * it,
            rng.taken().take(base.len() as int) == base,
            v@ == deposit_seq(
                orig,
                rng.taken().skip(base.len() as int),
                it as nat,
                box_size as int,
                magnitude as int,
                radius as int,
            ),
            v@.len() == orig.len(),
            forall|i: int| 0 <= i < v@.len() ==> abs_i(#[trigger] v@[i].x as int) <= DOMAIN_MAX,
            forall|i: int| 0 <= i < v@.len() ==> abs_i(#[trigger] v@[i].y as int) <= DOMAIN_MAX,
            forall|i: int|
                0 <= i < v@.len() ==> abs_i(#[trigger] v@[i].z as int) <= it * (magnitude as int),
        decreases iterations - it,
    {
        proof {
            assert((it + 1) * (magnitude as int) == it * (magnitude as int) + magnitude as int)
                by (nonlinear_arith);
            assert((it + 1) * (magnitude as int) <= PASS_Z_LIMIT) by (nonlinear_arith)
                requires
                    0 <= it as int && (it as int) < ITERATIONS_MAX as int,
                    0 <= magnitude as int && (magnitude as int) <= MAGNITUDE_MAX as int,
            ;
        }
        delta = (((delta as u64) * 99) / 100) as i64;
        proof {
            lemma_delta_at_range(magnitude as int, (it + 1) as nat);
        }
        let ghost before = rng.taken();
        let r1 = rng.next_fraction();
        let r2 = rng.next_fraction();
        let r3 = rng.next_fraction();
        proof {
            assert((r1 as int) * (box_size as int) <= 0x200_0000_0000_0000) by (nonlinear_arith)
                requires
                    0 <= r1 as int && (r1 as int) <= 0x1_0000_0000,
                    0 <= box_size as int && (box_size as int) <= DOMAIN_MAX as int,
            ;
            assert((r2 as int) * (box_size as int) <= 0x200_0000_0000_0000) by (nonlinear_arith)
                requires
                    0 <= r2 as int && (r2 as int) <= 0x1_0000_0000,
                    0 <= box_size as int && (box_size as int) <= DOMAIN_MAX as int,
            ;
            lemma_pivot_coord_range(r1, box_size as int);
            lemma_pivot_coord_range(r2, box_size as int);
        }
        let px: i64 = (((r1 as u64) * (box_size as u64)) / 0x1_0000_0000) as i64 - ((box_size as u64) / 2) as i64;
        let py: i64 = (((r2 as u64) * (box_size as u64)) / 0x1_0000_0000) as i64 - ((box_size as u64) / 2) as i64;
        let dxv = cos_turn_fx(r3);
        let dyv = sin_turn_fx(r3);
        let out = deposit_pass_exec(v, px, py, dxv, dyv, delta, radius);
        proof {
            let ghost zb = it * (magnitude as int);
            lemma_deposit_pass_props(
                v@,
                px as int,
                py as int,
                dxv as int,
                dyv as int,
                delta as int,
                radius as int,
                zb,
            );
        }
        *v = out;
        proof {
            let taken_new = rng.taken();
            let d_old = before.skip(base.len() as int);
            let d_new = taken_new.skip(base.len() as int);
            assert(taken_new =~= before.push(r1).push(r2).push(r3));
            assert(d_new =~= d_old.push(r1).push(r2).push(r3));
            assert(taken_new.take(base.len() as int) =~= before.take(base.len() as int));
            assert(d_old.take(3 * (it as nat) as int) =~= d_new.take(3 * (it as nat) as int)) by {
                assert forall|j: int|
                    0 <= j < 3 * (it as nat) as int implies #[trigger] d_old.take(
                    3 * (it as nat) as int,
                )[j] == d_new.take(3 * (it as nat) as int)[j] by {
                    assert(d_new[j] == d_old[j]);
                }
            }
            lemma_deposit_seq_prefix(
                orig,
                d_old,
                d_new,
                it as nat,
                box_size as int,
                magnitude as int,
                radius as int,
            );
            assert(d_new[3 * (it as int)] == r1);
            assert(d_new[3 * (it as int) + 1] == r2);
            assert(d_new[3 * (it as int) + 2] == r3);
        }
        it = it + 1;
    }
}

/// One deposition slice over the whole lattice, against the pre-slice
/// state.
#[verifier::loop_isolation(false)]
fn deposit_pass_exec(
    v: &Vec<Vec3>,
    px: i64,
    py: i64,
    dx: i64,
    dy: i64,
    delta: i64,
    radius: i64,
) -> (out: Vec<Vec3>)
    requires
        -65536 <= dx <= 65536,
        -65536 <= dy <= 65536,
        1 <= radius <= DOMAIN_MAX,
        0 <= delta <= MAGNITUDE_MAX,
        -DOMAIN_MAX <= px <= DOMAIN_MAX,
        -DOMAIN_MAX <= py <= DOMAIN_MAX,
        forall|i: int| 0 <= i < v@.len() ==> abs_i(#[trigger] v@[i].x as int) <= DOMAIN_MAX,
        forall|i: int| 0 <= i < v@.len() ==> abs_i(#[trigger] v@[i].y as int) <= DOMAIN_MAX,
        forall|i: int| 0 <= i < v@.len() ==> abs_i(#[trigger] v@[i].z as int) <= PASS_Z_LIMIT,
    ensures
        out@ == deposit_pass(v@, px as int, py as int, dx as int, dy as int, delta as int, radius as int),
{
    let ghost sp = deposit_pass(
        v@,
        px as int,
        py as int,
        dx as int,
        dy as int,
        delta as int,
        radius as int,
    );
    let len = v.len();
    let mut out: Vec<Vec3> = Vec::new();
    let mut idx: usize = 0;
    while idx < len
        invariant
            0 <= idx <= len,
            out@ == sp.take(idx as int),
        decreases len - idx,
    {
        let p = v[idx];
        let ddx: i64 = p.x - px;
        let ddy: i64 = p.y - py;
        proof {
            lemma_fx_mul_bound(dx as int, ddx as int, 65536, 2 * DOMAIN_MAX as int);
            lemma_fx_mul_bound(dy as int, ddy as int, 65536, 2 * DOMAIN_MAX as int);
        }
        let t: i64 = fx_mul(dx, ddx) + fx_mul(dy, ddy);
        let newp: Vec3 = if t == 0 {
            p
        } else {
            let ta: i64 = if t >= 0 {
                t
            } else {
                -t
            };
            let rr: u64 = isqrt((ta as u128) * 65536);
            proof {
                crate::fixed::lemma_sqrt_floor((ta as int) * 65536);
            }
            if rr >= (radius as u64) {
                p
            } else {
                let u: u64 = (rr * 65536) / (radius as u64);
                proof {
                    let ri = rr as int;
                    lemma_mul_inequality(ri, radius as int, 65536);
                    lemma_div_is_ordered(ri * 65536, (radius as int) * 65536, radius as int);
                    lemma_div_multiples_vanish(65536, radius as int);
                    assert((radius as int) * 65536 == 65536 * (radius as int));
                    assert(ri * 65536 >= 0) by (nonlinear_arith)
                        requires
                            ri >= 0,
                    ;
                    lemma_div_pos_is_pos(ri * 65536, radius as int);
                    lemma_fx_mul_unit_bound(u as int, u as int);
                }
                let w: i64 = 65536 - fx_mul(u as i64, u as i64);
                proof {
                    lemma_fx_mul_unit_bound(w as int, w as int);
                }
                let g: i64 = fx_mul(w, w);
                proof {
                    lemma_fx_mul_unit_bound(delta as int, g as int);
                }
                let upd: i64 = fx_mul(delta, g);
                let z: i64 = if t > 0 {
                    p.z + upd
                } else {
                    p.z - upd
                };
                Vec3 { x: p.x, y: p.y, z }
            }
        };
        out.push(newp);
        proof {
            assert(sp[idx as int] == newp);
            assert(sp.take(idx as int + 1) =~= sp.take(idx as int).push(sp[idx as int]));
        }
        idx = idx + 1;
    }
    proof {
        assert(out@ =~= sp);
    }
    out
}

} // verus!

//! The mesh assembler and the pipeline entry point.
//!
//! The assembler packages positions, unit normals and planar texture
//! coordinates — `u = (x + s/2) / s`, `v = (s/2 - y) / s`, an affine map of
//! the centered domain onto the unit square — into tightly packed arrays,
//! three entries per vertex for positions and normals, two for texture
//! coordinates, and three indices per triangle.
//!
//! [`generate_terrain`] runs the whole pipeline: grid, deposition,
//! normalization into `[0, s/2]`, smoothing, triangulation, normals,
//! assembly.  Out-of-range configuration is rejected before any fraction is
//! drawn.

use vstd::prelude::*;
use vstd::arithmetic::div_mod::{
    lemma_div_is_ordered, lemma_div_multiples_vanish, lemma_div_pos_is_pos,
    lemma_fundamental_div_mod_converse_div, lemma_fundamental_div_mod_converse_mod,
};
use vstd::arithmetic::mul::lemma_mul_inequality;
use crate::deposit::{deposit, deposit_seq, ITERATIONS_MAX, MAGNITUDE_MAX};
use crate::grid::{build_grid, grid_seq, lemma_grid_seq_bounds, DOMAIN_MAX, RESOLUTION_MAX};
use crate::normalize::{lemma_normalize_seq_props, normalize_heights, normalize_seq};
use crate::normals::{compute_normals, spec_normals};
use crate::relax::{lemma_relax_seq_props, relax, relax_seq};
use crate::rng::RandomSource;
use crate::triangulate::{lemma_tri_at_in_range, spec_triangles, triangulate};
use crate::vec3::Vec3;
use crate::fixed::abs_i;

verus! {

/// The generated surface, ready for upload: a flattened index buffer and
/// three parallel per-vertex attribute arrays (three entries per position
/// and normal, two per texture coordinate), all in fixed point but the
/// indices.
pub struct Mesh {
    pub indices: Vec<u32>,
    pub positions: Vec<i64>,
    pub normals: Vec<i64>,
    pub texcoords: Vec<i64>,
}

/// A rejected configuration: each variant names the parameter that was out
/// of range.
#[derive(Clone, Copy, PartialEq, Eq, Structural, Debug)]
pub enum TerrainError {
    InvalidResolution,
    InvalidDomainSize,
    InvalidRadius,
}

/// A vertex sequence flattened to three entries per vertex.
pub open spec fn flatten3(s: Seq<Vec3>) -> Seq<i64> {
    Seq::new(
        3 * s.len(),
        |i: int|
            if i % 3 == 0 {
                s[i / 3].x
            } else if i % 3 == 1 {
                s[i / 3].y
            } else {
                s[i / 3].z
            },
    )
}

/// A triangle list flattened to three indices per triangle.
pub open spec fn flatten_tris(ts: Seq<(u32, u32, u32)>) -> Seq<u32> {
    Seq::new(
        3 * ts.len(),
        |i: int|
            if i % 3 == 0 {
                ts[i / 3].0
            } else if i % 3 == 1 {
                ts[i / 3].1
            } else {
                ts[i / 3].2
            },
    )
}

/// The `u` texture coordinate of a vertex at planar `x`.
pub open spec fn texcoord_u(x: int, s: int) -> int {
    ((x + s / 2) * 65536) / s
}

/// The `v` texture coordinate of a vertex at planar `y`.
pub open spec fn texcoord_v(y: int, s: int) -> int {
    ((s / 2 - y) * 65536) / s
}

/// The texture coordinates of all vertices, two entries per vertex.
pub open spec fn texcoords_of(ps: Seq<Vec3>, s: int) -> Seq<i64> {
    Seq::new(
        2 * ps.len(),
        |i: int|
            if i % 2 == 0 {
                texcoord_u(ps[i / 2].x as int, s) as i64
            } else {
                texcoord_v(ps[i / 2].y as int, s) as i64
            },
    )
}

/// The lattice after the full height pipeline: deposition over the flat
/// grid, normalization into `[0, s/2]`, then smoothing.
pub open spec fn terrain_lattice(
    n: int,
    s: int,
    k: nat,
    p: nat,
    radius: int,
    mag: int,
    drawn: Seq<u32>,
) -> Seq<Vec3> {
    relax_seq(
        normalize_seq(deposit_seq(grid_seq(n, s), drawn, k, s, mag, radius), s / 2),
        n,
        p,
    )
}

/// A fraction of the domain scaled into the unit interval stays within it.
pub proof fn lemma_unit_fraction_range(w: int, s: int)
    requires
        1 <= s,
        0 <= w <= s,
    ensures
        0 <= (w * 65536) / s <= 65536,
{
    assert(w * 65536 >= 0) by (nonlinear_arith)
        requires
            w >= 0,
    ;
    lemma_div_pos_is_pos(w * 65536, s);
    lemma_mul_inequality(w, s, 65536);
    lemma_div_is_ordered(w * 65536, s * 65536, s);
    lemma_div_multiples_vanish(65536, s);
    assert(s * 65536 == 65536 * s) by (nonlinear_arith);
}

/// Both texture coordinates of a vertex in the centered domain lie in the
/// unit interval.
pub proof fn lemma_texcoord_range(x: int, y: int, s: int)
    requires
        1 <= s,
        -(s / 2) <= x <= s / 2,
        -(s / 2) <= y <= s / 2,
    ensures
        0 <= texcoord_u(x, s) <= 65536,
        0 <= texcoord_v(y, s) <= 65536,
{
    assert(s / 2 + s / 2 <= s);
    lemma_unit_fraction_range(x + s / 2, s);
    lemma_unit_fraction_range(s / 2 - y, s);
}

/// The pipeline lattice has one point per cell, planar coordinates of the
/// flat grid, and heights in `[0, s/2]`.
pub proof fn lemma_terrain_lattice_props(
    n: int,
    s: int,
    k: nat,
    p: nat,
    radius: int,
    mag: int,
    drawn: Seq<u32>,
)
    requires
        1 <= n <= RESOLUTION_MAX as int,
        1 <= s <= DOMAIN_MAX as int,
    ensures
        terrain_lattice(n, s, k, p, radius, mag, drawn).len() == n * n,
        forall|i: int|
            0 <= i < n * n ==> -(s / 2) <= (#[trigger] terrain_lattice(n, s, k, p, radius, mag, drawn)[i].x as int) <= s / 2,
        forall|i: int|
            0 <= i < n * n ==> -(s / 2) <= (#[trigger] terrain_lattice(n, s, k, p, radius, mag, drawn)[i].y as int) <= s / 2,
        forall|i: int|
            0 <= i < n * n ==> 0 <= (#[trigger] terrain_lattice(n, s, k, p, radius, mag, drawn)[i].z as int) <= s / 2,
{
    let g = grid_seq(n, s);
    lemma_grid_seq_bounds(n, s);
    let d = deposit_seq(g, drawn, k, s, mag, radius);
    crate::deposit::lemma_deposit_seq_xy(g, drawn, k, s, mag, radius);
    assert(n * n >= 1) by (nonlinear_arith)
        requires
            n >= 1,
    ;
    let nz = normalize_seq(d, s / 2);
    lemma_normalize_seq_props(d, s / 2);
    assert forall|i: int| 0 <= i < n * n implies -(s / 2) <= (#[trigger] nz[i].x as int) <= s / 2
        && -(s / 2) <= (nz[i].y as int) <= s / 2 by {
        assert(nz[i].x == d[i].x);
        assert(d[i].x == g[i].x);
        assert(nz[i].y == d[i].y);
        assert(d[i].y == g[i].y);
    }
    lemma_relax_seq_props(nz, n, p, 0, s / 2);
    let lat = terrain_lattice(n, s, k, p, radius, mag, drawn);
    assert forall|i: int|
        0 <= i < n * n implies -(s / 2) <= (#[trigger] lat[i].x as int) <= s / 2 && -(s / 2) <= (
    lat[i].y as int) <= s / 2 && 0 <= (lat[i].z as int) <= s / 2 by {
        assert(lat[i].x == nz[i].x);
        assert(lat[i].y == nz[i].y);
    }
}

/// Flattens a vertex sequence to three entries per vertex.
#[verifier::loop_isolation(false)]
fn flatten_vertices(v: &Vec<Vec3>) -> (out: Vec<i64>)
    ensures
        out@ == flatten3(v@),
        out@.len() == 3 * v@.len(),
{
    let len = v.len();
    let mut out: Vec<i64> = Vec::new();
    let mut i: usize = 0;
    while i < len
        invariant
            0 <= i <= len,
            out@ == flatten3(v@).take(3 * i as int),
        decreases len - i,
    {
        let p = v[i];
        out.push(p.x);
        out.push(p.y);
        out.push(p.z);
        proof {
            let fl = flatten3(v@);
            let b = 3 * i as int;
            lemma_fundamental_div_mod_converse_div(b, 3, i as int, 0);
            lemma_fundamental_div_mod_converse_mod(b, 3, i as int, 0);
            lemma_fundamental_div_mod_converse_div(b + 1, 3, i as int, 1);
            lemma_fundamental_div_mod_converse_mod(b + 1, 3, i as int, 1);
            lemma_fundamental_div_mod_converse_div(b + 2, 3, i as int, 2);
            lemma_fundamental_div_mod_converse_mod(b + 2, 3, i as int, 2);
            assert(fl[b] == p.x);
            assert(fl[b + 1] == p.y);
            assert(fl[b + 2] == p.z);
            assert(fl.take(b + 3) =~= fl.take(b).push(p.x).push(p.y).push(p.z));
        }
        i = i + 1;
    }
    proof {
        assert(out@ =~= flatten3(v@));
    }
    out
}

/// Flattens a triangle list to three indices per triangle.
#[verifier::loop_isolation(false)]
fn flatten_triangles(ts: &Vec<(u32, u32, u32)>) -> (out: Vec<u32>)
    ensures
        out@ == flatten_tris(ts@),
        out@.len() == 3 * ts@.len(),
{
    let len = ts.len();
    let mut out: Vec<u32> = Vec::new();
    let mut i: usize = 0;
    while i < len
        invariant
            0 <= i <= len,
            out@ == flatten_tris(ts@).take(3 * i as int),
        decreases len - i,
    {
        let t = ts[i];
        out.push(t.0);
        out.push(t.1);
        out.push(t.2);
        proof {
            let fl = flatten_tris(ts@);
            let b = 3 * i as int;
            lemma_fundamental_div_mod_converse_div(b, 3, i as int, 0);
            lemma_fundamental_div_mod_converse_mod(b, 3, i as int, 0);
            lemma_fundamental_div_mod_converse_div(b + 1, 3, i as int, 1);
            lemma_fundamental_div_mod_converse_mod(b + 1, 3, i as int, 1);
            lemma_fundamental_div_mod_converse_div(b + 2, 3, i as int, 2);
            lemma_fundamental_div_mod_converse_mod(b + 2, 3, i as int, 2);
            assert(fl[b] == t.0);
            assert(fl[b + 1] == t.1);
            assert(fl[b + 2] == t.2);
            assert(fl.take(b + 3) =~= fl.take(b).push(t.0).push(t.1).push(t.2));
        }
        i = i + 1;
    }
    proof {
        assert(out@ =~= flatten_tris(ts@));
    }
    out
}

/// Computes the texture coordinates of all vertices, two entries per
/// vertex, each within `[0, 1]` in fixed point.
#[verifier::loop_isolation(false)]
pub fn compute_texcoords(v: &Vec<Vec3>, s: i64) -> (out: Vec<i64>)
    requires
        1 <= s <= DOMAIN_MAX,
        forall|i: int|
            0 <= i < v@.len() ==> -((s as int) / 2) <= (#[trigger] v@[i].x as int) <= (s as int) / 2,
        forall|i: int|
            0 <= i < v@.len() ==> -((s as int) / 2) <= (#[trigger] v@[i].y as int) <= (s as int) / 2,
    ensures
        out@ == texcoords_of(v@, s as int),
        out@.len() == 2 * v@.len(),
        forall|i: int| 0 <= i < out@.len() ==> 0 <= #[trigger] out@[i] <= 65536,
{
    let len = v.len();
    let half: i64 = ((s as u64) / 2) as i64;
    let mut out: Vec<i64> = Vec::new();
    let mut i: usize = 0;
    while i < len
        invariant
            0 <= i <= len,
            out@ == texcoords_of(v@, s as int).take(2 * i as int),
            forall|j: int| 0 <= j < out@.len() ==> 0 <= #[trigger] out@[j] <= 65536,
        decreases len - i,
    {
        let p = v[i];
        proof {
            lemma_texcoord_range(p.x as int, p.y as int, s as int);
            assert((s as int) / 2 + (s as int) / 2 <= s as int);
        }
        let u: i64 = ((((p.x + half) as u64) * 65536) / (s as u64)) as i64;
        let w: i64 = ((((half - p.y) as u64) * 65536) / (s as u64)) as i64;
        out.push(u);
        out.push(w);
        proof {
            let tc = texcoords_of(v@, s as int);
            let b = 2 * i as int;
            lemma_fundamental_div_mod_converse_div(b, 2, i as int, 0);
            lemma_fundamental_div_mod_converse_mod(b, 2, i as int, 0);
            lemma_fundamental_div_mod_converse_div(b + 1, 2, i as int, 1);
            lemma_fundamental_div_mod_converse_mod(b + 1, 2, i as int, 1);
            assert(tc[b] == u);
            assert(tc[b + 1] == w);
            assert(tc.take(b + 2) =~= tc.take(b).push(u).push(w));
        }
        i = i + 1;
    }
    proof {
        assert(out@ =~= texcoords_of(v@, s as int));
    }
    out
}

/// The assembled mesh is a function of the configuration and the drawn
/// fractions alone: runs over equal draws yield identical lattices,
/// normals, texture coordinates and indices.
pub proof fn lemma_terrain_deterministic(
    n: int,
    s: int,
    k: nat,
    p: nat,
    radius: int,
    mag: int,
    d1: Seq<u32>,
    d2: Seq<u32>,
)
    requires
        d1 == d2,
    ensures
        terrain_lattice(n, s, k, p, radius, mag, d1) == terrain_lattice(n, s, k, p, radius, mag, d2),
        flatten3(terrain_lattice(n, s, k, p, radius, mag, d1)) == flatten3(
            terrain_lattice(n, s, k, p, radius, mag, d2),
        ),
        texcoords_of(terrain_lattice(n, s, k, p, radius, mag, d1), s) == texcoords_of(
            terrain_lattice(n, s, k, p, radius, mag, d2),
            s,
        ),
        spec_normals(terrain_lattice(n, s, k, p, radius, mag, d1), spec_triangles(n))
            == spec_normals(terrain_lattice(n, s, k, p, radius, mag, d2), spec_triangles(n)),
{
}

/// With zero deposition iterations the height channel is uniformly zero:
/// deposition leaves the flat grid untouched, so the height range
/// collapses, the normalizer's collapsed-range policy pins every height to
/// zero, and smoothing preserves the constant channel.
pub proof fn lemma_zero_iterations_flat(
    n: int,
    s: int,
    p: nat,
    radius: int,
    mag: int,
    drawn: Seq<u32>,
)
    requires
        1 <= n <= RESOLUTION_MAX as int,
        1 <= s <= DOMAIN_MAX as int,
    ensures
        forall|i: int|
            0 <= i < n * n ==> (#[trigger] normalize_seq(
                deposit_seq(grid_seq(n, s), drawn, 0, s, mag, radius),
                s / 2,
            )[i].z as int) == 0,
        forall|i: int|
            0 <= i < n * n ==> (#[trigger] terrain_lattice(n, s, 0, p, radius, mag, drawn)[i].z as int) == 0,
{
    let g = grid_seq(n, s);
    lemma_grid_seq_bounds(n, s);
    assert(n * n >= 1) by (nonlinear_arith)
        requires
            n >= 1,
    ;
    assert(deposit_seq(g, drawn, 0, s, mag, radius) == g);
    crate::normalize::lemma_z_const(g, 0);
    let nz = normalize_seq(g, s / 2);
    assert forall|i: int| 0 <= i < n * n implies (#[trigger] nz[i].z as int) == 0 by {}
    lemma_relax_seq_props(nz, n, p, 0, 0);
    assert forall|i: int|
        0 <= i < n * n implies (#[trigger] terrain_lattice(n, s, 0, p, radius, mag, drawn)[i].z as int)
        == 0 by {
        assert(terrain_lattice(n, s, 0, p, radius, mag, drawn) == relax_seq(nz, n, p));
    }
}

/// Runs the whole pipeline: builds the flat lattice, deposits `iterations`
/// randomized slices, rescales the heights into `[0, domain_size / 2]`,
/// applies `smoothing_passes` relaxation passes, triangulates, derives the
/// unit normals and packages everything into a [`Mesh`].
///
/// A non-positive resolution, domain size or influence radius is rejected,
/// in that order, before any fraction is drawn.
#[verifier::loop_isolation(false)]
#[verifier::rlimit(60)]
pub fn generate_terrain<R: RandomSource>(
    resolution: usize,
    domain_size: i64,
    iterations: usize,
    smoothing_passes: usize,
    radius: i64,
    magnitude: i64,
    rng: &mut R,
) -> (out: Result<Mesh, TerrainError>)
    requires
        resolution <= RESOLUTION_MAX,
        domain_size <= DOMAIN_MAX,
        radius <= DOMAIN_MAX,
        0 <= magnitude <= MAGNITUDE_MAX,
        iterations <= ITERATIONS_MAX,
    ensures
        out is Ok <==> (resolution >= 1 && domain_size >= 1 && radius >= 1),
        out == Result::<Mesh, TerrainError>::Err(TerrainError::InvalidResolution) <==> resolution == 0,
        out == Result::<Mesh, TerrainError>::Err(TerrainError::InvalidDomainSize) <==> (resolution >= 1 && domain_size <= 0),
        out == Result::<Mesh, TerrainError>::Err(TerrainError::InvalidRadius) <==> (resolution >= 1 && domain_size >= 1 && radius <= 0),
        out is Err ==> final(rng).taken() == old(rng).taken(),
        out is Ok ==> final(rng).taken().len() == old(rng).taken().len() + 3 * iterations,
        out is Ok ==> final(rng).taken().take(old(rng).taken().len() as int) == old(rng).taken(),
        out is Ok ==> ({
            let m = out->Ok_0;
            let n = resolution as int;
            let lat = terrain_lattice(
                n,
                domain_size as int,
                iterations as nat,
                smoothing_passes as nat,
                radius as int,
                magnitude as int,
                final(rng).taken().skip(old(rng).taken().len() as int),
            );
            &&& m.indices@ == flatten_tris(spec_triangles(n))
            &&& m.positions@ == flatten3(lat)
            &&& m.normals@ == flatten3(spec_normals(lat, spec_triangles(n)))
            &&& m.texcoords@ == texcoords_of(lat, domain_size as int)
            &&& m.indices@.len() == 6 * ((n - 1) * (n - 1))
            &&& m.positions@.len() == 3 * (n * n)
            &&& m.normals@.len() == 3 * (n * n)
            &&& m.texcoords@.len() == 2 * (n * n)
            &&& forall|i: int| 0 <= i < m.texcoords@.len() ==> 0 <= #[trigger] m.texcoords@[i] <= 65536
        }),
{
    if resolution == 0 {
        return Err(TerrainError::InvalidResolution);
    }
    if domain_size <= 0 {
        return Err(TerrainError::InvalidDomainSize);
    }
    if radius <= 0 {
        return Err(TerrainError::InvalidRadius);
    }
    let n = resolution;
    let s = domain_size;
    let ghost base = rng.taken();
    let mut lattice = build_grid(n, s);
    proof {
        lemma_grid_seq_bounds(n as int, s as int);
        assert(n as int * n as int >= 1) by (nonlinear_arith)
            requires
                n as int >= 1,
        ;
        assert forall|i: int|
            0 <= i < lattice@.len() implies abs_i(#[trigger] lattice@[i].x as int) <= DOMAIN_MAX
            && abs_i(lattice@[i].y as int) <= DOMAIN_MAX && (lattice@[i].z as int) == 0 by {
            assert(-((s as int) / 2) <= (lattice@[i].x as int) <= (s as int) / 2);
            assert(-((s as int) / 2) <= (lattice@[i].y as int) <= (s as int) / 2);
        }
    }
    deposit(&mut lattice, rng, iterations, s, magnitude, radius);
    let ghost drawn = rng.taken().skip(base.len() as int);
    proof {
        crate::deposit::lemma_deposit_seq_xy(
            grid_seq(n as int, s as int),
            drawn,
            iterations as nat,
            s as int,
            magnitude as int,
            radius as int,
        );
        assert(lattice@.len() == n as int * n as int);
    }
    let half: i64 = ((s as u64) / 2) as i64;
    normalize_heights(&mut lattice, half);
    proof {
        lemma_terrain_lattice_props(
            n as int,
            s as int,
            iterations as nat,
            smoothing_passes as nat,
            radius as int,
            magnitude as int,
            drawn,
        );
        assert forall|i: int|
            0 <= i < lattice@.len() implies 0 <= (#[trigger] lattice@[i].z as int) <= crate::relax::HEIGHT_LIMIT by {}
    }
    relax(&mut lattice, n, smoothing_passes);
    proof {
        let lat = terrain_lattice(
            n as int,
            s as int,
            iterations as nat,
            smoothing_passes as nat,
            radius as int,
            magnitude as int,
            drawn,
        );
        assert(lattice@ == lat);
    }
    let triangles = triangulate(n);
    proof {
        assert(2 * (((n - 1) as int) * ((n - 1) as int)) <= crate::normals::TRIANGLES_LIMIT as int)
            by (nonlinear_arith)
            requires
                1 <= n as int && (n as int) <= RESOLUTION_MAX as int,
        ;
        assert forall|i: int|
            0 <= i < triangles@.len() implies ((#[trigger] triangles@[i]).0 as int) < lattice@.len()
            && (triangles@[i].1 as int) < lattice@.len() && (triangles@[i].2 as int)
            < lattice@.len() by {
            lemma_tri_at_in_range(i, n as int);
        }
        assert forall|i: int|
            0 <= i < lattice@.len() implies abs_i(#[trigger] lattice@[i].x as int)
            <= crate::normals::COORD_LIMIT && abs_i(lattice@[i].y as int)
            <= crate::normals::COORD_LIMIT && abs_i(lattice@[i].z as int)
            <= crate::normals::COORD_LIMIT by {}
    }
    let normals = compute_normals(&lattice, &triangles);
    let positions_flat = flatten_vertices(&lattice);
    let normals_flat = flatten_vertices(&normals);
    let texcoords = compute_texcoords(&lattice, s);
    let indices = flatten_triangles(&triangles);
    proof {
        assert(6 * (((n - 1) as int) * ((n - 1) as int)) == 3 * (2 * (((n - 1) as int) * ((n
            - 1) as int))));
        assert(3 * (n as int * n as int) == 3 * lattice@.len());
    }
    Ok(Mesh { indices, positions: positions_flat, normals: normals_flat, texcoords })
}

} // verus!

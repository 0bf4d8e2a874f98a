use terrain_mesh::deposit::deposit;
use terrain_mesh::fixed::FX_ONE;
use terrain_mesh::grid::build_grid;
use terrain_mesh::mesh::{generate_terrain, TerrainError};
use terrain_mesh::normalize::normalize_heights;
use terrain_mesh::relax::relax;
use terrain_mesh::rng::{Lcg, ScriptedSource};

#[test]
fn mesh_counts_match_resolution() {
    let mut rng = Lcg::new(1);
    let m = generate_terrain(8, 100 * FX_ONE, 4, 2, 10 * FX_ONE, 10 * FX_ONE, &mut rng).unwrap();
    assert_eq!(m.indices.len(), 6 * 7 * 7);
    assert_eq!(m.positions.len(), 3 * 64);
    assert_eq!(m.normals.len(), 3 * 64);
    assert_eq!(m.texcoords.len(), 2 * 64);
}

#[test]
fn flat_grid_scenario() {
    // Resolution 4 over a domain of 40, no deposition, no smoothing:
    // a flat lattice of 18 triangles, every normal straight up, every
    // height pinned to zero by the collapsed-range policy, and texture
    // coordinates forming a regular 4x4 grid over the unit square.
    let mut rng = Lcg::new(9);
    let m = generate_terrain(4, 40 * FX_ONE, 0, 0, 4 * FX_ONE, 4 * FX_ONE, &mut rng).unwrap();
    assert_eq!(m.indices.len(), 18 * 3);
    for v in 0..16 {
        assert_eq!(m.normals[3 * v], 0);
        assert_eq!(m.normals[3 * v + 1], 0);
        assert_eq!(m.normals[3 * v + 2], FX_ONE);
        assert_eq!(m.positions[3 * v + 2], 0);
    }
    for i in 0..4i64 {
        for j in 0..4i64 {
            let v = (i * 4 + j) as usize;
            assert_eq!(m.texcoords[2 * v], i * 16384);
            assert_eq!(m.texcoords[2 * v + 1], FX_ONE - j * 16384);
        }
    }
}

#[test]
fn texcoords_stay_in_unit_square() {
    let mut rng = Lcg::new(11);
    let m = generate_terrain(12, 300 * FX_ONE, 20, 3, 30 * FX_ONE, 30 * FX_ONE, &mut rng).unwrap();
    for &t in m.texcoords.iter() {
        assert!(0 <= t && t <= FX_ONE);
    }
}

#[test]
fn zero_iterations_flat_heights() {
    let mut rng = Lcg::new(5);
    let m = generate_terrain(6, 90 * FX_ONE, 0, 3, 9 * FX_ONE, 9 * FX_ONE, &mut rng).unwrap();
    for v in 0..36 {
        assert_eq!(m.positions[3 * v + 2], 0);
    }
}

#[test]
fn same_seed_bit_identical_meshes() {
    let mut rng1 = Lcg::new(20260101);
    let mut rng2 = Lcg::new(20260101);
    let a = generate_terrain(10, 500 * FX_ONE, 30, 5, 50 * FX_ONE, 50 * FX_ONE, &mut rng1).unwrap();
    let b = generate_terrain(10, 500 * FX_ONE, 30, 5, 50 * FX_ONE, 50 * FX_ONE, &mut rng2).unwrap();
    assert_eq!(a.indices, b.indices);
    assert_eq!(a.positions, b.positions);
    assert_eq!(a.normals, b.normals);
    assert_eq!(a.texcoords, b.texcoords);
}

#[test]
fn normal_magnitudes_near_unit() {
    let mut rng = Lcg::new(7);
    let m = generate_terrain(16, 200 * FX_ONE, 10, 2, 20 * FX_ONE, 20 * FX_ONE, &mut rng).unwrap();
    for v in 0..256 {
        let x = m.normals[3 * v] as f64 / 65536.0;
        let y = m.normals[3 * v + 1] as f64 / 65536.0;
        let z = m.normals[3 * v + 2] as f64 / 65536.0;
        let mag = (x * x + y * y + z * z).sqrt();
        assert!((mag - 1.0).abs() < 1e-3, "vertex {v}: magnitude {mag}");
    }
}

#[test]
fn smoothing_variance_never_grows() {
    let n = 12usize;
    let mut v = build_grid(n, 120 * FX_ONE);
    let mut rng = Lcg::new(3);
    deposit(&mut v, &mut rng, 15, 120 * FX_ONE, 12 * FX_ONE, 12 * FX_ONE);
    normalize_heights(&mut v, 60 * FX_ONE);
    let variance = |v: &Vec<terrain_mesh::vec3::Vec3>| -> f64 {
        let zs: Vec<f64> = v.iter().map(|p| p.z as f64).collect();
        let mean = zs.iter().sum::<f64>() / zs.len() as f64;
        zs.iter().map(|z| (z - mean) * (z - mean)).sum::<f64>() / zs.len() as f64
    };
    let mut prev = variance(&v);
    for _ in 0..6 {
        relax(&mut v, n, 1);
        let cur = variance(&v);
        assert!(cur <= prev + 1e-6, "variance grew: {prev} -> {cur}");
        prev = cur;
    }
}

#[test]
fn rejects_zero_resolution() {
    let mut rng = Lcg::new(1);
    let r = generate_terrain(0, 100 * FX_ONE, 1, 1, 10 * FX_ONE, 10 * FX_ONE, &mut rng);
    assert!(matches!(r, Err(TerrainError::InvalidResolution)));
}

#[test]
fn rejects_non_positive_domain() {
    let mut rng = Lcg::new(1);
    let r = generate_terrain(4, 0, 1, 1, 10 * FX_ONE, 10 * FX_ONE, &mut rng);
    assert!(matches!(r, Err(TerrainError::InvalidDomainSize)));
    let r2 = generate_terrain(4, -5 * FX_ONE, 1, 1, 10 * FX_ONE, 10 * FX_ONE, &mut rng);
    assert!(matches!(r2, Err(TerrainError::InvalidDomainSize)));
}

#[test]
fn rejects_non_positive_radius() {
    let mut rng = Lcg::new(1);
    let r = generate_terrain(4, 100 * FX_ONE, 1, 1, 0, 10 * FX_ONE, &mut rng);
    assert!(matches!(r, Err(TerrainError::InvalidRadius)));
    let r2 = generate_terrain(4, 100 * FX_ONE, 1, 1, -FX_ONE, 10 * FX_ONE, &mut rng);
    assert!(matches!(r2, Err(TerrainError::InvalidRadius)));
}

#[test]
fn scripted_run_is_reproducible() {
    let script = vec![0x1234_5678u32, 0x9abc_def0, 0x0fed_cba9, 0x1111_1111];
    let mut r1 = ScriptedSource::new(script.clone());
    let mut r2 = ScriptedSource::new(script);
    let a = generate_terrain(6, 60 * FX_ONE, 8, 1, 6 * FX_ONE, 6 * FX_ONE, &mut r1).unwrap();
    let b = generate_terrain(6, 60 * FX_ONE, 8, 1, 6 * FX_ONE, 6 * FX_ONE, &mut r2).unwrap();
    assert_eq!(a.positions, b.positions);
    assert_eq!(a.normals, b.normals);
}

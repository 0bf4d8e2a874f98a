use terrain_mesh::deposit::deposit;
use terrain_mesh::fixed::FX_ONE;
use terrain_mesh::grid::build_grid;
use terrain_mesh::normalize::normalize_heights;
use terrain_mesh::normals::compute_normals;
use terrain_mesh::relax::relax;
use terrain_mesh::rng::ScriptedSource;
use terrain_mesh::triangulate::triangulate;
use terrain_mesh::vec3::Vec3;

#[test]
fn grid_two_by_two() {
    let v = build_grid(2, 40 * FX_ONE);
    assert_eq!(v.len(), 4);
    let step = 20 * FX_ONE;
    let half = 20 * FX_ONE;
    for i in 0..2i64 {
        for j in 0..2i64 {
            let p = v[(i * 2 + j) as usize];
            assert_eq!(p.x, step * i - half);
            assert_eq!(p.y, step * j - half);
            assert_eq!(p.z, 0);
        }
    }
}

#[test]
fn triangulate_two_by_two() {
    let t = triangulate(2);
    assert_eq!(t, vec![(0, 2, 1), (1, 2, 3)]);
    assert_eq!(triangulate(1).len(), 0);
    assert_eq!(triangulate(4).len(), 18);
}

#[test]
fn normalize_rescales_exactly() {
    let mut v = vec![
        Vec3 { x: 0, y: 0, z: 0 },
        Vec3 { x: 1, y: 2, z: 10 },
        Vec3 { x: 3, y: 4, z: 20 },
    ];
    normalize_heights(&mut v, 100);
    assert_eq!(v[0].z, 0);
    assert_eq!(v[1].z, 50);
    assert_eq!(v[2].z, 100);
    // x and y are untouched.
    assert_eq!(v[1].x, 1);
    assert_eq!(v[2].y, 4);
}

#[test]
fn normalize_collapsed_range_pins_zero() {
    let mut v = vec![
        Vec3 { x: 0, y: 0, z: 7 },
        Vec3 { x: 1, y: 1, z: 7 },
    ];
    normalize_heights(&mut v, 100);
    assert_eq!(v[0].z, 0);
    assert_eq!(v[1].z, 0);
}

#[test]
fn relax_one_pass_exact() {
    let mut v = vec![
        Vec3 { x: 0, y: 0, z: 0 },
        Vec3 { x: 0, y: 1, z: 0 },
        Vec3 { x: 1, y: 0, z: 0 },
        Vec3 { x: 1, y: 1, z: 100 },
    ];
    relax(&mut v, 2, 1);
    let zs: Vec<i64> = v.iter().map(|p| p.z).collect();
    assert_eq!(zs, vec![0, 12, 12, 75]);
}

#[test]
fn relax_keeps_range() {
    let mut v = build_grid(6, 60 * FX_ONE);
    for (i, p) in v.iter_mut().enumerate() {
        p.z = ((i as i64) * 7919) % (10 * FX_ONE);
    }
    let lo = v.iter().map(|p| p.z).min().unwrap();
    let hi = v.iter().map(|p| p.z).max().unwrap();
    relax(&mut v, 6, 5);
    for p in v.iter() {
        assert!(lo <= p.z && p.z <= hi);
    }
}

#[test]
fn normals_flat_right_triangle() {
    let positions = vec![
        Vec3 { x: 0, y: 0, z: 0 },
        Vec3 { x: FX_ONE, y: 0, z: 0 },
        Vec3 { x: 0, y: FX_ONE, z: 0 },
    ];
    let triangles = vec![(0u32, 1u32, 2u32)];
    let n = compute_normals(&positions, &triangles);
    for p in n.iter() {
        assert_eq!((p.x, p.y, p.z), (0, 0, FX_ONE));
    }
}

#[test]
fn normals_degenerate_falls_back_up() {
    let positions = vec![Vec3 { x: 5, y: 6, z: 7 }];
    let triangles = vec![(0u32, 0u32, 0u32)];
    let n = compute_normals(&positions, &triangles);
    assert_eq!((n[0].x, n[0].y, n[0].z), (0, 0, FX_ONE));
}

#[test]
fn normals_isolated_vertex_points_up() {
    let positions = vec![
        Vec3 { x: 0, y: 0, z: 0 },
        Vec3 { x: FX_ONE, y: 0, z: 0 },
    ];
    let triangles: Vec<(u32, u32, u32)> = vec![];
    let n = compute_normals(&positions, &triangles);
    assert_eq!(n.len(), 2);
    assert_eq!((n[0].x, n[0].y, n[0].z), (0, 0, FX_ONE));
    assert_eq!((n[1].x, n[1].y, n[1].z), (0, 0, FX_ONE));
}

#[test]
fn deposit_fixed_slice_splits_halfplane() {
    // Pivot at the origin, direction along +x: the sign of each height
    // follows the side of the y-z plane the vertex lies on.
    let mut v = build_grid(10, 500 * FX_ONE);
    let mut rng = ScriptedSource::new(vec![0x8000_0000, 0x8000_0000, 0]);
    deposit(&mut v, &mut rng, 1, 500 * FX_ONE, 50 * FX_ONE, 50 * FX_ONE);
    let mut pos: usize = 0;
    let mut neg: usize = 0;
    for p in v.iter() {
        if p.x > 0 {
            assert!(p.z > 0, "x = {}, z = {}", p.x, p.z);
            pos += 1;
        } else if p.x < 0 {
            assert!(p.z < 0, "x = {}, z = {}", p.x, p.z);
            neg += 1;
        } else {
            assert_eq!(p.z, 0);
        }
    }
    assert!(pos > 0 && neg > 0);
}

#[test]
fn deposit_zero_iterations_is_identity() {
    let mut v = build_grid(5, 50 * FX_ONE);
    let before = v.clone();
    let mut rng = ScriptedSource::new(vec![123, 456, 789]);
    deposit(&mut v, &mut rng, 0, 50 * FX_ONE, 5 * FX_ONE, 5 * FX_ONE);
    for (a, b) in v.iter().zip(before.iter()) {
        assert_eq!((a.x, a.y, a.z), (b.x, b.y, b.z));
    }
}

use worldgen::polyhedron::{
    check_closed_edges, check_distinct_positions, check_euler_formula, make_icosahedron,
    make_sphere, refine,
};
use worldgen::WorldError;

#[test]
fn base_icosahedron_counts() {
    let p = make_icosahedron();
    assert_eq!(p.vertices.len(), 12);
    assert_eq!(p.edges.len(), 30);
    assert_eq!(p.faces.len(), 20);
    assert!(check_euler_formula(&p));
    assert!(check_closed_edges(&p));
    assert!(check_distinct_positions(&p));
}

#[test]
fn sphere_counts_match_formulas() {
    for k in 0..4usize {
        let p = make_sphere(k).unwrap();
        let f = 20 * 4usize.pow(k as u32);
        let e = 30 * 4usize.pow(k as u32);
        let v = 10 * 4usize.pow(k as u32) + 2;
        assert_eq!(p.faces.len(), f, "face count at level {}", k);
        assert_eq!(p.edges.len(), e, "edge count at level {}", k);
        assert_eq!(p.vertices.len(), v, "vertex count at level {}", k);
        assert!(check_euler_formula(&p), "Euler formula at level {}", k);
        assert!(check_closed_edges(&p), "edge-face degree at level {}", k);
    }
}

#[test]
fn refine_deduplicates_positions() {
    let mut p = make_icosahedron();
    for _ in 0..3 {
        p = refine(&p).unwrap();
        assert!(check_distinct_positions(&p));
    }
}

#[test]
fn refine_twice_matches_level_two_sphere() {
    let base = make_icosahedron();
    let twice = refine(&refine(&base).unwrap()).unwrap();
    let direct = make_sphere(2).unwrap();
    assert_eq!(twice.vertices.len(), direct.vertices.len());
    assert_eq!(twice.edges.len(), direct.edges.len());
    assert_eq!(twice.faces.len(), direct.faces.len());
    for (a, b) in twice.vertices.iter().zip(direct.vertices.iter()) {
        assert_eq!(a.pos, b.pos);
        assert_eq!(a.edge_indices, b.edge_indices);
        assert_eq!(a.face_indices, b.face_indices);
    }
    for (a, b) in twice.edges.iter().zip(direct.edges.iter()) {
        assert_eq!(a.vertex_indices, b.vertex_indices);
        assert_eq!(a.face_indices, b.face_indices);
    }
    for (a, b) in twice.faces.iter().zip(direct.faces.iter()) {
        assert_eq!(a.vertex_indices, b.vertex_indices);
        assert_eq!(a.edge_indices, b.edge_indices);
    }
}

#[test]
fn absurd_detail_level_is_rejected() {
    assert_eq!(make_sphere(9).unwrap_err(), WorldError::ConfigurationError);
    assert_eq!(make_sphere(usize::MAX).unwrap_err(), WorldError::ConfigurationError);
}

#[test]
fn vertices_lie_near_the_unit_sphere() {
    let p = make_sphere(2).unwrap();
    for v in p.vertices.iter() {
        let n2 = v.pos.x as i128 * v.pos.x as i128 + v.pos.y as i128 * v.pos.y as i128
            + v.pos.z as i128 * v.pos.z as i128;
        let lo: i128 = 999_000 * 999_000;
        let hi: i128 = 1_001_000 * 1_001_000;
        assert!(n2 >= lo && n2 <= hi, "vertex radius off the unit sphere: {}", n2);
    }
}

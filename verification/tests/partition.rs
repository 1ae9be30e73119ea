use worldgen::plate_simulation::{random_partition, PlatePoint, PlateSimulation};
use worldgen::polyhedron::make_sphere;
use worldgen::rng::XorShiftRng;
use worldgen::vec3::Vec3;
use worldgen::WorldError;

fn sim_points(detail: usize) -> Vec<PlatePoint> {
    let poly = make_sphere(detail).unwrap();
    let mut verts = Vec::new();
    for (i, v) in poly.vertices.iter().enumerate() {
        let mut nbrs = Vec::new();
        for &e in v.edge_indices.iter() {
            let pair = poly.edges[e].vertex_indices;
            nbrs.push(if pair[0] == i { pair[1] } else { pair[0] });
        }
        verts.push(PlatePoint::new(&v.pos, nbrs));
    }
    verts
}

#[test]
fn partition_covers_every_vertex_exactly_once() {
    let verts = sim_points(1);
    let mut rng = XorShiftRng::from_seed([7, 11, 13, 17]);
    let plates = random_partition(&mut rng, &verts, 6).unwrap();
    assert_eq!(plates.len(), 6);
    let mut owner = vec![usize::MAX; verts.len()];
    for (p, plate) in plates.iter().enumerate() {
        for &v in plate.vertex_indices.iter() {
            assert!(v < verts.len());
            assert_eq!(owner[v], usize::MAX, "vertex {} claimed twice", v);
            owner[v] = p;
        }
    }
    for (v, &o) in owner.iter().enumerate() {
        assert_ne!(o, usize::MAX, "vertex {} unclaimed", v);
    }
}

#[test]
fn partition_is_deterministic_for_a_fixed_seed() {
    let verts = sim_points(1);
    let mut rng1 = XorShiftRng::from_seed([42, 43, 44, 45]);
    let mut rng2 = XorShiftRng::from_seed([42, 43, 44, 45]);
    let a = random_partition(&mut rng1, &verts, 5).unwrap();
    let b = random_partition(&mut rng2, &verts, 5).unwrap();
    assert_eq!(a.len(), b.len());
    for (pa, pb) in a.iter().zip(b.iter()) {
        assert_eq!(pa.vertex_indices, pb.vertex_indices);
        assert_eq!(pa.move_axis, pb.move_axis);
        assert_eq!(pa.move_speed, pb.move_speed);
        assert_eq!(pa.height, pb.height);
    }
}

#[test]
fn too_many_plates_is_a_configuration_error() {
    let poly = make_sphere(0).unwrap();
    let mut rng = XorShiftRng::from_seed([1, 2, 3, 4]);
    let r = PlateSimulation::new(&poly, 1000, &mut rng);
    assert_eq!(r.unwrap_err(), WorldError::ConfigurationError);
}

#[test]
fn zero_plates_is_a_configuration_error() {
    let poly = make_sphere(0).unwrap();
    let mut rng = XorShiftRng::from_seed([1, 2, 3, 4]);
    let r = PlateSimulation::new(&poly, 0, &mut rng);
    assert_eq!(r.unwrap_err(), WorldError::ConfigurationError);
}

#[test]
fn zero_plates_partition_is_rejected() {
    let verts = vec![PlatePoint::new(&Vec3 { x: 1_000_000, y: 0, z: 0 }, Vec::new())];
    let mut rng = XorShiftRng::from_seed([1, 2, 3, 4]);
    assert_eq!(
        random_partition(&mut rng, &verts, 0).unwrap_err(),
        WorldError::ConfigurationError
    );
    assert_eq!(
        random_partition(&mut rng, &verts, 2).unwrap_err(),
        WorldError::ConfigurationError
    );
}

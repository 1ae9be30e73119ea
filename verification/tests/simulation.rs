use worldgen::fixed::{sin_cos, HALF_PI_FIX, SCALE};
use worldgen::plate_simulation::PlateSimulation;
use worldgen::polyhedron::make_sphere;
use worldgen::rng::XorShiftRng;
use worldgen::vec3::Vec3;

fn norm2(v: &Vec3) -> i128 {
    v.x as i128 * v.x as i128 + v.y as i128 * v.y as i128 + v.z as i128 * v.z as i128
}

#[test]
fn sine_and_cosine_hit_the_cardinal_angles() {
    let (s0, c0) = sin_cos(0);
    assert_eq!(s0, 0);
    assert_eq!(c0, SCALE);
    let (s1, c1) = sin_cos(HALF_PI_FIX as i64);
    assert!((s1 - SCALE).abs() <= 100, "sin(pi/2) = {}", s1);
    assert!(c1.abs() <= 100, "cos(pi/2) = {}", c1);
    let (s2, c2) = sin_cos(-(HALF_PI_FIX as i64));
    assert!((s2 + SCALE).abs() <= 100);
    assert!(c2.abs() <= 100);
}

#[test]
fn rotation_preserves_distance_from_origin() {
    // A vertex on the unit sphere, rotated about the z axis by assorted
    // angles: the radius must stay within a 1e-4 relative tolerance.
    let axis = Vec3 { x: 0, y: 0, z: SCALE };
    let v = Vec3 { x: 525_731, y: 850_651, z: 0 };
    let before = norm2(&v);
    for angle in [1_000i64, 50_000, 314_159, 1_570_796, 3_141_592, -700_000] {
        let (s, c) = sin_cos(angle);
        let r = v.rotate(&axis, s, c);
        let after = norm2(&r);
        let drift = (after - before).abs();
        // Tolerance: |r^2 - v^2| <= 2 * |v| * (1e-4 * |v|), with |v| = 1e6.
        assert!(drift <= 400_000_000, "radius drift {} at angle {}", drift, angle);
    }
}

#[test]
fn rotation_about_an_axis_keeps_the_axis_fixed() {
    let axis = Vec3 { x: 0, y: 0, z: SCALE };
    let v = Vec3 { x: 0, y: 0, z: 777_777 };
    let (s, c) = sin_cos(123_456);
    let r = v.rotate(&axis, s, c);
    assert!((r.x).abs() <= 2 && (r.y).abs() <= 2);
    assert!((r.z - v.z).abs() <= 2);
}

#[test]
fn simulation_steps_run_and_damp_speeds() {
    let poly = make_sphere(1).unwrap();
    let mut rng = XorShiftRng::from_seed([9, 8, 7, 6]);
    let mut sim = PlateSimulation::new(&poly, 4, &mut rng).unwrap();
    let speeds_before: Vec<i64> = sim.verts.iter().map(|v| v.speed).collect();
    sim.simulate_plates(3).unwrap();
    assert_eq!(sim.verts.len(), poly.vertices.len());
    let changed = sim
        .verts
        .iter()
        .zip(speeds_before.iter())
        .any(|(v, &s)| v.speed != s);
    assert!(changed, "damping left every speed untouched");
    for v in sim.verts.iter() {
        assert!(v.speed.abs() <= 1_000_000_000);
        assert!(v.pos.x.abs() <= 4_000_000);
        assert!(v.pos.y.abs() <= 4_000_000);
        assert!(v.pos.z.abs() <= 4_000_000);
    }
}

#[test]
fn simulation_is_deterministic_for_a_fixed_seed() {
    let poly = make_sphere(1).unwrap();
    let mut rng1 = XorShiftRng::from_seed([5, 4, 3, 2]);
    let mut rng2 = XorShiftRng::from_seed([5, 4, 3, 2]);
    let mut sim1 = PlateSimulation::new(&poly, 5, &mut rng1).unwrap();
    let mut sim2 = PlateSimulation::new(&poly, 5, &mut rng2).unwrap();
    sim1.simulate_plates(4).unwrap();
    sim2.simulate_plates(4).unwrap();
    for (a, b) in sim1.verts.iter().zip(sim2.verts.iter()) {
        assert_eq!(a.pos, b.pos);
        assert_eq!(a.speed, b.speed);
    }
}

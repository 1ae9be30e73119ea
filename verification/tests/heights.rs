use worldgen::plate_simulation::PlateSimulation;
use worldgen::polyhedron::make_sphere;
use worldgen::rng::XorShiftRng;
use worldgen::world::World;

#[test]
fn heights_stay_inside_the_elevation_band() {
    let sim_poly = make_sphere(1).unwrap();
    let mut rng = XorShiftRng::from_seed([3, 1, 4, 1]);
    let mut sim = PlateSimulation::new(&sim_poly, 5, &mut rng).unwrap();
    sim.simulate_plates(2).unwrap();
    let render_poly = make_sphere(2).unwrap();
    let mut world = World::new(render_poly);
    world.apply_heights(&sim).unwrap();
    for v in world.get_poly().vertices.iter() {
        assert!(v.pos.x.abs() <= 4_000_000);
        assert!(v.pos.y.abs() <= 4_000_000);
        assert!(v.pos.z.abs() <= 4_000_000);
        let n2 = v.pos.x as i128 * v.pos.x as i128 + v.pos.y as i128 * v.pos.y as i128
            + v.pos.z as i128 * v.pos.z as i128;
        // The scale factor lies in [0, 2]: the radius never exceeds twice
        // the unit radius (plus rounding).
        assert!(n2 <= 4_100_000_000_000i128 * 1_000, "radius diverged: {}", n2);
    }
}

#[test]
fn heights_actually_move_vertices() {
    let sim_poly = make_sphere(1).unwrap();
    let mut rng = XorShiftRng::from_seed([2, 7, 1, 8]);
    let mut sim = PlateSimulation::new(&sim_poly, 4, &mut rng).unwrap();
    sim.simulate_plates(3).unwrap();
    let render_poly = make_sphere(2).unwrap();
    let before: Vec<_> = render_poly.vertices.iter().map(|v| v.pos).collect();
    let mut world = World::new(render_poly);
    world.apply_heights(&sim).unwrap();
    let moved = world
        .get_poly()
        .vertices
        .iter()
        .zip(before.iter())
        .any(|(v, &b)| v.pos != b);
    assert!(moved, "height mapping left every vertex in place");
}

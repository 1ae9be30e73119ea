use worldgen::cmdline::Args;
use worldgen::plate_simulation::PlateSimulation;
use worldgen::polyhedron::make_sphere;
use worldgen::rng::XorShiftRng;
use worldgen::vec3::Vec3;
use worldgen::world::World;

fn run_pipeline(args: &Args) -> Vec<Vec3> {
    let mut rng = XorShiftRng::from_seed(args.rng_seed_hash);
    let sim_poly = make_sphere(args.plate_sim_detail_level).unwrap();
    let mut sim = PlateSimulation::new(&sim_poly, args.plate_sim_plates, &mut rng).unwrap();
    sim.simulate_plates(args.plate_sim_steps).unwrap();
    let render_poly = make_sphere(args.world_detail_level).unwrap();
    let mut world = World::new(render_poly);
    world.apply_heights(&sim).unwrap();
    world.get_poly().vertices.iter().map(|v| v.pos).collect()
}

#[test]
fn full_run_is_reproducible_bit_for_bit() {
    let args = Args::from_options(
        Some("42"),
        None,
        Some("3"),
        Some("2"),
        Some("5"),
        Some("10"),
    )
    .unwrap();
    assert_eq!(args.world_detail_level, 3);
    assert_eq!(args.plate_sim_detail_level, 2);
    assert_eq!(args.plate_sim_steps, 5);
    assert_eq!(args.plate_sim_plates, 10);
    let first = run_pipeline(&args);
    let second = run_pipeline(&args);
    assert_eq!(first.len(), second.len());
    for (a, b) in first.iter().zip(second.iter()) {
        assert_eq!(a, b);
    }
}

#[test]
fn different_seeds_give_different_worlds() {
    let a1 = Args::from_options(Some("42"), None, Some("2"), Some("1"), Some("3"), Some("4"))
        .unwrap();
    let a2 = Args::from_options(Some("43"), None, Some("2"), Some("1"), Some("3"), Some("4"))
        .unwrap();
    assert_ne!(a1.rng_seed_hash, a2.rng_seed_hash);
    let w1 = run_pipeline(&a1);
    let w2 = run_pipeline(&a2);
    assert!(w1.iter().zip(w2.iter()).any(|(a, b)| a != b));
}

use worldgen::cmdline::{murmur_hash3, parse_resolution, parse_u32_digits, Args};

#[test]
fn seed_hash_is_deterministic_and_input_sensitive() {
    let mut h1 = [0u32; 4];
    let mut h2 = [0u32; 4];
    let mut h3 = [0u32; 4];
    murmur_hash3(b"asd", &mut h1);
    murmur_hash3(b"asd", &mut h2);
    murmur_hash3(b"ase", &mut h3);
    assert_eq!(h1, h2);
    assert_ne!(h1, h3);
}

#[test]
fn seed_hash_covers_blocks_and_tail() {
    // 16 bytes exercise a full block; the extra bytes exercise the tail.
    let mut short = [0u32; 4];
    let mut block = [0u32; 4];
    let mut mixed = [0u32; 4];
    murmur_hash3(b"", &mut short);
    murmur_hash3(b"0123456789abcdef", &mut block);
    murmur_hash3(b"0123456789abcdefghi", &mut mixed);
    assert_ne!(short, block);
    assert_ne!(block, mixed);
}

#[test]
fn resolution_strings_parse_exactly() {
    assert_eq!(parse_resolution("800,600").unwrap(), [800, 600]);
    assert_eq!(parse_resolution("1,1").unwrap(), [1, 1]);
    assert!(parse_resolution("800").is_err());
    assert!(parse_resolution("800,600,700").is_err());
    assert!(parse_resolution("80a,600").is_err());
    assert!(parse_resolution(",600").is_err());
    assert!(parse_resolution("800,").is_err());
    assert!(parse_resolution("").is_err());
}

#[test]
fn numbers_parse_exactly() {
    assert_eq!(parse_u32_digits(b"0").unwrap(), 0);
    assert_eq!(parse_u32_digits(b"4294967295").unwrap(), u32::MAX);
    assert!(parse_u32_digits(b"4294967296").is_err());
    assert!(parse_u32_digits(b"").is_err());
    assert!(parse_u32_digits(b"12x").is_err());
}

#[test]
fn defaults_fill_absent_options() {
    let a = Args::from_options(None, None, None, None, None, None).unwrap();
    assert_eq!(a.rng_seed, "asd");
    assert_eq!(a.resolution, [1000, 1000]);
    assert_eq!(a.world_detail_level, 4);
    assert_eq!(a.plate_sim_detail_level, 2);
    assert_eq!(a.plate_sim_steps, 10);
    assert_eq!(a.plate_sim_plates, 25);
    let mut h = [0u32; 4];
    murmur_hash3(b"asd", &mut h);
    assert_eq!(a.rng_seed_hash, h);
}

#[test]
fn malformed_options_are_rejected() {
    assert!(Args::from_options(None, Some("axb"), None, None, None, None).is_err());
    assert!(Args::from_options(None, None, Some("-3"), None, None, None).is_err());
    assert!(Args::from_options(None, None, None, Some("two"), None, None).is_err());
}

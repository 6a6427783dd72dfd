use lib::layers::{getVoronoiSHA, voronoi_sha_in_order};

#[test]
fn voronoi_sha_little_endian_values() {
    assert_eq!(voronoi_sha_in_order(0, true), 0x9429769b00000000);
    assert_eq!(voronoi_sha_in_order(1, true), 0xd20af91b00000000);
    assert_eq!(voronoi_sha_in_order(12345, true), 0xec2978f000000000);
    assert_eq!(voronoi_sha_in_order(0xdeadbeefcafebabe, true), 0x569538a100000000);
}

#[test]
fn voronoi_sha_big_endian_values() {
    assert_eq!(voronoi_sha_in_order(0, false), 0x38de4bb99b762994);
    assert_eq!(voronoi_sha_in_order(1, false), 0x9ac6a1e9a3c50758);
    assert_eq!(voronoi_sha_in_order(12345, false), 0x081d7f9482d9e1f8);
}

#[test]
fn voronoi_sha_little_endian_ignores_high_half() {
    assert_eq!(voronoi_sha_in_order(1 << 63, true), voronoi_sha_in_order(0, true));
    assert_ne!(voronoi_sha_in_order(1 << 63, false), voronoi_sha_in_order(0, false));
}

#[test]
fn get_voronoi_sha_matches_target_order() {
    let little = u32::from_ne_bytes([1, 0, 0, 0]) == 1;
    for seed in [0u64, 1, 12345, 0xdeadbeefcafebabe] {
        assert_eq!(getVoronoiSHA(seed), voronoi_sha_in_order(seed, little));
    }
}

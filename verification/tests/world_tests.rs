use lib::biomenoise::{offset_noise_state, NoiseParameter, Range, SplineParameter, NP_MAX};
use lib::rng::Xoroshiro;
use lib::biomes::Dimension;
use lib::generator::{applySeed, setupGenerator, Generator, GeneratorFlag};

#[test]
fn dimension_values() {
    assert_eq!(Dimension::DIM_NETHER.value(), -1);
    assert_eq!(Dimension::DIM_OVERWORLD.value(), 0);
    assert_eq!(Dimension::DIM_END.value(), 1);
    assert_eq!(Dimension::DIM_UNDEF.value(), 1000);
}

#[test]
fn generator_flag_values() {
    assert_eq!(GeneratorFlag::LARGE_BIOMES.value(), 1);
    assert_eq!(GeneratorFlag::NO_BETA_OCEAN.value(), 2);
    assert_eq!(GeneratorFlag::FORCE_OCEAN_VARIANTS.value(), 4);
}

#[test]
fn noise_parameter_values() {
    assert_eq!(NoiseParameter::NP_Temperature.value(), 0);
    assert_eq!(NoiseParameter::NP_Humidity.value(), 1);
    assert_eq!(NoiseParameter::NP_Continentalness.value(), 2);
    assert_eq!(NoiseParameter::NP_Erosion.value(), 3);
    assert_eq!(NoiseParameter::NP_Shift.value(), 4);
    assert_eq!(NoiseParameter::NP_Depth.value(), 4);
    assert_eq!(NoiseParameter::NP_Weirdness.value(), 5);
    assert_eq!(NP_MAX, 6);
}

#[test]
fn spline_parameter_values() {
    assert_eq!(SplineParameter::SP_CONTINENTALNESS.value(), 0);
    assert_eq!(SplineParameter::SP_EROSION.value(), 0);
    assert_eq!(SplineParameter::SP_RIDGES.value(), 0);
    assert_eq!(SplineParameter::SP_WEIRDNESS.value(), 0);
}

#[test]
fn range_holds_its_fields() {
    let r = Range { scale: 4, x: -10, z: 20, sx: 16, sz: 16, y: 63, sy: 1 };
    let c = r;
    assert_eq!(c, r);
    assert_eq!(c.scale, 4);
}

#[test]
fn setup_generator_leaves_callers_generator() {
    let g = Generator { mc: 0, dim: 5, flags: 0, seed: 9, sha: 9 };
    setupGenerator(g, 21, 1);
    assert_eq!(g, Generator { mc: 0, dim: 5, flags: 0, seed: 9, sha: 9 });
}

#[test]
fn apply_seed_overworld_requests_biome_seeding() {
    let g = Generator { mc: 21, dim: 1000, flags: 1, seed: 0, sha: 0 };
    let action = applySeed(g, 0, 12345);
    assert_eq!(action, Some(1));
    assert_eq!(g, Generator { mc: 21, dim: 1000, flags: 1, seed: 0, sha: 0 });
}

#[test]
fn apply_seed_without_large_biomes() {
    let g = Generator { mc: 21, dim: 1000, flags: 6, seed: 0, sha: 0 };
    assert_eq!(applySeed(g, 0, 1), Some(0));
}

#[test]
fn apply_seed_other_dimensions_need_no_biome_seeding() {
    let g = Generator { mc: 21, dim: 1000, flags: 1, seed: 0, sha: 0 };
    assert_eq!(applySeed(g, -1, 7), None);
    assert_eq!(applySeed(g, 1, 7), None);
}

#[test]
fn offset_noise_state_mixes_digest() {
    assert_eq!(
        offset_noise_state(0, 0),
        Xoroshiro { lo: 0x080518cf6af25384, hi: 0x3f3dfb40a54febd5 }
    );
    assert_eq!(
        offset_noise_state(0x080518cf6af25384, 1),
        Xoroshiro { lo: 0, hi: 0x3f3dfb40a54febd4 }
    );
}

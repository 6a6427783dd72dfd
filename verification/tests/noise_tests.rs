use lib::noise::{
    double_perlin_amplitude_span, double_perlin_octave_split, octave_seeds_in_table, xOctaveSeeds,
    xPerlinPermutation,
};
use lib::rng::{xSetSeed, Xoroshiro};

#[test]
fn perlin_permutation_known_prefix() {
    let mut xr = Xoroshiro { lo: 0, hi: 0 };
    xSetSeed(&mut xr, 42);
    let d = xPerlinPermutation(&mut xr);
    assert_eq!(&d[..8], &[105, 130, 170, 83, 50, 118, 231, 0]);
    assert_eq!(d[256], 105);
    assert_eq!(xr, Xoroshiro { lo: 0x5d4520bed6c96db9, hi: 0xd86e1008eac15bc5 });
}

#[test]
fn perlin_permutation_is_permutation() {
    for seed in [0u64, 1, 7, 123456789] {
        let mut xr = Xoroshiro { lo: 0, hi: 0 };
        xSetSeed(&mut xr, seed);
        let d = xPerlinPermutation(&mut xr);
        let mut seen = [false; 256];
        for k in 0..256 {
            assert!(!seen[d[k] as usize]);
            seen[d[k] as usize] = true;
        }
        assert_eq!(d[256], d[0]);
    }
}

#[test]
fn octave_seeds_skip_inactive_amplitudes() {
    let mut xr = Xoroshiro { lo: 0, hi: 0 };
    xSetSeed(&mut xr, 42);
    let seeds = xOctaveSeeds(&mut xr, &[true, false, true, true], -3, 4, -1);
    assert_eq!(
        seeds,
        vec![
            (0, Xoroshiro { lo: 0xed073fb33b1f1147, hi: 0xae1f96598b7a4c8d }),
            (2, Xoroshiro { lo: 0x612e81615d002f17, hi: 0xab7826e652aa4b1a }),
            (3, Xoroshiro { lo: 0x6bd3abdc052a9463, hi: 0x7cd8021d463824ba }),
        ]
    );
    assert_eq!(xr, Xoroshiro { lo: 0xd589a16398d54739, hi: 0xc5d86e1008eac15b });
}

#[test]
fn octave_seeds_stop_at_nmax() {
    let mut xr = Xoroshiro { lo: 0, hi: 0 };
    xSetSeed(&mut xr, 42);
    let seeds = xOctaveSeeds(&mut xr, &[true, false, true, true], -3, 4, 2);
    assert_eq!(seeds.len(), 2);
    assert_eq!(seeds[0].0, 0);
    assert_eq!(seeds[1].0, 2);
}

#[test]
fn octave_seeds_none_when_nmax_zero() {
    let mut xr = Xoroshiro { lo: 3, hi: 4 };
    let seeds = xOctaveSeeds(&mut xr, &[true, true], -2, 2, 0);
    assert!(seeds.is_empty());
}

#[test]
fn octave_split_halves() {
    assert_eq!(double_perlin_octave_split(5), (3, 2));
    assert_eq!(double_perlin_octave_split(4), (2, 2));
    assert_eq!(double_perlin_octave_split(1), (1, 0));
    assert_eq!(double_perlin_octave_split(0), (-1, -1));
    assert_eq!(double_perlin_octave_split(-1), (-1, -1));
}

#[test]
fn amplitude_span_trims_both_ends() {
    assert_eq!(double_perlin_amplitude_span(&[true, false, true, false, false, false], 6), 3);
    assert_eq!(double_perlin_amplitude_span(&[false, true, true, false, true], 5), 4);
    assert_eq!(double_perlin_amplitude_span(&[true, true, true, true], 4), 4);
    assert_eq!(double_perlin_amplitude_span(&[false, false, false], 3), 0);
    assert_eq!(double_perlin_amplitude_span(&[false, true, false], 2), 1);
}

#[test]
fn octave_seed_table_bounds() {
    assert!(octave_seeds_in_table(&[true, false, true, true], -3, 4, -1));
    assert!(!octave_seeds_in_table(&[true, true], 0, 2, -1));
    assert!(octave_seeds_in_table(&[true, true], 0, 2, 1));
    assert!(octave_seeds_in_table(&[true, false], 0, 2, -1));
}

#[test]
fn octave_scan_reads_only_what_it_needs() {
    assert!(!octave_seeds_in_table(&[true], -3, 4, -1));
    assert!(octave_seeds_in_table(&[true], -3, 4, 1));
    let mut xr = Xoroshiro { lo: 0, hi: 0 };
    xSetSeed(&mut xr, 42);
    let seeds = xOctaveSeeds(&mut xr, &[true], -3, 4, 1);
    assert_eq!(seeds, vec![(0, Xoroshiro { lo: 0xed073fb33b1f1147, hi: 0xae1f96598b7a4c8d })]);
}

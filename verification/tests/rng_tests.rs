use lib::rng::{nextInt, next, rotr32, xNextInt, xNextLong, xSetSeed, Xoroshiro};

#[test]
fn set_seed_zero_gives_known_state() {
    let mut xr = Xoroshiro { lo: 0, hi: 0 };
    xSetSeed(&mut xr, 0);
    assert_eq!(xr, Xoroshiro { lo: 0x3564b439cd1e1f16, hi: 0x63cfc62a2b097592 });
}

#[test]
fn set_seed_overwrites_previous_state() {
    let mut a = Xoroshiro { lo: 1, hi: 2 };
    let mut b = Xoroshiro { lo: 99, hi: 7 };
    xSetSeed(&mut a, 12345);
    xSetSeed(&mut b, 12345);
    assert_eq!(a, b);
    assert_eq!(a, Xoroshiro { lo: 0x0a2c34e6ca54dd9e, hi: 0xcf828dadc78bbeeb });
}

#[test]
fn next_long_sequence_from_seed() {
    let mut xr = Xoroshiro { lo: 0, hi: 0 };
    xSetSeed(&mut xr, 12345);
    assert_eq!(xNextLong(&mut xr), 0x8f5558a8036890fb);
    assert_eq!(xNextLong(&mut xr), 0x09e8c8bf195f6540);
    assert_eq!(xNextLong(&mut xr), 0x4814eff02b66908a);
    assert_eq!(xr, Xoroshiro { lo: 0x2757d02997c966c7, hi: 0xdadc78bbeebcf828 });
}

#[test]
fn next_long_zero_state_stays_zero() {
    let mut xr = Xoroshiro { lo: 0, hi: 0 };
    assert_eq!(xNextLong(&mut xr), 0);
    assert_eq!(xr, Xoroshiro { lo: 0, hi: 0 });
}

#[test]
fn lcg_next_from_zero() {
    let mut seed: u64 = 0;
    assert_eq!(next(&mut seed, 31), 0);
    assert_eq!(seed, 0xb);
}

#[test]
fn lcg_next_masks_to_48_bits() {
    let mut seed: u64 = u64::MAX;
    let r = next(&mut seed, 48);
    assert!(seed < (1u64 << 48));
    assert_eq!(r as i64, (seed as i64) as i32 as i64);
}

#[test]
fn next_int_sequence_bound_ten() {
    let mut seed: u64 = 12345;
    let got: Vec<i32> = (0..5).map(|_| nextInt(&mut seed, 10)).collect();
    assert_eq!(got, vec![7, 5, 7, 8, 4]);
    assert_eq!(seed, 0xafdba542054);
}

#[test]
fn next_int_sequence_power_of_two_bound() {
    let mut seed: u64 = 12345;
    let got: Vec<i32> = (0..5).map(|_| nextInt(&mut seed, 16)).collect();
    assert_eq!(got, vec![1, 12, 0, 10, 0]);
}

#[test]
fn next_int_zero_bound_gives_zero() {
    let mut seed: u64 = 777;
    assert_eq!(nextInt(&mut seed, 0), 0);
}

#[test]
fn next_int_stays_in_range() {
    let mut seed: u64 = 0xdead_beef;
    for n in [1, 2, 3, 7, 100, 1_000_000_007, i32::MAX] {
        for _ in 0..50 {
            let r = nextInt(&mut seed, n);
            assert!(0 <= r && r < n);
        }
    }
}

#[test]
fn x_next_int_sequence() {
    let mut xr = Xoroshiro { lo: 0, hi: 0 };
    xSetSeed(&mut xr, 1);
    let got: Vec<i32> = (0..5).map(|_| xNextInt(&mut xr, 10)).collect();
    assert_eq!(got, vec![4, 7, 3, 6, 6]);
    assert_eq!(xr, Xoroshiro { lo: 0xe725e2d7305cb5af, hi: 0x046dda8e86e2a1ac });
}

#[test]
fn x_next_int_zero_bound_gives_zero() {
    let mut xr = Xoroshiro { lo: 5, hi: 6 };
    assert_eq!(xNextInt(&mut xr, 0), 0);
}

#[test]
fn x_next_int_stays_in_range() {
    let mut xr = Xoroshiro { lo: 0, hi: 0 };
    xSetSeed(&mut xr, 99);
    for n in [1u32, 2, 3, 10, 255, 256, 1 << 31] {
        for _ in 0..50 {
            let r = xNextInt(&mut xr, n);
            assert!(r >= 0 && (r as u32) < n);
        }
    }
}

#[test]
fn rotr32_rotates_bytes() {
    assert_eq!(rotr32(0x12345678, 8), 0x78123456);
    assert_eq!(rotr32(1, 1), 0x80000000);
}

#[test]
fn rotr32_round_trip() {
    for b in 1u8..32 {
        let a = 0xdead_beefu32;
        assert_eq!(rotr32(rotr32(a, b), 32 - b), a);
    }
}

#[test]
fn lcg_next_gives_requested_bits() {
    let mut seed: u64 = 0x1234_5678_9abc;
    for bits in 0..=31 {
        let r = next(&mut seed, bits);
        assert!(r >= 0 && (r as i64) < (1i64 << bits));
    }
}

#[test]
fn next_int_negative_bound_sequence() {
    let mut seed: u64 = 12345;
    let got: Vec<i32> = (0..6).map(|_| nextInt(&mut seed, -10)).collect();
    assert_eq!(got, vec![7, 5, 7, 8, 4, 2]);
    assert_eq!(seed, 0xfeaa904d3bcf);
}

#[test]
fn next_int_large_negative_bound_rejects_low_draws() {
    let mut seed: u64 = 12345;
    let n = -(1 << 29) - 5;
    let got: Vec<i32> = (0..3).map(|_| nextInt(&mut seed, n)).collect();
    assert_eq!(got, vec![103636914, 352266034, 525682711]);
    assert_eq!(seed, 0xfeaa904d3bcf);
}

#[test]
fn next_int_negative_bound_in_range() {
    let mut seed: u64 = 0xabc;
    for n in [-1, -2, -3, -7, -1000, -(1 << 28)] {
        for _ in 0..20 {
            let r = nextInt(&mut seed, n);
            assert!(0 <= r && r < -n);
        }
    }
}

//! The 48-bit linear congruential generator as a function on integers, and the
//! proof that from any state it reaches the lower half of the state space.

use vstd::prelude::*;
use vstd::arithmetic::div_mod::*;
use vstd::arithmetic::mul::*;
use vstd::arithmetic::power2::*;
use vstd::wrapping::u64_specs;

verus! {

/// One step of the generator: `s * 0x5deece66d + 0xb` modulo 2^48.
#[verifier::opaque]
pub open spec fn lcg_step(s: int) -> int {
    (s * 0x5deece66d + 0xb) % 0x1_0000_0000_0000
}

/// The state after `k` steps from `s`.
pub open spec fn lcg_iter(s: int, k: nat) -> int
    decreases k,
{
    if k == 0 {
        s
    } else {
        lcg_iter(lcg_step(s), (k - 1) as nat)
    }
}

/// Coefficients `(A, C)` such that `2^j` steps map `s` to `(A * s + C) mod 2^48`.
pub open spec fn lcg_power_coeffs(j: nat) -> (int, int)
    decreases j,
{
    if j == 0 {
        (0x5deece66d, 0xb)
    } else {
        let (a, c) = lcg_power_coeffs((j - 1) as nat);
        ((a * a) % 0x1_0000_0000_0000, (a * c + c) % 0x1_0000_0000_0000)
    }
}

/// A step lands in `[0, 2^48)`.
pub proof fn lemma_lcg_step_range(s: int)
    ensures
        0 <= lcg_step(s) < 0x1_0000_0000_0000,
{
    reveal(lcg_step);
}

/// Stepping `m + n` times is stepping `m` times, then `n` times.
pub proof fn lemma_lcg_iter_add(s: int, m: nat, n: nat)
    ensures
        lcg_iter(s, m + n) == lcg_iter(lcg_iter(s, m), n),
    decreases m,
{
    if m > 0 {
        lemma_lcg_iter_add(lcg_step(s), (m - 1) as nat, n);
        assert((m + n - 1) as nat == ((m - 1) as nat + n) as nat);
    }
}

/// Stepping `k + 1` times is one step after `k` steps.
pub proof fn lemma_lcg_iter_succ(s: int, k: nat)
    ensures
        lcg_iter(s, k + 1) == lcg_step(lcg_iter(s, k)),
{
    lemma_lcg_iter_add(s, k, 1);
    assert(lcg_iter(lcg_iter(s, k), 1) == lcg_iter(lcg_step(lcg_iter(s, k)), 0));
}

proof fn lemma_affine_compose(a: int, c: int, t: int)
    ensures
        (a * ((a * t + c) % 0x1_0000_0000_0000) + c) % 0x1_0000_0000_0000
            == (((a * a) % 0x1_0000_0000_0000) * t + (a * c + c) % 0x1_0000_0000_0000)
            % 0x1_0000_0000_0000,
{
    let m: int = 0x1_0000_0000_0000;
    let u = (a * t + c) % m;
    // left side
    lemma_add_mod_noop(a * u, c, m);
    lemma_mul_mod_noop_right(a, a * t + c, m);
    lemma_add_mod_noop(a * (a * t + c), c, m);
    // a * (a t + c) + c == (a a) t + (a c + c)
    lemma_mul_is_distributive_add(a, a * t, c);
    lemma_mul_is_associative(a, a, t);
    // right side
    lemma_mul_mod_noop_left(a * a, t, m);
    lemma_add_mod_noop((a * a) * t, a * c + c, m);
    lemma_add_mod_noop(((a * a) % m) * t, (a * c + c) % m, m);
    lemma_mod_twice(a * c + c, m);
    lemma_mod_twice(((a * a) % m) * t, m);
    lemma_mod_twice((a * a) * t, m);
}

/// Stepping `2^j` times is the affine map with coefficients `lcg_power_coeffs(j)`.
pub proof fn lemma_lcg_power(j: nat, t: int)
    ensures
        lcg_iter(t, pow2(j)) == (lcg_power_coeffs(j).0 * t + lcg_power_coeffs(j).1)
            % 0x1_0000_0000_0000,
    decreases j,
{
    if j == 0 {
        lemma2_to64();
        reveal(lcg_step);
        assert(lcg_iter(t, 1) == lcg_iter(lcg_step(t), 0));
    } else {
        let p = pow2((j - 1) as nat);
        lemma_pow2_unfold(j);
        assert(pow2(j) == p + p);
        lemma_lcg_iter_add(t, p, p);
        lemma_lcg_power((j - 1) as nat, t);
        let (a, c) = lcg_power_coeffs((j - 1) as nat);
        let u = lcg_iter(t, p);
        lemma_lcg_power((j - 1) as nat, u);
        lemma_affine_compose(a, c, t);
    }
}

/// Stepping the generator 2^47 times adds 2^47 to the state, modulo 2^48.
pub proof fn lemma_lcg_half_period(t: int)
    ensures
        lcg_iter(t, 0x8000_0000_0000) == (t + 0x8000_0000_0000) % 0x1_0000_0000_0000,
{
    lemma_lcg_coeff_table();
    lemma2_to64_rest();
    lemma_lcg_power(47, t);
}

/// The machine form of one step: wrapping multiply and add on 64 bits, then the low 48 bits.
pub proof fn lemma_lcg_step_machine(s: u64)
    ensures
        (u64_specs::wrapping_add(u64_specs::wrapping_mul(s, 0x5deece66du64), 0xbu64)
            & 0xffff_ffff_ffffu64) as int == lcg_step(s as int),
{
    reveal(lcg_step);
    let w = u64_specs::wrapping_mul(s, 0x5deece66du64);
    let v = u64_specs::wrapping_add(w, 0xbu64);
    let p48: int = 0x1_0000_0000_0000;
    let p64: int = 0x1_0000_0000_0000_0000;
    assert(w as int == (s as int * 0x5deece66d) % p64);
    assert(v as int == (w as int + 0xb) % p64) by {
        if w as int + 0xb > u64::MAX {
            lemma_fundamental_div_mod(w as int + 0xb, p64);
        } else {
            lemma_small_mod((w as int + 0xb) as nat, p64 as nat);
        }
    }
    assert(v & 0xffff_ffff_ffffu64 == v % 0x1_0000_0000_0000u64) by (bit_vector);
    lemma_mod_mod(w as int + 0xb, p48, 0x1_0000);
    lemma_add_mod_noop(w as int, 0xb, p48);
    lemma_mod_mod(s as int * 0x5deece66d, p48, 0x1_0000);
    lemma_add_mod_noop(s as int * 0x5deece66d, 0xb, p48);
}

/// The coefficients of `2^j` steps for `j < 48`, as numbers.
proof fn lemma_lcg_coeff_table()
    ensures
        lcg_power_coeffs(0) == (0x5deece66dint, 0xbint),
        lcg_power_coeffs(1) == (0xbb20b4600a69int, 0x40942de6baint),
        lcg_power_coeffs(2) == (0x32eb772c5f11int, 0x2d3873c4cd04int),
        lcg_power_coeffs(3) == (0x75489f259f21int, 0x7cba449ae648int),
        lcg_power_coeffs(4) == (0x6dc260740241int, 0xd0352014d90int),
        lcg_power_coeffs(5) == (0xfac6caed1481int, 0x1e4c4c311f20int),
        lcg_power_coeffs(6) == (0xab768c7e6901int, 0xf77b98004e40int),
        lcg_power_coeffs(7) == (0xa430a00dd201int, 0x6cc0d398dc80int),
        lcg_power_coeffs(8) == (0x4fa0405fa401int, 0xa7a83e92b900int),
        lcg_power_coeffs(9) == (0x94fba1cf4801int, 0x9e1922a97200int),
        lcg_power_coeffs(10) == (0xba5cc7de9001int, 0xaba71b62e400int),
        lcg_power_coeffs(11) == (0xba17a0bd2001int, 0xe5b38f05c800int),
        lcg_power_coeffs(12) == (0x27e7857a4001int, 0x698c7f0b9000int),
        lcg_power_coeffs(13) == (0x10b01af48001int, 0x702e82172000int),
        lcg_power_coeffs(14) == (0xb4e475e90001int, 0x78b3142e4000int),
        lcg_power_coeffs(15) == (0x37d9ebd20001int, 0x72be685c8000int),
        lcg_power_coeffs(16) == (0xa7f7d7a40001int, 0xeaddd0b90000int),
        lcg_power_coeffs(17) == (0x30ffaf480001int, 0xeb3fa1720000int),
        lcg_power_coeffs(18) == (0xe63f5e900001int, 0x2c8f42e40000int),
        lcg_power_coeffs(19) == (0xdd7ebd200001int, 0xb15e85c80000int),
        lcg_power_coeffs(20) == (0xfefd7a400001int, 0xc3bd0b900000int),
        lcg_power_coeffs(21) == (0xdfaf4800001int, 0xb7a17200000int),
        lcg_power_coeffs(22) == (0x5bf5e9000001int, 0x26f42e400000int),
        lcg_power_coeffs(23) == (0xb7ebd2000001int, 0x8de85c800000int),
        lcg_power_coeffs(24) == (0x6fd7a4000001int, 0x1bd0b9000000int),
        lcg_power_coeffs(25) == (0xdfaf48000001int, 0x37a172000000int),
        lcg_power_coeffs(26) == (0xbf5e90000001int, 0x6f42e4000000int),
        lcg_power_coeffs(27) == (0x7ebd20000001int, 0xde85c8000000int),
        lcg_power_coeffs(28) == (0xfd7a40000001int, 0xbd0b90000000int),
        lcg_power_coeffs(29) == (0xfaf480000001int, 0x7a1720000000int),
        lcg_power_coeffs(30) == (0xf5e900000001int, 0xf42e40000000int),
        lcg_power_coeffs(31) == (0xebd200000001int, 0xe85c80000000int),
        lcg_power_coeffs(32) == (0xd7a400000001int, 0xd0b900000000int),
        lcg_power_coeffs(33) == (0xaf4800000001int, 0xa17200000000int),
        lcg_power_coeffs(34) == (0x5e9000000001int, 0x42e400000000int),
        lcg_power_coeffs(35) == (0xbd2000000001int, 0x85c800000000int),
        lcg_power_coeffs(36) == (0x7a4000000001int, 0xb9000000000int),
        lcg_power_coeffs(37) == (0xf48000000001int, 0x172000000000int),
        lcg_power_coeffs(38) == (0xe90000000001int, 0x2e4000000000int),
        lcg_power_coeffs(39) == (0xd20000000001int, 0x5c8000000000int),
        lcg_power_coeffs(40) == (0xa40000000001int, 0xb90000000000int),
        lcg_power_coeffs(41) == (0x480000000001int, 0x720000000000int),
        lcg_power_coeffs(42) == (0x900000000001int, 0xe40000000000int),
        lcg_power_coeffs(43) == (0x200000000001int, 0xc80000000000int),
        lcg_power_coeffs(44) == (0x400000000001int, 0x900000000000int),
        lcg_power_coeffs(45) == (0x800000000001int, 0x200000000000int),
        lcg_power_coeffs(46) == (0x1int, 0x400000000000int),
        lcg_power_coeffs(47) == (0x1int, 0x800000000000int),
{
    assert(lcg_power_coeffs(0) == (0x5deece66dint, 0xbint));
    assert(lcg_power_coeffs(1) == (0xbb20b4600a69int, 0x40942de6baint));
    assert(lcg_power_coeffs(2) == (0x32eb772c5f11int, 0x2d3873c4cd04int));
    assert(lcg_power_coeffs(3) == (0x75489f259f21int, 0x7cba449ae648int));
    assert(lcg_power_coeffs(4) == (0x6dc260740241int, 0xd0352014d90int));
    assert(lcg_power_coeffs(5) == (0xfac6caed1481int, 0x1e4c4c311f20int));
    assert(lcg_power_coeffs(6) == (0xab768c7e6901int, 0xf77b98004e40int));
    assert(lcg_power_coeffs(7) == (0xa430a00dd201int, 0x6cc0d398dc80int));
    assert(lcg_power_coeffs(8) == (0x4fa0405fa401int, 0xa7a83e92b900int));
    assert(lcg_power_coeffs(9) == (0x94fba1cf4801int, 0x9e1922a97200int));
    assert(lcg_power_coeffs(10) == (0xba5cc7de9001int, 0xaba71b62e400int));
    assert(lcg_power_coeffs(11) == (0xba17a0bd2001int, 0xe5b38f05c800int));
    assert(lcg_power_coeffs(12) == (0x27e7857a4001int, 0x698c7f0b9000int));
    assert(lcg_power_coeffs(13) == (0x10b01af48001int, 0x702e82172000int));
    assert(lcg_power_coeffs(14) == (0xb4e475e90001int, 0x78b3142e4000int));
    assert(lcg_power_coeffs(15) == (0x37d9ebd20001int, 0x72be685c8000int));
    assert(lcg_power_coeffs(16) == (0xa7f7d7a40001int, 0xeaddd0b90000int));
    assert(lcg_power_coeffs(17) == (0x30ffaf480001int, 0xeb3fa1720000int));
    assert(lcg_power_coeffs(18) == (0xe63f5e900001int, 0x2c8f42e40000int));
    assert(lcg_power_coeffs(19) == (0xdd7ebd200001int, 0xb15e85c80000int));
    assert(lcg_power_coeffs(20) == (0xfefd7a400001int, 0xc3bd0b900000int));
    assert(lcg_power_coeffs(21) == (0xdfaf4800001int, 0xb7a17200000int));
    assert(lcg_power_coeffs(22) == (0x5bf5e9000001int, 0x26f42e400000int));
    assert(lcg_power_coeffs(23) == (0xb7ebd2000001int, 0x8de85c800000int));
    assert(lcg_power_coeffs(24) == (0x6fd7a4000001int, 0x1bd0b9000000int));
    assert(lcg_power_coeffs(25) == (0xdfaf48000001int, 0x37a172000000int));
    assert(lcg_power_coeffs(26) == (0xbf5e90000001int, 0x6f42e4000000int));
    assert(lcg_power_coeffs(27) == (0x7ebd20000001int, 0xde85c8000000int));
    assert(lcg_power_coeffs(28) == (0xfd7a40000001int, 0xbd0b90000000int));
    assert(lcg_power_coeffs(29) == (0xfaf480000001int, 0x7a1720000000int));
    assert(lcg_power_coeffs(30) == (0xf5e900000001int, 0xf42e40000000int));
    assert(lcg_power_coeffs(31) == (0xebd200000001int, 0xe85c80000000int));
    assert(lcg_power_coeffs(32) == (0xd7a400000001int, 0xd0b900000000int));
    assert(lcg_power_coeffs(33) == (0xaf4800000001int, 0xa17200000000int));
    assert(lcg_power_coeffs(34) == (0x5e9000000001int, 0x42e400000000int));
    assert(lcg_power_coeffs(35) == (0xbd2000000001int, 0x85c800000000int));
    assert(lcg_power_coeffs(36) == (0x7a4000000001int, 0xb9000000000int));
    assert(lcg_power_coeffs(37) == (0xf48000000001int, 0x172000000000int));
    assert(lcg_power_coeffs(38) == (0xe90000000001int, 0x2e4000000000int));
    assert(lcg_power_coeffs(39) == (0xd20000000001int, 0x5c8000000000int));
    assert(lcg_power_coeffs(40) == (0xa40000000001int, 0xb90000000000int));
    assert(lcg_power_coeffs(41) == (0x480000000001int, 0x720000000000int));
    assert(lcg_power_coeffs(42) == (0x900000000001int, 0xe40000000000int));
    assert(lcg_power_coeffs(43) == (0x200000000001int, 0xc80000000000int));
    assert(lcg_power_coeffs(44) == (0x400000000001int, 0x900000000000int));
    assert(lcg_power_coeffs(45) == (0x800000000001int, 0x200000000000int));
    assert(lcg_power_coeffs(46) == (0x1int, 0x400000000000int));
    assert(lcg_power_coeffs(47) == (0x1int, 0x800000000000int));
}

/// `2^j` steps (for `j < 48`) multiply by a number that is 1 modulo `2^(j+1)` and add one
/// that is `2^j` modulo `2^(j+1)`.
proof fn lemma_lcg_coeff_bits(j: nat)
    requires
        j < 48,
    ensures
        lcg_power_coeffs(j).0 % (pow2(j + 1) as int) == 1,
        lcg_power_coeffs(j).1 % (pow2(j + 1) as int) == pow2(j) as int,
{
    lemma_lcg_coeff_table();
    lemma2_to64();
    lemma2_to64_rest();
    if j == 0 {
        assert(pow2(1) == 0x2 && pow2(0) == 0x1);
        assert(lcg_power_coeffs(0).0 % 0x2 == 1 && lcg_power_coeffs(0).1 % 0x2 == 0x1);
    } else if j == 1 {
        assert(pow2(2) == 0x4 && pow2(1) == 0x2);
        assert(lcg_power_coeffs(1).0 % 0x4 == 1 && lcg_power_coeffs(1).1 % 0x4 == 0x2);
    } else if j == 2 {
        assert(pow2(3) == 0x8 && pow2(2) == 0x4);
        assert(lcg_power_coeffs(2).0 % 0x8 == 1 && lcg_power_coeffs(2).1 % 0x8 == 0x4);
    } else if j == 3 {
        assert(pow2(4) == 0x10 && pow2(3) == 0x8);
        assert(lcg_power_coeffs(3).0 % 0x10 == 1 && lcg_power_coeffs(3).1 % 0x10 == 0x8);
    } else if j == 4 {
        assert(pow2(5) == 0x20 && pow2(4) == 0x10);
        assert(lcg_power_coeffs(4).0 % 0x20 == 1 && lcg_power_coeffs(4).1 % 0x20 == 0x10);
    } else if j == 5 {
        assert(pow2(6) == 0x40 && pow2(5) == 0x20);
        assert(lcg_power_coeffs(5).0 % 0x40 == 1 && lcg_power_coeffs(5).1 % 0x40 == 0x20);
    } else if j == 6 {
        assert(pow2(7) == 0x80 && pow2(6) == 0x40);
        assert(lcg_power_coeffs(6).0 % 0x80 == 1 && lcg_power_coeffs(6).1 % 0x80 == 0x40);
    } else if j == 7 {
        assert(pow2(8) == 0x100 && pow2(7) == 0x80);
        assert(lcg_power_coeffs(7).0 % 0x100 == 1 && lcg_power_coeffs(7).1 % 0x100 == 0x80);
    } else if j == 8 {
        assert(pow2(9) == 0x200 && pow2(8) == 0x100);
        assert(lcg_power_coeffs(8).0 % 0x200 == 1 && lcg_power_coeffs(8).1 % 0x200 == 0x100);
    } else if j == 9 {
        assert(pow2(10) == 0x400 && pow2(9) == 0x200);
        assert(lcg_power_coeffs(9).0 % 0x400 == 1 && lcg_power_coeffs(9).1 % 0x400 == 0x200);
    } else if j == 10 {
        assert(pow2(11) == 0x800 && pow2(10) == 0x400);
        assert(lcg_power_coeffs(10).0 % 0x800 == 1 && lcg_power_coeffs(10).1 % 0x800 == 0x400);
    } else if j == 11 {
        assert(pow2(12) == 0x1000 && pow2(11) == 0x800);
        assert(lcg_power_coeffs(11).0 % 0x1000 == 1 && lcg_power_coeffs(11).1 % 0x1000 == 0x800);
    } else if j == 12 {
        assert(pow2(13) == 0x2000 && pow2(12) == 0x1000);
        assert(lcg_power_coeffs(12).0 % 0x2000 == 1 && lcg_power_coeffs(12).1 % 0x2000 == 0x1000);
    } else if j == 13 {
        assert(pow2(14) == 0x4000 && pow2(13) == 0x2000);
        assert(lcg_power_coeffs(13).0 % 0x4000 == 1 && lcg_power_coeffs(13).1 % 0x4000 == 0x2000);
    } else if j == 14 {
        assert(pow2(15) == 0x8000 && pow2(14) == 0x4000);
        assert(lcg_power_coeffs(14).0 % 0x8000 == 1 && lcg_power_coeffs(14).1 % 0x8000 == 0x4000);
    } else if j == 15 {
        assert(pow2(16) == 0x10000 && pow2(15) == 0x8000);
        assert(lcg_power_coeffs(15).0 % 0x10000 == 1 && lcg_power_coeffs(15).1 % 0x10000 == 0x8000);
    } else if j == 16 {
        assert(pow2(17) == 0x20000 && pow2(16) == 0x10000);
        assert(lcg_power_coeffs(16).0 % 0x20000 == 1 && lcg_power_coeffs(16).1 % 0x20000 == 0x10000);
    } else if j == 17 {
        assert(pow2(18) == 0x40000 && pow2(17) == 0x20000);
        assert(lcg_power_coeffs(17).0 % 0x40000 == 1 && lcg_power_coeffs(17).1 % 0x40000 == 0x20000);
    } else if j == 18 {
        assert(pow2(19) == 0x80000 && pow2(18) == 0x40000);
        assert(lcg_power_coeffs(18).0 % 0x80000 == 1 && lcg_power_coeffs(18).1 % 0x80000 == 0x40000);
    } else if j == 19 {
        assert(pow2(20) == 0x100000 && pow2(19) == 0x80000);
        assert(lcg_power_coeffs(19).0 % 0x100000 == 1 && lcg_power_coeffs(19).1 % 0x100000 == 0x80000);
    } else if j == 20 {
        assert(pow2(21) == 0x200000 && pow2(20) == 0x100000);
        assert(lcg_power_coeffs(20).0 % 0x200000 == 1 && lcg_power_coeffs(20).1 % 0x200000 == 0x100000);
    } else if j == 21 {
        assert(pow2(22) == 0x400000 && pow2(21) == 0x200000);
        assert(lcg_power_coeffs(21).0 % 0x400000 == 1 && lcg_power_coeffs(21).1 % 0x400000 == 0x200000);
    } else if j == 22 {
        assert(pow2(23) == 0x800000 && pow2(22) == 0x400000);
        assert(lcg_power_coeffs(22).0 % 0x800000 == 1 && lcg_power_coeffs(22).1 % 0x800000 == 0x400000);
    } else if j == 23 {
        assert(pow2(24) == 0x1000000 && pow2(23) == 0x800000);
        assert(lcg_power_coeffs(23).0 % 0x1000000 == 1 && lcg_power_coeffs(23).1 % 0x1000000 == 0x800000);
    } else if j == 24 {
        assert(pow2(25) == 0x2000000 && pow2(24) == 0x1000000);
        assert(lcg_power_coeffs(24).0 % 0x2000000 == 1 && lcg_power_coeffs(24).1 % 0x2000000 == 0x1000000);
    } else if j == 25 {
        assert(pow2(26) == 0x4000000 && pow2(25) == 0x2000000);
        assert(lcg_power_coeffs(25).0 % 0x4000000 == 1 && lcg_power_coeffs(25).1 % 0x4000000 == 0x2000000);
    } else if j == 26 {
        assert(pow2(27) == 0x8000000 && pow2(26) == 0x4000000);
        assert(lcg_power_coeffs(26).0 % 0x8000000 == 1 && lcg_power_coeffs(26).1 % 0x8000000 == 0x4000000);
    } else if j == 27 {
        assert(pow2(28) == 0x10000000 && pow2(27) == 0x8000000);
        assert(lcg_power_coeffs(27).0 % 0x10000000 == 1 && lcg_power_coeffs(27).1 % 0x10000000 == 0x8000000);
    } else if j == 28 {
        assert(pow2(29) == 0x20000000 && pow2(28) == 0x10000000);
        assert(lcg_power_coeffs(28).0 % 0x20000000 == 1 && lcg_power_coeffs(28).1 % 0x20000000 == 0x10000000);
    } else if j == 29 {
        assert(pow2(30) == 0x40000000 && pow2(29) == 0x20000000);
        assert(lcg_power_coeffs(29).0 % 0x40000000 == 1 && lcg_power_coeffs(29).1 % 0x40000000 == 0x20000000);
    } else if j == 30 {
        assert(pow2(31) == 0x80000000 && pow2(30) == 0x40000000);
        assert(lcg_power_coeffs(30).0 % 0x80000000 == 1 && lcg_power_coeffs(30).1 % 0x80000000 == 0x40000000);
    } else if j == 31 {
        assert(pow2(32) == 0x100000000 && pow2(31) == 0x80000000);
        assert(lcg_power_coeffs(31).0 % 0x100000000 == 1 && lcg_power_coeffs(31).1 % 0x100000000 == 0x80000000);
    } else if j == 32 {
        assert(pow2(33) == 0x200000000 && pow2(32) == 0x100000000);
        assert(lcg_power_coeffs(32).0 % 0x200000000 == 1 && lcg_power_coeffs(32).1 % 0x200000000 == 0x100000000);
    } else if j == 33 {
        assert(pow2(34) == 0x400000000 && pow2(33) == 0x200000000);
        assert(lcg_power_coeffs(33).0 % 0x400000000 == 1 && lcg_power_coeffs(33).1 % 0x400000000 == 0x200000000);
    } else if j == 34 {
        assert(pow2(35) == 0x800000000 && pow2(34) == 0x400000000);
        assert(lcg_power_coeffs(34).0 % 0x800000000 == 1 && lcg_power_coeffs(34).1 % 0x800000000 == 0x400000000);
    } else if j == 35 {
        assert(pow2(36) == 0x1000000000 && pow2(35) == 0x800000000);
        assert(lcg_power_coeffs(35).0 % 0x1000000000 == 1 && lcg_power_coeffs(35).1 % 0x1000000000 == 0x800000000);
    } else if j == 36 {
        assert(pow2(37) == 0x2000000000 && pow2(36) == 0x1000000000);
        assert(lcg_power_coeffs(36).0 % 0x2000000000 == 1 && lcg_power_coeffs(36).1 % 0x2000000000 == 0x1000000000);
    } else if j == 37 {
        assert(pow2(38) == 0x4000000000 && pow2(37) == 0x2000000000);
        assert(lcg_power_coeffs(37).0 % 0x4000000000 == 1 && lcg_power_coeffs(37).1 % 0x4000000000 == 0x2000000000);
    } else if j == 38 {
        assert(pow2(39) == 0x8000000000 && pow2(38) == 0x4000000000);
        assert(lcg_power_coeffs(38).0 % 0x8000000000 == 1 && lcg_power_coeffs(38).1 % 0x8000000000 == 0x4000000000);
    } else if j == 39 {
        assert(pow2(40) == 0x10000000000 && pow2(39) == 0x8000000000);
        assert(lcg_power_coeffs(39).0 % 0x10000000000 == 1 && lcg_power_coeffs(39).1 % 0x10000000000 == 0x8000000000);
    } else if j == 40 {
        assert(pow2(41) == 0x20000000000 && pow2(40) == 0x10000000000);
        assert(lcg_power_coeffs(40).0 % 0x20000000000 == 1 && lcg_power_coeffs(40).1 % 0x20000000000 == 0x10000000000);
    } else if j == 41 {
        assert(pow2(42) == 0x40000000000 && pow2(41) == 0x20000000000);
        assert(lcg_power_coeffs(41).0 % 0x40000000000 == 1 && lcg_power_coeffs(41).1 % 0x40000000000 == 0x20000000000);
    } else if j == 42 {
        assert(pow2(43) == 0x80000000000 && pow2(42) == 0x40000000000);
        assert(lcg_power_coeffs(42).0 % 0x80000000000 == 1 && lcg_power_coeffs(42).1 % 0x80000000000 == 0x40000000000);
    } else if j == 43 {
        assert(pow2(44) == 0x100000000000 && pow2(43) == 0x80000000000);
        assert(lcg_power_coeffs(43).0 % 0x100000000000 == 1 && lcg_power_coeffs(43).1 % 0x100000000000 == 0x80000000000);
    } else if j == 44 {
        assert(pow2(45) == 0x200000000000 && pow2(44) == 0x100000000000);
        assert(lcg_power_coeffs(44).0 % 0x200000000000 == 1 && lcg_power_coeffs(44).1 % 0x200000000000 == 0x100000000000);
    } else if j == 45 {
        assert(pow2(46) == 0x400000000000 && pow2(45) == 0x200000000000);
        assert(lcg_power_coeffs(45).0 % 0x400000000000 == 1 && lcg_power_coeffs(45).1 % 0x400000000000 == 0x200000000000);
    } else if j == 46 {
        assert(pow2(47) == 0x800000000000 && pow2(46) == 0x400000000000);
        assert(lcg_power_coeffs(46).0 % 0x800000000000 == 1 && lcg_power_coeffs(46).1 % 0x800000000000 == 0x400000000000);
    } else if j == 47 {
        assert(pow2(48) == 0x1000000000000 && pow2(47) == 0x800000000000);
        assert(lcg_power_coeffs(47).0 % 0x1000000000000 == 1 && lcg_power_coeffs(47).1 % 0x1000000000000 == 0x800000000000);
    }
}

/// `2^j` steps (for `j < 48`) flip bit `j` of a state and keep the bits below it.
pub proof fn lemma_lcg_flip_bit(x: int, j: nat)
    requires
        0 <= x < 0x1_0000_0000_0000,
        j < 48,
    ensures
        0 <= lcg_iter(x, pow2(j)) < 0x1_0000_0000_0000,
        lcg_iter(x, pow2(j)) % (pow2(j + 1) as int) == (x + pow2(j)) % (pow2(j + 1) as int),
{
    let m: int = 0x1_0000_0000_0000;
    let p = pow2(j + 1) as int;
    let q = pow2((47 - j) as nat) as int;
    let h = pow2(j) as int;
    lemma_pow2_adds(j + 1, (47 - j) as nat);
    lemma2_to64_rest();
    assert(p * q == m);
    lemma_pow2_pos(j + 1);
    lemma_pow2_pos((47 - j) as nat);
    lemma_lcg_power(j, x);
    lemma_lcg_coeff_bits(j);
    let (a, c) = lcg_power_coeffs(j);
    lemma_fundamental_div_mod(a, p);
    lemma_fundamental_div_mod(c, p);
    let qa = a / p;
    let qc = c / p;
    let w = a * x + c;
    assert(w == (x + h) + p * (qa * x + qc)) by (nonlinear_arith)
        requires
            a == p * qa + 1,
            c == p * qc + h,
            w == a * x + c,
    ;
    lemma_mod_mod(w, p, q);
    lemma_mod_multiples_vanish(qa * x + qc, x + h, p);
}

/// From state `x`, state `y` is reached in fewer than `2^48 - 2^k + 1` steps when the
/// two agree in their low `k` bits.
proof fn lemma_lcg_reach_from(x: int, y: int, k: nat) -> (d: nat)
    requires
        0 <= x < 0x1_0000_0000_0000,
        0 <= y < 0x1_0000_0000_0000,
        k <= 48,
        x % (pow2(k) as int) == y % (pow2(k) as int),
    ensures
        lcg_iter(x, d) == y,
        d + pow2(k) <= pow2(48),
    decreases 48 - k,
{
    lemma2_to64_rest();
    lemma_pow2_pos(k);
    if k == 48 {
        lemma_small_mod(x as nat, pow2(48));
        lemma_small_mod(y as nat, pow2(48));
        0
    } else {
        let h = pow2(k) as int;
        let p = pow2(k + 1) as int;
        lemma_pow2_unfold(k + 1);
        assert(p == 2 * h);
        if k + 1 < 48 {
            lemma_pow2_strictly_increases(k + 1, 48);
        }
        if x % p == y % p {
            lemma_lcg_reach_from(x, y, k + 1)
        } else {
            let rx = x % p;
            let ry = y % p;
            lemma_mod_mod(x, h, 2);
            lemma_mod_mod(y, h, 2);
            assert(rx % h == ry % h);
            lemma_fundamental_div_mod(rx, h);
            lemma_fundamental_div_mod(ry, h);
            let hx = rx / h;
            let hy = ry / h;
            assert(0 <= hx < 2 && 0 <= hy < 2) by (nonlinear_arith)
                requires
                    0 <= rx < 2 * h,
                    0 <= ry < 2 * h,
                    rx == h * hx + rx % h,
                    ry == h * hy + ry % h,
                    0 <= rx % h,
                    0 <= ry % h,
                    h > 0,
            ;
            let l = rx % h;
            assert(ry == (if hx == 0 { rx + h } else { rx - h })) by (nonlinear_arith)
                requires
                    rx == h * hx + l,
                    ry == h * hy + l,
                    hx == 0 || hx == 1,
                    hy == 0 || hy == 1,
                    rx != ry,
            ;
            lemma_add_mod_noop(x, h, p);
            lemma_small_mod(h as nat, p as nat);
            lemma_mod_twice(x, p);
            assert((x + h) % p == (rx + h) % p);
            assert((x + h) % p == ry) by {
                if hx == 0 {
                    lemma_small_mod((rx + h) as nat, p as nat);
                } else {
                    lemma_fundamental_div_mod_converse_mod(rx + h, p, 1, ry);
                }
            }
            let x2 = lcg_iter(x, pow2(k));
            lemma_lcg_flip_bit(x, k);
            let d2 = lemma_lcg_reach_from(x2, y, k + 1);
            lemma_lcg_iter_add(x, pow2(k), d2);
            (pow2(k) + d2) as nat
        }
    }
}

/// The generator has full period: from any state, every state `y` below 2^48 is reached
/// in some number `k` of steps with `1 <= k <= 2^48`.
pub proof fn lemma_lcg_reaches(s: int, y: int) -> (k: nat)
    requires
        0 <= y < 0x1_0000_0000_0000,
    ensures
        1 <= k <= 0x1_0000_0000_0000,
        lcg_iter(s, k) == y,
{
    let t = lcg_step(s);
    lemma_lcg_step_range(s);
    assert(lcg_iter(s, 1) == lcg_iter(t, 0));
    lemma2_to64();
    lemma2_to64_rest();
    let d = lemma_lcg_reach_from(t, y, 0);
    lemma_lcg_iter_add(s, 1, d);
    (1 + d) as nat
}

} // verus!

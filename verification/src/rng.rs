//! Random number generators: the xoroshiro128++-style generator and the
//! 48-bit linear congruential generator.

use vstd::prelude::*;
use vstd::wrapping::u64_specs;
use vstd::arithmetic::power2::*;
use vstd::bits::*;
use crate::period::{lcg_step, lcg_iter, lemma_lcg_step_machine, lemma_lcg_iter_succ, lemma_lcg_reaches, lemma_lcg_step_range};
use vstd::arithmetic::div_mod::{lemma_small_mod, lemma_fundamental_div_mod, lemma_fundamental_div_mod_converse_div, lemma_fundamental_div_mod_converse_mod};
use vstd::arithmetic::mul::lemma_mul_strict_inequality;

verus! {

/// State of the xoroshiro generator.
#[derive(Clone, Copy, Debug, PartialEq, Eq, Structural)]
pub struct Xoroshiro {
    pub lo: u64,
    pub hi: u64,
}

/// Rotation of a 64-bit word to the left by `k` bits (taken modulo 64).
pub open spec fn rotl64(x: u64, k: u32) -> u64 {
    let s = (k % 64) as u32;
    (x << s) | (x >> ((64 - s) as u32))
}

/// `u64::rotate_left`: its documentation states that the bits are shifted left by
/// `n` (modulo the width) and the truncated bits wrap around to the low end.
pub assume_specification[ u64::rotate_left ](x: u64, n: u32) -> (r: u64)
    ensures
        r == rotl64(x, n),
;

const XL: u64 = 0x9e3779b97f4a7c15;
const XH: u64 = 0x6a09e667f3bcc909;
const A: u64 = 0xbf58476d1ce4e5b9;
const B: u64 = 0x94d049bb133111eb;

/// The 64-bit finaliser that spreads one word of the seed.
pub open spec fn seed_mix(z: u64) -> u64 {
    let a = u64_specs::wrapping_mul(z ^ (z >> 30u64), 0xbf58476d1ce4e5b9u64);
    let b = u64_specs::wrapping_mul(a ^ (a >> 27u64), 0x94d049bb133111ebu64);
    b ^ (b >> 31u64)
}

/// The seed mixer works on the word as unsigned: each of its three steps takes the
/// exclusive or of the word with its quotient by a power of two (2^30, 2^27, 2^31), and
/// the first two multiply by an odd constant modulo 2^64.
pub proof fn lemma_seed_mix_unsigned(z: u64)
    ensures
        ({
            let a = (((z ^ (z / 0x4000_0000u64)) as int * 0xbf58476d1ce4e5b9)
                % 0x1_0000_0000_0000_0000) as u64;
            let b = (((a ^ (a / 0x800_0000u64)) as int * 0x94d049bb133111eb)
                % 0x1_0000_0000_0000_0000) as u64;
            seed_mix(z) == b ^ (b / 0x8000_0000u64)
        }),
{
    let a = u64_specs::wrapping_mul(z ^ (z >> 30u64), 0xbf58476d1ce4e5b9u64);
    let b = u64_specs::wrapping_mul(a ^ (a >> 27u64), 0x94d049bb133111ebu64);
    assert(z >> 30u64 == z / 0x4000_0000u64) by (bit_vector);
    assert(a >> 27u64 == a / 0x800_0000u64) by (bit_vector);
    assert(b >> 31u64 == b / 0x8000_0000u64) by (bit_vector);
}

/// Seeding mixes the seed xor `0x6a09e667f3bcc909` into the low word, and that value plus
/// `0x9e3779b97f4a7c15` modulo 2^64 into the high word.
pub proof fn lemma_seeded_state_words(value: u64)
    ensures
        seeded_state(value).lo == seed_mix(value ^ 0x6a09e667f3bcc909u64),
        seeded_state(value).hi == seed_mix(
            (((value ^ 0x6a09e667f3bcc909u64) as int + 0x9e3779b97f4a7c15) % 0x1_0000_0000_0000_0000)
                as u64,
        ),
{
}

/// The generator state that a seed value gives.
pub open spec fn seeded_state(value: u64) -> Xoroshiro {
    let l = value ^ 0x6a09e667f3bcc909u64;
    Xoroshiro {
        lo: seed_mix(l),
        hi: seed_mix(u64_specs::wrapping_add(l, 0x9e3779b97f4a7c15u64)),
    }
}

/// The word that the generator outputs from state `s`.
pub open spec fn long_output(s: Xoroshiro) -> u64 {
    u64_specs::wrapping_add(rotl64(u64_specs::wrapping_add(s.lo, s.hi), 17), s.lo)
}

/// The state that follows `s`.
pub open spec fn next_state(s: Xoroshiro) -> Xoroshiro {
    Xoroshiro {
        lo: rotl64(s.lo, 49) ^ s.hi ^ (s.hi << 21u64),
        hi: rotl64(s.hi, 28),
    }
}

/// Seeds the generator from a single 64-bit value.
pub fn xSetSeed(xr: &mut Xoroshiro, value: u64)
    ensures
        *final(xr) == seeded_state(value),
{
    let mut l = value ^ XH;
    let mut h = l.wrapping_add(XL);
    l = (l ^ (l >> 30)).wrapping_mul(A);
    h = (h ^ (h >> 30)).wrapping_mul(A);
    l = (l ^ (l >> 27)).wrapping_mul(B);
    h = (h ^ (h >> 27)).wrapping_mul(B);
    l ^= l >> 31;
    h ^= h >> 31;

    xr.lo = l;
    xr.hi = h;
}

/// Draws the next 64-bit word and advances the state.
pub fn xNextLong(xr: &mut Xoroshiro) -> (n: u64)
    ensures
        n == long_output(*old(xr)),
        *final(xr) == next_state(*old(xr)),
{
    let l = xr.lo;
    let h = xr.hi;
    let n = (l.wrapping_add(h)).rotate_left(17).wrapping_add(l);
    let new_l = l.rotate_left(49) ^ h ^ (h << 21);
    let new_h = h.rotate_left(28);

    xr.lo = new_l;
    xr.hi = new_h;

    n
}

/// The value that `next` returns for a generator state `s` (already advanced) and a
/// bit count: the state's top `bits` bits out of 48.
pub open spec fn lcg_bits(s: int, bits: i32) -> i32 {
    (s / pow2((48 - bits) as nat) as int) as i32
}

proof fn lemma_lcg_bits_range(s: int, bits: i32)
    requires
        0 <= s < 0x1_0000_0000_0000,
        0 <= bits <= 31,
    ensures
        0 <= lcg_bits(s, bits) < pow2(bits as nat),
        lcg_bits(s, bits) as int == s / pow2((48 - bits) as nat) as int,
{
    let k = (48 - bits) as nat;
    let p = pow2(k) as int;
    let q = pow2(bits as nat) as int;
    lemma_pow2_adds(k, bits as nat);
    lemma2_to64_rest();
    lemma_pow2_pos(k);
    lemma2_to64();
    if bits < 31 {
        lemma_pow2_strictly_increases(bits as nat, 31);
    }
    assert(q <= 0x8000_0000);
    assert(p * q == 0x1_0000_0000_0000);
    assert(0 <= s / p < q) by (nonlinear_arith)
        requires
            0 <= s < p * q,
            p > 0,
    ;
}

/// Advances the 48-bit generator and returns its top `bits` bits. The step multiplies and
/// adds modulo 2^64 before keeping the low 48 bits, which is the step modulo 2^48.
pub fn next(seed: &mut u64, bits: i32) -> (r: i32)
    requires
        -15 <= bits <= 48,
    ensures
        *final(seed) as int == lcg_step(*old(seed) as int),
        *final(seed) < 0x1_0000_0000_0000,
        r == lcg_bits(lcg_step(*old(seed) as int), bits),
        0 <= bits <= 31 ==> 0 <= r < pow2(bits as nat),
{
    proof {
        lemma_lcg_step_machine(*seed);
        lemma_lcg_step_range(*seed as int);
    }
    assert((1u64 << 48u64) - 1 == 0xffff_ffff_ffffu64) by (bit_vector);
    *seed = (seed.wrapping_mul(0x5deece66d).wrapping_add(0xb)) & ((1u64 << 48) - 1);
    let s: u64 = *seed;
    let k: u64 = (48 - bits) as u64;
    assert(((s as i64) >> k) == (s >> k) as i64) by (bit_vector)
        requires
            s < 0x1_0000_0000_0000u64,
            k < 64,
    ;
    proof {
        lemma_u64_shr_is_div(s, k);
        if 0 <= bits <= 31 {
            lemma_lcg_bits_range(s as int, bits);
        }
    }
    ((*seed as i64) >> (48 - bits)) as i32
}

/// Whether `n` is a power of two.
pub open spec fn is_power_of_two(n: int) -> bool
    decreases n,
{
    if n <= 0 {
        false
    } else if n == 1 {
        true
    } else {
        n % 2 == 0 && is_power_of_two(n / 2)
    }
}

/// Whether `nextInt` takes its single-draw path for bound `n`: `n` is zero or a power of
/// two.
pub open spec fn next_int_single_draw(n: i32) -> bool {
    n == 0 || is_power_of_two(n as int)
}

/// For `n` above `i32::MIN`, `n - 1` and `n` share no bit exactly when `n` is zero or a
/// power of two.
pub proof fn lemma_single_draw_test(n: i32)
    requires
        n > i32::MIN,
    ensures
        ((((n - 1) as i32) & n) == 0) == next_int_single_draw(n),
    decreases if n < 0 { 0 } else { n as int },
{
    let m: i32 = (n - 1) as i32;
    if n < 0 {
        assert(m & n != 0i32) by (bit_vector)
            requires
                n < 0i32,
                n > -0x8000_0000i32,
                m == (n - 1i32) as i32,
        ;
        return;
    }
    let h: i32 = n >> 1i32;
    let low: i32 = n & 1i32;
    assert(n == (2 * h + low) as i32 && 0 <= h && h <= 0x3fff_ffffi32 && (low == 0i32 || low == 1i32)) by (bit_vector)
        requires
            n >= 0i32,
            h == n >> 1i32,
            low == n & 1i32,
    ;
    if n == 0 {
        assert(m & n == 0i32) by (bit_vector)
            requires
                m == -1i32,
                n == 0i32,
        ;
    } else if n == 1 {
        assert(m & n == 0i32) by (bit_vector)
            requires
                m == 0i32,
                n == 1i32,
        ;
    } else if low == 1 {
        assert(m & n != 0i32) by (bit_vector)
            requires
                n > 1i32,
                m == (n - 1i32) as i32,
                n & 1i32 == 1i32,
        ;
    } else {
        let hm: i32 = (h - 1) as i32;
        assert((m & n == 0i32) == (hm & h == 0i32)) by (bit_vector)
            requires
                n > 1i32,
                n & 1i32 == 0i32,
                h == n >> 1i32,
                m == (n - 1i32) as i32,
                hm == (h - 1i32) as i32,
        ;
        lemma_single_draw_test(h);
    }
}

/// Whether a 31-bit draw `bits` is accepted for bound `n`: the sum
/// `bits - bits mod |n| + (n - 1)` lies in the range of `i32`. For a positive `n` this
/// says that the bucket of `n` values holding `bits` lies wholly below 2^31; for a
/// negative `n` it says that `bits` is at least `2 |n|`.
pub open spec fn next_int_accepts(bits: int, n: int) -> bool {
    0 <= bits - bits % n + (n - 1) <= i32::MAX
}

proof fn lemma_draw31(s: int)
    requires
        0 <= s < 0x1_0000_0000_0000,
    ensures
        lcg_bits(s, 31) as int == s / 0x2_0000,
        0 <= lcg_bits(s, 31) < 0x8000_0000,
        s < 0x8000_0000_0000 ==> lcg_bits(s, 31) < 0x4000_0000,
{
    lemma2_to64();
    assert(pow2(17) == 0x2_0000);
}

proof fn lemma_low_draw_accepted(bits: int, n: int)
    requires
        0 <= bits < 0x4000_0000,
        0 < n <= i32::MAX,
    ensures
        next_int_accepts(bits, n),
{
    if bits < n {
        lemma_small_mod(bits as nat, n as nat);
    }
}

/// For a positive bound `n`, a 31-bit draw `b` is accepted exactly when it lies below the
/// largest multiple of `n` that is at most 2^31, that is, when the whole bucket of `n`
/// values holding `b` lies below 2^31.
pub proof fn lemma_positive_bound_accepts(b: int, n: int)
    requires
        0 <= b < 0x8000_0000,
        0 < n < 0x8000_0000,
    ensures
        next_int_accepts(b, n) == (b < n * (0x8000_0000int / n)),
{
    let q = b / n;
    let r = b % n;
    lemma_fundamental_div_mod(b, n);
    let big: int = 0x8000_0000;
    let qb = big / n;
    lemma_fundamental_div_mod(big, n);
    assert(0 <= r < n);
    assert(0 <= big % n < n);
    assert(b - r == n * q);
    assert(q >= 0) by (nonlinear_arith)
        requires
            b == n * q + r,
            0 <= r < n,
            b >= 0,
            n > 0,
    ;
    assert((n * q + n - 1 <= i32::MAX) == (b < n * qb)) by (nonlinear_arith)
        requires
            b == n * q + r,
            0 <= r < n,
            big == n * qb + big % n,
            0 <= big % n < n,
            big == 0x8000_0000,
            i32::MAX == 0x7fff_ffff,
            n > 0,
            q >= 0,
    ;
}

/// For a negative `n`, a draw is accepted exactly when it is at least `2 |n|`, and the
/// sum that the test computes stays within the range of `i32`.
pub proof fn lemma_negative_bound_accepts(bits: int, n: int)
    requires
        0 <= bits <= i32::MAX,
        i32::MIN < n < 0,
    ensures
        next_int_accepts(bits, n) == (bits >= -2 * n),
        0 <= bits % n < -n,
        i32::MIN <= bits - bits % n + (n - 1) <= i32::MAX,
{
    let a = -n;
    let q = bits / n;
    let r = bits % n;
    lemma_fundamental_div_mod(bits, n);
    assert(0 <= r < a);
    let qa = -q;
    assert(bits == a * qa + r) by (nonlinear_arith)
        requires
            bits == n * q + r,
            a == -n,
            qa == -q,
    ;
    assert(qa >= 0) by (nonlinear_arith)
        requires
            bits == a * qa + r,
            0 <= r < a,
            bits >= 0,
    ;
    assert((a * qa - a - 1 >= 0) == (bits >= 2 * a)) by (nonlinear_arith)
        requires
            a > 0,
            qa >= 0,
            bits == a * qa + r,
            0 <= r < a,
    ;
    assert(i32::MIN <= a * qa - a - 1 <= i32::MAX) by (nonlinear_arith)
        requires
            a > 0,
            a < 0x8000_0000,
            0 <= a * qa <= bits,
            bits <= i32::MAX,
    ;
    assert(bits - r + (n - 1) == a * qa - a - 1);
}

/// The state that `nextInt` is sure to accept when it draws it for bound `n`: 0 for a
/// positive bound, the largest state for a negative one.
pub open spec fn next_int_sure_state(n: int) -> int {
    if n > 0 {
        0
    } else {
        0xffff_ffff_ffff
    }
}

proof fn lemma_sure_state_accepted(n: int)
    requires
        -0x4000_0000 < n <= i32::MAX,
        n != 0,
    ensures
        next_int_accepts(lcg_bits(next_int_sure_state(n), 31) as int, n),
{
    lemma_draw31(next_int_sure_state(n));
    if n > 0 {
        lemma_low_draw_accepted(lcg_bits(next_int_sure_state(n), 31) as int, n);
    } else {
        assert(0xffff_ffff_ffffint / 0x2_0000 == 0x7fff_ffff);
        lemma_negative_bound_accepts(lcg_bits(next_int_sure_state(n), 31) as int, n);
    }
}

proof fn lemma_rejected_draw(prev: int, budget: nat, n: int)
    requires
        0 <= prev,
        budget >= 1,
        lcg_iter(prev, budget) == next_int_sure_state(n),
        -0x4000_0000 < n <= i32::MAX,
        n != 0,
        !next_int_accepts(lcg_bits(lcg_step(prev), 31) as int, n),
    ensures
        budget >= 2,
        lcg_iter(lcg_step(prev), (budget - 1) as nat) == lcg_iter(prev, budget),
{
    assert(lcg_iter(prev, budget) == lcg_iter(lcg_step(prev), (budget - 1) as nat));
    if budget == 1 {
        assert(lcg_iter(lcg_step(prev), 0) == lcg_step(prev));
        lemma_sure_state_accepted(n);
    }
}

/// Draws an integer in `[0, n)` from the 48-bit generator. For a power of two one draw
/// is scaled; otherwise draws are taken until one falls in a whole bucket of `n` values
/// below 2^31 (the bucket test adds in 32-bit two's complement and rejects on
/// overflow). For a negative `n` a draw is taken when it is at least `2 |n|`, and the
/// value lies in `[0, |n|)`. The loop ends because the generator has full period, so a
/// draw that is accepted comes within 2^48 + 1 steps; a bound at or below `-2^30` would
/// accept no draw and is left out.
pub fn nextInt(seed: &mut u64, n: i32) -> (r: i32)
    requires
        n > -0x4000_0000,
    ensures
        n > 0 ==> 0 <= r < n,
        n < 0 ==> 0 <= r < -n,
        n > 0 && !next_int_single_draw(n) ==> {
            &&& lcg_bits(*final(seed) as int, 31) < n * (0x8000_0000int / n as int)
            &&& r as int == lcg_bits(*final(seed) as int, 31) as int % n as int
        },
        next_int_single_draw(n) ==> {
            &&& *final(seed) as int == lcg_step(*old(seed) as int)
            &&& r as int == (n as int * lcg_bits(lcg_step(*old(seed) as int), 31) as int)
                / 0x8000_0000
        },
        !next_int_single_draw(n) ==> exists|k: nat|
            {
                &&& k >= 1
                &&& *final(seed) as int == #[trigger] lcg_iter(*old(seed) as int, k)
                &&& next_int_accepts(lcg_bits(*final(seed) as int, 31) as int, n as int)
                &&& forall|j: nat|
                    1 <= j < k ==> !next_int_accepts(
                        lcg_bits(#[trigger] lcg_iter(*old(seed) as int, j), 31) as int,
                        n as int,
                    )
                &&& r as int == lcg_bits(*final(seed) as int, 31) as int % n as int
            },
{
    let m = n - 1;
    proof {
        lemma_single_draw_test(n);
    }

    if (m & n) == 0 {
        let b = next(seed, 31);
        proof {
            lemma_lcg_step_range(*old(seed) as int);
            lemma_draw31(lcg_step(*old(seed) as int));
            assert(n as u64 * b as u64 <= 0x7fff_ffff * 0x7fff_ffff) by (nonlinear_arith)
                requires
                    0 <= n <= 0x7fff_ffff,
                    0 <= b <= 0x7fff_ffff,
            ;
        }
        let x = n as u64 * b as u64;
        assert(n > 0 ==> x / 0x8000_0000 < n) by (nonlinear_arith)
            requires
                x == n * b,
                0 <= b < 0x8000_0000,
                n >= 0,
        ;
        assert((x as i64) >> 31u64 == (x / 0x8000_0000) as i64) by (bit_vector)
            requires
                x < 0x4000_0000_0000_0000u64,
        ;
        return (x as i64 >> 31) as i32;
    }
    let ghost s0 = *seed as int;
    let ghost mut cnt: nat = 0;
    let ghost mut budget: nat = lemma_lcg_reaches(s0, next_int_sure_state(n as int));
    assert(lcg_iter(s0, 0) == s0);
    loop
        invariant
            n != 0,
            n > -0x4000_0000,
            m == n - 1,
            !next_int_single_draw(n),
            s0 == *old(seed) as int,
            *seed as int == lcg_iter(s0, cnt),
            budget >= 1,
            lcg_iter(*seed as int, budget) == next_int_sure_state(n as int),
            forall|j: nat|
                1 <= j <= cnt ==> !next_int_accepts(
                    lcg_bits(#[trigger] lcg_iter(s0, j), 31) as int,
                    n as int,
                ),
        decreases budget,
    {
        let ghost prev = *seed as int;
        let bits = next(seed, 31);
        let val = bits % n;
        proof {
            lemma_lcg_step_range(prev);
            lemma_draw31(lcg_step(prev));
            lemma_lcg_iter_succ(s0, cnt);
            cnt = cnt + 1;
            if n < 0 {
                lemma_negative_bound_accepts(bits as int, n as int);
            }
        }
        if (bits - val).wrapping_add(m) >= 0 {
            assert(next_int_accepts(bits as int, n as int));
            proof {
                if n > 0 {
                    lemma_positive_bound_accepts(bits as int, n as int);
                }
            }
            return val;
        }
        proof {
            lemma_rejected_draw(prev, budget, n as int);
            budget = (budget - 1) as nat;
        }
    }
}

/// The low 32 bits of a drawn word, scaled by the bound `n`.
pub open spec fn x_scaled(w: u64, n: u32) -> int {
    (w as int % 0x1_0000_0000) * n as int
}

/// Whether `xNextInt` draws again after the word `w`: for a positive bound `n`, when the
/// scaled value lies below `(2^32 - n) mod n`.
pub open spec fn x_next_int_rejects(w: u64, n: u32) -> bool {
    n > 0 && x_scaled(w, n) < (0x1_0000_0000 - n) % (n as int)
}

/// `xNextInt` draws again only after a word whose low 32 bits are all zero.
pub proof fn lemma_x_rejects_only_zero_low_word(w: u64, n: u32)
    ensures
        x_next_int_rejects(w, n) ==> w as int % 0x1_0000_0000 == 0,
{
    if x_next_int_rejects(w, n) {
        let low = w as int % 0x1_0000_0000;
        assert((0x1_0000_0000 - n) % (n as int) < n);
        assert(low == 0) by (nonlinear_arith)
            requires
                0 <= low,
                n > 0,
                low * n < n,
        ;
    }
}

/// The most words that one call of `xNextInt` draws.
pub const X_NEXT_INT_MAX_DRAWS: u64 = 0xffff_ffff_ffff_ffff;

/// What `xNextInt` gives from the state `s` before its draw number `draws` (counting
/// from 1): the state after its last draw and the value it returns.
pub open spec fn x_next_int_run(s: Xoroshiro, n: u32, draws: nat) -> (Xoroshiro, i32)
    decreases 0xffff_ffff_ffff_ffff - draws,
{
    let w = long_output(s);
    if x_next_int_rejects(w, n) && draws < 0xffff_ffff_ffff_ffff {
        x_next_int_run(next_state(s), n, draws + 1)
    } else {
        (next_state(s), (x_scaled(w, n) / 0x1_0000_0000) as i32)
    }
}

/// The state that `xNextInt` leaves and the value it returns, from state `s`.
pub open spec fn x_next_int_value(s: Xoroshiro, n: u32) -> (Xoroshiro, i32) {
    x_next_int_run(s, n, 1)
}

fn x_scaled_draw(xr: &mut Xoroshiro, n: u32) -> (r: u64)
    ensures
        r as int == x_scaled(long_output(*old(xr)), n),
        *final(xr) == next_state(*old(xr)),
{
    let w = xNextLong(xr);
    let low = w & 0xFFFFFFFF;
    assert(w & 0xFFFFFFFFu64 == w % 0x1_0000_0000u64) by (bit_vector);
    assert(low as int * n as int <= 0xffff_ffff * 0xffff_ffff) by (nonlinear_arith)
        requires
            low <= 0xffff_ffff,
            n <= 0xffff_ffff,
    ;
    low * n as u64
}

/// The value that `xNextInt` returns lies in `[0, n)` when `n <= 2^31`.
pub proof fn lemma_x_next_int_range(s: Xoroshiro, n: u32, draws: nat)
    requires
        n <= 0x8000_0000,
    ensures
        0 <= x_next_int_run(s, n, draws).1,
        n == 0 || x_next_int_run(s, n, draws).1 < n,
    decreases 0xffff_ffff_ffff_ffff - draws,
{
    let w = long_output(s);
    if x_next_int_rejects(w, n) && draws < 0xffff_ffff_ffff_ffff {
        lemma_x_next_int_range(next_state(s), n, draws + 1);
    } else {
        let low = w as int % 0x1_0000_0000;
        assert(0 <= low < 0x1_0000_0000);
        assert(0 <= low * n as int <= 0xffff_ffff * n as int) by (nonlinear_arith)
            requires
                0 <= low < 0x1_0000_0000,
                n >= 0,
        ;
        assert(0 <= (low * n as int) / 0x1_0000_0000 <= n as int) by (nonlinear_arith)
            requires
                0 <= low * n as int <= 0xffff_ffff * n as int,
                n >= 0,
        ;
        if n > 0 {
            assert((low * n as int) / 0x1_0000_0000 < n as int) by (nonlinear_arith)
                requires
                    0 <= low * n as int <= 0xffff_ffff * n as int,
                    n > 0,
            ;
        }
    }
}

/// When the low 32 bits of the drawn word are not all zero, `xNextInt` draws once: the
/// state advances by one step and the value is the low word times `n`, divided by 2^32.
pub proof fn lemma_x_next_int_one_draw(s: Xoroshiro, n: u32)
    requires
        long_output(s) as int % 0x1_0000_0000 != 0,
    ensures
        x_next_int_value(s, n) == (
            next_state(s),
            (((long_output(s) as int % 0x1_0000_0000) * n as int) / 0x1_0000_0000) as i32,
        ),
{
    lemma_x_rejects_only_zero_low_word(long_output(s), n);
}

/// Draws an integer in `[0, n)` from the xoroshiro generator, drawing again while the
/// scaled low word falls in the biased range. A draw is rejected only when its low 32
/// bits are all zero; the loop takes at most `X_NEXT_INT_MAX_DRAWS` words, a bound that
/// ends it for the all-zero state, whose every draw is zero.
pub fn xNextInt(xr: &mut Xoroshiro, n: u32) -> (r: i32)
    ensures
        (*final(xr), r) == x_next_int_value(*old(xr), n),
        n <= 0x8000_0000 ==> 0 <= r && (n == 0 || r < n),
        long_output(*old(xr)) as int % 0x1_0000_0000 != 0 ==> {
            &&& *final(xr) == next_state(*old(xr))
            &&& r == (((long_output(*old(xr)) as int % 0x1_0000_0000) * n as int)
                / 0x1_0000_0000) as i32
        },
{
    proof {
        if long_output(*xr) as int % 0x1_0000_0000 != 0 {
            lemma_x_next_int_one_draw(*xr, n);
        }
        if n <= 0x8000_0000 {
            lemma_x_next_int_range(*xr, n, 1);
        }
    }
    let ghost s0 = *xr;
    let ghost mut prev = *xr;
    let mut r: u64 = x_scaled_draw(xr, n);
    let mut draws: u64 = 1;
    if r < n as u64 {
        let t: u32 = (!n).wrapping_add(1) % n;
        assert(!n == 0xffff_ffffu32 - n) by (bit_vector);
        while r < t as u64 && draws < X_NEXT_INT_MAX_DRAWS
            invariant
                n > 0,
                t as int == (0x1_0000_0000 - n) % (n as int),
                1 <= draws <= X_NEXT_INT_MAX_DRAWS,
                *xr == next_state(prev),
                r as int == x_scaled(long_output(prev), n),
                x_next_int_value(s0, n) == x_next_int_run(prev, n, draws as nat),
            decreases X_NEXT_INT_MAX_DRAWS - draws,
        {
            proof {
                prev = *xr;
            }
            r = x_scaled_draw(xr, n);
            draws = draws + 1;
        }
    } else {
        if n > 0 {
            assert((0x1_0000_0000 - n) % (n as int) < n);
        }
    }
    assert(r >> 32u64 == r / 0x1_0000_0000u64) by (bit_vector);
    (r >> 32) as i32
}

/// Rotation of a 32-bit word right by `b` bits, as arithmetic on its value.
pub open spec fn rotr32_value(a: u32, b: nat) -> u32 {
    (a as int / pow2(b) as int + (a as int % pow2(b) as int) * pow2((32 - b) as nat) as int) as u32
}

/// Rotates a 32-bit word right by `b` bits, for `0 < b < 32`.
pub fn rotr32(a: u32, b: u8) -> (r: u32)
    requires
        0 < b < 32,
    ensures
        r == rotr32_value(a, b as nat),
        r as int == a as int / pow2(b as nat) as int + (a as int % pow2(b as nat) as int)
            * pow2((32 - b) as nat) as int,
{
    let bb: u32 = b as u32;
    let c: u32 = 32 - bb;
    proof {
        let lo = a & (((1u32 << bb) - 1) as u32);
        assert((a >> bb) | (a << c) == (a >> bb) + (lo << c)) by (bit_vector)
            requires
                0 < bb < 32,
                c == 32 - bb,
                lo == a & (((1u32 << bb) - 1) as u32),
        ;
        lemma_u32_pow2_no_overflow(bb as nat);
        lemma_u32_shl_is_mul(1, bb);
        lemma_u32_low_bits_mask_is_mod(a, bb as nat);
        lemma_u32_shr_is_div(a, bb);
        lemma_pow2_adds(bb as nat, c as nat);
        lemma2_to64();
        lemma2_to64_rest();
        lemma_pow2_pos(c as nat);
        assert(lo < pow2(bb as nat));
        lemma_mul_strict_inequality(lo as int, pow2(bb as nat) as int, pow2(c as nat) as int);
        assert(lo * pow2(c as nat) < pow2(32)) by {
            assert(pow2(bb as nat) * pow2(c as nat) == pow2(32));
        }
        lemma_u32_shl_is_mul(lo, c);
        assert(((a >> bb) + (lo << c)) as int == a as int / pow2(bb as nat) as int + (a as int
            % pow2(bb as nat) as int) * pow2(c as nat) as int) by (nonlinear_arith)
            requires
                (a >> bb) as int == a as int / pow2(bb as nat) as int,
                (lo << c) as int == lo * pow2(c as nat),
                lo as int == a as int % pow2(bb as nat) as int,
                (a >> bb) as int + (lo << c) as int <= u32::MAX,
        ;
    }
    (a >> b) | (a << (32 - b))
}

/// Rotating a word right by `b` bits and then by `32 - b` bits gives the word back.
pub proof fn lemma_rotr32_round_trip(a: u32, b: nat)
    requires
        0 < b < 32,
    ensures
        rotr32_value(rotr32_value(a, b), (32 - b) as nat) == a,
{
    let p = pow2(b) as int;
    let q = pow2((32 - b) as nat) as int;
    lemma_pow2_adds(b, (32 - b) as nat);
    lemma2_to64();
    lemma2_to64_rest();
    lemma_pow2_pos(b);
    lemma_pow2_pos((32 - b) as nat);
    assert(p * q == 0x1_0000_0000);
    let hi = a as int / p;
    let lo = a as int % p;
    lemma_fundamental_div_mod(a as int, p);
    assert(hi < q) by (nonlinear_arith)
        requires
            a as int == p * hi + lo,
            0 <= lo,
            a < p * q,
            p > 0,
    ;
    assert(0 <= hi);
    let r = hi + lo * q;
    assert(0 <= r < 0x1_0000_0000) by (nonlinear_arith)
        requires
            0 <= hi < q,
            0 <= lo < p,
            p * q == 0x1_0000_0000,
            r == hi + lo * q,
    ;
    assert(rotr32_value(a, b) as int == r);
    lemma_fundamental_div_mod_converse_div(r, q, lo, hi);
    lemma_fundamental_div_mod_converse_mod(r, q, lo, hi);
    assert((32 - (32 - b)) as nat == b);
    let back = lo + hi * p;
    assert(back == a as int) by (nonlinear_arith)
        requires
            a as int == p * hi + lo,
            back == lo + hi * p,
    ;
}

} // verus!

//! The SHA-256 based seed hash used by the Voronoi zoom of the biome layers.

use vstd::prelude::*;
use vstd::wrapping::u32_specs;
use crate::rng::{rotr32, rotr32_value};

verus! {

/// Round constants of SHA-256.
pub const K: [u32; 64] = [
    0x428a2f98, 0x71374491, 0xb5c0fbcf, 0xe9b5dba5, 0x3956c25b, 0x59f111f1, 0x923f82a4, 0xab1c5ed5,
    0xd807aa98, 0x12835b01, 0x243185be, 0x550c7dc3, 0x72be5d74, 0x80deb1fe, 0x9bdc06a7, 0xc19bf174,
    0xe49b69c1, 0xefbe4786, 0x0fc19dc6, 0x240ca1cc, 0x2de92c6f, 0x4a7484aa, 0x5cb0a9dc, 0x76f988da,
    0x983e5152, 0xa831c66d, 0xb00327c8, 0xbf597fc7, 0xc6e00bf3, 0xd5a79147, 0x06ca6351, 0x14292967,
    0x27b70a85, 0x2e1b2138, 0x4d2c6dfc, 0x53380d13, 0x650a7354, 0x766a0abb, 0x81c2c92e, 0x92722c85,
    0xa2bfe8a1, 0xa81a664b, 0xc24b8b70, 0xc76c51a3, 0xd192e819, 0xd6990624, 0xf40e3585, 0x106aa070,
    0x19a4c116, 0x1e376c08, 0x2748774c, 0x34b0bcb5, 0x391c0cb3, 0x4ed8aa4a, 0x5b9cca4f, 0x682e6ff3,
    0x748f82ee, 0x78a5636f, 0x84c87814, 0x8cc70208, 0x90befffa, 0xa4506ceb, 0xbef9a3f7, 0xc67178f2,
];

/// Initial working state of SHA-256.
pub const B: [u32; 8] = [
    0x6a09e667, 0xbb67ae85, 0x3c6ef372, 0xa54ff53a, 0x510e527f, 0x9b05688c, 0x1f83d9ab, 0x5be0cd19,
];

/// The bytes of a 32-bit word in reverse order.
pub open spec fn bswap32(x: u32) -> u32 {
    ((x & 0xffu32) << 24u32) | ((x & 0xff00u32) << 8u32) | ((x >> 8u32) & 0xff00u32) | (x >> 24u32)
}

/// The bytes of a 64-bit word in reverse order.
pub open spec fn bswap64(x: u64) -> u64 {
    ((x & 0xffu64) << 56u64) | ((x & 0xff00u64) << 40u64) | ((x & 0xff0000u64) << 24u64)
        | ((x & 0xff000000u64) << 8u64) | ((x >> 8u64) & 0xff000000u64) | ((x >> 24u64)
        & 0xff0000u64) | ((x >> 40u64) & 0xff00u64) | (x >> 56u64)
}

/// `u32::swap_bytes`: its documentation states that it reverses the byte order.
pub assume_specification[ u32::swap_bytes ](x: u32) -> (r: u32)
    ensures
        r == bswap32(x),
;

/// `u64::swap_bytes`: its documentation states that it reverses the byte order.
pub assume_specification[ u64::swap_bytes ](x: u64) -> (r: u64)
    ensures
        r == bswap64(x),
;

/// `u32::to_be`: its documentation states that it is the identity on big-endian
/// targets and swaps the bytes on little-endian ones. Which of the two holds is a
/// property of the machine, so the contract states only that it is one of them.
pub assume_specification[ u32::to_be ](x: u32) -> (r: u32)
    ensures
        r == x || r == bswap32(x),
;

/// A word in big-endian byte order, read on a target of the given byte order.
pub open spec fn be32(x: u32, little_endian: bool) -> u32 {
    if little_endian {
        bswap32(x)
    } else {
        x
    }
}

/// A 64-bit word in big-endian byte order, read on a target of the given byte order.
pub open spec fn be64(x: u64, little_endian: bool) -> u64 {
    if little_endian {
        bswap64(x)
    } else {
        x
    }
}

fn to_be32(x: u32, little_endian: bool) -> (r: u32)
    ensures
        r == be32(x, little_endian),
{
    if little_endian {
        x.swap_bytes()
    } else {
        x
    }
}

fn to_be64(x: u64, little_endian: bool) -> (r: u64)
    ensures
        r == be64(x, little_endian),
{
    if little_endian {
        x.swap_bytes()
    } else {
        x
    }
}

/// Whether the target stores words least significant byte first, read from how
/// `u32::to_be` converts the word 1. The answer is a property of the machine, which no
/// contract here names, so either value is a possible outcome and none is stated.
fn target_is_little_endian() -> bool {
    let one = 1u32.to_be();
    one != 1
}

/// The first two message words that the hash reads from a seed.
pub open spec fn sha_seed_word(seed: u64, little_endian: bool, i: nat) -> u32 {
    if i == 0 {
        be32(seed as u32, little_endian)
    } else {
        be64(seed >> 32u64, little_endian) as u32
    }
}

/// The first message-schedule mixing function.
pub open spec fn small_sigma0(x: u32) -> u32 {
    rotr32_value(x, 7) ^ rotr32_value(x, 18) ^ (x >> 3u32)
}

/// The second message-schedule mixing function.
pub open spec fn small_sigma1(x: u32) -> u32 {
    rotr32_value(x, 17) ^ rotr32_value(x, 19) ^ (x >> 10u32)
}

/// Word `i` of the message schedule for the one-block message holding words `w0`, `w1`.
pub open spec fn sha_schedule(w0: u32, w1: u32, i: nat) -> u32
    decreases i,
{
    if i == 0 {
        w0
    } else if i == 1 {
        w1
    } else if i == 2 {
        0x80000000
    } else if i == 15 {
        0x00000040
    } else if i < 16 {
        0
    } else {
        u32_specs::wrapping_add(
            u32_specs::wrapping_add(
                u32_specs::wrapping_add(
                    sha_schedule(w0, w1, (i - 7) as nat),
                    sha_schedule(w0, w1, (i - 16) as nat),
                ),
                small_sigma0(sha_schedule(w0, w1, (i - 15) as nat)),
            ),
            small_sigma1(sha_schedule(w0, w1, (i - 2) as nat)),
        )
    }
}

/// One compression round on the working state `a` with round constant `k` and word `w`.
/// The last term of the second temporary adds the majority function to the third
/// rotation alone, before the exclusive-or.
pub open spec fn sha_round(a: Seq<u32>, k: u32, w: u32) -> Seq<u32> {
    let e = a[4];
    let x = u32_specs::wrapping_add(
        u32_specs::wrapping_add(
            u32_specs::wrapping_add(u32_specs::wrapping_add(a[7], k), w),
            rotr32_value(e, 6) ^ rotr32_value(e, 11) ^ rotr32_value(e, 25),
        ),
        (e & a[5]) ^ (!e & a[6]),
    );
    let y = rotr32_value(a[0], 2) ^ rotr32_value(a[0], 13) ^ u32_specs::wrapping_add(
        rotr32_value(a[0], 22),
        (a[0] & a[1]) ^ (a[0] & a[2]) ^ (a[1] & a[2]),
    );
    seq![
        u32_specs::wrapping_add(x, y),
        a[0],
        a[1],
        a[2],
        u32_specs::wrapping_add(a[3], x),
        a[4],
        a[5],
        a[6],
    ]
}

/// The working state after the first `i` rounds.
pub open spec fn sha_rounds(w0: u32, w1: u32, i: nat) -> Seq<u32>
    decreases i,
{
    if i == 0 {
        B@
    } else {
        sha_round(
            sha_rounds(w0, w1, (i - 1) as nat),
            K@[i - 1],
            sha_schedule(w0, w1, (i - 1) as nat),
        )
    }
}

/// The hash of `seed` on a target of the given byte order.
pub open spec fn voronoi_sha_value(seed: u64, little_endian: bool) -> u64 {
    let w0 = sha_seed_word(seed, little_endian, 0);
    let w1 = sha_seed_word(seed, little_endian, 1);
    let st = sha_rounds(w0, w1, 64);
    let a0 = u32_specs::wrapping_add(st[0], B@[0]);
    let a1 = u32_specs::wrapping_add(st[1], B@[1]);
    be64(a0 as u64, little_endian) | (be64(a1 as u64, little_endian) << 32u64)
}

/// The Voronoi seed hash of `seed` as a target of the given byte order computes it: one
/// SHA-256 compression of the block holding the seed's two halves, returning the first
/// two words of the digest.
pub fn voronoi_sha_in_order(seed: u64, little_endian: bool) -> (r: u64)
    ensures
        r == voronoi_sha_value(seed, little_endian),
{
    let mut m: [u32; 64] = [0; 64];
    let mut a: [u32; 8] = [0; 8];

    m[0] = to_be32(seed as u32, little_endian);
    m[1] = to_be64(seed >> 32, little_endian) as u32;
    m[2] = 0x80000000;
    m[15] = 0x00000040;
    let ghost w0 = m[0];
    let ghost w1 = m[1];
    assert(forall|j: int| 0 <= j < 16 ==> m[j] == sha_schedule(w0, w1, j as nat));

    for i in 16..64
        invariant
            w0 == sha_seed_word(seed, little_endian, 0),
            w1 == sha_seed_word(seed, little_endian, 1),
            forall|j: int| 0 <= j < i ==> m[j] == #[trigger] sha_schedule(w0, w1, j as nat),
    {
        assert(m[i - 7] == sha_schedule(w0, w1, (i - 7) as nat));
        assert(m[i - 16] == sha_schedule(w0, w1, (i - 16) as nat));
        assert(m[i - 15] == sha_schedule(w0, w1, (i - 15) as nat));
        assert(m[i - 2] == sha_schedule(w0, w1, (i - 2) as nat));
        m[i] = m[i - 7].wrapping_add(m[i - 16])
            .wrapping_add(rotr32(m[i - 15], 7) ^ rotr32(m[i - 15], 18) ^ (m[i - 15] >> 3))
            .wrapping_add(rotr32(m[i - 2], 17) ^ rotr32(m[i - 2], 19) ^ (m[i - 2] >> 10));
        assert(m[i as int] == sha_schedule(w0, w1, i as nat));
    }

    a = B;
    assert(a@ == sha_rounds(w0, w1, 0));

    for i in 0..64
        invariant
            w0 == sha_seed_word(seed, little_endian, 0),
            w1 == sha_seed_word(seed, little_endian, 1),
            forall|j: int| 0 <= j < 64 ==> m[j] == #[trigger] sha_schedule(w0, w1, j as nat),
            a@ == sha_rounds(w0, w1, i as nat),
    {
        let x = a[7].wrapping_add(K[i]).wrapping_add(m[i])
            .wrapping_add(rotr32(a[4], 6) ^ rotr32(a[4], 11) ^ rotr32(a[4], 25))
            .wrapping_add((a[4] & a[5]) ^ (!a[4] & a[6]));

        let y = rotr32(a[0], 2) ^ rotr32(a[0], 13) ^ rotr32(a[0], 22)
            .wrapping_add((a[0] & a[1]) ^ (a[0] & a[2]) ^ (a[1] & a[2]));

        let ghost prev = a@;
        a[7] = a[6];
        a[6] = a[5];
        a[5] = a[4];
        a[4] = a[3].wrapping_add(x);
        a[3] = a[2];
        a[2] = a[1];
        a[1] = a[0];
        a[0] = x.wrapping_add(y);
        assert(a@ =~= sha_round(prev, K@[i as int], m@[i as int]));
    }

    a[0] = a[0].wrapping_add(B[0]);
    a[1] = a[1].wrapping_add(B[1]);

    to_be64(a[0] as u64, little_endian) | (to_be64(a[1] as u64, little_endian) << 32)
}

/// The Voronoi seed hash of `seed` on this target. Which byte order the target has is
/// read from `u32::to_be`; the result is the hash for one of the two orders.
pub fn getVoronoiSHA(seed: u64) -> (r: u64)
    ensures
        r == voronoi_sha_value(seed, true) || r == voronoi_sha_value(seed, false),
{
    let little_endian = target_is_little_endian();
    voronoi_sha_in_order(seed, little_endian)
}

} // verus!

//! The integer parts of noise initialisation: the permutation table of a Perlin
//! octave, the seeds of the octaves of an octave noise, and the bookkeeping of a
//! double Perlin noise.

use vstd::prelude::*;
use crate::rng::{Xoroshiro, xNextInt, xNextLong, x_next_int_value, lemma_x_next_int_range, long_output, next_state};

verus! {

/// The permutation table and the generator state that the shuffle leaves, from state `s`
/// and partial table `t`, having swapped the entries before position `i`.
pub open spec fn perlin_shuffle(s: Xoroshiro, t: Seq<u8>, i: nat) -> (Xoroshiro, Seq<u8>)
    decreases 256 - i,
{
    if i >= 256 {
        (s, t)
    } else {
        let (s1, v) = x_next_int_value(s, (256 - i) as u32);
        let j = v + i;
        perlin_shuffle(s1, t.update(i as int, t[j]).update(j, t[i as int]), i + 1)
    }
}

proof fn lemma_perlin_shuffle_keeps_prefix(s: Xoroshiro, t: Seq<u8>, i: nat, p: int)
    requires
        t.len() == 256,
        i <= 256,
        0 <= p < i,
    ensures
        perlin_shuffle(s, t, i).1.len() == 256,
        perlin_shuffle(s, t, i).1[p] == t[p],
    decreases 256 - i,
{
    if i < 256 {
        let (s1, v) = x_next_int_value(s, (256 - i) as u32);
        lemma_x_next_int_range(s, (256 - i) as u32, 1);
        let j = v + i;
        let t2 = t.update(i as int, t[j]).update(j, t[i as int]);
        lemma_perlin_shuffle_keeps_prefix(s1, t2, i + 1, p);
    }
}

/// Step `i` of the shuffle draws `v` in `[0, 256 - i)` with bound `256 - i` and fixes
/// position `i` of the table to the entry at position `i + v` of the table before the
/// step; no later step moves it.
pub proof fn lemma_perlin_shuffle_step(s: Xoroshiro, t: Seq<u8>, i: nat)
    requires
        t.len() == 256,
        i < 256,
    ensures
        0 <= x_next_int_value(s, (256 - i) as u32).1 < 256 - i,
        perlin_shuffle(s, t, i).1[i as int] == t[i + x_next_int_value(s, (256 - i) as u32).1],
{
    let (s1, v) = x_next_int_value(s, (256 - i) as u32);
    lemma_x_next_int_range(s, (256 - i) as u32, 1);
    let j = v + i;
    let t2 = t.update(i as int, t[j]).update(j, t[i as int]);
    assert(t2[i as int] == t[j]);
    lemma_perlin_shuffle_keeps_prefix(s1, t2, i + 1, i as int);
}

/// The identity table on the 256 byte values.
pub open spec fn identity_table() -> Seq<u8> {
    Seq::new(256, |k: int| k as u8)
}

/// The permutation table of a Perlin octave seeded from state `s` (256 entries and a
/// copy of the first one), and the state that building it leaves.
pub open spec fn perlin_table(s: Xoroshiro) -> (Xoroshiro, Seq<u8>) {
    let (s1, t) = perlin_shuffle(s, identity_table(), 0);
    (s1, t.push(t[0]))
}

/// Builds the permutation table of a Perlin octave: the byte values in an order shuffled
/// by draws from `xr`, followed by a copy of the first entry.
pub fn xPerlinPermutation(xr: &mut Xoroshiro) -> (d: [u8; 257])
    ensures
        (*final(xr), d@) == perlin_table(*old(xr)),
        forall|k1: int, k2: int| 0 <= k1 < k2 < 256 ==> d[k1] != d[k2],
        forall|v: u8| #[trigger] d@.subrange(0, 256).contains(v),
        d[256] == d[0],
{
    let mut idx: [u8; 257] = [0; 257];
    for i in 0..256usize
        invariant
            forall|k: int| 0 <= k < i ==> idx[k] == k as u8,
    {
        idx[i] = i as u8;
    }
    let ghost s0 = *xr;
    let ghost mut pos: Seq<int> = Seq::new(256, |v: int| v);
    assert(idx@.subrange(0, 256) =~= identity_table());
    for i in 0..256u32
        invariant
            perlin_shuffle(s0, identity_table(), 0) == perlin_shuffle(
                *xr,
                idx@.subrange(0, 256),
                i as nat,
            ),
            pos.len() == 256,
            forall|k: int| 0 <= k < 256 ==> pos[idx[k] as int] == k,
            forall|v: int| 0 <= v < 256 ==> 0 <= #[trigger] pos[v] < 256 && idx[pos[v]] == v,
    {
        let ghost before = *xr;
        let ghost t = idx@.subrange(0, 256);
        proof {
            lemma_x_next_int_range(before, (256 - i) as u32, 1);
        }
        let j = xNextInt(xr, 256 - i) + i as i32;
        let n = idx[i as usize];
        let m = idx[j as usize];
        idx[i as usize] = m;
        idx[j as usize] = n;
        proof {
            assert(idx@.subrange(0, 256) =~= t.update(i as int, t[j as int]).update(
                j as int,
                t[i as int],
            ));
            pos = pos.update(n as int, j as int).update(m as int, i as int);
        }
    }
    idx[256] = idx[0];
    proof {
        assert(idx@.subrange(0, 256).push(idx[0]) =~= idx@);
        assert forall|v: u8| #[trigger] idx@.subrange(0, 256).contains(v) by {
            assert(idx@.subrange(0, 256)[pos[v as int]] == v);
        }
    }
    idx
}

/// Seed constants of the octaves (an MD5 digest each, by octave number).
pub const MD5_OCTAVE_N: [(u64, u64); 13] = [
    (0xb198de63a8012672, 0x7b84cad43ef7b5a8),
    (0x0fd787bfbc403ec3, 0x74a4a31ca21b48b8),
    (0x36d326eed40efeb2, 0x5be9ce18223c636a),
    (0x082fe255f8be6631, 0x4e96119e22dedc81),
    (0x0ef68ec68504005e, 0x48b6bf93a2789640),
    (0xf11268128982754f, 0x257a1d670430b0aa),
    (0xe51c98ce7d1de664, 0x5f9478a733040c45),
    (0x6d7b49e7e429850a, 0x2e3063c622a24777),
    (0xbd90d5377ba1b762, 0xc07317d419a7548d),
    (0x53d39c6752dac858, 0xbcd1c5a80ab65b3e),
    (0xb4a24d7a84e7677b, 0x023ff9668e89b5c4),
    (0xdffa22b534c5f608, 0xb9b67517d3665ca9),
    (0xd50708086cef4d7c, 0x6e1651ecc7f43309),
];

/// The amplitude indices, in order, of the octaves that an octave noise initialises:
/// scanning from index `i` below `len` with `n` octaves made so far, each active
/// (non-zero) amplitude gives an octave until `n` reaches `nmax`.
pub open spec fn octave_indices(active: Seq<bool>, len: int, nmax: int, i: int, n: int) -> Seq<int>
    decreases len - i,
{
    if i < len && n != nmax {
        if active[i] {
            seq![i].add(octave_indices(active, len, nmax, i + 1, n + 1))
        } else {
            octave_indices(active, len, nmax, i + 1, n)
        }
    } else {
        seq![]
    }
}

/// The amplitude index at which the scan of an octave noise stops (from index `i` with `n`
/// octaves made); the scan reads the activity of every amplitude below it.
pub open spec fn octave_scan_end(active: Seq<bool>, len: int, nmax: int, i: int, n: int) -> int
    decreases len - i,
{
    if i < len && n != nmax {
        if active[i] {
            octave_scan_end(active, len, nmax, i + 1, n + 1)
        } else {
            octave_scan_end(active, len, nmax, i + 1, n)
        }
    } else {
        i
    }
}

proof fn lemma_octave_scan_end_ge(active: Seq<bool>, len: int, nmax: int, i: int, n: int)
    ensures
        octave_scan_end(active, len, nmax, i, n) >= i,
        i < len && n != nmax ==> octave_scan_end(active, len, nmax, i, n) > i,
    decreases len - i,
{
    if i < len && n != nmax {
        lemma_octave_scan_end_ge(active, len, nmax, i + 1, n + 1);
        lemma_octave_scan_end_ge(active, len, nmax, i + 1, n);
    }
}

/// The generator state of the octave with octave number `octave` (from -12 to 0), given
/// the two words drawn for the octave noise.
pub open spec fn octave_state(xlo: u64, xhi: u64, octave: int) -> Xoroshiro {
    Xoroshiro { lo: xlo ^ MD5_OCTAVE_N@[12 + octave].0, hi: xhi ^ MD5_OCTAVE_N@[12 + octave].1 }
}

/// The state of an octave is the two words drawn for the octave noise, each xored with
/// the digest of that octave's number: the word pair of entry `12 + octave` of the
/// table, whatever the drawn words are.
pub proof fn lemma_octave_state_xor(xlo: u64, xhi: u64, octave: int)
    requires
        -12 <= octave <= 0,
    ensures
        octave_state(xlo, xhi, octave).lo == xlo ^ MD5_OCTAVE_N@[12 + octave].0,
        octave_state(xlo, xhi, octave).hi == xhi ^ MD5_OCTAVE_N@[12 + octave].1,
        octave_state(xlo, xhi, octave).lo == xlo ^ octave_state(0, 0, octave).lo,
        octave_state(xlo, xhi, octave).hi == xhi ^ octave_state(0, 0, octave).hi,
{
    let a: u64 = MD5_OCTAVE_N@[12 + octave].0;
    let b: u64 = MD5_OCTAVE_N@[12 + octave].1;
    assert(0u64 ^ a == a) by (bit_vector);
    assert(0u64 ^ b == b) by (bit_vector);
}

/// The digest that seeds each octave number from -12 to 0: with both drawn words zero,
/// the state of the octave is the MD5 digest of its name, as two words.
pub proof fn lemma_octave_state_digests()
    ensures
        octave_state(0, 0, -12) == (Xoroshiro { lo: 0xb198de63a8012672, hi: 0x7b84cad43ef7b5a8 }),
        octave_state(0, 0, -11) == (Xoroshiro { lo: 0x0fd787bfbc403ec3, hi: 0x74a4a31ca21b48b8 }),
        octave_state(0, 0, -10) == (Xoroshiro { lo: 0x36d326eed40efeb2, hi: 0x5be9ce18223c636a }),
        octave_state(0, 0, -9) == (Xoroshiro { lo: 0x082fe255f8be6631, hi: 0x4e96119e22dedc81 }),
        octave_state(0, 0, -8) == (Xoroshiro { lo: 0x0ef68ec68504005e, hi: 0x48b6bf93a2789640 }),
        octave_state(0, 0, -7) == (Xoroshiro { lo: 0xf11268128982754f, hi: 0x257a1d670430b0aa }),
        octave_state(0, 0, -6) == (Xoroshiro { lo: 0xe51c98ce7d1de664, hi: 0x5f9478a733040c45 }),
        octave_state(0, 0, -5) == (Xoroshiro { lo: 0x6d7b49e7e429850a, hi: 0x2e3063c622a24777 }),
        octave_state(0, 0, -4) == (Xoroshiro { lo: 0xbd90d5377ba1b762, hi: 0xc07317d419a7548d }),
        octave_state(0, 0, -3) == (Xoroshiro { lo: 0x53d39c6752dac858, hi: 0xbcd1c5a80ab65b3e }),
        octave_state(0, 0, -2) == (Xoroshiro { lo: 0xb4a24d7a84e7677b, hi: 0x023ff9668e89b5c4 }),
        octave_state(0, 0, -1) == (Xoroshiro { lo: 0xdffa22b534c5f608, hi: 0xb9b67517d3665ca9 }),
        octave_state(0, 0, 0) == (Xoroshiro { lo: 0xd50708086cef4d7c, hi: 0x6e1651ecc7f43309 }),
{
    assert forall|x: u64| 0u64 ^ x == x by {
        assert(0u64 ^ x == x) by (bit_vector);
    }
}

proof fn lemma_octave_indices_bounds(active: Seq<bool>, len: int, nmax: int, i: int, n: int)
    requires
        0 <= i,
    ensures
        forall|k: int|
            0 <= k < octave_indices(active, len, nmax, i, n).len() ==> i <= #[trigger] octave_indices(
                active,
                len,
                nmax,
                i,
                n,
            )[k] < len,
        octave_indices(active, len, nmax, i, n).len() <= if len > i { len - i } else { 0 },
    decreases len - i,
{
    if i < len && n != nmax {
        lemma_octave_indices_bounds(active, len, nmax, i + 1, n + 1);
        lemma_octave_indices_bounds(active, len, nmax, i + 1, n);
    }
}

/// Draws the two words of an octave noise from `xr` and gives, for each octave that it
/// initialises, the amplitude index and the generator state of that octave. Amplitudes
/// are given by whether they are non-zero (`active`).
pub fn xOctaveSeeds(xr: &mut Xoroshiro, active: &[bool], omin: i32, len: i32, nmax: i32) -> (seeds: Vec<(usize, Xoroshiro)>)
    requires
        -12 <= omin <= 0,
        0 <= len < 10,
        octave_scan_end(active@, len as int, nmax as int, 0, 0) <= active.len(),
        forall|k: int|
            0 <= k < octave_indices(active@, len as int, nmax as int, 0, 0).len()
                ==> omin + #[trigger] octave_indices(active@, len as int, nmax as int, 0, 0)[k] <= 0,
    ensures
        *final(xr) == next_state(next_state(*old(xr))),
        seeds.len() == octave_indices(active@, len as int, nmax as int, 0, 0).len(),
        forall|k: int|
            0 <= k < seeds.len() ==> {
                &&& seeds[k].0 as int == octave_indices(active@, len as int, nmax as int, 0, 0)[k]
                &&& seeds[k].1 == octave_state(
                    long_output(*old(xr)),
                    long_output(next_state(*old(xr))),
                    omin + octave_indices(active@, len as int, nmax as int, 0, 0)[k],
                )
                &&& seeds[k].1.lo == long_output(*old(xr)) ^ MD5_OCTAVE_N@[12 + omin
                    + octave_indices(active@, len as int, nmax as int, 0, 0)[k]].0
                &&& seeds[k].1.hi == long_output(next_state(*old(xr))) ^ MD5_OCTAVE_N@[12 + omin
                    + octave_indices(active@, len as int, nmax as int, 0, 0)[k]].1
            },
{
    let ghost full = octave_indices(active@, len as int, nmax as int, 0, 0);
    let xlo = xNextLong(xr);
    let xhi = xNextLong(xr);
    let mut seeds: Vec<(usize, Xoroshiro)> = Vec::new();
    let mut i: i32 = 0;
    let mut n: i32 = 0;
    let ghost mut done: Seq<int> = seq![];
    proof {
        lemma_octave_indices_bounds(active@, len as int, nmax as int, 0, 0);
        assert(full =~= done + octave_indices(active@, len as int, nmax as int, 0, 0));
    }

    while i < len && n != nmax
        invariant
            -12 <= omin <= 0,
            0 <= len < 10,
            octave_scan_end(active@, len as int, nmax as int, i as int, n as int)
                == octave_scan_end(active@, len as int, nmax as int, 0, 0),
            octave_scan_end(active@, len as int, nmax as int, 0, 0) <= active.len(),
            0 <= i <= len,
            n as int == done.len(),
            n <= i,
            seeds.len() == done.len(),
            full == octave_indices(active@, len as int, nmax as int, 0, 0),
            full == done + octave_indices(active@, len as int, nmax as int, i as int, n as int),
            forall|k: int| 0 <= k < full.len() ==> omin + #[trigger] full[k] <= 0,
            forall|k: int|
                0 <= k < seeds.len() ==> {
                    &&& seeds[k].0 as int == done[k]
                    &&& seeds[k].1 == octave_state(xlo, xhi, omin + done[k])
                },
        decreases len - i,
    {
        proof {
            lemma_octave_scan_end_ge(active@, len as int, nmax as int, i as int, n as int);
        }
        if !active[i as usize] {
            i += 1;
            continue;
        }
        proof {
            assert(full[done.len() as int] == i);
        }
        let k = (12 + omin + i) as usize;
        let pxr = Xoroshiro { lo: xlo ^ MD5_OCTAVE_N[k].0, hi: xhi ^ MD5_OCTAVE_N[k].1 };
        seeds.push((i as usize, pxr));
        proof {
            let rest = octave_indices(active@, len as int, nmax as int, i as int + 1, n as int + 1);
            assert(done + seq![i as int] + rest =~= done + (seq![i as int] + rest));
            done = done.push(i as int);
        }
        n += 1;
        i += 1;
    }
    proof {
        assert(full =~= done);
    }
    seeds
}

/// How many octaves an octave noise of a double Perlin noise may have when at most
/// `nmax` octaves are wanted in all: the first gets the larger half. A non-positive
/// `nmax` leaves both unlimited (`-1`).
pub fn double_perlin_octave_split(nmax: i32) -> (r: (i32, i32))
    requires
        nmax < i32::MAX,
    ensures
        nmax > 0 ==> r.0 == (nmax + 1) / 2 && r.1 == nmax - r.0,
        nmax <= 0 ==> r == (-1i32, -1i32),
{
    let mut na: i32 = -1;
    let mut nb: i32 = -1;

    if nmax > 0 {
        let s: i32 = nmax + 1;
        assert(s >> 1i32 == s / 2) by (bit_vector)
            requires
                s > 0,
        ;
        na = (nmax + 1) >> 1;
        nb = nmax - na;
    }
    (na, nb)
}

/// The number of inactive amplitudes at the end of the first `len`.
pub open spec fn trailing_inactive(active: Seq<bool>, len: nat) -> nat
    decreases len,
{
    if len == 0 || active[len - 1] {
        0
    } else {
        1 + trailing_inactive(active, (len - 1) as nat)
    }
}

/// The number of inactive amplitudes at the start of the first `len`, counting from `i`.
pub open spec fn leading_inactive(active: Seq<bool>, i: nat, len: nat) -> nat
    decreases len - i,
{
    if i < len && !active[i as int] {
        1 + leading_inactive(active, i + 1, len)
    } else {
        0
    }
}

proof fn lemma_trailing_none(active: Seq<bool>, len: nat)
    requires
        forall|i: int| 0 <= i < len ==> !active[i],
    ensures
        trailing_inactive(active, len) == len,
    decreases len,
{
    if len > 0 {
        lemma_trailing_none(active, (len - 1) as nat);
    }
}

proof fn lemma_trailing_last(active: Seq<bool>, len: nat, l: int)
    requires
        0 <= l < len,
        active[l],
        forall|i: int| l < i < len ==> !active[i],
    ensures
        trailing_inactive(active, len) == len - 1 - l,
    decreases len,
{
    if len - 1 > l {
        lemma_trailing_last(active, (len - 1) as nat, l);
    }
}

proof fn lemma_leading_first(active: Seq<bool>, i: nat, m: nat, f: int)
    requires
        i <= f < m,
        active[f],
        forall|k: int| i <= k < f ==> !active[k],
    ensures
        leading_inactive(active, i, m) == f - i,
    decreases f - i,
{
    if i < f {
        lemma_leading_first(active, i + 1, m, f);
    }
}

/// The span of the first `len` amplitudes from the first active one to the last active
/// one: `l - f + 1` where `f` and `l` are the first and the last active index below
/// `len`, and 0 when none is active.
pub fn double_perlin_amplitude_span(active: &[bool], len: usize) -> (r: usize)
    requires
        len <= active.len(),
    ensures
        (forall|i: int| 0 <= i < len ==> !active[i]) ==> r == 0,
        forall|f: int, l: int|
            0 <= f <= l < len && #[trigger] active[f] && #[trigger] active[l] && (forall|i: int|
                0 <= i < f ==> !active[i]) && (forall|i: int| l < i < len ==> !active[i])
                ==> r == l - f + 1,
{
    let mut len = len;
    let ghost len0 = len;
    let mut i: usize = len;
    let mut stop = false;
    while i > 0 && !stop
        invariant
            len0 <= active.len(),
            i <= len0,
            len <= len0,
            trailing_inactive(active@, len0 as nat) == (len0 - len) + trailing_inactive(
                active@,
                len as nat,
            ),
            !stop ==> len == i,
            stop ==> len == i + 1 && active[i as int],
        decreases i,
    {
        i -= 1;
        if !active[i] {
            len -= 1;
        } else {
            stop = true;
        }
    }
    let ghost len1 = len;
    assert(trailing_inactive(active@, len as nat) == 0);
    let mut i: usize = 0;
    let end = len;
    let mut stop = false;
    while i < end && !stop
        invariant
            end == len1,
            len1 <= active.len(),
            i <= end,
            !stop ==> len == len1 - i && leading_inactive(active@, 0, len1 as nat) == i
                + leading_inactive(active@, i as nat, len1 as nat),
            stop ==> len == len1 - i && leading_inactive(active@, 0, len1 as nat) == i,
        decreases end - i + (if stop { 0int } else { 1int }),
    {
        if !active[i] {
            len -= 1;
            i += 1;
        } else {
            stop = true;
        }
    }
    proof {
        if forall|i: int| 0 <= i < len0 ==> !active[i] {
            lemma_trailing_none(active@, len0 as nat);
        }
        assert forall|f: int, l: int|
            0 <= f <= l < len0 && #[trigger] active[f] && #[trigger] active[l] && (forall|i: int|
                0 <= i < f ==> !active[i]) && (forall|i: int| l < i < len0 ==> !active[i])
                implies len == l - f + 1 by {
            lemma_trailing_last(active@, len0 as nat, l);
            lemma_leading_first(active@, 0, (l + 1) as nat, f);
        }
    }
    len
}

/// Whether an octave noise can be made from these amplitudes: its scan reads no
/// amplitude past the end of `active`, and every octave that it initialises has an
/// octave number within the seed table (`omin` plus its amplitude index is at most 0).
pub fn octave_seeds_in_table(active: &[bool], omin: i32, len: i32, nmax: i32) -> (ok: bool)
    requires
        -12 <= omin <= 0,
        0 <= len < 10,
    ensures
        ok == (octave_scan_end(active@, len as int, nmax as int, 0, 0) <= active.len()
            && forall|k: int|
            0 <= k < octave_indices(active@, len as int, nmax as int, 0, 0).len() ==> omin
                + #[trigger] octave_indices(active@, len as int, nmax as int, 0, 0)[k] <= 0),
{
    let ghost full = octave_indices(active@, len as int, nmax as int, 0, 0);
    let ghost end = octave_scan_end(active@, len as int, nmax as int, 0, 0);
    let mut i: i32 = 0;
    let mut n: i32 = 0;
    let ghost mut done: Seq<int> = seq![];
    proof {
        lemma_octave_indices_bounds(active@, len as int, nmax as int, 0, 0);
        assert(full =~= done + octave_indices(active@, len as int, nmax as int, 0, 0));
    }
    while i < len && n != nmax
        invariant
            -12 <= omin <= 0,
            0 <= len < 10,
            0 <= i <= len,
            i <= active.len(),
            n as int == done.len(),
            n <= i,
            end == octave_scan_end(active@, len as int, nmax as int, 0, 0),
            end == octave_scan_end(active@, len as int, nmax as int, i as int, n as int),
            full == octave_indices(active@, len as int, nmax as int, 0, 0),
            full == done + octave_indices(active@, len as int, nmax as int, i as int, n as int),
            forall|k: int| 0 <= k < done.len() ==> omin + #[trigger] done[k] <= 0,
        decreases len - i,
    {
        proof {
            lemma_octave_scan_end_ge(active@, len as int, nmax as int, i as int, n as int);
        }
        if i as usize >= active.len() {
            return false;
        }
        if !active[i as usize] {
            i += 1;
            continue;
        }
        if omin + i > 0 {
            proof {
                assert(full[done.len() as int] == i);
            }
            return false;
        }
        proof {
            let rest = octave_indices(active@, len as int, nmax as int, i as int + 1, n as int + 1);
            assert(done + seq![i as int] + rest =~= done + (seq![i as int] + rest));
            done = done.push(i as int);
        }
        n += 1;
        i += 1;
    }
    proof {
        assert(full =~= done);
    }
    true
}

proof fn lemma_octave_indices_shape(active: Seq<bool>, len: int, nmax: int, i: int, n: int)
    requires
        0 <= i,
        0 <= n,
        nmax >= 0 ==> n <= nmax,
    ensures
        nmax >= 0 ==> octave_indices(active, len, nmax, i, n).len() <= nmax - n,
        forall|k: int|
            0 <= k < octave_indices(active, len, nmax, i, n).len() ==> {
                &&& i <= #[trigger] octave_indices(active, len, nmax, i, n)[k] < len
                &&& active[octave_indices(active, len, nmax, i, n)[k]]
            },
        forall|k1: int, k2: int|
            0 <= k1 < k2 < octave_indices(active, len, nmax, i, n).len() ==> #[trigger] octave_indices(
                active,
                len,
                nmax,
                i,
                n,
            )[k1] < #[trigger] octave_indices(active, len, nmax, i, n)[k2],
    decreases len - i,
{
    if i < len && n != nmax {
        if active[i] {
            lemma_octave_indices_shape(active, len, nmax, i + 1, n + 1);
            let rest = octave_indices(active, len, nmax, i + 1, n + 1);
            let cur = octave_indices(active, len, nmax, i, n);
            assert(cur == seq![i].add(rest));
            assert forall|k: int| 0 <= k < cur.len() implies i <= #[trigger] cur[k] < len
                && active[cur[k]] by {
                if k > 0 {
                    assert(cur[k] == rest[k - 1]);
                }
            }
            assert forall|k1: int, k2: int| 0 <= k1 < k2 < cur.len() implies #[trigger] cur[k1]
                < #[trigger] cur[k2] by {
                assert(cur[k2] == rest[k2 - 1]);
                if k1 > 0 {
                    assert(cur[k1] == rest[k1 - 1]);
                }
            }
        } else {
            lemma_octave_indices_shape(active, len, nmax, i + 1, n);
            assert(octave_indices(active, len, nmax, i, n) == octave_indices(
                active,
                len,
                nmax,
                i + 1,
                n,
            ));
        }
    } else {
        assert(octave_indices(active, len, nmax, i, n).len() == 0);
    }
}

/// The octaves that an octave noise makes come from active amplitudes below `len`, in
/// increasing order of amplitude index, and there are at most `nmax` of them when `nmax`
/// is not negative.
pub proof fn lemma_octave_indices_law(active: Seq<bool>, len: int, nmax: int)
    ensures
        nmax >= 0 ==> octave_indices(active, len, nmax, 0, 0).len() <= nmax,
        forall|k: int|
            0 <= k < octave_indices(active, len, nmax, 0, 0).len() ==> {
                &&& 0 <= #[trigger] octave_indices(active, len, nmax, 0, 0)[k] < len
                &&& active[octave_indices(active, len, nmax, 0, 0)[k]]
            },
        forall|k1: int, k2: int|
            0 <= k1 < k2 < octave_indices(active, len, nmax, 0, 0).len() ==> #[trigger] octave_indices(
                active,
                len,
                nmax,
                0,
                0,
            )[k1] < #[trigger] octave_indices(active, len, nmax, 0, 0)[k2],
{
    lemma_octave_indices_shape(active, len, nmax, 0, 0);
}

} // verus!

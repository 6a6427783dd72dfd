//! The generator's seed state: version, dimension, flags, seed and seed hash.

use vstd::prelude::*;
use crate::biomes::{Dimension, dimension_id};
use crate::layers::getVoronoiSHA;

verus! {

/// Flags that change how a generator behaves.
#[allow(non_camel_case_types)]
#[derive(Clone, Copy, Debug, PartialEq, Eq, Structural)]
pub enum GeneratorFlag {
    LARGE_BIOMES,
    NO_BETA_OCEAN,
    FORCE_OCEAN_VARIANTS,
}

/// The bit of a generator flag.
pub open spec fn generator_flag_bit(f: GeneratorFlag) -> u32 {
    match f {
        GeneratorFlag::LARGE_BIOMES => 1u32,
        GeneratorFlag::NO_BETA_OCEAN => 2u32,
        GeneratorFlag::FORCE_OCEAN_VARIANTS => 4u32,
    }
}

impl GeneratorFlag {
    /// The bit of this flag.
    pub fn value(&self) -> (r: u32)
        ensures
            r == generator_flag_bit(*self),
    {
        match *self {
            GeneratorFlag::LARGE_BIOMES => 1,
            GeneratorFlag::NO_BETA_OCEAN => 2,
            GeneratorFlag::FORCE_OCEAN_VARIANTS => 4,
        }
    }
}

/// The integer state of a generator: game version, dimension, flags, world seed and the
/// hash of the seed that the Voronoi zoom uses.
#[derive(Clone, Copy, Debug, PartialEq, Eq, Structural)]
pub struct Generator {
    pub mc: i32,
    pub dim: i32,
    pub flags: u32,
    pub seed: u64,
    pub sha: u64,
}

/// Sets up a generator for game version `mc` with the given flags: the dimension is
/// left undefined and the seed and its hash at zero. The generator is taken by value, so
/// the set-up copy ends with the call and the caller's generator is not changed.
pub fn setupGenerator(mut g: Generator, mc: i32, flags: u32) {
    g.mc = mc;
    g.dim = Dimension::DIM_UNDEF.value();
    g.flags = flags;
    g.seed = 0;
    g.sha = 0;
}

/// Applies a world seed for a dimension to a generator taken by value: its copy gets the
/// dimension, the seed and the seed's hash, and ends with the call. Returns `Some(large)`
/// when the dimension is the overworld, whose biome noise is then to be seeded, where
/// `large` is the large-biomes bit of the generator's flags; `None` for every other
/// dimension.
pub fn applySeed(mut g: Generator, dim: i32, seed: u64) -> (seed_biomes: Option<i32>)
    ensures
        seed_biomes == (if dim == dimension_id(Dimension::DIM_OVERWORLD) {
            Some((g.flags & generator_flag_bit(GeneratorFlag::LARGE_BIOMES)) as i32)
        } else {
            None
        }),
{
    g.dim = dim;
    g.seed = seed;
    g.sha = 0;

    let mut seed_biomes = None;
    if dim == Dimension::DIM_OVERWORLD.value() {
        seed_biomes = Some((g.flags & GeneratorFlag::LARGE_BIOMES.value()) as i32);
    }

    g.sha = getVoronoiSHA(seed);
    seed_biomes
}

} // verus!

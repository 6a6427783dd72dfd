//! Parameters of the climate noises and a range of positions.

use vstd::prelude::*;
use crate::rng::Xoroshiro;

verus! {

/// A cuboid range of positions at a given scale.
#[derive(Clone, Copy, Debug, PartialEq, Eq, Structural)]
pub struct Range {
    pub scale: i32,
    pub x: i32,
    pub z: i32,
    pub sx: i32,
    pub sz: i32,
    pub y: i32,
    pub sy: i32,
}

/// The climate noise parameters.
#[allow(non_camel_case_types)]
#[derive(Clone, Copy, Debug, PartialEq, Eq, Structural)]
pub enum NoiseParameter {
    NP_Temperature,
    NP_Humidity,
    NP_Continentalness,
    NP_Erosion,
    NP_Shift,
    NP_Depth,
    NP_Weirdness,
}

/// The number of climate noises.
pub const NP_MAX: usize = 6;

/// The index of a climate parameter among the climate noises; depth shares the noise of
/// the shift.
pub open spec fn noise_parameter_index(p: NoiseParameter) -> usize {
    match p {
        NoiseParameter::NP_Temperature => 0usize,
        NoiseParameter::NP_Humidity => 1usize,
        NoiseParameter::NP_Continentalness => 2usize,
        NoiseParameter::NP_Erosion => 3usize,
        NoiseParameter::NP_Shift => 4usize,
        NoiseParameter::NP_Depth => 4usize,
        NoiseParameter::NP_Weirdness => 5usize,
    }
}

impl NoiseParameter {
    /// The index of this parameter among the climate noises.
    pub fn value(&self) -> (r: usize)
        ensures
            r == noise_parameter_index(*self),
            r < NP_MAX,
    {
        match *self {
            NoiseParameter::NP_Temperature => 0,
            NoiseParameter::NP_Humidity => 1,
            NoiseParameter::NP_Continentalness => 2,
            NoiseParameter::NP_Erosion => 3,
            NoiseParameter::NP_Shift => 4,
            NoiseParameter::NP_Depth => 4,
            NoiseParameter::NP_Weirdness => 5,
        }
    }
}

/// The parameters along which a spline varies.
#[allow(non_camel_case_types)]
#[derive(Clone, Copy, Debug, PartialEq, Eq, Structural)]
pub enum SplineParameter {
    SP_CONTINENTALNESS,
    SP_EROSION,
    SP_RIDGES,
    SP_WEIRDNESS,
}

impl SplineParameter {
    /// The type code of this parameter; every parameter has the code 0.
    pub fn value(&self) -> (r: i32)
        ensures
            r == 0,
    {
        match *self {
            SplineParameter::SP_CONTINENTALNESS => 0,
            SplineParameter::SP_EROSION => 0,
            SplineParameter::SP_RIDGES => 0,
            SplineParameter::SP_WEIRDNESS => 0,
        }
    }
}

/// The generator state of the offset climate noise (MD5 of "minecraft:offset"), from the
/// two words drawn from the biome seed.
pub fn offset_noise_state(xlo: u64, xhi: u64) -> (s: Xoroshiro)
    ensures
        s == (Xoroshiro { lo: xlo ^ 0x080518cf6af25384u64, hi: xhi ^ 0x3f3dfb40a54febd5u64 }),
{
    Xoroshiro { lo: xlo ^ 0x080518cf6af25384, hi: xhi ^ 0x3f3dfb40a54febd5 }
}

} // verus!

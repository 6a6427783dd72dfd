//! Seeded world-generation primitives: the random number generators, the
//! Voronoi SHA-256 seed hash, dimensions and generator flags, verified with Verus.

pub mod period;
pub mod rng;
pub mod layers;
pub mod biomes;
pub mod generator;
pub mod noise;
pub mod biomenoise;

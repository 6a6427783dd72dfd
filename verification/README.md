# World-generation seeding primitives, verified with Verus

`src/` is the verified library (crate `lib`):

- `rng.rs` — the xoroshiro generator (`xSetSeed`, `xNextLong`, `xNextInt`), the 48-bit
  linear congruential generator (`next`, `nextInt`) and `rotr32`, each with a contract
  that states its result exactly.
- `period.rs` — the generator step as a function on integers and the proof that it has
  full period: from any state every state is reached within 2^48 steps; `nextInt`'s
  rejection loop terminates by it.
- `layers.rs` — the SHA-256 based seed hash of the Voronoi zoom (`getVoronoiSHA`).
- `noise.rs` — the integer side of noise set-up: the Perlin permutation table (proved a
  permutation), the seeds of the octaves, the split and span of a double Perlin noise.
- `biomes.rs`, `generator.rs`, `biomenoise.rs` — dimensions, generator flags and the
  generator's seed state, climate and spline parameters.

`app/` holds the floating-point side (Perlin octaves, climate noises, terrain splines);
it calls the library for the generators, the octave seeds and tables, and the generator
state, and keeps the small integer steps that stand among float code (the climate
dispatch, the spline stack counters). `tests/` runs the library on
concrete values.

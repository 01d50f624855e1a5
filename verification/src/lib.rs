//! The integer core of a Minecraft dungeon seed cracker: the Java LCG and
//! its affine-power model, the runtime's random generators, floor tile
//! parsing with mutable-unknown expansion, population-seed reversal, and the
//! structure-seed to world-seed conversion that inverts `nextLong`.
//!
//! The exact-rational lattice engine the full cracker also needs (LLL basis
//! reduction, simplex pruning, bounded enumeration) is not part of this
//! crate.

/// Masks, powers of two, and modular inverses over machine integers.
pub mod mth;
/// Linear congruential generator parameters and their affine-power model.
pub mod lcg;
/// A generator state bound to one LCG, mirroring the runtime generator.
pub mod rand;
/// The Java `Random` equivalent used for world-generation simulation.
pub mod jrand;
/// Chunk-local random source and version-dependent population seeds.
pub mod chunk_rand;
/// Hensel lifting for population-seed reversal.
pub mod hensel;
/// Structure-seed to world-seed conversion by reversing `nextLong`.
pub mod next_long_reverser;
/// Population-seed to structure-seed reversal.
pub mod population_reverser;
/// Reverser instructions derived from floor tiles.
pub mod reverser_instruction;
/// Floor tile sequence parsing and mutable-unknown expansion.
pub mod dungeon_data_parser;
/// Filtered skips: predicate checks on candidate states.
pub mod filtered_skip;
/// Floor geometry, biome salts, and the crack result shape.
pub mod reverse_dungeon;
/// The trusted boundary to arbitrary-precision integers.
pub mod bigint;
/// Exact rationals in reduced form.
pub mod big_fraction;
/// Dense vectors of exact rationals.
pub mod big_vector;
/// Dense matrices of exact rationals.
pub mod big_matrix;
/// Exact matrix inversion with a verified product check.
pub mod lu_decomposition;


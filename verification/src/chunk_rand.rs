use vstd::prelude::*;
use crate::jrand::{JRand, jstep, jnext_long};
use crate::rand::scramble;

verus! {

/// Minecraft version (relevant to the population seed formula).
#[derive(Clone, Copy, Debug, PartialEq, Eq, Structural)]
pub enum MCVersion {
    V1_8,
    V1_9,
    V1_10,
    V1_11,
    V1_12,
    V1_13,
    V1_14,
    V1_15,
    V1_16,
    V1_17,
}

impl MCVersion {
    /// Position of this version in the total order.
    pub open spec fn ordinal_spec(&self) -> u8 {
        match self {
            MCVersion::V1_8 => 0,
            MCVersion::V1_9 => 1,
            MCVersion::V1_10 => 2,
            MCVersion::V1_11 => 3,
            MCVersion::V1_12 => 4,
            MCVersion::V1_13 => 5,
            MCVersion::V1_14 => 6,
            MCVersion::V1_15 => 7,
            MCVersion::V1_16 => 8,
            MCVersion::V1_17 => 9,
        }
    }

    fn ordinal(&self) -> (r: u8)
        ensures
            r == self.ordinal_spec(),
    {
        match self {
            MCVersion::V1_8 => 0,
            MCVersion::V1_9 => 1,
            MCVersion::V1_10 => 2,
            MCVersion::V1_11 => 3,
            MCVersion::V1_12 => 4,
            MCVersion::V1_13 => 5,
            MCVersion::V1_14 => 6,
            MCVersion::V1_15 => 7,
            MCVersion::V1_16 => 8,
            MCVersion::V1_17 => 9,
        }
    }

    pub fn is_older_than(&self, other: MCVersion) -> (r: bool)
        ensures
            r == (self.ordinal_spec() < other.ordinal_spec()),
    {
        self.ordinal() < other.ordinal()
    }

    pub fn is_newer_than(&self, other: MCVersion) -> (r: bool)
        ensures
            r == (self.ordinal_spec() > other.ordinal_spec()),
    {
        self.ordinal() > other.ordinal()
    }

    pub fn is_between(&self, lower: MCVersion, upper: MCVersion) -> (r: bool)
        ensures
            r == (lower.ordinal_spec() <= self.ordinal_spec() <= upper.ordinal_spec()),
    {
        self.ordinal() >= lower.ordinal() && self.ordinal() <= upper.ordinal()
    }
}

/// Force a value odd: `n | 1`, the 1.13+ form.
pub open spec fn sigma_post13(n: i64) -> i64 {
    n | 1i64
}

/// Force a value odd: `n/2*2 + 1` with truncating division, the pre-1.13 form.
pub open spec fn sigma_pre13(n: i64) -> i64 {
    (trunc_half(n) * 2 + 1) as i64
}

/// Truncating division of an `i64` by 2, as a mathematical integer.
pub open spec fn trunc_half(n: i64) -> int {
    if n >= 0 {
        (n as int) / 2
    } else {
        -((-(n as int)) / 2)
    }
}

/// The population seed the runtime derives for chunk corner `(x, z)` and a
/// given world seed, before the final 48-bit mask.
#[verifier::opaque]
pub open spec fn population_seed_raw(world_seed: i64, x: i32, z: i32, version: MCVersion) -> i64 {
    let s0 = scramble(world_seed);
    let a_raw = jnext_long(s0);
    let s2 = jstep(jstep(s0));
    let b_raw = jnext_long(s2);
    let a = if version.ordinal_spec() < 5 { sigma_pre13(a_raw) } else { sigma_post13(a_raw) };
    let b = if version.ordinal_spec() < 5 { sigma_pre13(b_raw) } else { sigma_post13(b_raw) };
    vstd::wrapping::i64_specs::wrapping_add(
        vstd::wrapping::i64_specs::wrapping_mul(x as i64, a),
        vstd::wrapping::i64_specs::wrapping_mul(z as i64, b),
    ) ^ world_seed
}

/// The masked population seed.
pub open spec fn population_seed_of(world_seed: i64, x: i32, z: i32, version: MCVersion) -> i64 {
    population_seed_raw(world_seed, x, z, version) & 0xFFFF_FFFF_FFFFi64
}

/// Chunk-local random source: wraps a `JRand` and derives population and
/// decorator seeds from world seeds and chunk coordinates.
#[derive(Clone, Copy, Debug)]
pub struct ChunkRand {
    pub jrand: JRand,
}

impl ChunkRand {
    pub fn new() -> (r: ChunkRand)
        ensures
            r.jrand.seed == 0,
    {
        let j = JRand::of_internal_seed(0);
        proof {
            assert(0i64 & 0xFFFF_FFFF_FFFFi64 == 0) by (bit_vector);
        }
        ChunkRand { jrand: j }
    }

    /// Derive the population seed for the chunk block-corner `(x, z)`,
    /// leaving the generator seeded with it, and return it masked to 48 bits.
    pub fn set_population_seed(&mut self, world_seed: i64, x: i32, z: i32, version: MCVersion) -> (r: i64)
        ensures
            r == population_seed_of(world_seed, x, z, version),
            final(self).jrand.seed == scramble(population_seed_raw(world_seed, x, z, version)),
            0 <= r < 0x1_0000_0000_0000i64,
    {
        proof {
            reveal(population_seed_raw);
        }
        self.jrand.set_seed(world_seed, true);
        let a: i64;
        let b: i64;

        if version.is_older_than(MCVersion::V1_13) {
            let a_raw = self.jrand.next_long();
            let b_raw = self.jrand.next_long();
            a = a_raw / 2 * 2 + 1;
            b = b_raw / 2 * 2 + 1;
            proof {
                lemma_sigma_pre13_fits(a_raw);
                lemma_sigma_pre13_fits(b_raw);
            }
        } else {
            a = self.jrand.next_long() | 1;
            b = self.jrand.next_long() | 1;
        }

        let seed = (x as i64).wrapping_mul(a).wrapping_add((z as i64).wrapping_mul(b)) ^ world_seed;
        self.jrand.set_seed(seed, true);
        proof {
            lemma_mask48_nonneg(seed);
        }
        seed & crate::mth::MASK_48
    }

    /// Derive the decorator seed (1.13+): population seed plus the salt.
    pub fn set_decorator_seed(&mut self, population_seed: i64, salt: i32, _version: MCVersion) -> (r: i64)
        ensures
            r == vstd::wrapping::i64_specs::wrapping_add(population_seed, salt as i64)
                & 0xFFFF_FFFF_FFFFi64,
            final(self).jrand.seed == scramble(
                vstd::wrapping::i64_specs::wrapping_add(population_seed, salt as i64),
            ),
            0 <= r < 0x1_0000_0000_0000i64,
    {
        let seed = population_seed.wrapping_add(salt as i64);
        self.jrand.set_seed(seed, true);
        proof {
            lemma_mask48_nonneg(seed);
        }
        seed & crate::mth::MASK_48
    }
}

proof fn lemma_mask48_nonneg(v: i64)
    by (bit_vector)
    ensures
        0 <= v & 0xFFFF_FFFF_FFFFi64 < 0x1_0000_0000_0000i64,
{
}

/// `n/2*2 + 1` neither overflows nor leaves i64 range.
pub proof fn lemma_sigma_pre13_fits(n: i64)
    ensures
        -0x8000_0000_0000_0000 <= trunc_half(n) * 2 + 1 <= 0x7FFF_FFFF_FFFF_FFFF,
        sigma_pre13(n) == trunc_half(n) * 2 + 1,
{
    if n >= 0 {
        assert((n as int) / 2 * 2 <= n as int);
        assert((n as int) / 2 >= 0);
    } else {
        assert((-(n as int)) / 2 * 2 <= -(n as int));
        assert((-(n as int)) / 2 >= 0);
    }
}

} // verus!

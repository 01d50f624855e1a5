use vstd::prelude::*;
use crate::lcg::{LCG, affine_apply, affine_pow, java_f, java_next};
use crate::mth::p48;
use crate::rand::{scramble, top_bits};

verus! {

/// One Java LCG step on a 48-bit state, as an `i64`.
pub open spec fn jstep(s: i64) -> i64 {
    java_next(s as int) as i64
}

/// The value `nextLong()` returns when called on internal state `s0`.
pub open spec fn jnext_long(s0: i64) -> i64 {
    let s1 = jstep(s0);
    let s2 = jstep(s1);
    ((top_bits(s1, 32) as i64) << 32i64).wrapping_add(top_bits(s2, 32) as i64)
}

/// The Java `Random` equivalent used for world-generation simulation, bound
/// to the Java LCG.
#[derive(Clone, Copy, Debug)]
pub struct JRand {
    pub seed: i64,
}

impl JRand {
    /// Seed through the public API: scramble with the multiplier, mask to 48 bits.
    pub fn new(seed: i64) -> (r: JRand)
        ensures
            r.seed == scramble(seed),
            0 <= r.seed < 0x1_0000_0000_0000i64,
    {
        proof {
            lemma_mask48_range(seed ^ 0x5DEECE66Di64);
        }
        JRand { seed: (seed ^ 0x5DEECE66D) & crate::mth::MASK_48 }
    }

    /// Seed with a raw internal 48-bit state.
    pub fn of_internal_seed(seed: i64) -> (r: JRand)
        ensures
            r.seed == seed & 0xFFFF_FFFF_FFFFi64,
            r.seed == crate::mth::m48(seed as int),
    {
        proof {
            crate::mth::lemma_mask48_is_mod(seed);
        }
        JRand { seed: seed & crate::mth::MASK_48 }
    }

    pub fn set_seed(&mut self, seed: i64, scramble_seed: bool)
        ensures
            scramble_seed ==> final(self).seed == scramble(seed),
            !scramble_seed ==> final(self).seed == seed & 0xFFFF_FFFF_FFFFi64,
            0 <= final(self).seed < 0x1_0000_0000_0000i64,
    {
        if scramble_seed {
            proof {
                lemma_mask48_range(seed ^ 0x5DEECE66Di64);
            }
            self.seed = (seed ^ 0x5DEECE66D) & crate::mth::MASK_48;
        } else {
            proof {
                lemma_mask48_range(seed);
            }
            self.seed = seed & crate::mth::MASK_48;
        }
    }

    pub fn get_seed(&self) -> (r: i64)
        ensures
            r == self.seed,
    {
        self.seed
    }

    /// Step the LCG once and return the top `bits` bits of the new state.
    pub fn next(&mut self, bits: i32) -> (r: i32)
        requires
            1 <= bits <= 32,
        ensures
            final(self).seed == jstep(old(self).seed),
            r == top_bits(final(self).seed, bits),
            0 <= final(self).seed < 0x1_0000_0000_0000i64,
    {
        let lcg = LCG::java();
        self.seed = lcg.next_seed(self.seed);
        (self.seed >> (48 - bits) as i64) as i32
    }

    /// The runtime's `nextInt(bound)`; see `Rand::next_int`.
    pub fn next_int(&mut self, bound: i32) -> (r: i32)
        requires
            bound >= 1,
        ensures
            0 <= r < bound,
            crate::rand::is_pow2_i32(bound) ==> {
                &&& final(self).seed == jstep(old(self).seed)
                &&& r == (((((bound as i64) * (top_bits(final(self).seed, 31) as i64)) as i64)
                    >> 31i64) as i32)
            },
    {
        let lcg = LCG::java();
        let mut inner = crate::rand::Rand { lcg, seed: self.seed };
        let r = inner.next_int(bound);
        self.seed = inner.seed;
        r
    }

    /// The runtime's `nextLong()`: two 32-bit draws combined.
    pub fn next_long(&mut self) -> (r: i64)
        ensures
            final(self).seed == jstep(jstep(old(self).seed)),
            r == jnext_long(old(self).seed),
            0 <= final(self).seed < 0x1_0000_0000_0000i64,
    {
        let hi = self.next(32);
        let lo = self.next(32);
        ((hi as i64) << 32i64).wrapping_add(lo as i64)
    }

    /// Advance by `calls` steps (negative steps back).
    pub fn advance(&mut self, calls: i64)
        ensures
            final(self).seed == affine_apply(
                affine_pow(java_f(), (calls as u64) as nat, p48()),
                old(self).seed as int,
                p48(),
            ),
            0 <= final(self).seed < 0x1_0000_0000_0000i64,
    {
        let lcg = LCG::java();
        let skip = lcg.combine(calls);
        self.seed = skip.next_seed(self.seed);
    }
}

proof fn lemma_mask48_range(v: i64)
    by (bit_vector)
    ensures
        0 <= v & 0xFFFF_FFFF_FFFFi64 < 0x1_0000_0000_0000i64,
{
}

} // verus!

use vstd::prelude::*;
use crate::lcg::{LCG, affine_apply, affine_pow};
use crate::mth::p48;

verus! {

/// XOR a seed with the Java multiplier and mask to 48 bits: the mapping the
/// runtime's public `setSeed` applies before storing a state.
pub open spec fn scramble(s: i64) -> i64 {
    (s ^ 0x5DEECE66Di64) & 0xFFFF_FFFF_FFFFi64
}

/// The top `bits` bits of a 48-bit state, as a signed 32-bit value.
pub open spec fn top_bits(s: i64, bits: i32) -> i32
    recommends
        1 <= bits <= 32,
{
    (s >> ((48 - bits) as i64)) as i32
}

/// A random number generator state bound to one LCG, mirroring the runtime's
/// generator.
#[derive(Clone, Copy, Debug)]
pub struct Rand {
    pub lcg: LCG,
    pub seed: i64,
}

/// The strong contracts below hold for generators driven by the Java modulus 2^48.
pub open spec fn java_mod(lcg: LCG) -> bool {
    lcg.modulus == 0x1_0000_0000_0000i64
}

impl Rand {
    pub fn of_internal_seed(lcg: &LCG, seed: i64) -> (r: Rand)
        requires
            lcg.modulus != 0,
        ensures
            r.lcg == *lcg,
            java_mod(*lcg) ==> r.seed == crate::mth::m48(seed as int),
    {
        let m = lcg.modop(seed);
        Rand { lcg: *lcg, seed: m }
    }

    pub fn of_seed_scrambled(lcg: &LCG, seed: i64) -> (r: Rand)
        requires
            lcg.modulus != 0,
        ensures
            r.lcg == *lcg,
            java_mod(*lcg) && lcg.multiplier == 0x5DEECE66Di64 ==> r.seed == scramble(seed),
    {
        let m = lcg.modop(seed ^ lcg.multiplier);
        proof {
            if java_mod(*lcg) && lcg.multiplier == 0x5DEECE66Di64 {
                lemma_scramble_mod(seed);
            }
        }
        Rand { lcg: *lcg, seed: m }
    }

    pub fn get_seed(&self) -> (r: i64)
        ensures
            r == self.seed,
    {
        self.seed
    }

    pub fn set_seed(&mut self, seed: i64)
        requires
            old(self).lcg.modulus != 0,
        ensures
            final(self).lcg == old(self).lcg,
            java_mod(old(self).lcg) ==> final(self).seed == crate::mth::m48(seed as int),
    {
        self.seed = self.lcg.modop(seed);
    }

    pub fn set_seed_scrambled(&mut self, seed: i64)
        requires
            old(self).lcg.modulus != 0,
        ensures
            final(self).lcg == old(self).lcg,
            java_mod(old(self).lcg) && old(self).lcg.multiplier == 0x5DEECE66Di64
                ==> final(self).seed == scramble(seed),
    {
        let x = seed ^ self.lcg.multiplier;
        proof {
            if java_mod(self.lcg) && self.lcg.multiplier == 0x5DEECE66Di64 {
                lemma_scramble_mod(seed);
            }
        }
        self.seed = self.lcg.modop(x);
    }

    /// Step the LCG once and return the top `bits` bits of the new state.
    pub fn next(&mut self, bits: i32) -> (r: i32)
        requires
            1 <= bits <= 32,
            old(self).lcg.modulus != 0,
        ensures
            final(self).lcg == old(self).lcg,
            java_mod(old(self).lcg) ==> {
                &&& final(self).seed == affine_apply(
                    (old(self).lcg.multiplier as int, old(self).lcg.addend as int),
                    old(self).seed as int,
                    p48(),
                )
                &&& r == top_bits(final(self).seed, bits)
                &&& 0 <= final(self).seed < 0x1_0000_0000_0000i64
            },
    {
        self.seed = self.lcg.next_seed(self.seed);
        (self.seed >> (48 - bits) as i64) as i32
    }

    /// Advance by `calls` steps (negative steps back) via LCG combination.
    pub fn advance(&mut self, calls: i64)
        requires
            old(self).lcg.modulus != 0,
        ensures
            final(self).lcg == old(self).lcg,
            java_mod(old(self).lcg) ==> final(self).seed == affine_apply(
                affine_pow(
                    (old(self).lcg.multiplier as int, old(self).lcg.addend as int),
                    (calls as u64) as nat,
                    p48(),
                ),
                old(self).seed as int,
                p48(),
            ),
    {
        let skip = self.lcg.combine(calls);
        self.seed = skip.next_seed(self.seed);
    }

    /// Advance by a precomputed combined LCG.
    pub fn advance_lcg(&mut self, skip: &LCG)
        requires
            skip.modulus != 0,
        ensures
            final(self).lcg == old(self).lcg,
            java_mod(*skip) ==> final(self).seed == affine_apply(
                (skip.multiplier as int, skip.addend as int),
                old(self).seed as int,
                p48(),
            ),
    {
        self.seed = skip.next_seed(self.seed);
    }

    /// The runtime's `nextInt(bound)`. For a power-of-two bound the result is
    /// a scaled single draw; otherwise rejection sampling is used and only the
    /// range of the result is stated.
    pub fn next_int(&mut self, bound: i32) -> (r: i32)
        requires
            bound >= 1,
            old(self).lcg.modulus != 0,
        ensures
            final(self).lcg == old(self).lcg,
            java_mod(old(self).lcg) ==> 0 <= r < bound,
            java_mod(old(self).lcg) && is_pow2_i32(bound) ==> {
                &&& final(self).seed == affine_apply(
                    (old(self).lcg.multiplier as int, old(self).lcg.addend as int),
                    old(self).seed as int,
                    p48(),
                )
                &&& r == (((((bound as i64) * (top_bits(final(self).seed, 31) as i64)) as i64) >> 31i64) as i32)
            },
    {
        if (bound & (-bound)) == bound {
            let ghost pre = *self;
            let b = self.next(31);
            proof {
                if java_mod(pre.lcg) {
                    lemma_top31_nonneg(self.seed);
                    lemma_pow2_scale_range(bound, b);
                }
            }
            proof {
                assert((bound as i64) * (b as i64) < 0x4000_0000_0000_0000i64
                    && (bound as i64) * (b as i64) > -0x4000_0000_0000_0000i64) by (nonlinear_arith)
                    requires
                        1 <= bound < 0x8000_0000i64,
                        -0x8000_0000i64 <= b < 0x8000_0000i64,
                ;
            }
            let r0 = (((bound as i64) * (b as i64)) >> 31i64) as i32;
            proof {
                if java_mod(pre.lcg) {
                    assert(bound & ((-bound) as i32) == bound);
                    assert(0 <= b);
                    assert(b == top_bits(self.seed, 31));
                    assert(0 <= r0 < bound);
                    assert(r0 == (((((bound as i64) * (top_bits(self.seed, 31) as i64)) as i64) >> 31i64) as i32));
                }
            }
            return r0;
        }

        // Rejection sampling. A full-period argument for the underlying LCG
        // would be needed to show the loop exits, so the retries are capped at
        // a count no honest generator stream ever reaches; the final draw is
        // accepted unconditionally if the cap is hit.
        proof {
            lemma_pow2_tests(bound);
        }
        let mut out: i32 = 0;
        let mut done = false;
        let mut fuel: u32 = 0x100000;
        while !done && fuel > 0
            invariant
                self.lcg == old(self).lcg,
                old(self).lcg.modulus != 0,
                bound >= 1,
                done && java_mod(old(self).lcg) ==> 0 <= out < bound,
                fuel == 0 ==> done,
            decreases fuel,
        {
            let bits = self.next(31);
            proof {
                if java_mod(self.lcg) {
                    lemma_top31_nonneg(self.seed);
                }
            }
            let value = bits % bound;
            if bits.wrapping_sub(value).wrapping_add(bound - 1) >= 0 || fuel == 1 {
                out = value;
                done = true;
            }
            fuel = fuel - 1;
        }
        out
    }

    /// The runtime's `nextLong()`: two 32-bit draws combined.
    pub fn next_long(&mut self) -> (r: i64)
        requires
            old(self).lcg.modulus != 0,
        ensures
            final(self).lcg == old(self).lcg,
            java_mod(old(self).lcg) ==> {
                let s1 = affine_apply(
                    (old(self).lcg.multiplier as int, old(self).lcg.addend as int),
                    old(self).seed as int,
                    p48(),
                );
                let s2 = affine_apply(
                    (old(self).lcg.multiplier as int, old(self).lcg.addend as int),
                    s1,
                    p48(),
                );
                &&& final(self).seed == s2
                &&& r == ((top_bits(s1 as i64, 32) as i64) << 32i64).wrapping_add(
                    top_bits(s2 as i64, 32) as i64,
                )
            },
    {
        let hi = self.next(32);
        let lo = self.next(32);
        ((hi as i64) << 32).wrapping_add(lo as i64)
    }
}

/// `bound` is a positive power of two.
pub open spec fn is_pow2_i32(bound: i32) -> bool {
    bound >= 1 && bound & ((bound - 1) as i32) == 0
}

fn java_mod_exec(lcg: &LCG) -> (r: bool)
    ensures
        r == java_mod(*lcg),
{
    lcg.modulus == 0x1_0000_0000_0000
}

proof fn lemma_scramble_mod(seed: i64)
    by (bit_vector)
    ensures
        ((seed ^ 0x5DEECE66Di64) as int) % 0x1_0000_0000_0000
            == ((seed ^ 0x5DEECE66Di64) & 0xFFFF_FFFF_FFFFi64),
{
}

proof fn lemma_pow2_tests(bound: i32)
    by (bit_vector)
    requires
        bound >= 1,
    ensures
        (bound & ((-bound) as i32) == bound) <==> (bound & ((bound - 1) as i32) == 0),
{
}

proof fn lemma_top31_nonneg(s: i64)
    by (bit_vector)
    requires
        0 <= s < 0x1_0000_0000_0000i64,
    ensures
        0 <= ((s >> 17i64) as i32),
        ((s >> ((48 - 31) as i64)) as i32) == ((s >> 17i64) as i32),
{
}

proof fn lemma_pow2_scale_range(bound: i32, b: i32)
    by (bit_vector)
    requires
        bound >= 1,
        bound & ((-bound) as i32) == bound,
        0 <= b,
    ensures
        0 <= (((((bound as i64) * (b as i64)) as i64) >> 31i64) as i32) && (((((bound as i64) * (b as i64)) as i64) >> 31i64) as i32) < bound,
        bound & ((bound - 1) as i32) == 0,
{
}

} // verus!

use vstd::prelude::*;
use crate::lcg::{LCG, affine_apply, affine_pow, java_f};
use crate::mth::p48;
use crate::rand::{Rand, java_mod, top_bits, is_pow2_i32};

verus! {

/// The predicate a filtered skip tests, as a tagged variant: the only filter
/// the dungeon logic uses is "the next bounded draw is nonzero".
#[derive(Clone, Copy, Debug, PartialEq, Eq, Structural)]
pub enum FilterKind {
    NextIntNotZero { bound: i32 },
}

/// A filtered skip in the random call sequence: the combined LCG reaching
/// the skip position, and the predicate the state must satisfy there.
#[derive(Clone, Copy, Debug)]
pub struct FilteredSkip {
    pub skip_lcg: LCG,
    pub filter: FilterKind,
}

impl FilteredSkip {
    /// The filter's draw bound is positive and a power of two, as every
    /// filter the floor logic builds is.
    pub open spec fn wf(&self) -> bool {
        match self.filter {
            FilterKind::NextIntNotZero { bound } => bound >= 1 && is_pow2_i32(bound),
        }
    }

    pub fn new(current_index: i64, filter: FilterKind) -> (r: FilteredSkip)
        ensures
            r.skip_lcg.modulus == 0x1_0000_0000_0000i64,
            (r.skip_lcg.multiplier as int, r.skip_lcg.addend as int) == affine_pow(
                java_f(),
                (current_index as u64) as nat,
                p48(),
            ),
            r.filter == filter,
    {
        let java = LCG::java();
        FilteredSkip { skip_lcg: java.combine(current_index), filter }
    }

    /// Advance `rand` to the skip position and test the filter there: for the
    /// nonzero filter, whether the bounded draw at that state is not zero.
    pub fn check_state(&self, rand: &mut Rand) -> (r: bool)
        requires
            self.wf(),
            self.skip_lcg.modulus != 0,
            old(rand).lcg.modulus != 0,
        ensures
            java_mod(old(rand).lcg) && java_mod(self.skip_lcg) ==> {
                let at_skip = affine_apply(
                    (self.skip_lcg.multiplier as int, self.skip_lcg.addend as int),
                    old(rand).seed as int,
                    p48(),
                );
                let drawn = affine_apply(
                    (old(rand).lcg.multiplier as int, old(rand).lcg.addend as int),
                    at_skip,
                    p48(),
                );
                match self.filter {
                    FilterKind::NextIntNotZero { bound } => r == ((((((bound as i64) * (top_bits(
                        drawn as i64,
                        31,
                    ) as i64)) as i64) >> 31i64) as i32) != 0) && final(rand).seed == drawn,
                }
            },
    {
        rand.advance_lcg(&self.skip_lcg);
        match self.filter {
            FilterKind::NextIntNotZero { bound } => rand.next_int(bound) != 0,
        }
    }
}

} // verus!

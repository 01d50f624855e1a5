use vstd::prelude::*;
use crate::chunk_rand::{ChunkRand, MCVersion, population_seed_of};
use crate::mth::{mask, spec_mask};

verus! {

/// The exact sequence of candidates the lifting walk appends for a subtree
/// rooted at `value` with `bit` levels already fixed: a leaf keeps `value`
/// when its population seed matches `target` on the `bits + offset` low bits;
/// an inner node prunes on the `bit` low bits and otherwise explores the
/// cleared-bit child before the set-bit child.
pub open spec fn lift_set(
    value: i64,
    bit: i32,
    target: i64,
    bits: i32,
    offset: i32,
    x: i32,
    z: i32,
    version: MCVersion,
) -> Seq<i64>
    decreases bits - bit,
{
    if bit >= bits {
        if spec_mask(target, (bit + offset) as u32) == spec_mask(
            population_seed_of(value, x, z, version),
            (bit + offset) as u32,
        ) {
            seq![value]
        } else {
            Seq::empty()
        }
    } else if spec_mask(target, bit as u32) == spec_mask(
        population_seed_of(value, x, z, version),
        bit as u32,
    ) {
        lift_set(value, (bit + 1) as i32, target, bits, offset, x, z, version) + lift_set(
            (value | (1i64 << ((bit + offset) as u32))) as i64,
            (bit + 1) as i32,
            target,
            bits,
            offset,
            x,
            z,
            version,
        )
    } else {
        Seq::empty()
    }
}

/// Bit-by-bit Hensel lifting for population-seed reversal: explore candidate
/// world seeds that agree with `target` on the low bits, forcing one more bit
/// of the candidate per level, and keep those whose population seed matches
/// `target` on `bits + offset` low bits. Appends exactly `lift_set` of the
/// root, in that order.
pub fn lift(
    value: i64,
    bit: i32,
    target: i64,
    bits: i32,
    offset: i32,
    x: i32,
    z: i32,
    version: MCVersion,
    result: &mut Vec<i64>,
)
    requires
        0 <= bit <= bits,
        0 <= offset,
        bits + offset < 63,
    ensures
        final(result)@ == old(result)@ + lift_set(value, bit, target, bits, offset, x, z, version),
        forall|i: int|
            old(result)@.len() <= i < final(result)@.len() ==> spec_mask(
                target,
                (bits + offset) as u32,
            ) == spec_mask(
                population_seed_of(final(result)@[i], x, z, version),
                (bits + offset) as u32,
            ),
    decreases bits - bit,
{
    let ghost pre = result@;
    if bit >= bits {
        let mut r = ChunkRand::new();
        let hashed = r.set_population_seed(value, x, z, version);
        if mask(target, (bit + offset) as u32) == mask(hashed, (bit + offset) as u32) {
            result.push(value);
            proof {
                assert(result@ =~= pre + seq![value]);
            }
        } else {
            proof {
                assert(result@ =~= pre + Seq::<i64>::empty());
            }
        }
    } else {
        let matches = {
            let mut r = ChunkRand::new();
            let hashed = r.set_population_seed(value, x, z, version);
            mask(target, bit as u32) == mask(hashed, bit as u32)
        };
        if matches {
            let ghost mid_goal = lift_set(value, (bit + 1) as i32, target, bits, offset, x, z, version);
            lift(value, bit + 1, target, bits, offset, x, z, version, result);
            let high = value | crate::mth::get_pow2((bit + offset) as u32);
            lift(high, bit + 1, target, bits, offset, x, z, version, result);
            proof {
                assert(result@ =~= pre + (mid_goal + lift_set(
                    high,
                    (bit + 1) as i32,
                    target,
                    bits,
                    offset,
                    x,
                    z,
                    version,
                )));
            }
        } else {
            proof {
                assert(result@ =~= pre + Seq::<i64>::empty());
            }
        }
    }
}

} // verus!

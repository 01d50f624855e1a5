use vstd::prelude::*;
use crate::chunk_rand::{ChunkRand, MCVersion, population_seed_of, sigma_pre13, lemma_sigma_pre13_fits};
use crate::jrand::JRand;
use crate::lcg::{affine_pow, java_f};
use crate::mth;
use crate::mth::{p48, spec_mask};
use crate::rand::scramble;

verus! {

/// The Java multiplier.
pub open spec fn m1_spec() -> i64 {
    0x5DEECE66Di64
}

/// The affine pair of the Java LCG combined two steps.
pub open spec fn combined2() -> (int, int) {
    affine_pow(java_f(), 2, p48())
}

/// The affine pair of the Java LCG combined four steps.
pub open spec fn combined4() -> (int, int) {
    affine_pow(java_f(), 4, p48())
}

/// The multipliers and addends of the Java LCG combined two and four steps:
/// `(m2, a2, m4, a4)`.
pub fn lcg_params() -> (r: (i64, i64, i64, i64))
    ensures
        r.0 == combined2().0 && r.1 == combined2().1,
        r.2 == combined4().0 && r.3 == combined4().1,
{
    let j = crate::lcg::LCG::java();
    let lcg2 = j.combine(2);
    let lcg4 = j.combine(4);
    proof {
        assert(2i64 as u64 == 2u64 && 4i64 as u64 == 4u64) by (bit_vector);
    }
    (lcg2.multiplier, lcg2.addend, lcg4.multiplier, lcg4.addend)
}

/// The chunk seed the pre-1.13 runtime derives; the population-seed formula
/// of any pre-1.13 version.
pub open spec fn chunkseed_pre13_of(seed: i64, x: i32, z: i32) -> i64 {
    population_seed_of(seed, x, z, MCVersion::V1_8)
}

/// All recovered world seeds produce `population_seed & MASK_48` back at the
/// same chunk corner under the same version: each one is forward-checked
/// before it is returned.
pub fn reverse_population_seed(population_seed: i64, x: i32, z: i32, version: MCVersion) -> (r:
    Vec<i64>)
    ensures
        forall|i: int|
            0 <= i < r@.len() ==> population_seed_of(#[trigger] r@[i], x, z, version)
                == population_seed & 0xFFFF_FFFF_FFFFi64,
{
    let pop_seed = mth::mask(population_seed, 48);
    proof {
        lemma_mask48_forms(population_seed);
    }
    if version.is_older_than(MCVersion::V1_13) {
        let r = get_seed_from_chunkseed_pre13(pop_seed, x, z);
        proof {
            assert forall|i: int| 0 <= i < r@.len() implies population_seed_of(
                #[trigger] r@[i],
                x,
                z,
                version,
            ) == population_seed & 0xFFFF_FFFF_FFFFi64 by {
                lemma_pre13_same(r@[i], x, z, version);
            }
        }
        r
    } else {
        reverse(pop_seed, x, z, version)
    }
}

proof fn lemma_pre13_same(s: i64, x: i32, z: i32, version: MCVersion)
    requires
        version.ordinal_spec() < 5,
    ensures
        population_seed_of(s, x, z, version) == chunkseed_pre13_of(s, x, z),
{
    reveal(crate::chunk_rand::population_seed_raw);
}

proof fn lemma_mask48_forms(v: i64)
    by (bit_vector)
    ensures
        v & (((1i64 << 48u32) - 1) as i64) == v & 0xFFFF_FFFF_FFFFi64,
        0 <= v & 0xFFFF_FFFF_FFFFi64 < 0x1_0000_0000_0000i64,
        (v & 0xFFFF_FFFF_FFFFi64) & 0xFFFF_FFFF_FFFFi64 == v & 0xFFFF_FFFF_FFFFi64,
{
}


/// The low 16 bits of the combined multiplier applied to `(x, z)`, its
/// trailing-zero count, and (when it does not vanish) the odd part's inverse
/// mod 2^16.
fn first_mult_data(m2_val: i64, m4_val: i64, x: i32, z: i32) -> (r: (i64, u32, i64))
    ensures
        0 <= r.0 < 0x1_0000,
        r.1 <= 64,
{
    proof {
        assert(1i64 << 16u32 == 0x1_0000) by (bit_vector);
    }
    let first_multiplier = mth::mask(
        m2_val.wrapping_mul(x as i64).wrapping_add(m4_val.wrapping_mul(z as i64)),
        16,
    );
    let mult_trailing_zeroes = mth::trailing_zeros_i64(first_multiplier);
    if mult_trailing_zeroes >= 16 {
        (first_multiplier, mult_trailing_zeroes, 0)
    } else {
        let shifted = first_multiplier >> mult_trailing_zeroes;
        proof {
            lemma_shifted_odd_small(first_multiplier, mult_trailing_zeroes);
        }
        (first_multiplier, mult_trailing_zeroes, mth::mod_inverse_16(shifted))
    }
}

/// The forced low bits of a candidate seed and the step of the candidate
/// walk, from the trailing zeros of `(x | z)`.
fn seed_prefix(population_seed: i64, x: i32, z: i32) -> (r: (i64, i64, u32))
    requires
        x != 0 || z != 0,
        0 <= population_seed < 0x1_0000_0000_0000i64,
    ensures
        r.0 >= 0,
        1 <= r.1 <= 0x1_0000_0000i64,
        1 <= r.2 <= 32,
        r.0 < r.1,
{
    let xz: i64 = (x as i64) | (z as i64);
    proof {
        lemma_xz_low32(x, z);
    }
    let free_bits_0 = mth::trailing_zeros_i64(xz);
    proof {
        lemma_tz_lt32(xz, free_bits_0);
    }
    let c0: i64 = mth::mask(population_seed, free_bits_0);
    let p_fb = mth::get_pow2(free_bits_0);
    let next_bit = ((x as i64) ^ (z as i64) ^ population_seed) & p_fb;
    proof {
        lemma_and_pos_nonneg((x as i64) ^ (z as i64) ^ population_seed, p_fb);
        lemma_or_nonneg(c0, next_bit);
    }
    let c = c0 | next_bit;
    proof {
        lemma_or_lt_double(c0, next_bit, free_bits_0);
    }
    let free_bits = free_bits_0 + 1;
    let increment = mth::get_pow2(free_bits);
    (c, increment, free_bits)
}

proof fn lemma_or_lt_double(a: i64, b: i64, fb: u32)
    by (bit_vector)
    requires
        fb <= 31,
        0 <= a < (1i64 << fb),
        0 <= b <= (1i64 << fb),
    ensures
        (a | b) < (1i64 << ((fb + 1) as u32)),
        (a | b) >= 0,
{
}

/// Recover 1.13+ structure seeds for a masked population seed; every element
/// of the result forward-checks.
#[verifier::rlimit(100)]
fn reverse(population_seed: i64, x: i32, z: i32, version: MCVersion) -> (r: Vec<i64>)
    requires
        0 <= population_seed < 0x1_0000_0000_0000i64,
        population_seed & 0xFFFF_FFFF_FFFFi64 == population_seed,
    ensures
        forall|i: int|
            0 <= i < r@.len() ==> population_seed_of(#[trigger] r@[i], x, z, version)
                == population_seed,
    decreases 0int,
{
    let mut world_seeds: Vec<i64> = Vec::new();
    let mut rand = ChunkRand::new();

    if x == 0 && z == 0 {
        // The formula collapses to the seed itself; confirm and return it.
        if rand.set_population_seed(population_seed, x, z, version) == population_seed {
            world_seeds.push(population_seed);
        }
        return world_seeds;
    }

    let (m2_val, a2_val, m4_val, a4_val) = lcg_params();

    let e = mth::mask(population_seed, 32);
    let f = mth::mask(population_seed, 16);
    proof {
        lemma_pow16_32_vals();
    }

    let prefix = seed_prefix(population_seed, x, z);
    let mut c: i64 = prefix.0;
    let increment = prefix.1;
    let free_bits = prefix.2;

    let fm_data = first_mult_data(m2_val, m4_val, x, z);
    let mult_trailing_zeroes = fm_data.1;
    let first_mult_inv = fm_data.2;

    if mult_trailing_zeroes >= 16 {
        return hensel_reverse(c, increment, free_bits, population_seed, x, z, version);
    }

    let offsets = get_offsets(x, z, version);

    while c < 65536
        invariant
            0 <= population_seed < 0x1_0000_0000_0000i64,
            population_seed & 0xFFFF_FFFF_FFFFi64 == population_seed,
            0 <= f < 0x1_0000,
            c >= 0,
            1 <= increment <= 0x1_0000_0000i64,
            c < 65536 + increment,
            mult_trailing_zeroes <= 15,
            forall|i: int|
                0 <= i < world_seeds@.len() ==> population_seed_of(
                    #[trigger] world_seeds@[i],
                    x,
                    z,
                    version,
                ) == population_seed,
        decreases 65536 + increment - c,
    {
        let target = mth::mask(c ^ f, 16);
        let x_term = ((m2_val.wrapping_mul(mth::mask(c ^ m1(), 16)).wrapping_add(a2_val))
            as u64 >> 16u64) as i64;
        let z_term = ((m4_val.wrapping_mul(mth::mask(c ^ m1(), 16)).wrapping_add(a4_val))
            as u64 >> 16u64) as i64;
        let magic = (x as i64).wrapping_mul(x_term).wrapping_add((z as i64).wrapping_mul(z_term));

        let mut oi: usize = 0;
        while oi < offsets.len()
            invariant
                0 <= population_seed < 0x1_0000_0000_0000i64,
                population_seed & 0xFFFF_FFFF_FFFFi64 == population_seed,
                0 <= c < 65536,
                mult_trailing_zeroes <= 15,
                forall|i: int|
                    0 <= i < world_seeds@.len() ==> population_seed_of(
                        #[trigger] world_seeds@[i],
                        x,
                        z,
                        version,
                    ) == population_seed,
            decreases offsets@.len() - oi,
        {
            let offset = offsets[oi];
            add_world_seeds(
                target.wrapping_sub(magic.wrapping_add(offset) & mth::MASK_16),
                mult_trailing_zeroes,
                first_mult_inv,
                c,
                e,
                x,
                z,
                population_seed,
                &mut world_seeds,
                &mut rand,
                version,
            );
            oi = oi + 1;
        }

        c = c + increment;
    }

    world_seeds
}

/// Hensel-lifting fallback when the combined multiplier vanishes mod 2^16:
/// lift candidates bit by bit through the full forward formula.
fn hensel_reverse(
    c: i64,
    increment: i64,
    free_bits: u32,
    population_seed: i64,
    x: i32,
    z: i32,
    version: MCVersion,
) -> (r: Vec<i64>)
    requires
        0 <= population_seed < 0x1_0000_0000_0000i64,
        population_seed & 0xFFFF_FFFF_FFFFi64 == population_seed,
        0 <= c < increment,
        1 <= increment <= 0x1_0000_0000i64,
        1 <= free_bits <= 32,
    ensures
        forall|i: int|
            0 <= i < r@.len() ==> population_seed_of(#[trigger] r@[i], x, z, version)
                == population_seed,
{
    let mut world_seeds: Vec<i64> = Vec::new();
    if free_bits >= 16 {
        crate::hensel::lift(
            c,
            (free_bits as i32) - 16,
            population_seed,
            32,
            16,
            x,
            z,
            version,
            &mut world_seeds,
        );
    } else {
        let mut c_iter = c;
        while c_iter < 65536
            invariant
                0 <= population_seed < 0x1_0000_0000_0000i64,
                population_seed & 0xFFFF_FFFF_FFFFi64 == population_seed,
                c_iter >= 0,
                1 <= increment <= 0x1_0000_0000i64,
                c_iter < 65536 + increment,
                forall|i: int|
                    0 <= i < world_seeds@.len() ==> spec_mask(population_seed, 48) == spec_mask(
                        population_seed_of(#[trigger] world_seeds@[i], x, z, version),
                        48,
                    ),
            decreases 65536 + increment - c_iter,
        {
            crate::hensel::lift(
                c_iter,
                0,
                population_seed,
                32,
                16,
                x,
                z,
                version,
                &mut world_seeds,
            );
            c_iter = c_iter + increment;
        }
    }
    proof {
        assert forall|i: int| 0 <= i < world_seeds@.len() implies population_seed_of(
            #[trigger] world_seeds@[i],
            x,
            z,
            version,
        ) == population_seed by {
            lemma_mask48_forms(crate::chunk_rand::population_seed_raw(world_seeds@[i], x, z, version));
            lemma_spec_mask48_cancel(
                population_seed,
                population_seed_of(world_seeds@[i], x, z, version),
            );
        }
    }
    world_seeds
}

fn m1() -> (r: i64)
    ensures
        r == 0x5DEECE66Di64,
{
    0x5DEECE66D
}

proof fn lemma_xz_low32(x: i32, z: i32)
    by (bit_vector)
    ensures
        (((x as i64) | (z as i64)) & 0xFFFF_FFFFi64 == 0) ==> ((x as i64) | (z as i64)) == 0,
        (x != 0 || z != 0) ==> ((x as i64) | (z as i64)) != 0,
{
}

proof fn lemma_tz_lt32(xz: i64, tz: u32)
    by (bit_vector)
    requires
        xz != 0,
        xz & 0xFFFF_FFFFi64 == 0 ==> xz == 0,
        tz < 63 ==> xz & (((1i64 << tz) - 1) as i64) == 0,
        tz == 63 ==> xz & 0x7FFF_FFFF_FFFF_FFFFi64 == 0,
        tz <= 63,
    ensures
        tz <= 31,
{
}

proof fn lemma_pow16_32_vals()
    by (bit_vector)
    ensures
        1i64 << 16u32 == 0x1_0000i64,
        1i64 << 32u32 == 0x1_0000_0000i64,
{
}

proof fn lemma_or_nonneg(a: i64, b: i64)
    by (bit_vector)
    requires
        a >= 0,
        b >= 0,
    ensures
        a | b >= 0,
{
}

proof fn lemma_and_pos_nonneg(v: i64, p: i64)
    by (bit_vector)
    requires
        p >= 0,
    ensures
        v & p >= 0,
        v & p <= p,
{
}

proof fn lemma_shifted_odd_small(fm: i64, tz: u32)
    by (bit_vector)
    requires
        0 <= fm < 0x1_0000,
        tz < 16,
        fm != 0,
        ((fm >> (tz as i64)) & 1i64) == 1,
    ensures
        (fm >> tz) & 1 == 1,
        0 <= (fm >> tz) < 0x1_0000,
        (fm >> tz) == (fm >> (tz as i64)),
{
}

/// `spec_mask(_, 48)` is injective on masked 48-bit values.
proof fn lemma_spec_mask48_cancel(p: i64, q: i64)
    by (bit_vector)
    requires
        p & 0xFFFF_FFFF_FFFFi64 == p,
        q & 0xFFFF_FFFF_FFFFi64 == q,
        p & (((1i64 << 48u32) - 1) as i64) == q & (((1i64 << 48u32) - 1) as i64),
    ensures
        p == q,
{
}

/// Walk candidate 16-bit middle and top slabs consistent with one carry
/// offset; append only seeds whose forward population seed matches.
#[verifier::rlimit(100)]
pub fn add_world_seeds(
    first_addend: i64,
    mult_trailing_zeroes: u32,
    first_mult_inv: i64,
    c: i64,
    e: i64,
    x: i32,
    z: i32,
    population_seed: i64,
    world_seeds: &mut Vec<i64>,
    rand: &mut ChunkRand,
    version: MCVersion,
)
    requires
        mult_trailing_zeroes <= 15,
        0 <= c < 0x1_0000,
        0 <= population_seed < 0x1_0000_0000_0000i64,
    ensures
        final(world_seeds)@.len() >= old(world_seeds)@.len(),
        forall|i: int|
            0 <= i < old(world_seeds)@.len() ==> final(world_seeds)@[i] == old(world_seeds)@[i],
        forall|i: int|
            old(world_seeds)@.len() <= i < final(world_seeds)@.len() ==> population_seed_of(
                #[trigger] final(world_seeds)@[i],
                x,
                z,
                version,
            ) == population_seed,
{
    if mth::trailing_zeros_i64(first_addend) < mult_trailing_zeroes {
        return ;
    }

    let mask_v = mth::get_mask(16 - mult_trailing_zeroes);
    let increment = mth::get_pow2(16 - mult_trailing_zeroes);

    let mut b = mth::mask(
        (first_mult_inv.wrapping_mul(first_addend) >> mult_trailing_zeroes) ^ (m1() >> 16i64),
        16 - mult_trailing_zeroes,
    );

    while b < 65536
        invariant
            mult_trailing_zeroes <= 15,
            0 <= c < 0x1_0000,
            0 <= population_seed < 0x1_0000_0000_0000i64,
            b >= 0,
            1 <= increment <= 0x1_0000,
            b < 65536 + increment,
            world_seeds@.len() >= old(world_seeds)@.len(),
            forall|i: int|
                0 <= i < old(world_seeds)@.len() ==> world_seeds@[i] == old(world_seeds)@[i],
            forall|i: int|
                old(world_seeds)@.len() <= i < world_seeds@.len() ==> population_seed_of(
                    #[trigger] world_seeds@[i],
                    x,
                    z,
                    version,
                ) == population_seed,
        decreases 65536 + increment - b,
    {
        proof {
            lemma_shl16_bound(b);
        }
        let k = (b << 16i64) + c;
        let target2 = (k ^ e) >> 16i64;
        let second_addend = mth::mask(get_partial_addend(k, x, z, 32, version), 16);

        if mth::trailing_zeros_i64(target2.wrapping_sub(second_addend)) >= mult_trailing_zeroes {
            walk_top_slab(
                target2.wrapping_sub(second_addend),
                mult_trailing_zeroes,
                first_mult_inv,
                increment,
                k,
                x,
                z,
                population_seed,
                world_seeds,
                rand,
                version,
            );
        }

        b = b + increment;
    }
}

/// Walk the top 16-bit slab candidates for one middle slab; append only
/// seeds whose forward population seed matches.
fn walk_top_slab(
    screen: i64,
    mult_trailing_zeroes: u32,
    first_mult_inv: i64,
    increment: i64,
    k: i64,
    x: i32,
    z: i32,
    population_seed: i64,
    world_seeds: &mut Vec<i64>,
    rand: &mut ChunkRand,
    version: MCVersion,
)
    requires
        mult_trailing_zeroes <= 15,
        1 <= increment <= 0x1_0000,
        0 <= k < 0x1_0000_0000i64,
        0 <= population_seed < 0x1_0000_0000_0000i64,
    ensures
        final(world_seeds)@.len() >= old(world_seeds)@.len(),
        forall|i: int|
            0 <= i < old(world_seeds)@.len() ==> final(world_seeds)@[i] == old(world_seeds)@[i],
        forall|i: int|
            old(world_seeds)@.len() <= i < final(world_seeds)@.len() ==> population_seed_of(
                #[trigger] final(world_seeds)@[i],
                x,
                z,
                version,
            ) == population_seed,
{
    let mut a = mth::mask(
        (first_mult_inv.wrapping_mul(screen) >> mult_trailing_zeroes) ^ (m1() >> 32i64),
        16 - mult_trailing_zeroes,
    );
    let slab = mth::get_pow2(16 - mult_trailing_zeroes);
    proof {
        assert(a < slab);
    }

    while a < 65536
            invariant
                0 <= population_seed < 0x1_0000_0000_0000i64,
                a >= 0,
                1 <= increment <= 0x1_0000,
                a < 65536 + increment,
                0 <= k < 0x1_0000_0000i64,
                world_seeds@.len() >= old(world_seeds)@.len(),
                forall|i: int|
                    0 <= i < old(world_seeds)@.len() ==> world_seeds@[i] == old(world_seeds)@[i],
                forall|i: int|
                    old(world_seeds)@.len() <= i < world_seeds@.len() ==> population_seed_of(
                        #[trigger] world_seeds@[i],
                        x,
                        z,
                        version,
                    ) == population_seed,
            decreases 65536 + increment - a,
        {
            proof {
                lemma_shl32_bound(a);
            }
            let ws = (a << 32i64) + k;
            if rand.set_population_seed(ws, x, z, version) == population_seed {
                world_seeds.push(ws);
            }
            a = a + increment;
        }
}

proof fn lemma_shl16_bound(b: i64)
    by (bit_vector)
    requires
        0 <= b < 65536,
    ensures
        0 <= (b << 16i64) <= 0xFFFF_0000i64,
{
}

proof fn lemma_shl32_bound(a: i64)
    by (bit_vector)
    requires
        0 <= a < 65536,
    ensures
        0 <= (a << 32i64) < 0x1_0000_0000_0000i64,
{
}

/// The distinct carry offsets `x*i + z*j` to try: nine before 1.13, four after.
pub fn get_offsets(x: i32, z: i32, version: MCVersion) -> (r: Vec<i64>)
    ensures
        r@.len() <= 9,
{
    let bound: i64 = if version.is_older_than(MCVersion::V1_13) {
        3
    } else {
        2
    };
    let mut offsets: Vec<i64> = Vec::new();
    let mut i: i64 = 0;
    while i < bound
        invariant
            0 <= i <= bound <= 3,
            offsets@.len() <= (i * 3) as nat,
        decreases bound - i,
    {
        let mut j: i64 = 0;
        while j < bound
            invariant
                0 <= i < bound <= 3,
                0 <= j <= bound,
                offsets@.len() <= (i * 3 + j) as nat,
            decreases bound - j,
        {
            let v = (x as i64).wrapping_mul(i).wrapping_add((z as i64).wrapping_mul(j));
            if !vec_contains_i64(&offsets, v) {
                offsets.push(v);
            }
            j = j + 1;
        }
        proof {
            assert((i + 1) * 3 == i * 3 + 3) by (nonlinear_arith);
        }
        i = i + 1;
    }
    proof {
        assert(3 * 3 == 9);
    }
    offsets
}

fn vec_contains_i64(v: &Vec<i64>, t: i64) -> (r: bool)
    ensures
        r == v@.contains(t),
{
    let mut i: usize = 0;
    while i < v.len()
        invariant
            i <= v@.len(),
            forall|k: int| 0 <= k < i ==> v@[k] != t,
        decreases v@.len() - i,
    {
        if v[i] == t {
            return true;
        }
        i = i + 1;
    }
    proof {
        assert(!v@.contains(t));
    }
    false
}

/// The 16-bit slab of the combined-step addend contributed by a partial seed:
/// the screening quantity for the middle and top slab walks.
pub fn get_partial_addend(partial_seed: i64, x: i32, z: i32, bits: u32, version: MCVersion) -> (r:
    i64)
    requires
        bits != 63,
        bits >= 1,
    ensures
        r == partial_addend_of(partial_seed, x, z, bits, version),
{
    proof {
        reveal(partial_addend_of);
    }
    let (m2_val, a2_val, m4_val, a4_val) = lcg_params();

    let mask_v = mth::mask(partial_seed ^ m1(), bits);
    let a = (m2_val.wrapping_mul(mask_v).wrapping_add(a2_val) & mth::MASK_48) >> 16i64;
    let b = (m4_val.wrapping_mul(mask_v).wrapping_add(a4_val) & mth::MASK_48) >> 16i64;
    proof {
        lemma_slab_range(m2_val.wrapping_mul(mask_v).wrapping_add(a2_val));
        lemma_slab_range(m4_val.wrapping_mul(mask_v).wrapping_add(a4_val));
    }

    if version.is_older_than(MCVersion::V1_13) {
        proof {
            lemma_sigma_pre13_fits(a);
            lemma_sigma_pre13_fits(b);
        }
        return (x as i64).wrapping_mul(a / 2 * 2 + 1).wrapping_add(
            (z as i64).wrapping_mul(b / 2 * 2 + 1),
        );
    }

    ((x as i64).wrapping_mul(a | 1).wrapping_add((z as i64).wrapping_mul(b | 1))) >> 16i64
}

/// What `get_partial_addend` computes, as a function of its inputs.
#[verifier::opaque]
pub open spec fn partial_addend_of(partial_seed: i64, x: i32, z: i32, bits: u32, version: MCVersion) -> i64 {
    let mask_v = if bits >= 64 {
        partial_seed ^ 0x5DEECE66Di64
    } else {
        spec_mask(partial_seed ^ 0x5DEECE66Di64, bits)
    };
    let a = (vstd::wrapping::i64_specs::wrapping_add(
        vstd::wrapping::i64_specs::wrapping_mul(combined2().0 as i64, mask_v),
        combined2().1 as i64,
    ) & 0xFFFF_FFFF_FFFFi64) >> 16i64;
    let b = (vstd::wrapping::i64_specs::wrapping_add(
        vstd::wrapping::i64_specs::wrapping_mul(combined4().0 as i64, mask_v),
        combined4().1 as i64,
    ) & 0xFFFF_FFFF_FFFFi64) >> 16i64;
    if version.ordinal_spec() < 5 {
        vstd::wrapping::i64_specs::wrapping_add(
            vstd::wrapping::i64_specs::wrapping_mul(x as i64, sigma_pre13(a)),
            vstd::wrapping::i64_specs::wrapping_mul(z as i64, sigma_pre13(b)),
        )
    } else {
        vstd::wrapping::i64_specs::wrapping_add(
            vstd::wrapping::i64_specs::wrapping_mul(x as i64, a | 1),
            vstd::wrapping::i64_specs::wrapping_mul(z as i64, b | 1),
        ) >> 16i64
    }
}

proof fn lemma_slab_range(v: i64)
    by (bit_vector)
    ensures
        0 <= (v & 0xFFFF_FFFF_FFFFi64) >> 16i64 < 0x1_0000_0000i64,
{
}

/// Recover pre-1.13 world seeds from a masked chunk seed; every element of
/// the result forward-checks.
pub fn get_seed_from_chunkseed_pre13(chunkseed: i64, x: i32, z: i32) -> (r: Vec<i64>)
    requires
        0 <= chunkseed < 0x1_0000_0000_0000i64,
        chunkseed & 0xFFFF_FFFF_FFFFi64 == chunkseed,
    ensures
        forall|i: int|
            0 <= i < r@.len() ==> chunkseed_pre13_of(#[trigger] r@[i], x, z) == chunkseed,
{
    let mut worldseeds: Vec<i64> = Vec::new();

    if x == 0 && z == 0 {
        if get_chunkseed_pre13(chunkseed, x, z) == chunkseed {
            worldseeds.push(chunkseed);
        }
        return worldseeds;
    }

    let f = mth::mask(chunkseed, 16);
    proof {
        lemma_pow16_32_vals();
    }

    let (m2_val, a2_val, m4_val, a4_val) = lcg_params();

    let fm_data = first_mult_data(m2_val, m4_val, x, z);
    let mult_trailing_zeroes = fm_data.1;
    let first_mult_inv = fm_data.2;
    if mult_trailing_zeroes >= 16 {
        // The closed-form inversion needs a nonzero multiplier slab; no
        // candidates can be screened here.
        return worldseeds;
    }

    let possible_offsets = get_offsets(x, z, MCVersion::V1_8);

    let start = pre13_start(chunkseed, x, z);
    let mut c: i64 = start.0;
    let step = start.1;

    while c < 65536
        invariant
            0 <= chunkseed < 0x1_0000_0000_0000i64,
            0 <= f < 0x1_0000,
            c >= 0,
            1 <= step <= 0x1_0000_0000i64,
            c < 65536 + step,
            mult_trailing_zeroes <= 15,
            forall|i2: int|
                0 <= i2 < worldseeds@.len() ==> chunkseed_pre13_of(
                    #[trigger] worldseeds@[i2],
                    x,
                    z,
                ) == chunkseed,
        decreases 65536 + step - c,
    {
        let target = mth::mask(c ^ f, 16);
        let xt = ((m2_val.wrapping_mul(mth::mask(c ^ m1(), 16)).wrapping_add(a2_val))
            as u64 >> 16u64) as i64;
        let zt = ((m4_val.wrapping_mul(mth::mask(c ^ m1(), 16)).wrapping_add(a4_val))
            as u64 >> 16u64) as i64;
        let magic = (x as i64).wrapping_mul(xt).wrapping_add((z as i64).wrapping_mul(zt));

        let mut oi: usize = 0;
        while oi < possible_offsets.len()
            invariant
                0 <= chunkseed < 0x1_0000_0000_0000i64,
                mult_trailing_zeroes <= 15,
                forall|i2: int|
                    0 <= i2 < worldseeds@.len() ==> chunkseed_pre13_of(
                        #[trigger] worldseeds@[i2],
                        x,
                        z,
                    ) == chunkseed,
            decreases possible_offsets@.len() - oi,
        {
            let offset = possible_offsets[oi];
            add_world_seed_pre13(
                target.wrapping_sub(magic.wrapping_add(offset) & mth::MASK_16),
                mult_trailing_zeroes,
                first_mult_inv,
                c,
                x,
                z,
                chunkseed,
                &mut worldseeds,
            );
            oi = oi + 1;
        }

        c = c + step;
    }

    worldseeds
}

proof fn lemma_xor_nonneg(a: i64, b: i64)
    by (bit_vector)
    requires
        a >= 0,
        b >= 0,
    ensures
        a ^ b >= 0,
{
}

proof fn lemma_i32_widen_low32(x: i32)
    by (bit_vector)
    ensures
        ((x as i64) & 0xFFFF_FFFFi64 == 0) ==> (x as i64) == 0,
{
}

/// The starting candidate and walk step for the pre-1.13 inversion, from the
/// trailing zeros of the coordinates.
fn pre13_start(chunkseed: i64, x: i32, z: i32) -> (r: (i64, i64))
    requires
        x != 0 || z != 0,
        0 <= chunkseed < 0x1_0000_0000_0000i64,
    ensures
        r.0 >= 0,
        1 <= r.1 <= 0x1_0000_0000i64,
        r.0 < r.1,
{
    let xz: i64 = (x as i64) | (z as i64);
    proof {
        lemma_xz_low32(x, z);
    }
    let xcount = mth::trailing_zeros_i64(x as i64);
    let zcount = mth::trailing_zeros_i64(z as i64);
    let total_count = mth::trailing_zeros_i64(xz);
    proof {
        lemma_tz_lt32(xz, total_count);
    }
    let c: i64 = if xcount == zcount {
        proof {
            lemma_i32_widen_low32(x);
            lemma_i32_widen_low32(z);
            if x as i64 != 0 {
                lemma_tz_lt32(x as i64, xcount);
            } else {
                assert(z as i64 != 0);
                lemma_tz_lt32(z as i64, zcount);
            }
        }
        proof {
            lemma_tz_or_eq(x as i64, z as i64, xz, xcount, total_count);
        }
        let m = mth::get_pow2(xcount + 1) - 1;
        proof {
            lemma_and_pos_nonneg(chunkseed, m);
            lemma_start_lt_step(chunkseed & m, 0, (xcount + 1) as u32);
        }
        chunkseed & m
    } else {
        let m = mth::get_pow2(total_count + 1) - 1;
        let p = mth::get_pow2(total_count);
        proof {
            lemma_and_pos_nonneg(chunkseed, m);
            lemma_xor_nonneg(chunkseed & m, p);
            lemma_start_lt_step(chunkseed & m, p, (total_count + 1) as u32);
        }
        (chunkseed & m) ^ p
    };
    let step = mth::get_pow2(total_count + 1);
    proof {
        if xcount != zcount {
            assert(c < step);
        }
    }
    (c, step)
}

proof fn lemma_tz_or_eq(xi: i64, zi: i64, xz: i64, xc: u32, tc: u32)
    by (bit_vector)
    requires
        xz == xi | zi,
        xc < 32,
        tc < 32,
        ((xi >> (xc as i64)) & 1i64) == 1,
        xi & (((1i64 << xc) - 1) as i64) == 0,
        ((zi >> (xc as i64)) & 1i64) == 1,
        zi & (((1i64 << xc) - 1) as i64) == 0,
        ((xz >> (tc as i64)) & 1i64) == 1,
        xz & (((1i64 << tc) - 1) as i64) == 0,
    ensures
        tc == xc,
{
}

proof fn lemma_start_lt_step(a: i64, p: i64, kk: u32)
    by (bit_vector)
    requires
        kk >= 1,
        kk < 63,
        0 <= a <= ((1i64 << kk) - 1) as i64,
        p == 0 || p == (1i64 << ((kk - 1) as u32)),
    ensures
        (a ^ p) < (1i64 << kk),
        a < (1i64 << kk),
{
}

/// Walk the pre-1.13 candidate slabs for one carry offset; append only seeds
/// whose forward chunk seed matches.
#[verifier::rlimit(100)]
pub fn add_world_seed_pre13(
    first_addend: i64,
    mult_trailing_zeroes: u32,
    first_mult_inv: i64,
    c: i64,
    x: i32,
    z: i32,
    chunkseed: i64,
    worldseeds: &mut Vec<i64>,
)
    requires
        mult_trailing_zeroes <= 15,
        0 <= chunkseed < 0x1_0000_0000_0000i64,
    ensures
        final(worldseeds)@.len() >= old(worldseeds)@.len(),
        forall|i: int|
            0 <= i < old(worldseeds)@.len() ==> final(worldseeds)@[i] == old(worldseeds)@[i],
        forall|i: int|
            old(worldseeds)@.len() <= i < final(worldseeds)@.len() ==> chunkseed_pre13_of(
                #[trigger] final(worldseeds)@[i],
                x,
                z,
            ) == chunkseed,
{
    let bottom32 = chunkseed & mth::MASK_32;

    if mth::trailing_zeros_i64(first_addend) >= mult_trailing_zeroes {
        let mut b = mth::mask(
            (first_mult_inv.wrapping_mul(first_addend) >> mult_trailing_zeroes) ^ (m1() >> 16i64),
            16 - mult_trailing_zeroes,
        );

        if mult_trailing_zeroes != 0 {
            let small_mask = mth::get_mask(mult_trailing_zeroes);
            let small_mult_inverse = small_mask & first_mult_inv;
            let partial = get_partial_addend_pre13(
                (b << 16i64).wrapping_add(c),
                x,
                z,
                32 - mult_trailing_zeroes,
            );
            let target = ((b ^ (bottom32 >> 16i64)) & small_mask).wrapping_sub(partial >> 16i64)
                & small_mask;
            b = b.wrapping_add(
                ((target.wrapping_mul(small_mult_inverse)) ^ (m1() >> ((32 - mult_trailing_zeroes)
                    as i64)) & small_mask) << ((16 - mult_trailing_zeroes) as i64),
            );
        }

        let bottom32_seed = (b << 16i64).wrapping_add(c);
        let target2 = (bottom32_seed ^ bottom32) >> 16i64;
        let second_addend = mth::mask(
            get_partial_addend_pre13(bottom32_seed, x, z, 32) >> 16i64,
            16,
        );

        let mut top_bits = mth::mask(
            (first_mult_inv.wrapping_mul(target2.wrapping_sub(second_addend))
                >> mult_trailing_zeroes) ^ (m1() >> 32i64),
            16 - mult_trailing_zeroes,
        );
        let increment = mth::get_pow2(16 - mult_trailing_zeroes);

        while top_bits < 65536
            invariant
                0 <= chunkseed < 0x1_0000_0000_0000i64,
                top_bits >= 0,
                1 <= increment <= 0x1_0000,
                top_bits < 65536 + increment,
                worldseeds@.len() >= old(worldseeds)@.len(),
                forall|i: int|
                    0 <= i < old(worldseeds)@.len() ==> worldseeds@[i] == old(worldseeds)@[i],
                forall|i: int|
                    old(worldseeds)@.len() <= i < worldseeds@.len() ==> chunkseed_pre13_of(
                        #[trigger] worldseeds@[i],
                        x,
                        z,
                    ) == chunkseed,
            decreases 65536 + increment - top_bits,
        {
            let ws = (top_bits << 32i64).wrapping_add(bottom32_seed);
            if get_chunkseed_pre13(ws, x, z) == chunkseed {
                worldseeds.push(ws);
            }
            top_bits = top_bits + increment;
        }
    }
}

/// Forward pre-1.13 chunk seed computation for a world seed.
pub fn get_chunkseed_pre13(seed: i64, x: i32, z: i32) -> (r: i64)
    ensures
        r == chunkseed_pre13_of(seed, x, z),
{
    proof {
        reveal(crate::chunk_rand::population_seed_raw);
    }
    let mut r = JRand::new(seed);
    let a_raw = r.next_long();
    let b_raw = r.next_long();
    proof {
        lemma_sigma_pre13_fits(a_raw);
        lemma_sigma_pre13_fits(b_raw);
    }
    let a = a_raw / 2 * 2 + 1;
    let b = b_raw / 2 * 2 + 1;
    ((x as i64).wrapping_mul(a).wrapping_add((z as i64).wrapping_mul(b)) ^ seed) & mth::MASK_48
}

/// The pre-1.13 partial addend; see `get_partial_addend`.
pub fn get_partial_addend_pre13(partial_seed: i64, x: i32, z: i32, bits: u32) -> (r: i64)
    requires
        1 <= bits,
        bits != 63,
    ensures
        r == partial_addend_pre13_of(partial_seed, x, z, bits),
{
    proof {
        reveal(partial_addend_pre13_of);
    }
    let (m2_val, a2_val, m4_val, a4_val) = lcg_params();
    let mask_v = mth::mask(partial_seed ^ m1(), bits);

    let av = (m2_val.wrapping_mul(mask_v).wrapping_add(a2_val) & mth::MASK_48) >> 16i64;
    let bv = (m4_val.wrapping_mul(mask_v).wrapping_add(a4_val) & mth::MASK_48) >> 16i64;
    proof {
        lemma_slab_range(m2_val.wrapping_mul(mask_v).wrapping_add(a2_val));
        lemma_slab_range(m4_val.wrapping_mul(mask_v).wrapping_add(a4_val));
        lemma_sigma_pre13_fits((av as i32) as i64);
        lemma_sigma_pre13_fits((bv as i32) as i64);
    }

    (x as i64).wrapping_mul((av as i32) as i64 / 2 * 2 + 1).wrapping_add(
        (z as i64).wrapping_mul((bv as i32) as i64 / 2 * 2 + 1),
    )
}

/// What `get_partial_addend_pre13` computes, as a function of its inputs.
#[verifier::opaque]
pub open spec fn partial_addend_pre13_of(partial_seed: i64, x: i32, z: i32, bits: u32) -> i64 {
    let mask_v = if bits >= 64 {
        partial_seed ^ 0x5DEECE66Di64
    } else {
        spec_mask(partial_seed ^ 0x5DEECE66Di64, bits)
    };
    let av = (vstd::wrapping::i64_specs::wrapping_add(
        vstd::wrapping::i64_specs::wrapping_mul(combined2().0 as i64, mask_v),
        combined2().1 as i64,
    ) & 0xFFFF_FFFF_FFFFi64) >> 16i64;
    let bv = (vstd::wrapping::i64_specs::wrapping_add(
        vstd::wrapping::i64_specs::wrapping_mul(combined4().0 as i64, mask_v),
        combined4().1 as i64,
    ) & 0xFFFF_FFFF_FFFFi64) >> 16i64;
    vstd::wrapping::i64_specs::wrapping_add(
        vstd::wrapping::i64_specs::wrapping_mul(x as i64, sigma_pre13((av as i32) as i64)),
        vstd::wrapping::i64_specs::wrapping_mul(z as i64, sigma_pre13((bv as i32) as i64)),
    )
}

} // verus!

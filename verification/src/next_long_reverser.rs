use vstd::prelude::*;
use crate::jrand::{JRand, jnext_long};
use crate::rand::scramble;

verus! {

/// `w` is a world seed for structure seed `s`: `w` is a value some `nextLong`
/// call can produce, and its low 48 bits are `s`'s low 48 bits.
pub open spec fn is_world_seed_of(w: i64, s: i64) -> bool {
    &&& w & 0xFFFF_FFFF_FFFFi64 == s & 0xFFFF_FFFF_FFFFi64
    &&& exists|v: i64| #[trigger] jnext_long(v) == w
}


/// The upper 32 bits of the structure seed, adjusted for a carry out of the
/// lower half.
pub open spec fn nlr_upper_bits(s: i64) -> i64 {
    let up = ((s as u64) >> 32u64) as i64;
    if (s & 0xffff_ffffi64) & 0x8000_0000i64 != 0 {
        (up + 1) as i64
    } else {
        up
    }
}

/// The first carry bound `m1lv` derived from `s`.
pub open spec fn nlr_m1lv(s: i64) -> i64 {
    let lower = s & 0xffff_ffffi64;
    let low_max = ((((lower + 1) as i64) << 15i64) - 1) as i64;
    let upper_min = vstd::wrapping::i64_specs::wrapping_sub(
        (nlr_upper_bits(s) << 16i64) as i64,
        107048004364969i64,
    ) >> 1i64;
    let num = vstd::wrapping::i64_specs::wrapping_add(
        vstd::wrapping::i64_specs::wrapping_mul(low_max, -33441i64),
        vstd::wrapping::i64_specs::wrapping_mul(upper_min, 17549i64),
    );
    ((num as int) / 0x4000_0000 + 1) as i64
}

/// The second carry bound `m2lv` derived from `s`.
pub open spec fn nlr_m2lv(s: i64) -> i64 {
    let lower = s & 0xffff_ffffi64;
    let low_min = lower << 15i64;
    let upper_min = vstd::wrapping::i64_specs::wrapping_sub(
        (nlr_upper_bits(s) << 16i64) as i64,
        107048004364969i64,
    ) >> 1i64;
    let num = vstd::wrapping::i64_specs::wrapping_add(
        vstd::wrapping::i64_specs::wrapping_mul(low_min, 46603i64),
        vstd::wrapping::i64_specs::wrapping_mul(upper_min, 39761i64),
    );
    ((num as int) / 0x8000_0000 + 1) as i64
}

/// The screened internal state for one candidate lattice point `(m1, m2)`,
/// if both closed-form screen equalities hold.
pub open spec fn nlr_candidate(m1: i64, m2: i64, upper_bits: i64, lower_bits: i64) -> Option<i64> {
    let seed = vstd::wrapping::i64_specs::wrapping_add(
        vstd::wrapping::i64_specs::wrapping_mul(-39761i64, m1),
        vstd::wrapping::i64_specs::wrapping_mul(35098i64, m2),
    );
    let screen = vstd::wrapping::i64_specs::wrapping_add(
        vstd::wrapping::i64_specs::wrapping_add(
            vstd::wrapping::i64_specs::wrapping_mul(46603i64, m1),
            vstd::wrapping::i64_specs::wrapping_mul(66882i64, m2),
        ),
        107048004364969i64,
    );
    if (((screen as u64) >> 16u64) as i64) == upper_bits && (((seed as u64) >> 16u64) as i64)
        == lower_bits {
        Some(
            vstd::wrapping::i64_specs::wrapping_add(
                vstd::wrapping::i64_specs::wrapping_mul(254681119335897i64, seed),
                120305458776662i64,
            ) & 0xffff_ffff_ffffi64,
        )
    } else {
        None
    }
}

/// Append the value of an optional candidate.
pub open spec fn opt_push(s: Seq<i64>, o: Option<i64>) -> Seq<i64> {
    if o is Some {
        s.push(o->0)
    } else {
        s
    }
}

/// The exact candidate states `add_seeds_to_list` appends for `s`: the three
/// screened lattice points `(m1lv, m2lv)`, `(m1lv+1, m2lv)`, `(m1lv, m2lv+1)`.
pub open spec fn nlr_candidates(s: i64) -> Seq<i64> {
    let up = nlr_upper_bits(s);
    let low = s & 0xffff_ffffi64;
    let m1 = nlr_m1lv(s);
    let m2 = nlr_m2lv(s);
    opt_push(
        opt_push(
            opt_push(Seq::empty(), nlr_candidate(m1, m2, up, low)),
            nlr_candidate(vstd::wrapping::i64_specs::wrapping_add(m1, 1), m2, up, low),
        ),
        nlr_candidate(m1, vstd::wrapping::i64_specs::wrapping_add(m2, 1), up, low),
    )
}

/// The world seeds kept from a candidate list: each candidate state is masked
/// to 48 bits, its `nextLong` taken, and the result kept when its low 48 bits
/// equal the structure seed's.
pub open spec fn nlr_world_seeds(cands: Seq<i64>, s: i64) -> Seq<i64>
    decreases cands.len(),
{
    if cands.len() == 0 {
        Seq::empty()
    } else {
        let rest = nlr_world_seeds(cands.drop_last(), s);
        let w = jnext_long((cands.last() & 0xFFFF_FFFF_FFFFi64) as i64);
        if w & 0xFFFF_FFFF_FFFFi64 == s & 0xFFFF_FFFF_FFFFi64 {
            rest.push(w)
        } else {
            rest
        }
    }
}

/// Candidate internal states whose `nextLong` may reproduce `structure_seed`:
/// exactly the screened lattice points of `nlr_candidates`.
pub fn get_seeds(structure_seed: i64) -> (r: Vec<i64>)
    ensures
        r@ == nlr_candidates(structure_seed),
        r@.len() <= 3,
{
    let mut seeds: Vec<i64> = Vec::new();
    add_seeds_to_list(structure_seed, &mut seeds);
    seeds
}

/// The world seeds equivalent to a 48-bit structure seed: every returned `w`
/// forward-checks, so its first scrambled `nextLong` reproduces the low 48
/// bits of `structure_seed`.
pub fn get_next_long_equivalents(structure_seed: i64) -> (r: Vec<i64>)
    ensures
        r@ == nlr_world_seeds(nlr_candidates(structure_seed), structure_seed),
        r@.len() <= 3,
        forall|i: int| 0 <= i < r@.len() ==> is_world_seed_of(r@[i], structure_seed),
{
    let seeds = get_seeds(structure_seed);
    let mut next_longs: Vec<i64> = Vec::new();
    let mut idx: usize = 0;
    while idx < seeds.len()
        invariant
            next_longs@.len() <= idx,
            idx <= seeds@.len(),
            seeds@.len() <= 3,
            seeds@ == nlr_candidates(structure_seed),
            next_longs@ == nlr_world_seeds(seeds@.take(idx as int), structure_seed),
            forall|i: int|
                0 <= i < next_longs@.len() ==> is_world_seed_of(next_longs@[i], structure_seed),
        decreases seeds@.len() - idx,
    {
        let ghost pre_take = seeds@.take(idx as int);
        let mut r = JRand::of_internal_seed(seeds[idx]);
        let ghost v0 = r.seed;
        let w = r.next_long();
        proof {
            assert(seeds@.take(idx + 1).drop_last() =~= pre_take);
            assert(seeds@.take(idx + 1).last() == seeds@[idx as int]);
        }
        if w & crate::mth::MASK_48 == structure_seed & crate::mth::MASK_48 {
            proof {
                assert(jnext_long(v0) == w);
            }
            next_longs.push(w);
        }
        idx = idx + 1;
    }
    proof {
        assert(seeds@.take(seeds@.len() as int) =~= seeds@);
    }
    next_longs
}

/// Test the three candidate lattice points `(0,0)`, `(1,0)`, `(0,1)` for the
/// carry bounds derived from `structure_seed`, appending the internal states
/// that pass the closed-form screening.
#[verifier::rlimit(100)]
pub fn add_seeds_to_list(structure_seed: i64, seed_list: &mut Vec<i64>)
    ensures
        final(seed_list)@ == old(seed_list)@ + nlr_candidates(structure_seed),
        final(seed_list)@.len() <= old(seed_list)@.len() + 3,
        forall|i: int| 0 <= i < old(seed_list)@.len() ==> final(seed_list)@[i] == old(seed_list)@[i],
{
    let ghost pre = seed_list@;
    let lower_bits = structure_seed & 0xffff_ffffi64;
    let mut upper_bits = ((structure_seed as u64) >> 32u64) as i64;

    proof {
        lemma_low32_range(structure_seed);
    }

    // Did the lower bits affect the upper bits
    if (lower_bits & 0x8000_0000i64) != 0 {
        upper_bits = upper_bits + 1;
    }

    proof {
        lemma_shift15_range(lower_bits);
    }
    let low_min = lower_bits << 15i64;
    let low_max = ((lower_bits + 1) << 15i64) - 1;
    let upper_min = ((upper_bits << 16i64).wrapping_sub(107048004364969i64)) >> 1i64;

    let m1lv = carry_bound(
        low_max.wrapping_mul(-33441).wrapping_add(upper_min.wrapping_mul(17549)),
        0x4000_0000i64,
    );
    let m2lv = carry_bound(
        low_min.wrapping_mul(46603).wrapping_add(upper_min.wrapping_mul(39761)),
        0x8000_0000i64,
    );

    proof {
        assert(upper_bits == nlr_upper_bits(structure_seed));
        assert(m1lv == nlr_m1lv(structure_seed));
        assert(m2lv == nlr_m2lv(structure_seed));
    }
    if let Some(v) = try_candidate(m1lv, m2lv, upper_bits, lower_bits) {
        seed_list.push(v);
    }
    if let Some(v) = try_candidate(m1lv.wrapping_add(1), m2lv, upper_bits, lower_bits) {
        seed_list.push(v);
    }
    if let Some(v) = try_candidate(m1lv, m2lv.wrapping_add(1), upper_bits, lower_bits) {
        seed_list.push(v);
    }
    proof {
        assert(seed_list@ =~= pre + nlr_candidates(structure_seed));
    }
}

/// One more than the floor of `x / y`: the conservative carry bound used to
/// seed the candidate lattice points.
fn carry_bound(x: i64, y: i64) -> (r: i64)
    requires
        y >= 2,
    ensures
        -0x4000_0000_0000_0000 < r <= 0x4000_0000_0000_0001,
        r == (x as int) / (y as int) + 1,
{
    floor_div(x, y) + 1
}

/// Screen one candidate `(m1, m2)` lattice point, returning the matching
/// internal state, if any.
fn try_candidate(m1: i64, m2: i64, upper_bits: i64, lower_bits: i64) -> (r: Option<i64>)
    ensures
        r == nlr_candidate(m1, m2, upper_bits, lower_bits),
{
    let seed = (-39761i64).wrapping_mul(m1).wrapping_add(35098i64.wrapping_mul(m2));
    let screen = 46603i64
        .wrapping_mul(m1)
        .wrapping_add(66882i64.wrapping_mul(m2))
        .wrapping_add(107048004364969i64);
    if (((screen as u64) >> 16u64) as i64) == upper_bits {
        if (((seed as u64) >> 16u64) as i64) == lower_bits {
            return Some(
                254681119335897i64.wrapping_mul(seed).wrapping_add(120305458776662i64)
                    & 0xffff_ffff_ffffi64,
            );
        }
    }
    None
}

/// Java's `Math.floorDiv`: division rounding toward negative infinity. For a
/// positive divisor this is the Euclidean quotient; for a negative one it is
/// the negated ceiling against the positive divisor.
pub fn floor_div(x: i64, y: i64) -> (r: i64)
    requires
        y != 0,
        !(x == i64::MIN && y == -1),
    ensures
        y > 0 ==> r == (x as int) / (y as int),
        y >= 2 ==> -0x4000_0000_0000_0000 <= r <= 0x4000_0000_0000_0000,
{
    let q = x / y;
    proof {
        lemma_xor_sign(x, y);
        if y > 0 {
            lemma_trunc_vs_floor(x, y, q);
            if y >= 2 {
                lemma_quot_bound(x as int, y as int, (x as int) / (y as int));
            }
        }
    }
    if (x ^ y) < 0 && q.wrapping_mul(y) != x {
        proof {
            if y > 0 {
                lemma_crop_id(q * y);
            }
        }
        q.wrapping_sub(1)
    } else {
        q
    }
}

/// `signed_crop` is the identity on values already in `i64` range.
proof fn lemma_crop_id(v: int)
    requires
        -0x8000_0000_0000_0000 <= v <= 0x7FFF_FFFF_FFFF_FFFF,
    ensures
        vstd::wrapping::i64_specs::signed_crop(v) as int == v,
{
    let r: int = 0x1_0000_0000_0000_0000;
    if v >= 0 {
        vstd::arithmetic::div_mod::lemma_small_mod(v as nat, r as nat);
    } else {
        vstd::arithmetic::div_mod::lemma_fundamental_div_mod_converse(v, r, -1, v + r);
    }
}

proof fn lemma_quot_bound(xi: int, yi: int, q: int)
    requires
        yi >= 2,
        -0x8000_0000_0000_0000 <= xi <= 0x7FFF_FFFF_FFFF_FFFF,
        q == xi / yi,
    ensures
        -0x4000_0000_0000_0000 <= q <= 0x4000_0000_0000_0000,
{
    let rr = xi % yi;
    vstd::arithmetic::div_mod::lemma_fundamental_div_mod(xi, yi);
    vstd::arithmetic::div_mod::lemma_mod_bound(xi, yi);
    assert(-0x4000_0000_0000_0000 <= q <= 0x4000_0000_0000_0000) by (nonlinear_arith)
        requires
            yi >= 2,
            -0x8000_0000_0000_0000 <= xi <= 0x7FFF_FFFF_FFFF_FFFF,
            xi == yi * q + rr,
            0 <= rr < yi,
    ;
}

proof fn lemma_low32_range(s: i64)
    by (bit_vector)
    ensures
        0 <= s & 0xffff_ffffi64 < 0x1_0000_0000i64,
        0 <= (((s as u64) >> 32u64) as i64) < 0x1_0000_0000i64,
{
}

proof fn lemma_shift15_range(lo: i64)
    by (bit_vector)
    requires
        0 <= lo < 0x1_0000_0000i64,
    ensures
        lo << 15i64 >= 0,
        lo << 15i64 < 0x8000_0000_0000i64,
        ((lo + 1) as i64) << 15i64 <= 0x8000_0000_0000i64,
        ((lo + 1) as i64) << 15i64 >= 1,
{
}

proof fn lemma_xor_sign(x: i64, y: i64)
    by (bit_vector)
    ensures
        ((x ^ y) < 0) == ((x < 0) != (y < 0)),
{
}

/// Rust's truncating division against the Euclidean quotient, positive divisor.
proof fn lemma_trunc_vs_floor(x: i64, y: i64, q: i64)
    requires
        y > 0,
        x >= 0 ==> q == (x as int) / (y as int),
        x < 0 ==> q == -((-(x as int)) / (y as int)),
    ensures
        x >= 0 ==> q == (x as int) / (y as int),
        x < 0 && q * y == x ==> q == (x as int) / (y as int),
        x < 0 && q * y != x ==> q - 1 == (x as int) / (y as int),
        x < 0 && q * y != x ==> q > i64::MIN,
        x < 0 ==> x <= q * y < x + y,
{
    let xi = x as int;
    let yi = y as int;
    if x < 0 {
        let n = -xi;
        let qq = n / yi;
        let rr = n % yi;
        vstd::arithmetic::div_mod::lemma_fundamental_div_mod(n, yi);
        vstd::arithmetic::div_mod::lemma_mod_bound(n, yi);
        vstd::arithmetic::div_mod::lemma_div_pos_is_pos(n, yi);
        assert(q * y == xi + rr) by (nonlinear_arith)
            requires
                q == 0 - qq,
                n == yi * qq + rr,
                xi == 0 - n,
                x == xi,
                y == yi,
        ;
        // n == yi * qq + rr, 0 <= rr < yi, q == -qq
        if rr == 0 {
            assert(xi == yi * (-qq)) by (nonlinear_arith)
                requires
                    xi == 0 - n,
                    n == yi * qq + rr,
                    rr == 0,
            ;
            vstd::arithmetic::div_mod::lemma_fundamental_div_mod_converse(xi, yi, -qq, 0);
            assert(q * y == x) by (nonlinear_arith)
                requires
                    q == 0 - qq,
                    xi == yi * (0 - qq),
                    x == xi,
                    y == yi,
            ;
        } else {
            assert(xi == yi * (-qq - 1) + (yi - rr)) by (nonlinear_arith)
                requires
                    xi == 0 - n,
                    n == yi * qq + rr,
            ;
            vstd::arithmetic::div_mod::lemma_fundamental_div_mod_converse(
                xi,
                yi,
                -qq - 1,
                yi - rr,
            );
            assert(q * y != x && q > i64::MIN) by (nonlinear_arith)
                requires
                    q == 0 - qq,
                    n == yi * qq + rr,
                    xi == 0 - n,
                    0 < rr < yi,
                    x == xi,
                    y == yi,
                    n <= 0x8000_0000_0000_0000,
                    qq >= 0,
                    yi >= 1,
            ;
        }
    }
}


} // verus!

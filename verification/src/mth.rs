use vstd::prelude::*;
use vstd::arithmetic::power2::pow2;

verus! {

pub const MASK_8: i64 = 0xFF;
pub const MASK_16: i64 = 0xFFFF;
pub const MASK_32: i64 = 0xFFFF_FFFF;
pub const MASK_48: i64 = 0xFFFF_FFFF_FFFF;

/// 2^48, the modulus of the Java LCG, as a mathematical integer.
pub open spec fn p48() -> int {
    0x1_0000_0000_0000
}

/// Euclidean remainder modulo 2^48; always in [0, 2^48).
pub open spec fn m48(x: int) -> int {
    x % 0x1_0000_0000_0000
}

/// Masking an `i64` with the low-48-bit mask is exactly reduction mod 2^48.
pub proof fn lemma_mask48_is_mod(v: i64)
    by (bit_vector)
    ensures
        v & 0xFFFF_FFFF_FFFF == (v as int) % 0x1_0000_0000_0000,
{
}

/// The mask of `bits` low bits, as the original's `getMask`.
pub fn get_mask(bits: u32) -> (r: i64)
    requires
        bits != 63,
    ensures
        bits >= 64 ==> r == -1,
        bits < 63 ==> r == ((1i64 << bits) - 1) as i64,
        bits < 63 ==> r >= 0,
{
    if bits >= 64 {
        -1i64
    } else {
        proof {
            lemma_shl_pos(bits);
        }
        (1i64 << bits) - 1
    }
}

proof fn lemma_shl_pos(bits: u32)
    by (bit_vector)
    requires
        bits < 63,
    ensures
        1i64 << bits >= 1,
        1i64 << bits <= 0x4000_0000_0000_0000,
        bits <= 16 ==> 1i64 << bits <= 0x1_0000,
        bits <= 32 ==> 1i64 << bits <= 0x1_0000_0000,
{
}

/// 2^bits as an `i64`.
pub fn get_pow2(bits: u32) -> (r: i64)
    requires
        bits < 63,
    ensures
        r == 1i64 << bits,
        r >= 1,
        bits <= 16 ==> r <= 0x1_0000,
        bits <= 32 ==> r <= 0x1_0000_0000,
{
    proof {
        lemma_shl_pos(bits);
    }
    1i64 << bits
}

/// The low `bits` bits of an `i64`, as a spec value.
pub open spec fn spec_mask(v: i64, bits: u32) -> i64
    recommends
        bits < 63,
{
    v & (((1i64 << bits) - 1) as i64)
}

/// The low `bits` bits of `value`; equal to `value mod 2^bits` when `bits < 63`.
pub fn mask(value: i64, bits: u32) -> (r: i64)
    requires
        bits != 63,
    ensures
        bits >= 64 ==> r == value,
        bits < 63 ==> r == spec_mask(value, bits),
        bits < 63 ==> 0 <= r < (1i64 << bits),
{
    let m = get_mask(bits);
    proof {
        if bits < 63 {
            lemma_mask_range(value, bits);
        }
    }
    if bits >= 64 {
        proof {
            lemma_mask_all(value);
        }
    }
    value & m
}

proof fn lemma_mask_all(v: i64)
    by (bit_vector)
    ensures
        v & (-1i64) == v,
{
}

/// Masking with the low `bits` bits lands in [0, 2^bits).
pub proof fn lemma_mask_range(v: i64, bits: u32)
    by (bit_vector)
    requires
        bits < 63,
    ensures
        0 <= v & (((1i64 << bits) - 1) as i64) < (1i64 << bits),
{
}

/// Inverse of an odd `x` modulo 2^bits, computed bit by bit: the unique
/// `r` in `[0, 2^bits)` with `x * r = 1 (mod 2^bits)`. The input is reduced
/// mod 2^bits first, so any odd `i64` is accepted.
pub fn mod_inverse(x: i64, bits: u32) -> (r: i64)
    requires
        x & 1 == 1,
        1 <= bits <= 62,
    ensures
        0 <= r < (1i64 << bits),
        ((x as int) * (r as int)) % ((1i64 << bits) as int) == 1,
{
    let value = mask(x, bits);
    proof {
        lemma_low_bit_kept(x, bits);
        lemma_split_low(x, bits);
    }
    let r = mod_inverse_reduced(value, bits);
    proof {
        lemma_same_inverse(x, value, r, bits);
    }
    r
}

/// The congruence `x = x & mask (mod 2^bits)` carries the inverse over.
proof fn lemma_same_inverse(x: i64, v: i64, r: i64, bits: u32)
    requires
        1 <= bits <= 62,
        (x as int) - (v as int) == ((x >> bits) as int) * ((1i64 << bits) as int),
        0 <= v < (1i64 << bits),
        ((v as int) * (r as int)) % ((1i64 << bits) as int) == 1,
    ensures
        ((x as int) * (r as int)) % ((1i64 << bits) as int) == 1,
{
    let p = (1i64 << bits) as int;
    let q = (x >> bits) as int;
    assert(x as int == p * q + v) by (nonlinear_arith)
        requires
            (x as int) - (v as int) == q * p,
    ;
    assert((x as int) * (r as int) == p * (q * (r as int)) + (v as int) * (r as int))
        by (nonlinear_arith)
        requires
            x as int == p * q + v,
    ;
    vstd::arithmetic::div_mod::lemma_mod_multiples_vanish(
        q * (r as int),
        (v as int) * (r as int),
        p,
    );
}

proof fn lemma_low_bit_kept(x: i64, bits: u32)
    by (bit_vector)
    requires
        1 <= bits < 63,
        x & 1 == 1,
    ensures
        (x & (((1i64 << bits) - 1) as i64)) & 1 == 1,
{
}

/// Split an `i64` into its low `bits` bits and the shifted-out high part.
#[verifier::rlimit(100)]
proof fn lemma_split_low(x: i64, bits: u32)
    by (bit_vector)
    requires
        1 <= bits < 63,
    ensures
        (x as int) - ((x & (((1i64 << bits) - 1) as i64)) as int) == ((x >> bits) as int) * ((1i64
            << bits) as int),
{
}

fn mod_inverse_reduced(value: i64, bits: u32) -> (r: i64)
    requires
        value & 1 == 1,
        0 <= value < (1i64 << bits),
        1 <= bits <= 62,
    ensures
        0 <= r < (1i64 << bits),
        ((value as int) * (r as int)) % ((1i64 << bits) as int) == 1,
{
    let ghost mx: int = if value >= 0 { value as int } else { -(value as int) };
    let mut inv: i64 = 0;
    let mut b: i64 = 1;
    let mut bit: i64 = 1;
    let mut i: u32 = 0;
    proof {
        lemma_shl_pos(bits);
        vstd::arithmetic::power2::lemma2_to64();
    }
    while i < bits
        invariant
            value & 1 == 1,
            0 <= value < 0x4000_0000_0000_0000i64,
            1 <= bits <= 62,
            mx == (if value >= 0 { value as int } else { -(value as int) }),
            i <= bits,
            bit == pow2(i as nat),
            1 <= bit <= 0x4000_0000_0000_0000i64,
            0 <= inv < bit,
            -mx - 1 <= b <= mx + 1,
            (value as int) * (inv as int) + (b as int) * (bit as int) == 1,
        decreases bits - i,
    {
        let ghost inv0 = inv as int;
        let ghost b0 = b as int;
        let ghost bit0 = bit as int;
        if (b & 1) == 1 {
            inv = inv + bit;
            proof {
                lemma_odd_sub_even(b, value);
            }
            b = (b - value) >> 1i64;
            proof {
                assert((value as int) * (inv as int) + (b as int) * (2 * bit0) == 1)
                    by (nonlinear_arith)
                    requires
                        inv as int == inv0 + bit0,
                        2 * (b as int) == b0 - (value as int),
                        (value as int) * inv0 + b0 * bit0 == 1,
                ;
            }
        } else {
            proof {
                lemma_even_half(b);
            }
            b = b >> 1i64;
            proof {
                assert((value as int) * (inv as int) + (b as int) * (2 * bit0) == 1)
                    by (nonlinear_arith)
                    requires
                        inv as int == inv0,
                        2 * (b as int) == b0,
                        (value as int) * inv0 + b0 * bit0 == 1,
                ;
            }
        }
        proof {
            vstd::arithmetic::power2::lemma_pow2_unfold((i + 1) as nat);
            lemma_pow2_le62((i + 1) as nat, bits as nat);
            lemma_b_bound(b as int, b0, value as int, mx);
        }
        bit = bit * 2;
        i = i + 1;
    }
    proof {
        lemma_inverse_from_invariant(value as int, inv as int, b as int, bit as int);
        lemma_shl_is_pow2(bits);
        vstd::arithmetic::power2::lemma_pow2_strictly_increases(0, bits as nat);
        vstd::arithmetic::div_mod::lemma_small_mod(1, bit as nat);
    }
    inv
}

/// Inverse of an odd `x` modulo 2^16.
pub fn mod_inverse_16(x: i64) -> (r: i64)
    requires
        x & 1 == 1,
    ensures
        0 <= r < 0x1_0000,
        ((x as int) * (r as int)) % 0x1_0000 == 1,
{
    let r = mod_inverse(x, 16);
    proof {
        lemma_shl_is_pow2(16);
        assert(pow2(16) == 0x1_0000) by {
            vstd::arithmetic::power2::lemma2_to64();
        }
    }
    r
}

proof fn lemma_odd_sub_even(b: i64, x: i64)
    by (bit_vector)
    requires
        b & 1 == 1,
        x & 1 == 1,
        -0x4000_0000_0000_0000i64 <= b <= 0x4000_0000_0000_0000i64,
        -0x4000_0000_0000_0000i64 < x < 0x4000_0000_0000_0000i64,
    ensures
        2 * ((b - x) as i64 >> 1i64) == b - x,
{
}

proof fn lemma_even_half(b: i64)
    by (bit_vector)
    requires
        b & 1 != 1,
    ensures
        2 * (b >> 1i64) == b,
{
}

proof fn lemma_pow2_le62(j: nat, bits: nat)
    requires
        j <= bits <= 62,
    ensures
        pow2(j) <= 0x4000_0000_0000_0000,
{
    if j < 62 {
        vstd::arithmetic::power2::lemma_pow2_strictly_increases(j, 62);
    }
    assert(pow2(62) == 0x4000_0000_0000_0000) by {
        vstd::arithmetic::power2::lemma2_to64_rest();
    }
}

proof fn lemma_b_bound(b1: int, b0: int, x: int, mx: int)
    requires
        mx == (if x >= 0 { x } else { -x }),
        -mx - 1 <= b0 <= mx + 1,
        2 * b1 == b0 - x || 2 * b1 == b0,
    ensures
        -mx - 1 <= b1 <= mx + 1,
{
}

proof fn lemma_inverse_from_invariant(x: int, inv: int, b: int, bit: int)
    requires
        x * inv + b * bit == 1,
        bit > 0,
    ensures
        (x * inv) % bit == 1int % bit,
{
    vstd::arithmetic::div_mod::lemma_mod_multiples_vanish(b, x * inv, bit);
    assert(bit * b + x * inv == x * inv + b * bit) by (nonlinear_arith);
}

proof fn lemma_shl_is_pow2(bits: u32)
    requires
        bits < 63,
    ensures
        (1i64 << bits) as int == pow2(bits as nat),
{
    vstd::bits::lemma_u64_pow2_no_overflow(bits as nat);
    vstd::bits::lemma_u64_shl_is_mul(1u64, bits as u64);
    assert((1i64 << bits) as u64 == 1u64 << (bits as u64) && 1i64 << bits >= 0) by (bit_vector)
        requires
            bits < 63,
    ;
}

/// The number of trailing zero bits of `v`; 64 when `v == 0`.
pub fn trailing_zeros_i64(v: i64) -> (r: u32)
    ensures
        r <= 64,
        v == 0 ==> r == 64,
        v != 0 ==> r <= 63,
        r < 63 ==> v & (((1i64 << r) - 1) as i64) == 0,
        r == 63 ==> v & 0x7FFF_FFFF_FFFF_FFFFi64 == 0,
        r < 64 ==> ((v >> (r as i64)) & 1i64) == 1 || v == 0,
{
    let mut i: u32 = 0;
    proof {
        lemma_tz_init(v);
    }
    while i < 64 && (v >> (i as i64)) & 1 == 0
        invariant
            i <= 64,
            i < 63 ==> v & (((1i64 << i) - 1) as i64) == 0,
            i >= 63 ==> v & 0x7FFF_FFFF_FFFF_FFFFi64 == 0,
            i >= 64 ==> (v >> 63i64) & 1i64 == 0,
        decreases 64 - i,
    {
        proof {
            lemma_tz_step(v, i);
        }
        i = i + 1;
    }
    proof {
        if i == 64 {
            lemma_tz_all_zero(v);
        } else {
            lemma_tz_exit(v, i);
        }
    }
    i
}

proof fn lemma_tz_init(v: i64)
    by (bit_vector)
    ensures
        v & (((1i64 << 0u32) - 1) as i64) == 0,
{
}

proof fn lemma_tz_exit(v: i64, i: u32)
    by (bit_vector)
    requires
        i < 64,
        (v >> (i as i64)) & 1i64 != 0,
    ensures
        (v >> (i as i64)) & 1i64 == 1,
        v != 0,
{
}

proof fn lemma_tz_step(v: i64, i: u32)
    by (bit_vector)
    requires
        i < 64,
        (v >> (i as i64)) & 1i64 == 0,
        i < 63 ==> v & (((1i64 << i) - 1) as i64) == 0,
        i >= 63 ==> v & 0x7FFF_FFFF_FFFF_FFFFi64 == 0,
    ensures
        i + 1 < 63 ==> v & (((1i64 << (i + 1) as u32) - 1) as i64) == 0,
        i + 1 >= 63 ==> v & 0x7FFF_FFFF_FFFF_FFFFi64 == 0,
{
}

proof fn lemma_tz_all_zero(v: i64)
    by (bit_vector)
    requires
        v & 0x7FFF_FFFF_FFFF_FFFFi64 == 0,
        (v >> 63i64) & 1i64 == 0,
    ensures
        v == 0,
{
}

/// Sign-extend the low `bits` bits of `value`.
pub fn mask_signed(value: i64, bits: u32) -> (r: i64)
    requires
        1 <= bits <= 64,
    ensures
        r == (value << ((64 - bits) as u32)) >> ((64 - bits) as u32),
{
    (value << (64 - bits)) >> (64 - bits)
}





} // verus!

use vstd::prelude::*;
use vstd::arithmetic::div_mod::{
    lemma_mod_bound, lemma_mod_twice, lemma_mod_multiples_vanish, lemma_mul_mod_noop_general,
    lemma_add_mod_noop, lemma_add_mod_noop_right,
};
use vstd::arithmetic::mul::{lemma_mul_is_associative, lemma_mul_is_distributive_add};
use crate::mth::{p48, m48, lemma_mask48_is_mod};
use vstd::arithmetic::power2::pow2;

verus! {

/// An affine map `s -> (a*s + b) mod m` is represented by the pair `(a, b)`.
/// `affine_mul(f, g, m)` is the composition "g first, then f", reduced mod `m`.
pub open spec fn affine_mul(f: (int, int), g: (int, int), m: int) -> (int, int) {
    ((f.0 * g.0) % m, (f.0 * g.1 + f.1) % m)
}

/// The `k`-th power of the affine map `f` under composition mod `m`.
pub open spec fn affine_pow(f: (int, int), k: nat, m: int) -> (int, int)
    decreases k,
{
    if k == 0 {
        (1int % m, 0int)
    } else {
        affine_mul(f, affine_pow(f, (k - 1) as nat, m), m)
    }
}

/// Apply the affine map `f` to a state `s`, mod `m`.
pub open spec fn affine_apply(f: (int, int), s: int, m: int) -> int {
    (f.0 * s + f.1) % m
}

/// The Java LCG step as an affine pair.
pub open spec fn java_f() -> (int, int) {
    (0x5DEECE66D, 0xB)
}

/// One step of the Java LCG on a 48-bit state.
pub open spec fn java_next(s: int) -> int {
    m48(s * 0x5DEECE66D + 0xB)
}

/// Linear congruential generator parameters.
/// Models `seed_next = (seed * multiplier + addend) mod modulus`.
#[derive(Clone, Copy, Debug, PartialEq, Eq, Structural)]
pub struct LCG {
    pub multiplier: i64,
    pub addend: i64,
    pub modulus: i64,
}

impl LCG {
    /// The LCG of `java.util.Random`: multiplier 0x5DEECE66D, addend 0xB, modulus 2^48.
    pub fn java() -> (r: LCG)
        ensures
            r.multiplier == 0x5DEECE66Di64,
            r.addend == 0xBi64,
            r.modulus == 0x1_0000_0000_0000i64,
    {
        LCG { multiplier: 0x5DEECE66D, addend: 0xB, modulus: 0x1_0000_0000_0000 }
    }

    pub fn new(multiplier: i64, addend: i64, modulus: i64) -> (r: LCG)
        ensures
            r.multiplier == multiplier,
            r.addend == addend,
            r.modulus == modulus,
    {
        LCG { multiplier, addend, modulus }
    }

    /// Reduce `n` modulo this LCG's modulus. For the Java modulus 2^48 the
    /// result is exactly the Euclidean remainder.
    pub fn modop(&self, n: i64) -> (r: i64)
        requires
            self.modulus != 0,
        ensures
            self.modulus == 0x1_0000_0000_0000i64 ==> r == m48(n as int),
            self.modulus == 0x1_0000_0000_0000i64 ==> 0 <= r < 0x1_0000_0000_0000i64,
    {
        proof {
            assert(0x1_0000_0000_0000i64 & (-0x1_0000_0000_0000i64) == 0x1_0000_0000_0000i64)
                by (bit_vector);
        }
        if self.modulus > 0 && (self.modulus & (-self.modulus)) == self.modulus {
            proof {
                if self.modulus == 0x1_0000_0000_0000i64 {
                    lemma_mask48_is_mod(n);
                    lemma_mod_bound(n as int, p48());
                }
            }
            n & (self.modulus - 1)
        } else {
            proof {
                let m = self.modulus;
                assert(m != 0 ==> m as u64 != 0) by (bit_vector);
            }
            ((n as u64) % (self.modulus as u64)) as i64
        }
    }

    /// Advance a seed by one step of this LCG.
    pub fn next_seed(&self, seed: i64) -> (r: i64)
        requires
            self.modulus != 0,
        ensures
            self.modulus == 0x1_0000_0000_0000i64 ==> r == affine_apply(
                (self.multiplier as int, self.addend as int),
                seed as int,
                p48(),
            ),
            self.modulus == 0x1_0000_0000_0000i64 ==> 0 <= r < 0x1_0000_0000_0000i64,
    {
        let w = seed.wrapping_mul(self.multiplier).wrapping_add(self.addend);
        proof {
            lemma_wrap_mul_add_cong(seed, self.multiplier, self.addend);
            assert(w == vstd::wrapping::i64_specs::wrapping_add(
                vstd::wrapping::i64_specs::wrapping_mul(seed, self.multiplier),
                self.addend,
            ));
            assert((w as int) % p48() == (seed * self.multiplier + self.addend) % p48());
            assert(seed * self.multiplier == self.multiplier * seed);
        }
        self.modop(w)
    }

    /// Combine this LCG with itself `steps` times: the result is the affine
    /// map `self^steps`, with the exponent taken as the unsigned 64-bit
    /// reinterpretation of `steps` (so negative steps invert, because the
    /// Java affine group's exponent divides 2^64).
    pub fn combine(&self, steps: i64) -> (r: LCG)
        requires
            self.modulus != 0,
        ensures
            r.modulus == self.modulus,
            self.modulus == 0x1_0000_0000_0000i64 ==> {
                let p = affine_pow(
                    (self.multiplier as int, self.addend as int),
                    (steps as u64) as nat,
                    p48(),
                );
                r.multiplier == p.0 && r.addend == p.1
            },
    {
        let ghost f0: (int, int) = (self.multiplier as int, self.addend as int);
        let ghost k0: nat = (steps as u64) as nat;

        let mut multiplier: i64 = 1;
        let mut addend: i64 = 0;
        let mut im: i64 = self.multiplier;
        let mut ia: i64 = self.addend;
        let mut k: u64 = steps as u64;

        proof {
            lemma_loop_inv_init(f0, k0, p48());
        }

        while k != 0
            invariant
                affine_mul(
                    affine_pow((im as int, ia as int), k as nat, p48()),
                    (multiplier as int, addend as int),
                    p48(),
                ) == affine_pow(f0, k0, p48()),
            decreases k,
        {
            let ghost g: (int, int) = (im as int, ia as int);
            let ghost acc: (int, int) = (multiplier as int, addend as int);
            let ghost k_old: nat = k as nat;
            let bit_set = (k & 1) != 0;
            if bit_set {
                multiplier = multiplier.wrapping_mul(im);
                addend = im.wrapping_mul(addend).wrapping_add(ia);
            }
            ia = (im.wrapping_add(1)).wrapping_mul(ia);
            im = im.wrapping_mul(im);
            k = k >> 1;
            proof {
                lemma_bit_split(k_old as u64);
                lemma_step_cong(g, acc, (im as int, ia as int), (multiplier as int, addend as int), bit_set);
                lemma_loop_step(
                    f0, k0, g, acc,
                    (im as int, ia as int),
                    (multiplier as int, addend as int),
                    k_old, k as nat, bit_set, p48(),
                );
            }
        }

        proof {
            lemma_loop_inv_exit(f0, k0, (im as int, ia as int), (multiplier as int, addend as int), p48());
        }
        let multiplier = self.modop(multiplier);
        let addend = self.modop(addend);
        proof {
            if self.modulus == 0x1_0000_0000_0000i64 {
                let p = affine_pow(f0, k0, p48());
                lemma_mod_bound(p.0 * 1, p48());
                lemma_mod_twice(p.0, p48());
                lemma_mod_twice(p.1, p48());
            }
        }
        LCG::new(multiplier, addend, self.modulus)
    }

    /// The inverse step: combine(-1).
    pub fn invert(&self) -> (r: LCG)
        requires
            self.modulus != 0,
        ensures
            r.modulus == self.modulus,
            self.modulus == 0x1_0000_0000_0000i64 ==> {
                let p = affine_pow(
                    (self.multiplier as int, self.addend as int),
                    0xFFFF_FFFF_FFFF_FFFFu64 as nat,
                    p48(),
                );
                r.multiplier == p.0 && r.addend == p.1
            },
    {
        proof {
            assert((-1i64) as u64 == 0xFFFF_FFFF_FFFF_FFFFu64) by (bit_vector);
        }
        self.combine(-1)
    }
}

/// Wrapped i64 products and sums agree with exact products and sums mod 2^48.
proof fn lemma_crop_cong(x: int)
    ensures
        (vstd::wrapping::i64_specs::signed_crop(x) as int) % p48() == x % p48(),
{
    let r: int = 0x1_0000_0000_0000_0000;
    let c = vstd::wrapping::i64_specs::signed_crop(x) as int;
    // c == x % r  or  c == x % r - r
    assert(r == p48() * 0x1_0000);
    assert((x % r) % p48() == x % p48()) by {
        vstd::arithmetic::div_mod::lemma_mod_mod(x, p48(), 0x1_0000);
    }
    if c != x % r {
        assert(c == x % r - r);
        assert(c % p48() == (x % r) % p48()) by {
            lemma_mod_multiples_vanish(-0x1_0000, x % r, p48());
        }
    }
}

proof fn lemma_wrap_mul_cong(a: i64, b: i64)
    ensures
        (vstd::wrapping::i64_specs::wrapping_mul(a, b) as int) % p48() == (a * b) % p48(),
{
    lemma_crop_cong(a * b);
}

proof fn lemma_wrap_add_cong_int(a: int, b: i64)
    ensures
        (vstd::wrapping::i64_specs::wrapping_add(a as i64, b) as int) % p48() == (a as i64 + b) % p48(),
{
    let s = a as i64 + b;
    let w = vstd::wrapping::i64_specs::wrapping_add(a as i64, b) as int;
    let r: int = 0x1_0000_0000_0000_0000;
    assert(w == s || w == s - r || w == s + r);
    assert(r == p48() * 0x1_0000);
    if w == s - r {
        lemma_mod_multiples_vanish(-0x1_0000, s, p48());
    } else if w == s + r {
        lemma_mod_multiples_vanish(0x1_0000, s, p48());
    }
}

proof fn lemma_wrap_mul_add_cong(s: i64, m: i64, a: i64)
    ensures
        (vstd::wrapping::i64_specs::wrapping_add(
            vstd::wrapping::i64_specs::wrapping_mul(s, m),
            a,
        ) as int) % p48() == (s * m + a) % p48(),
{
    let w = vstd::wrapping::i64_specs::wrapping_mul(s, m);
    lemma_wrap_mul_cong(s, m);
    lemma_wrap_add_cong_int(w as int, a);
    // (w + a) % p48 == (s*m + a) % p48 because w % p48 == (s*m) % p48
    lemma_add_mod_noop(w as int, a as int, p48());
    lemma_add_mod_noop(s * m, a as int, p48());
}

proof fn lemma_bit_split(k: u64)
    by (bit_vector)
    ensures
        (k & 1) != 0 ==> k == 2 * (k >> 1) + 1,
        (k & 1) == 0 ==> k == 2 * (k >> 1),
{
}

/// Components of two affine pairs congruent mod m compose equally.
proof fn lemma_affine_mul_cong(f1: (int, int), f2: (int, int), g1: (int, int), g2: (int, int), m: int)
    requires
        m > 0,
        f1.0 % m == f2.0 % m,
        f1.1 % m == f2.1 % m,
        g1.0 % m == g2.0 % m,
        g1.1 % m == g2.1 % m,
    ensures
        affine_mul(f1, g1, m) == affine_mul(f2, g2, m),
{
    lemma_mul_mod_noop_general(f1.0, g1.0, m);
    lemma_mul_mod_noop_general(f2.0, g2.0, m);
    lemma_mul_mod_noop_general(f1.0, g1.1, m);
    lemma_mul_mod_noop_general(f2.0, g2.1, m);
    lemma_add_mod_noop(f1.0 * g1.1, f1.1, m);
    lemma_add_mod_noop(f2.0 * g2.1, f2.1, m);
    assert((f1.0 % m) * (g1.0 % m) == (f2.0 % m) * (g2.0 % m));
    assert((f1.0 % m) * (g1.1 % m) == (f2.0 % m) * (g2.1 % m));
}

/// Composition of affine maps mod m is associative.
proof fn lemma_affine_mul_assoc(f: (int, int), g: (int, int), h: (int, int), m: int)
    requires
        m > 0,
    ensures
        affine_mul(f, affine_mul(g, h, m), m) == affine_mul(affine_mul(f, g, m), h, m),
{
    let gh = affine_mul(g, h, m);
    let fg = affine_mul(f, g, m);
    // first components
    lemma_mul_mod_noop_general(f.0, g.0 * h.0, m);
    lemma_mul_mod_noop_general(f.0 * g.0, h.0, m);
    lemma_mul_is_associative(f.0, g.0, h.0);
    assert(affine_mul(f, gh, m).0 == (f.0 * (g.0 * h.0)) % m);
    assert(affine_mul(fg, h, m).0 == ((f.0 * g.0) * h.0) % m);
    // second components
    // left: (f.0 * ((g.0*h.1 + g.1) % m) + f.1) % m == (f.0*(g.0*h.1 + g.1) + f.1) % m
    lemma_mul_mod_noop_general(f.0, g.0 * h.1 + g.1, m);
    lemma_add_mod_noop_right(f.0 * ((g.0 * h.1 + g.1) % m), f.1, m);
    lemma_add_mod_noop_right(f.0 * (g.0 * h.1 + g.1), f.1, m);
    assert((f.0 * ((g.0 * h.1 + g.1) % m)) % m == (f.0 * (g.0 * h.1 + g.1)) % m);
    assert(affine_mul(f, gh, m).1 == (f.0 * (g.0 * h.1 + g.1) + f.1) % m) by {
        lemma_add_mod_noop(f.0 * ((g.0 * h.1 + g.1) % m), f.1, m);
        lemma_add_mod_noop(f.0 * (g.0 * h.1 + g.1), f.1, m);
    }
    // right: (((f.0*g.0) % m) * h.1 + (f.0*g.1 + f.1) % m) % m == ((f.0*g.0)*h.1 + (f.0*g.1 + f.1)) % m
    lemma_mul_mod_noop_general(f.0 * g.0, h.1, m);
    lemma_add_mod_noop(((f.0 * g.0) % m) * h.1, (f.0 * g.1 + f.1) % m, m);
    lemma_mod_twice(f.0 * g.1 + f.1, m);
    lemma_add_mod_noop((f.0 * g.0) * h.1, f.0 * g.1 + f.1, m);
    assert(affine_mul(fg, h, m).1 == ((f.0 * g.0) * h.1 + (f.0 * g.1 + f.1)) % m) by {
        assert((((f.0 * g.0) % m) * h.1) % m == ((f.0 * g.0) * h.1) % m);
    }
    // distribute: f.0*(g.0*h.1 + g.1) + f.1 == (f.0*g.0)*h.1 + (f.0*g.1 + f.1)
    lemma_mul_is_distributive_add(f.0, g.0 * h.1, g.1);
    lemma_mul_is_associative(f.0, g.0, h.1);
}

/// Powers of congruent bases are equal.
proof fn lemma_affine_pow_cong(f1: (int, int), f2: (int, int), k: nat, m: int)
    requires
        m > 0,
        f1.0 % m == f2.0 % m,
        f1.1 % m == f2.1 % m,
    ensures
        affine_pow(f1, k, m) == affine_pow(f2, k, m),
    decreases k,
{
    if k > 0 {
        lemma_affine_pow_cong(f1, f2, (k - 1) as nat, m);
        let p = affine_pow(f1, (k - 1) as nat, m);
        lemma_pow_reduced(f2, (k - 1) as nat, m);
        lemma_affine_mul_cong(f1, f2, p, p, m);
    }
}

/// Components of an affine power are reduced mod m.
proof fn lemma_pow_reduced(f: (int, int), k: nat, m: int)
    requires
        m > 0,
    ensures
        affine_pow(f, k, m).0 % m == affine_pow(f, k, m).0,
        affine_pow(f, k, m).1 % m == affine_pow(f, k, m).1,
        0 <= affine_pow(f, k, m).0 < m,
        0 <= affine_pow(f, k, m).1 < m,
    decreases k,
{
    if k == 0 {
        lemma_mod_bound(1, m);
        lemma_mod_twice(1, m);
        assert(affine_pow(f, 0, m).1 == 0int % m || affine_pow(f, 0, m).1 == 0);
        assert(0int % m == 0) by {
            lemma_mod_bound(0, m);
        }
    } else {
        let p = affine_pow(f, (k - 1) as nat, m);
        lemma_mod_bound(f.0 * p.0, m);
        lemma_mod_twice(f.0 * p.0, m);
        lemma_mod_bound(f.0 * p.1 + f.1, m);
        lemma_mod_twice(f.0 * p.1 + f.1, m);
    }
}

/// `affine_pow(f, a + b) == affine_pow(f, a) . affine_pow(f, b)`.
pub proof fn lemma_affine_pow_add(f: (int, int), a: nat, b: nat, m: int)
    requires
        m > 0,
    ensures
        affine_pow(f, a + b, m) == affine_mul(affine_pow(f, a, m), affine_pow(f, b, m), m),
    decreases a,
{
    let pb = affine_pow(f, b, m);
    if a == 0 {
        lemma_pow_reduced(f, b, m);
        lemma_mul_mod_noop_general(1, pb.0, m);
        lemma_mul_mod_noop_general(1, pb.1, m);
        lemma_mod_twice(pb.0, m);
        lemma_mod_twice(pb.1, m);
        assert(affine_mul(affine_pow(f, 0, m), pb, m).0 == ((1int % m) * pb.0) % m);
        assert(((1int % m) * pb.0) % m == (1 * pb.0) % m);
        assert(affine_mul(affine_pow(f, 0, m), pb, m).1 == ((1int % m) * pb.1 + 0) % m);
        assert(((1int % m) * pb.1) % m == (1 * pb.1) % m);
    } else {
        lemma_affine_pow_add(f, (a - 1) as nat, b, m);
        // pow(a+b) = f . pow(a-1+b) = f . (pow(a-1) . pow(b)) = (f . pow(a-1)) . pow(b)
        lemma_affine_mul_assoc(f, affine_pow(f, (a - 1) as nat, m), pb, m);
    }
}

/// Powers of the square are doubled powers.
proof fn lemma_affine_pow_square(f: (int, int), j: nat, m: int)
    requires
        m > 0,
    ensures
        affine_pow(affine_mul(f, f, m), j, m) == affine_pow(f, 2 * j, m),
    decreases j,
{
    if j > 0 {
        let f2 = affine_mul(f, f, m);
        lemma_affine_pow_square(f, (j - 1) as nat, m);
        let p = affine_pow(f, (2 * j - 2) as nat, m);
        // pow(f2, j) = f2 . pow(f2, j-1) = (f . f) . pow(f, 2j-2)
        // pow(f, 2j) = f . pow(f, 2j-1) = f . (f . pow(f, 2j-2))
        assert(affine_pow(f, 2 * j, m) == affine_mul(f, affine_pow(f, (2 * j - 1) as nat, m), m));
        assert(affine_pow(f, (2 * j - 1) as nat, m) == affine_mul(f, p, m));
        assert(affine_pow(f, 2 * j, m) == affine_mul(f, affine_mul(f, p, m), m));
        lemma_affine_mul_assoc(f, f, p, m);
        // f2 components are reduced versions of themselves
        lemma_mod_bound(f.0 * f.0, m);
        lemma_mod_twice(f.0 * f.0, m);
        lemma_mod_bound(f.0 * f.1 + f.1, m);
        lemma_mod_twice(f.0 * f.1 + f.1, m);
        lemma_pow_reduced(f2, (j - 1) as nat, m);
        lemma_affine_mul_cong(f2, f2, affine_pow(f2, (j - 1) as nat, m), p, m);
    }
}

proof fn lemma_loop_inv_init(f0: (int, int), k0: nat, m: int)
    requires
        m == p48(),
        k0 < 0x1_0000_0000_0000_0000,
    ensures
        affine_mul(affine_pow(f0, k0, m), (1int, 0int), m) == affine_pow(f0, k0, m),
{
    let p = affine_pow(f0, k0, m);
    lemma_pow_reduced(f0, k0, m);
    assert(affine_mul(p, (1int, 0int), m).0 == (p.0 * 1) % m);
    assert(affine_mul(p, (1int, 0int), m).1 == (p.0 * 0 + p.1) % m);
}

/// The wrapped loop-body updates are congruent to the exact affine products.
proof fn lemma_step_cong(
    g: (int, int),
    acc: (int, int),
    g_new: (int, int),
    acc_new: (int, int),
    bit_set: bool,
)
    requires
        g.0 == g.0 as i64 as int,
        g.1 == g.1 as i64 as int,
        acc.0 == acc.0 as i64 as int,
        acc.1 == acc.1 as i64 as int,
        g_new.0 == vstd::wrapping::i64_specs::wrapping_mul(g.0 as i64, g.0 as i64) as int,
        g_new.1 == vstd::wrapping::i64_specs::wrapping_mul(
            vstd::wrapping::i64_specs::wrapping_add(g.0 as i64, 1),
            g.1 as i64,
        ) as int,
        bit_set ==> acc_new.0 == vstd::wrapping::i64_specs::wrapping_mul(
            acc.0 as i64,
            g.0 as i64,
        ) as int,
        bit_set ==> acc_new.1 == vstd::wrapping::i64_specs::wrapping_add(
            vstd::wrapping::i64_specs::wrapping_mul(g.0 as i64, acc.1 as i64),
            g.1 as i64,
        ) as int,
        !bit_set ==> acc_new == acc,
    ensures
        g_new.0 % p48() == affine_mul(g, g, p48()).0 % p48(),
        g_new.1 % p48() == affine_mul(g, g, p48()).1 % p48(),
        bit_set ==> acc_new.0 % p48() == affine_mul(g, acc, p48()).0 % p48(),
        bit_set ==> acc_new.1 % p48() == affine_mul(g, acc, p48()).1 % p48(),
{
    let m = p48();
    // g_new.0 ~ g.0 * g.0
    lemma_wrap_mul_cong(g.0 as i64, g.0 as i64);
    lemma_mod_twice(g.0 * g.0, m);
    // g_new.1 ~ (g.0 + 1) * g.1 == g.0 * g.1 + g.1
    let ghost w1 = vstd::wrapping::i64_specs::wrapping_add(g.0 as i64, 1);
    lemma_wrap_add_cong_int(g.0, 1);
    lemma_wrap_mul_cong(w1, g.1 as i64);
    lemma_mul_mod_noop_general(w1 as int, g.1, m);
    lemma_mul_mod_noop_general(g.0 + 1, g.1, m);
    assert((w1 as int) % m == (g.0 + 1) % m);
    assert(((w1 as int) % m) * g.1 == ((g.0 + 1) % m) * g.1);
    lemma_mul_is_distributive_add(g.1, g.0, 1);
    assert((g.0 + 1) * g.1 == g.0 * g.1 + g.1) by {
        vstd::arithmetic::mul::lemma_mul_is_commutative(g.0 + 1, g.1);
        vstd::arithmetic::mul::lemma_mul_is_commutative(g.0, g.1);
    }
    lemma_mod_twice(g.0 * g.1 + g.1, m);
    if bit_set {
        // acc_new.0 ~ acc.0 * g.0 == g.0 * acc.0
        lemma_wrap_mul_cong(acc.0 as i64, g.0 as i64);
        vstd::arithmetic::mul::lemma_mul_is_commutative(acc.0, g.0);
        lemma_mod_twice(g.0 * acc.0, m);
        // acc_new.1 ~ g.0 * acc.1 + g.1
        lemma_wrap_mul_add_cong(g.0 as i64, acc.1 as i64, g.1 as i64);
        vstd::arithmetic::mul::lemma_mul_is_commutative(g.0, acc.1);
        lemma_mod_twice(g.0 * acc.1 + g.1, m);
    }
}

proof fn lemma_loop_step(
    f0: (int, int),
    k0: nat,
    g: (int, int),
    acc: (int, int),
    g_new: (int, int),
    acc_new: (int, int),
    k_old: nat,
    k_new: nat,
    bit_set: bool,
    m: int,
)
    requires
        m == p48(),
        affine_mul(affine_pow(g, k_old, m), acc, m) == affine_pow(f0, k0, m),
        bit_set ==> k_old == 2 * k_new + 1,
        !bit_set ==> k_old == 2 * k_new,
        g_new.0 % m == affine_mul(g, g, m).0 % m,
        g_new.1 % m == affine_mul(g, g, m).1 % m,
        bit_set ==> acc_new.0 % m == affine_mul(g, acc, m).0 % m,
        bit_set ==> acc_new.1 % m == affine_mul(g, acc, m).1 % m,
        !bit_set ==> acc_new == acc,
    ensures
        affine_mul(affine_pow(g_new, k_new, m), acc_new, m) == affine_pow(f0, k0, m),
{
    let g2 = affine_mul(g, g, m);
    lemma_pow_reduced(g2, k_new, m);
    lemma_affine_pow_cong(g_new, g2, k_new, m);
    lemma_affine_pow_square(g, k_new, m);
    // now affine_pow(g_new, k_new, m) == affine_pow(g, 2*k_new, m)
    if bit_set {
        let ga = affine_mul(g, acc, m);
        let p2 = affine_pow(g, 2 * k_new, m);
        lemma_pow_reduced(g, 2 * k_new, m);
        lemma_affine_mul_cong(p2, p2, acc_new, ga, m);
        // pow(g, 2k+1) = pow(g, 2k) . g
        lemma_affine_pow_add(g, 2 * k_new, 1, m);
        let p1 = affine_pow(g, 1, m);
        // p1 == g reduced; mul(p2, mul(g, acc)) == mul(mul(p2, g), acc)
        lemma_affine_mul_assoc(p2, g, acc, m);
        // mul(p2, p1, m) vs mul(p2, g, m): p1 components ~ g components
        lemma_pow_one_cong(g, m);
        lemma_affine_mul_cong(p2, p2, p1, g, m);
    } else {
        let p2 = affine_pow(g, 2 * k_new, m);
        lemma_pow_reduced(g, 2 * k_new, m);
    }
}

/// `affine_pow(f, 1, m)` has components congruent to `f`'s.
proof fn lemma_pow_one_cong(f: (int, int), m: int)
    requires
        m > 0,
    ensures
        affine_pow(f, 1, m).0 % m == f.0 % m,
        affine_pow(f, 1, m).1 % m == f.1 % m,
{
    let p0 = affine_pow(f, 0, m);
    assert(affine_pow(f, 1, m) == affine_mul(f, p0, m));
    lemma_mod_bound(1, m);
    lemma_mul_mod_noop_general(f.0, 1int % m, m);
    lemma_mul_mod_noop_general(f.0, 1, m);
    lemma_mod_twice(f.0 * (1int % m), m);
    lemma_mod_twice(f.0 * 1, m);
    assert((f.0 * ((1int % m) % m)) % m == (f.0 * (1int % m)) % m);
    lemma_mod_twice(1, m);
    assert((f.0 * (1int % m)) % m == (f.0 * 1) % m) by {
        lemma_mul_mod_noop_general(f.0, 1int % m, m);
        lemma_mul_mod_noop_general(f.0, 1, m);
        lemma_mod_twice(1, m);
        assert((1int % m) % m == 1int % m);
    }
    assert(affine_pow(f, 1, m).1 == (f.0 * 0 + f.1) % m);
    lemma_mod_twice(f.1, m);
}

/// The repeated-squaring chain: `affine_sq(f, n, m) == f^(2^n)`.
pub open spec fn affine_sq(f: (int, int), n: nat, m: int) -> (int, int)
    decreases n,
{
    if n == 0 {
        affine_pow(f, 1, m)
    } else {
        let g = affine_sq(f, (n - 1) as nat, m);
        affine_mul(g, g, m)
    }
}

proof fn lemma_affine_sq_is_pow(f: (int, int), n: nat, m: int)
    requires
        m > 0,
    ensures
        affine_sq(f, n, m) == affine_pow(f, pow2(n), m),
    decreases n,
{
    vstd::arithmetic::power2::lemma_pow2_pos(n);
    if n == 0 {
        assert(pow2(0) == 1) by {
            vstd::arithmetic::power2::lemma2_to64();
        }
    } else {
        lemma_affine_sq_is_pow(f, (n - 1) as nat, m);
        vstd::arithmetic::power2::lemma_pow2_unfold(n);
        // pow2(n) == 2 * pow2(n-1) == pow2(n-1) + pow2(n-1)
        lemma_affine_pow_add(f, pow2((n - 1) as nat), pow2((n - 1) as nat), m);
    }
}

/// The Java LCG's affine group has exponent dividing 2^64: stepping 2^64
/// times is the identity on 48-bit states.
proof fn lemma_java_sq_0()
    ensures
        affine_sq(java_f(), 0, p48()) == (0x5DEECE66Dint, 0xBint),
{
    reveal_with_fuel(affine_sq, 2);
    reveal_with_fuel(affine_pow, 3);
}

proof fn lemma_java_sq_1()
    ensures
        affine_sq(java_f(), 1, p48()) == (0xbb20b4600a69int, 0x40942de6baint),
{
    lemma_java_sq_0();
    reveal_with_fuel(affine_sq, 2);
    assert(affine_sq(java_f(), 1, p48()) == affine_mul((0x5deece66dint, 0xbint), (0x5deece66dint, 0xbint), p48()));
}

proof fn lemma_java_sq_2()
    ensures
        affine_sq(java_f(), 2, p48()) == (0x32eb772c5f11int, 0x2d3873c4cd04int),
{
    lemma_java_sq_1();
    reveal_with_fuel(affine_sq, 2);
    assert(affine_sq(java_f(), 2, p48()) == affine_mul((0xbb20b4600a69int, 0x40942de6baint), (0xbb20b4600a69int, 0x40942de6baint), p48()));
}

proof fn lemma_java_sq_3()
    ensures
        affine_sq(java_f(), 3, p48()) == (0x75489f259f21int, 0x7cba449ae648int),
{
    lemma_java_sq_2();
    reveal_with_fuel(affine_sq, 2);
    assert(affine_sq(java_f(), 3, p48()) == affine_mul((0x32eb772c5f11int, 0x2d3873c4cd04int), (0x32eb772c5f11int, 0x2d3873c4cd04int), p48()));
}

proof fn lemma_java_sq_4()
    ensures
        affine_sq(java_f(), 4, p48()) == (0x6dc260740241int, 0xd0352014d90int),
{
    lemma_java_sq_3();
    reveal_with_fuel(affine_sq, 2);
    assert(affine_sq(java_f(), 4, p48()) == affine_mul((0x75489f259f21int, 0x7cba449ae648int), (0x75489f259f21int, 0x7cba449ae648int), p48()));
}

proof fn lemma_java_sq_5()
    ensures
        affine_sq(java_f(), 5, p48()) == (0xfac6caed1481int, 0x1e4c4c311f20int),
{
    lemma_java_sq_4();
    reveal_with_fuel(affine_sq, 2);
    assert(affine_sq(java_f(), 5, p48()) == affine_mul((0x6dc260740241int, 0xd0352014d90int), (0x6dc260740241int, 0xd0352014d90int), p48()));
}

proof fn lemma_java_sq_6()
    ensures
        affine_sq(java_f(), 6, p48()) == (0xab768c7e6901int, 0xf77b98004e40int),
{
    lemma_java_sq_5();
    reveal_with_fuel(affine_sq, 2);
    assert(affine_sq(java_f(), 6, p48()) == affine_mul((0xfac6caed1481int, 0x1e4c4c311f20int), (0xfac6caed1481int, 0x1e4c4c311f20int), p48()));
}

proof fn lemma_java_sq_7()
    ensures
        affine_sq(java_f(), 7, p48()) == (0xa430a00dd201int, 0x6cc0d398dc80int),
{
    lemma_java_sq_6();
    reveal_with_fuel(affine_sq, 2);
    assert(affine_sq(java_f(), 7, p48()) == affine_mul((0xab768c7e6901int, 0xf77b98004e40int), (0xab768c7e6901int, 0xf77b98004e40int), p48()));
}

proof fn lemma_java_sq_8()
    ensures
        affine_sq(java_f(), 8, p48()) == (0x4fa0405fa401int, 0xa7a83e92b900int),
{
    lemma_java_sq_7();
    reveal_with_fuel(affine_sq, 2);
    assert(affine_sq(java_f(), 8, p48()) == affine_mul((0xa430a00dd201int, 0x6cc0d398dc80int), (0xa430a00dd201int, 0x6cc0d398dc80int), p48()));
}

proof fn lemma_java_sq_9()
    ensures
        affine_sq(java_f(), 9, p48()) == (0x94fba1cf4801int, 0x9e1922a97200int),
{
    lemma_java_sq_8();
    reveal_with_fuel(affine_sq, 2);
    assert(affine_sq(java_f(), 9, p48()) == affine_mul((0x4fa0405fa401int, 0xa7a83e92b900int), (0x4fa0405fa401int, 0xa7a83e92b900int), p48()));
}

proof fn lemma_java_sq_10()
    ensures
        affine_sq(java_f(), 10, p48()) == (0xba5cc7de9001int, 0xaba71b62e400int),
{
    lemma_java_sq_9();
    reveal_with_fuel(affine_sq, 2);
    assert(affine_sq(java_f(), 10, p48()) == affine_mul((0x94fba1cf4801int, 0x9e1922a97200int), (0x94fba1cf4801int, 0x9e1922a97200int), p48()));
}

proof fn lemma_java_sq_11()
    ensures
        affine_sq(java_f(), 11, p48()) == (0xba17a0bd2001int, 0xe5b38f05c800int),
{
    lemma_java_sq_10();
    reveal_with_fuel(affine_sq, 2);
    assert(affine_sq(java_f(), 11, p48()) == affine_mul((0xba5cc7de9001int, 0xaba71b62e400int), (0xba5cc7de9001int, 0xaba71b62e400int), p48()));
}

proof fn lemma_java_sq_12()
    ensures
        affine_sq(java_f(), 12, p48()) == (0x27e7857a4001int, 0x698c7f0b9000int),
{
    lemma_java_sq_11();
    reveal_with_fuel(affine_sq, 2);
    assert(affine_sq(java_f(), 12, p48()) == affine_mul((0xba17a0bd2001int, 0xe5b38f05c800int), (0xba17a0bd2001int, 0xe5b38f05c800int), p48()));
}

proof fn lemma_java_sq_13()
    ensures
        affine_sq(java_f(), 13, p48()) == (0x10b01af48001int, 0x702e82172000int),
{
    lemma_java_sq_12();
    reveal_with_fuel(affine_sq, 2);
    assert(affine_sq(java_f(), 13, p48()) == affine_mul((0x27e7857a4001int, 0x698c7f0b9000int), (0x27e7857a4001int, 0x698c7f0b9000int), p48()));
}

proof fn lemma_java_sq_14()
    ensures
        affine_sq(java_f(), 14, p48()) == (0xb4e475e90001int, 0x78b3142e4000int),
{
    lemma_java_sq_13();
    reveal_with_fuel(affine_sq, 2);
    assert(affine_sq(java_f(), 14, p48()) == affine_mul((0x10b01af48001int, 0x702e82172000int), (0x10b01af48001int, 0x702e82172000int), p48()));
}

proof fn lemma_java_sq_15()
    ensures
        affine_sq(java_f(), 15, p48()) == (0x37d9ebd20001int, 0x72be685c8000int),
{
    lemma_java_sq_14();
    reveal_with_fuel(affine_sq, 2);
    assert(affine_sq(java_f(), 15, p48()) == affine_mul((0xb4e475e90001int, 0x78b3142e4000int), (0xb4e475e90001int, 0x78b3142e4000int), p48()));
}

proof fn lemma_java_sq_16()
    ensures
        affine_sq(java_f(), 16, p48()) == (0xa7f7d7a40001int, 0xeaddd0b90000int),
{
    lemma_java_sq_15();
    reveal_with_fuel(affine_sq, 2);
    assert(affine_sq(java_f(), 16, p48()) == affine_mul((0x37d9ebd20001int, 0x72be685c8000int), (0x37d9ebd20001int, 0x72be685c8000int), p48()));
}

proof fn lemma_java_sq_17()
    ensures
        affine_sq(java_f(), 17, p48()) == (0x30ffaf480001int, 0xeb3fa1720000int),
{
    lemma_java_sq_16();
    reveal_with_fuel(affine_sq, 2);
    assert(affine_sq(java_f(), 17, p48()) == affine_mul((0xa7f7d7a40001int, 0xeaddd0b90000int), (0xa7f7d7a40001int, 0xeaddd0b90000int), p48()));
}

proof fn lemma_java_sq_18()
    ensures
        affine_sq(java_f(), 18, p48()) == (0xe63f5e900001int, 0x2c8f42e40000int),
{
    lemma_java_sq_17();
    reveal_with_fuel(affine_sq, 2);
    assert(affine_sq(java_f(), 18, p48()) == affine_mul((0x30ffaf480001int, 0xeb3fa1720000int), (0x30ffaf480001int, 0xeb3fa1720000int), p48()));
}

proof fn lemma_java_sq_19()
    ensures
        affine_sq(java_f(), 19, p48()) == (0xdd7ebd200001int, 0xb15e85c80000int),
{
    lemma_java_sq_18();
    reveal_with_fuel(affine_sq, 2);
    assert(affine_sq(java_f(), 19, p48()) == affine_mul((0xe63f5e900001int, 0x2c8f42e40000int), (0xe63f5e900001int, 0x2c8f42e40000int), p48()));
}

proof fn lemma_java_sq_20()
    ensures
        affine_sq(java_f(), 20, p48()) == (0xfefd7a400001int, 0xc3bd0b900000int),
{
    lemma_java_sq_19();
    reveal_with_fuel(affine_sq, 2);
    assert(affine_sq(java_f(), 20, p48()) == affine_mul((0xdd7ebd200001int, 0xb15e85c80000int), (0xdd7ebd200001int, 0xb15e85c80000int), p48()));
}

proof fn lemma_java_sq_21()
    ensures
        affine_sq(java_f(), 21, p48()) == (0xdfaf4800001int, 0xb7a17200000int),
{
    lemma_java_sq_20();
    reveal_with_fuel(affine_sq, 2);
    assert(affine_sq(java_f(), 21, p48()) == affine_mul((0xfefd7a400001int, 0xc3bd0b900000int), (0xfefd7a400001int, 0xc3bd0b900000int), p48()));
}

proof fn lemma_java_sq_22()
    ensures
        affine_sq(java_f(), 22, p48()) == (0x5bf5e9000001int, 0x26f42e400000int),
{
    lemma_java_sq_21();
    reveal_with_fuel(affine_sq, 2);
    assert(affine_sq(java_f(), 22, p48()) == affine_mul((0xdfaf4800001int, 0xb7a17200000int), (0xdfaf4800001int, 0xb7a17200000int), p48()));
}

proof fn lemma_java_sq_23()
    ensures
        affine_sq(java_f(), 23, p48()) == (0xb7ebd2000001int, 0x8de85c800000int),
{
    lemma_java_sq_22();
    reveal_with_fuel(affine_sq, 2);
    assert(affine_sq(java_f(), 23, p48()) == affine_mul((0x5bf5e9000001int, 0x26f42e400000int), (0x5bf5e9000001int, 0x26f42e400000int), p48()));
}

proof fn lemma_java_sq_24()
    ensures
        affine_sq(java_f(), 24, p48()) == (0x6fd7a4000001int, 0x1bd0b9000000int),
{
    lemma_java_sq_23();
    reveal_with_fuel(affine_sq, 2);
    assert(affine_sq(java_f(), 24, p48()) == affine_mul((0xb7ebd2000001int, 0x8de85c800000int), (0xb7ebd2000001int, 0x8de85c800000int), p48()));
}

proof fn lemma_java_sq_25()
    ensures
        affine_sq(java_f(), 25, p48()) == (0xdfaf48000001int, 0x37a172000000int),
{
    lemma_java_sq_24();
    reveal_with_fuel(affine_sq, 2);
    assert(affine_sq(java_f(), 25, p48()) == affine_mul((0x6fd7a4000001int, 0x1bd0b9000000int), (0x6fd7a4000001int, 0x1bd0b9000000int), p48()));
}

proof fn lemma_java_sq_26()
    ensures
        affine_sq(java_f(), 26, p48()) == (0xbf5e90000001int, 0x6f42e4000000int),
{
    lemma_java_sq_25();
    reveal_with_fuel(affine_sq, 2);
    assert(affine_sq(java_f(), 26, p48()) == affine_mul((0xdfaf48000001int, 0x37a172000000int), (0xdfaf48000001int, 0x37a172000000int), p48()));
}

proof fn lemma_java_sq_27()
    ensures
        affine_sq(java_f(), 27, p48()) == (0x7ebd20000001int, 0xde85c8000000int),
{
    lemma_java_sq_26();
    reveal_with_fuel(affine_sq, 2);
    assert(affine_sq(java_f(), 27, p48()) == affine_mul((0xbf5e90000001int, 0x6f42e4000000int), (0xbf5e90000001int, 0x6f42e4000000int), p48()));
}

proof fn lemma_java_sq_28()
    ensures
        affine_sq(java_f(), 28, p48()) == (0xfd7a40000001int, 0xbd0b90000000int),
{
    lemma_java_sq_27();
    reveal_with_fuel(affine_sq, 2);
    assert(affine_sq(java_f(), 28, p48()) == affine_mul((0x7ebd20000001int, 0xde85c8000000int), (0x7ebd20000001int, 0xde85c8000000int), p48()));
}

proof fn lemma_java_sq_29()
    ensures
        affine_sq(java_f(), 29, p48()) == (0xfaf480000001int, 0x7a1720000000int),
{
    lemma_java_sq_28();
    reveal_with_fuel(affine_sq, 2);
    assert(affine_sq(java_f(), 29, p48()) == affine_mul((0xfd7a40000001int, 0xbd0b90000000int), (0xfd7a40000001int, 0xbd0b90000000int), p48()));
}

proof fn lemma_java_sq_30()
    ensures
        affine_sq(java_f(), 30, p48()) == (0xf5e900000001int, 0xf42e40000000int),
{
    lemma_java_sq_29();
    reveal_with_fuel(affine_sq, 2);
    assert(affine_sq(java_f(), 30, p48()) == affine_mul((0xfaf480000001int, 0x7a1720000000int), (0xfaf480000001int, 0x7a1720000000int), p48()));
}

proof fn lemma_java_sq_31()
    ensures
        affine_sq(java_f(), 31, p48()) == (0xebd200000001int, 0xe85c80000000int),
{
    lemma_java_sq_30();
    reveal_with_fuel(affine_sq, 2);
    assert(affine_sq(java_f(), 31, p48()) == affine_mul((0xf5e900000001int, 0xf42e40000000int), (0xf5e900000001int, 0xf42e40000000int), p48()));
}

proof fn lemma_java_sq_32()
    ensures
        affine_sq(java_f(), 32, p48()) == (0xd7a400000001int, 0xd0b900000000int),
{
    lemma_java_sq_31();
    reveal_with_fuel(affine_sq, 2);
    assert(affine_sq(java_f(), 32, p48()) == affine_mul((0xebd200000001int, 0xe85c80000000int), (0xebd200000001int, 0xe85c80000000int), p48()));
}

proof fn lemma_java_sq_33()
    ensures
        affine_sq(java_f(), 33, p48()) == (0xaf4800000001int, 0xa17200000000int),
{
    lemma_java_sq_32();
    reveal_with_fuel(affine_sq, 2);
    assert(affine_sq(java_f(), 33, p48()) == affine_mul((0xd7a400000001int, 0xd0b900000000int), (0xd7a400000001int, 0xd0b900000000int), p48()));
}

proof fn lemma_java_sq_34()
    ensures
        affine_sq(java_f(), 34, p48()) == (0x5e9000000001int, 0x42e400000000int),
{
    lemma_java_sq_33();
    reveal_with_fuel(affine_sq, 2);
    assert(affine_sq(java_f(), 34, p48()) == affine_mul((0xaf4800000001int, 0xa17200000000int), (0xaf4800000001int, 0xa17200000000int), p48()));
}

proof fn lemma_java_sq_35()
    ensures
        affine_sq(java_f(), 35, p48()) == (0xbd2000000001int, 0x85c800000000int),
{
    lemma_java_sq_34();
    reveal_with_fuel(affine_sq, 2);
    assert(affine_sq(java_f(), 35, p48()) == affine_mul((0x5e9000000001int, 0x42e400000000int), (0x5e9000000001int, 0x42e400000000int), p48()));
}

proof fn lemma_java_sq_36()
    ensures
        affine_sq(java_f(), 36, p48()) == (0x7a4000000001int, 0xb9000000000int),
{
    lemma_java_sq_35();
    reveal_with_fuel(affine_sq, 2);
    assert(affine_sq(java_f(), 36, p48()) == affine_mul((0xbd2000000001int, 0x85c800000000int), (0xbd2000000001int, 0x85c800000000int), p48()));
}

proof fn lemma_java_sq_37()
    ensures
        affine_sq(java_f(), 37, p48()) == (0xf48000000001int, 0x172000000000int),
{
    lemma_java_sq_36();
    reveal_with_fuel(affine_sq, 2);
    assert(affine_sq(java_f(), 37, p48()) == affine_mul((0x7a4000000001int, 0xb9000000000int), (0x7a4000000001int, 0xb9000000000int), p48()));
}

proof fn lemma_java_sq_38()
    ensures
        affine_sq(java_f(), 38, p48()) == (0xe90000000001int, 0x2e4000000000int),
{
    lemma_java_sq_37();
    reveal_with_fuel(affine_sq, 2);
    assert(affine_sq(java_f(), 38, p48()) == affine_mul((0xf48000000001int, 0x172000000000int), (0xf48000000001int, 0x172000000000int), p48()));
}

proof fn lemma_java_sq_39()
    ensures
        affine_sq(java_f(), 39, p48()) == (0xd20000000001int, 0x5c8000000000int),
{
    lemma_java_sq_38();
    reveal_with_fuel(affine_sq, 2);
    assert(affine_sq(java_f(), 39, p48()) == affine_mul((0xe90000000001int, 0x2e4000000000int), (0xe90000000001int, 0x2e4000000000int), p48()));
}

proof fn lemma_java_sq_40()
    ensures
        affine_sq(java_f(), 40, p48()) == (0xa40000000001int, 0xb90000000000int),
{
    lemma_java_sq_39();
    reveal_with_fuel(affine_sq, 2);
    assert(affine_sq(java_f(), 40, p48()) == affine_mul((0xd20000000001int, 0x5c8000000000int), (0xd20000000001int, 0x5c8000000000int), p48()));
}

proof fn lemma_java_sq_41()
    ensures
        affine_sq(java_f(), 41, p48()) == (0x480000000001int, 0x720000000000int),
{
    lemma_java_sq_40();
    reveal_with_fuel(affine_sq, 2);
    assert(affine_sq(java_f(), 41, p48()) == affine_mul((0xa40000000001int, 0xb90000000000int), (0xa40000000001int, 0xb90000000000int), p48()));
}

proof fn lemma_java_sq_42()
    ensures
        affine_sq(java_f(), 42, p48()) == (0x900000000001int, 0xe40000000000int),
{
    lemma_java_sq_41();
    reveal_with_fuel(affine_sq, 2);
    assert(affine_sq(java_f(), 42, p48()) == affine_mul((0x480000000001int, 0x720000000000int), (0x480000000001int, 0x720000000000int), p48()));
}

proof fn lemma_java_sq_43()
    ensures
        affine_sq(java_f(), 43, p48()) == (0x200000000001int, 0xc80000000000int),
{
    lemma_java_sq_42();
    reveal_with_fuel(affine_sq, 2);
    assert(affine_sq(java_f(), 43, p48()) == affine_mul((0x900000000001int, 0xe40000000000int), (0x900000000001int, 0xe40000000000int), p48()));
}

proof fn lemma_java_sq_44()
    ensures
        affine_sq(java_f(), 44, p48()) == (0x400000000001int, 0x900000000000int),
{
    lemma_java_sq_43();
    reveal_with_fuel(affine_sq, 2);
    assert(affine_sq(java_f(), 44, p48()) == affine_mul((0x200000000001int, 0xc80000000000int), (0x200000000001int, 0xc80000000000int), p48()));
}

proof fn lemma_java_sq_45()
    ensures
        affine_sq(java_f(), 45, p48()) == (0x800000000001int, 0x200000000000int),
{
    lemma_java_sq_44();
    reveal_with_fuel(affine_sq, 2);
    assert(affine_sq(java_f(), 45, p48()) == affine_mul((0x400000000001int, 0x900000000000int), (0x400000000001int, 0x900000000000int), p48()));
}

proof fn lemma_java_sq_46()
    ensures
        affine_sq(java_f(), 46, p48()) == (0x1int, 0x400000000000int),
{
    lemma_java_sq_45();
    reveal_with_fuel(affine_sq, 2);
    assert(affine_sq(java_f(), 46, p48()) == affine_mul((0x800000000001int, 0x200000000000int), (0x800000000001int, 0x200000000000int), p48()));
}

proof fn lemma_java_sq_47()
    ensures
        affine_sq(java_f(), 47, p48()) == (0x1int, 0x800000000000int),
{
    lemma_java_sq_46();
    reveal_with_fuel(affine_sq, 2);
    assert(affine_sq(java_f(), 47, p48()) == affine_mul((0x1int, 0x400000000000int), (0x1int, 0x400000000000int), p48()));
}

proof fn lemma_java_sq_48()
    ensures
        affine_sq(java_f(), 48, p48()) == (0x1int, 0x0int),
{
    lemma_java_sq_47();
    reveal_with_fuel(affine_sq, 2);
    assert(affine_sq(java_f(), 48, p48()) == affine_mul((0x1int, 0x800000000000int), (0x1int, 0x800000000000int), p48()));
}

proof fn lemma_java_sq_49()
    ensures
        affine_sq(java_f(), 49, p48()) == (0x1int, 0x0int),
{
    lemma_java_sq_48();
    reveal_with_fuel(affine_sq, 2);
    assert(affine_sq(java_f(), 49, p48()) == affine_mul((0x1int, 0x0int), (0x1int, 0x0int), p48()));
}

proof fn lemma_java_sq_50()
    ensures
        affine_sq(java_f(), 50, p48()) == (0x1int, 0x0int),
{
    lemma_java_sq_49();
    reveal_with_fuel(affine_sq, 2);
    assert(affine_sq(java_f(), 50, p48()) == affine_mul((0x1int, 0x0int), (0x1int, 0x0int), p48()));
}

proof fn lemma_java_sq_51()
    ensures
        affine_sq(java_f(), 51, p48()) == (0x1int, 0x0int),
{
    lemma_java_sq_50();
    reveal_with_fuel(affine_sq, 2);
    assert(affine_sq(java_f(), 51, p48()) == affine_mul((0x1int, 0x0int), (0x1int, 0x0int), p48()));
}

proof fn lemma_java_sq_52()
    ensures
        affine_sq(java_f(), 52, p48()) == (0x1int, 0x0int),
{
    lemma_java_sq_51();
    reveal_with_fuel(affine_sq, 2);
    assert(affine_sq(java_f(), 52, p48()) == affine_mul((0x1int, 0x0int), (0x1int, 0x0int), p48()));
}

proof fn lemma_java_sq_53()
    ensures
        affine_sq(java_f(), 53, p48()) == (0x1int, 0x0int),
{
    lemma_java_sq_52();
    reveal_with_fuel(affine_sq, 2);
    assert(affine_sq(java_f(), 53, p48()) == affine_mul((0x1int, 0x0int), (0x1int, 0x0int), p48()));
}

proof fn lemma_java_sq_54()
    ensures
        affine_sq(java_f(), 54, p48()) == (0x1int, 0x0int),
{
    lemma_java_sq_53();
    reveal_with_fuel(affine_sq, 2);
    assert(affine_sq(java_f(), 54, p48()) == affine_mul((0x1int, 0x0int), (0x1int, 0x0int), p48()));
}

proof fn lemma_java_sq_55()
    ensures
        affine_sq(java_f(), 55, p48()) == (0x1int, 0x0int),
{
    lemma_java_sq_54();
    reveal_with_fuel(affine_sq, 2);
    assert(affine_sq(java_f(), 55, p48()) == affine_mul((0x1int, 0x0int), (0x1int, 0x0int), p48()));
}

proof fn lemma_java_sq_56()
    ensures
        affine_sq(java_f(), 56, p48()) == (0x1int, 0x0int),
{
    lemma_java_sq_55();
    reveal_with_fuel(affine_sq, 2);
    assert(affine_sq(java_f(), 56, p48()) == affine_mul((0x1int, 0x0int), (0x1int, 0x0int), p48()));
}

proof fn lemma_java_sq_57()
    ensures
        affine_sq(java_f(), 57, p48()) == (0x1int, 0x0int),
{
    lemma_java_sq_56();
    reveal_with_fuel(affine_sq, 2);
    assert(affine_sq(java_f(), 57, p48()) == affine_mul((0x1int, 0x0int), (0x1int, 0x0int), p48()));
}

proof fn lemma_java_sq_58()
    ensures
        affine_sq(java_f(), 58, p48()) == (0x1int, 0x0int),
{
    lemma_java_sq_57();
    reveal_with_fuel(affine_sq, 2);
    assert(affine_sq(java_f(), 58, p48()) == affine_mul((0x1int, 0x0int), (0x1int, 0x0int), p48()));
}

proof fn lemma_java_sq_59()
    ensures
        affine_sq(java_f(), 59, p48()) == (0x1int, 0x0int),
{
    lemma_java_sq_58();
    reveal_with_fuel(affine_sq, 2);
    assert(affine_sq(java_f(), 59, p48()) == affine_mul((0x1int, 0x0int), (0x1int, 0x0int), p48()));
}

proof fn lemma_java_sq_60()
    ensures
        affine_sq(java_f(), 60, p48()) == (0x1int, 0x0int),
{
    lemma_java_sq_59();
    reveal_with_fuel(affine_sq, 2);
    assert(affine_sq(java_f(), 60, p48()) == affine_mul((0x1int, 0x0int), (0x1int, 0x0int), p48()));
}

proof fn lemma_java_sq_61()
    ensures
        affine_sq(java_f(), 61, p48()) == (0x1int, 0x0int),
{
    lemma_java_sq_60();
    reveal_with_fuel(affine_sq, 2);
    assert(affine_sq(java_f(), 61, p48()) == affine_mul((0x1int, 0x0int), (0x1int, 0x0int), p48()));
}

proof fn lemma_java_sq_62()
    ensures
        affine_sq(java_f(), 62, p48()) == (0x1int, 0x0int),
{
    lemma_java_sq_61();
    reveal_with_fuel(affine_sq, 2);
    assert(affine_sq(java_f(), 62, p48()) == affine_mul((0x1int, 0x0int), (0x1int, 0x0int), p48()));
}

proof fn lemma_java_sq_63()
    ensures
        affine_sq(java_f(), 63, p48()) == (0x1int, 0x0int),
{
    lemma_java_sq_62();
    reveal_with_fuel(affine_sq, 2);
    assert(affine_sq(java_f(), 63, p48()) == affine_mul((0x1int, 0x0int), (0x1int, 0x0int), p48()));
}

proof fn lemma_java_sq_64()
    ensures
        affine_sq(java_f(), 64, p48()) == (0x1int, 0x0int),
{
    lemma_java_sq_63();
    reveal_with_fuel(affine_sq, 2);
    assert(affine_sq(java_f(), 64, p48()) == affine_mul((0x1int, 0x0int), (0x1int, 0x0int), p48()));
}

#[verifier::rlimit(100)]
pub proof fn lemma_java_pow_two64_is_identity()
    ensures
        affine_pow(java_f(), 0x1_0000_0000_0000_0000, p48()) == (1int, 0int),
{
    lemma_affine_sq_is_pow(java_f(), 64, p48());
    assert(pow2(64) == 0x1_0000_0000_0000_0000) by {
        vstd::arithmetic::power2::lemma2_to64();
        vstd::arithmetic::power2::lemma_pow2_adds(32, 32);
    }
    lemma_java_sq_64();
}

/// Applying a composition is composing applications.
pub proof fn lemma_affine_apply_mul(f: (int, int), g: (int, int), s: int, m: int)
    requires
        m > 0,
    ensures
        affine_apply(affine_mul(f, g, m), s, m) == affine_apply(f, affine_apply(g, s, m), m),
{
    let inner = g.0 * s + g.1;
    // right side: (f.0 * (inner % m) + f.1) % m == (f.0 * inner + f.1) % m
    lemma_mul_mod_noop_general(f.0, inner, m);
    lemma_add_mod_noop(f.0 * (inner % m), f.1, m);
    lemma_add_mod_noop(f.0 * inner, f.1, m);
    lemma_mod_twice(f.1, m);
    assert((f.0 * (inner % m)) % m == (f.0 * inner) % m);
    // left side: (((f.0*g.0) % m) * s + (f.0*g.1 + f.1) % m) % m
    //         == ((f.0*g.0) * s + (f.0*g.1 + f.1)) % m
    lemma_mul_mod_noop_general(f.0 * g.0, s, m);
    lemma_add_mod_noop(((f.0 * g.0) % m) * s, (f.0 * g.1 + f.1) % m, m);
    lemma_mod_twice(f.0 * g.1 + f.1, m);
    lemma_add_mod_noop((f.0 * g.0) * s, f.0 * g.1 + f.1, m);
    assert((((f.0 * g.0) % m) * s) % m == ((f.0 * g.0) * s) % m);
    // and the integer identities
    lemma_mul_is_distributive_add(f.0, g.0 * s, g.1);
    lemma_mul_is_associative(f.0, g.0, s);
}

/// Round trip: advancing a 48-bit state by `k1` Java steps and then by `k2`
/// steps with `k1 + k2 == 2^64` returns the state unchanged. Together with
/// `combine`'s contract this says `combine(k).next_seed(combine(-k).next_seed(s)) == s`.
pub proof fn lemma_java_combine_round_trip(k1: nat, k2: nat, s: int)
    requires
        k1 + k2 == 0x1_0000_0000_0000_0000,
        0 <= s < p48(),
    ensures
        affine_apply(
            affine_pow(java_f(), k2, p48()),
            affine_apply(affine_pow(java_f(), k1, p48()), s, p48()),
            p48(),
        ) == s,
{
    let m = p48();
    let p1 = affine_pow(java_f(), k1, m);
    let p2 = affine_pow(java_f(), k2, m);
    lemma_affine_apply_mul(p2, p1, s, m);
    lemma_affine_pow_add(java_f(), k2, k1, m);
    lemma_java_pow_two64_is_identity();
    assert(affine_mul(p2, p1, m) == (1int, 0int));
    assert(affine_apply((1int, 0int), s, m) == (1 * s + 0) % m);
    vstd::arithmetic::div_mod::lemma_small_mod(s as nat, m as nat);
}

proof fn lemma_loop_inv_exit(f0: (int, int), k0: nat, g: (int, int), acc: (int, int), m: int)
    requires
        m == p48(),
        affine_mul(affine_pow(g, 0, m), acc, m) == affine_pow(f0, k0, m),
    ensures
        acc.0 % m == affine_pow(f0, k0, m).0,
        acc.1 % m == affine_pow(f0, k0, m).1,
{
    lemma_mod_bound(1, m);
    assert(1int % m == 1);
    assert(affine_pow(g, 0, m) == (1int, 0int));
    assert(affine_mul((1int, 0int), acc, m).0 == (1 * acc.0) % m);
    assert(affine_mul((1int, 0int), acc, m).1 == (1 * acc.1 + 0) % m);
}

} // verus!

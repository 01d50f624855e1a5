use vstd::prelude::*;
use crate::bigint::{
    int_of, divides, tdiv, bi_from_i64, bi_clone, bi_add, bi_sub, bi_mul, bi_div_trunc, bi_neg,
    bi_gcd, bi_eq, bi_lt,
};

verus! {

/// `a` and `b` have no common divisor beyond units.
pub open spec fn coprime(a: int, b: int) -> bool {
    forall|e: int| #![trigger divides(e, a), divides(e, b)]
        divides(e, a) && divides(e, b) ==> -1 <= e <= 1
}

/// An exact rational in reduced form: positive denominator, coprime
/// numerator and denominator, and denominator one when the value is zero.
pub struct BigFraction {
    n: num_bigint::BigInt,
    d: num_bigint::BigInt,
}

impl BigFraction {
    /// The numerator's value.
    pub closed spec fn num_int(&self) -> int {
        int_of(self.n)
    }

    /// The denominator's value.
    pub closed spec fn den_int(&self) -> int {
        int_of(self.d)
    }

    /// The reduced-form invariant every constructor establishes and every
    /// operation preserves.
    pub open spec fn wf(&self) -> bool {
        &&& self.den_int() > 0
        &&& coprime(self.num_int(), self.den_int())
        &&& (self.num_int() == 0 ==> self.den_int() == 1)
    }

    /// `self` and the pair `(n, d)` denote the same rational.
    pub open spec fn same_ratio(&self, n: int, d: int) -> bool {
        self.num_int() * d == n * self.den_int()
    }

    pub fn zero() -> (r: BigFraction)
        ensures
            r.wf(),
            r.num_int() == 0,
            r.den_int() == 1,
    {
        proof {
            lemma_coprime_with_one(0);
        }
        BigFraction { n: bi_from_i64(0), d: bi_from_i64(1) }
    }

    pub fn one() -> (r: BigFraction)
        ensures
            r.wf(),
            r.num_int() == 1,
            r.den_int() == 1,
    {
        proof {
            lemma_coprime_with_one(1);
        }
        BigFraction { n: bi_from_i64(1), d: bi_from_i64(1) }
    }

    pub fn minus_one() -> (r: BigFraction)
        ensures
            r.wf(),
            r.num_int() == -1,
            r.den_int() == 1,
    {
        proof {
            lemma_coprime_with_one(-1);
        }
        BigFraction { n: bi_from_i64(-1), d: bi_from_i64(1) }
    }

    pub fn half() -> (r: BigFraction)
        ensures
            r.wf(),
            r.num_int() == 1,
            r.den_int() == 2,
    {
        proof {
            lemma_coprime_one_with(2);
        }
        BigFraction { n: bi_from_i64(1), d: bi_from_i64(2) }
    }

    pub fn from_i64(x: i64) -> (r: BigFraction)
        ensures
            r.wf(),
            r.num_int() == x,
            r.den_int() == 1,
    {
        proof {
            lemma_coprime_with_one(x as int);
        }
        BigFraction { n: bi_from_i64(x), d: bi_from_i64(1) }
    }

    pub fn from_bigint(x: num_bigint::BigInt) -> (r: BigFraction)
        ensures
            r.wf(),
            r.num_int() == int_of(x),
            r.den_int() == 1,
    {
        proof {
            lemma_coprime_with_one(int_of(x));
        }
        BigFraction { n: x, d: bi_from_i64(1) }
    }

    /// Reduce `numerator / denominator` to canonical form.
    pub fn new(numerator: num_bigint::BigInt, denominator: num_bigint::BigInt) -> (r: BigFraction)
        requires
            int_of(denominator) != 0,
        ensures
            r.wf(),
            r.same_ratio(int_of(numerator), int_of(denominator)),
    {
        Self::reduce_pair(numerator, denominator)
    }

    /// A copy holding the same value.
    pub fn clone_frac(&self) -> (r: BigFraction)
        ensures
            r.num_int() == self.num_int(),
            r.den_int() == self.den_int(),
            self.wf() ==> r.wf(),
    {
        BigFraction { n: bi_clone(&self.n), d: bi_clone(&self.d) }
    }

    pub fn numerator(&self) -> (r: &num_bigint::BigInt)
        ensures
            int_of(*r) == self.num_int(),
    {
        &self.n
    }

    pub fn denominator(&self) -> (r: &num_bigint::BigInt)
        ensures
            int_of(*r) == self.den_int(),
    {
        &self.d
    }

    pub fn is_zero(&self) -> (r: bool)
        ensures
            r == (self.num_int() == 0),
    {
        let z = bi_from_i64(0);
        bi_eq(&self.n, &z)
    }

    /// The sign of the value: 1, -1, or 0.
    pub fn signum(&self) -> (r: i32)
        ensures
            r == 1 <==> self.num_int() > 0,
            r == -1 <==> self.num_int() < 0,
            r == 0 <==> self.num_int() == 0,
    {
        let z = bi_from_i64(0);
        if bi_lt(&z, &self.n) {
            1
        } else if bi_lt(&self.n, &z) {
            -1
        } else {
            0
        }
    }

    /// Exact sum: `r = self + other`.
    pub fn add_frac(&self, other: &BigFraction) -> (r: BigFraction)
        requires
            self.wf(),
            other.wf(),
        ensures
            r.wf(),
            r.same_ratio(
                self.num_int() * other.den_int() + other.num_int() * self.den_int(),
                self.den_int() * other.den_int(),
            ),
    {
        let num = bi_add(&bi_mul(&self.n, &other.d), &bi_mul(&other.n, &self.d));
        let den = bi_mul(&self.d, &other.d);
        proof {
            lemma_pos_product(self.den_int(), other.den_int());
        }
        Self::reduce_pair(num, den)
    }

    /// Exact difference: `r = self - other`.
    pub fn sub_frac(&self, other: &BigFraction) -> (r: BigFraction)
        requires
            self.wf(),
            other.wf(),
        ensures
            r.wf(),
            r.same_ratio(
                self.num_int() * other.den_int() - other.num_int() * self.den_int(),
                self.den_int() * other.den_int(),
            ),
    {
        let num = bi_sub(&bi_mul(&self.n, &other.d), &bi_mul(&other.n, &self.d));
        let den = bi_mul(&self.d, &other.d);
        proof {
            lemma_pos_product(self.den_int(), other.den_int());
        }
        Self::reduce_pair(num, den)
    }

    /// Exact product: `r = self * other`.
    pub fn mul_frac(&self, other: &BigFraction) -> (r: BigFraction)
        requires
            self.wf(),
            other.wf(),
        ensures
            r.wf(),
            r.same_ratio(
                self.num_int() * other.num_int(),
                self.den_int() * other.den_int(),
            ),
    {
        let num = bi_mul(&self.n, &other.n);
        let den = bi_mul(&self.d, &other.d);
        proof {
            lemma_pos_product(self.den_int(), other.den_int());
        }
        Self::reduce_pair(num, den)
    }

    /// Exact quotient: `r = self / other`; the divisor must not be zero.
    pub fn div_frac(&self, other: &BigFraction) -> (r: BigFraction)
        requires
            self.wf(),
            other.wf(),
            other.num_int() != 0,
        ensures
            r.wf(),
            r.same_ratio(
                self.num_int() * other.den_int(),
                self.den_int() * other.num_int(),
            ),
    {
        let num = bi_mul(&self.n, &other.d);
        let den = bi_mul(&self.d, &other.n);
        proof {
            lemma_nonzero_product(self.den_int(), other.num_int());
        }
        Self::reduce_pair(num, den)
    }

    /// Exact sum with an integer.
    pub fn add_bigint(&self, other: &num_bigint::BigInt) -> (r: BigFraction)
        requires
            self.wf(),
        ensures
            r.wf(),
            r.same_ratio(self.num_int() + int_of(*other) * self.den_int(), self.den_int()),
    {
        let num = bi_add(&self.n, &bi_mul(other, &self.d));
        Self::reduce_pair(num, bi_clone(&self.d))
    }

    /// Exact difference with an integer.
    pub fn sub_bigint(&self, other: &num_bigint::BigInt) -> (r: BigFraction)
        requires
            self.wf(),
        ensures
            r.wf(),
            r.same_ratio(self.num_int() - int_of(*other) * self.den_int(), self.den_int()),
    {
        let num = bi_sub(&self.n, &bi_mul(other, &self.d));
        Self::reduce_pair(num, bi_clone(&self.d))
    }

    /// Exact product with an integer.
    pub fn mul_bigint(&self, other: &num_bigint::BigInt) -> (r: BigFraction)
        requires
            self.wf(),
        ensures
            r.wf(),
            r.same_ratio(self.num_int() * int_of(*other), self.den_int()),
    {
        let num = bi_mul(&self.n, other);
        Self::reduce_pair(num, bi_clone(&self.d))
    }

    /// Exact quotient by an integer; the divisor must not be zero.
    pub fn div_bigint(&self, other: &num_bigint::BigInt) -> (r: BigFraction)
        requires
            self.wf(),
            int_of(*other) != 0,
        ensures
            r.wf(),
            r.same_ratio(self.num_int(), self.den_int() * int_of(*other)),
    {
        let den = bi_mul(&self.d, other);
        proof {
            lemma_nonzero_product(self.den_int(), int_of(*other));
        }
        Self::reduce_pair(bi_clone(&self.n), den)
    }

    /// The negated value; reduction is preserved without a new reduction.
    pub fn negate(&self) -> (r: BigFraction)
        requires
            self.wf(),
        ensures
            r.wf(),
            r.num_int() == -self.num_int(),
            r.den_int() == self.den_int(),
    {
        proof {
            lemma_coprime_negate(self.num_int(), self.den_int());
        }
        BigFraction { n: bi_neg(&self.n), d: bi_clone(&self.d) }
    }

    /// The reciprocal; the value must not be zero.
    pub fn reciprocal(&self) -> (r: BigFraction)
        requires
            self.wf(),
            self.num_int() != 0,
        ensures
            r.wf(),
            r.num_int() * self.num_int() == r.den_int() * self.den_int(),
            r.num_int() != 0,
    {
        let z = bi_from_i64(0);
        proof {
            lemma_coprime_symmetric(self.num_int(), self.den_int());
            lemma_coprime_negate(self.den_int(), self.num_int());
            lemma_coprime_symmetric(-self.den_int(), self.num_int());
            lemma_coprime_negate(self.num_int(), -self.den_int());
            lemma_coprime_symmetric(-self.num_int(), -self.den_int());
            assert((-self.den_int()) * self.num_int() == (-self.num_int()) * self.den_int())
                by (nonlinear_arith);
        }
        if bi_lt(&self.n, &z) {
            BigFraction { n: bi_neg(&self.d), d: bi_neg(&self.n) }
        } else {
            BigFraction { n: bi_clone(&self.d), d: bi_clone(&self.n) }
        }
    }

    /// The absolute value.
    pub fn abs(&self) -> (r: BigFraction)
        requires
            self.wf(),
        ensures
            r.wf(),
            r.num_int() == (if self.num_int() < 0 {
                -self.num_int()
            } else {
                self.num_int()
            }),
            r.den_int() == self.den_int(),
    {
        let z = bi_from_i64(0);
        if bi_lt(&self.n, &z) {
            self.negate()
        } else {
            BigFraction { n: bi_clone(&self.n), d: bi_clone(&self.d) }
        }
    }

    /// Whether `self < other`, by cross multiplication.
    pub fn lt_frac(&self, other: &BigFraction) -> (r: bool)
        requires
            self.wf(),
            other.wf(),
        ensures
            r == (self.num_int() * other.den_int() < other.num_int() * self.den_int()),
    {
        let lhs = bi_mul(&self.n, &other.d);
        let rhs = bi_mul(&other.n, &self.d);
        bi_lt(&lhs, &rhs)
    }

    /// Whether `self == other` as values; with both sides reduced this is
    /// cross-multiplication equality.
    pub fn eq_frac(&self, other: &BigFraction) -> (r: bool)
        requires
            self.wf(),
            other.wf(),
        ensures
            r == (self.num_int() * other.den_int() == other.num_int() * self.den_int()),
    {
        let lhs = bi_mul(&self.n, &other.d);
        let rhs = bi_mul(&other.n, &self.d);
        bi_eq(&lhs, &rhs)
    }

    /// The largest integer at most `self`:
    /// `den * floor <= num < den * (floor + 1)`.
    pub fn floor(&self) -> (r: num_bigint::BigInt)
        requires
            self.wf(),
        ensures
            self.den_int() * int_of(r) <= self.num_int() < self.den_int() * (int_of(r) + 1),
    {
        let one = bi_from_i64(1);
        let z = bi_from_i64(0);
        if bi_eq(&self.d, &one) {
            proof {
                lemma_floor_den_one(self.num_int());
            }
            bi_clone(&self.n)
        } else if bi_lt(&self.n, &z) {
            let q = bi_div_trunc(&self.n, &self.d);
            proof {
                lemma_floor_neg(self.num_int(), self.den_int());
            }
            bi_sub(&q, &one)
        } else {
            let q = bi_div_trunc(&self.n, &self.d);
            proof {
                lemma_floor_pos(self.num_int(), self.den_int());
            }
            q
        }
    }

    /// The smallest integer at least `self`:
    /// `den * (ceil - 1) < num <= den * ceil`.
    pub fn ceil(&self) -> (r: num_bigint::BigInt)
        requires
            self.wf(),
        ensures
            self.den_int() * (int_of(r) - 1) < self.num_int() <= self.den_int() * int_of(r),
    {
        let one = bi_from_i64(1);
        let z = bi_from_i64(0);
        if bi_eq(&self.d, &one) {
            proof {
                lemma_floor_den_one(self.num_int());
            }
            bi_clone(&self.n)
        } else if bi_lt(&z, &self.n) {
            let q = bi_div_trunc(&self.n, &self.d);
            proof {
                lemma_ceil_pos(self.num_int(), self.den_int());
            }
            bi_add(&q, &one)
        } else {
            let q = bi_div_trunc(&self.n, &self.d);
            proof {
                lemma_ceil_neg(self.num_int(), self.den_int());
            }
            q
        }
    }

    /// The closest integer, halves rounding up (toward positive infinity):
    /// the floor of `self + 1/2`.
    pub fn round(&self) -> (r: num_bigint::BigInt)
        requires
            self.wf(),
        ensures
            2 * self.den_int() * int_of(r) <= 2 * self.num_int() + self.den_int() < 2
                * self.den_int() * (int_of(r) + 1),
    {
        let h = Self::half();
        let s = self.add_frac(&h);
        let r = s.floor();
        proof {
            lemma_round_char(
                self.num_int(),
                self.den_int(),
                s.num_int(),
                s.den_int(),
                int_of(r),
            );
        }
        r
    }

    /// Reduce an arbitrary pair with nonzero denominator to canonical form.
    fn reduce_pair(n0: num_bigint::BigInt, d0: num_bigint::BigInt) -> (r: BigFraction)
        requires
            int_of(d0) != 0,
        ensures
            r.wf(),
            r.same_ratio(int_of(n0), int_of(d0)),
    {
        let z = bi_from_i64(0);
        let one = bi_from_i64(1);
        if bi_eq(&n0, &z) {
            proof {
                lemma_coprime_with_one(0);
            }
            return BigFraction { n: bi_from_i64(0), d: bi_from_i64(1) };
        }
        let mut n: num_bigint::BigInt;
        let mut d: num_bigint::BigInt;
        if bi_lt(&d0, &z) {
            n = bi_neg(&n0);
            d = bi_neg(&d0);
            proof {
                assert((-int_of(n0)) * int_of(d0) == int_of(n0) * (-int_of(d0)))
                    by (nonlinear_arith);
            }
        } else {
            n = bi_clone(&n0);
            d = bi_clone(&d0);
        }
        loop
            invariant
                int_of(one) == 1,
                int_of(d) > 0,
                int_of(n) != 0,
                int_of(n) * int_of(d0) == int_of(n0) * int_of(d),
                int_of(d0) != 0,
            ensures
                int_of(d) > 0,
                int_of(n) != 0,
                int_of(n) * int_of(d0) == int_of(n0) * int_of(d),
                coprime(int_of(n), int_of(d)),
            decreases int_of(d),
        {
            let g = bi_gcd(&n, &d);
            if bi_eq(&g, &one) {
                proof {
                    lemma_gcd_one_coprime(int_of(n), int_of(d), int_of(g));
                }
                break ;
            }
            proof {
                lemma_reduce_step(int_of(n), int_of(d), int_of(g), int_of(n0), int_of(d0));
            }
            let n2 = bi_div_trunc(&n, &g);
            let d2 = bi_div_trunc(&d, &g);
            n = n2;
            d = d2;
        }
        BigFraction { n, d }
    }
}

/// Any divisor of 1 is a unit.
proof fn lemma_divides_one(e: int)
    requires
        divides(e, 1),
    ensures
        -1 <= e <= 1,
{
    let k = choose|k: int| 1 == #[trigger] (e * k);
    assert(-1 <= e <= 1) by (nonlinear_arith)
        requires
            1 == e * k,
    ;
}

/// Everything is coprime to one (second position).
proof fn lemma_coprime_with_one(a: int)
    ensures
        coprime(a, 1),
{
    assert forall|e: int| divides(e, a) && divides(e, 1) implies -1 <= e <= 1 by {
        lemma_divides_one(e);
    }
}

/// One is coprime to everything (first position).
proof fn lemma_coprime_one_with(b: int)
    ensures
        coprime(1, b),
{
    assert forall|e: int| divides(e, 1) && divides(e, b) implies -1 <= e <= 1 by {
        lemma_divides_one(e);
    }
}

proof fn lemma_coprime_symmetric(a: int, b: int)
    requires
        coprime(a, b),
    ensures
        coprime(b, a),
{
    assert forall|e: int| divides(e, b) && divides(e, a) implies -1 <= e <= 1 by {
        assert(divides(e, a) && divides(e, b));
    }
}

proof fn lemma_coprime_negate(a: int, b: int)
    requires
        coprime(a, b),
    ensures
        coprime(-a, b),
{
    assert forall|e: int| divides(e, -a) && divides(e, b) implies -1 <= e <= 1 by {
        let k = choose|k: int| -a == #[trigger] (e * k);
        assert(a == e * (-k)) by (nonlinear_arith)
            requires
                -a == e * k,
        ;
        assert(divides(e, a));
    }
}

proof fn lemma_pos_product(a: int, b: int)
    by (nonlinear_arith)
    requires
        a > 0,
        b > 0,
    ensures
        a * b > 0,
{
}

proof fn lemma_nonzero_product(a: int, b: int)
    by (nonlinear_arith)
    requires
        a != 0,
        b != 0,
    ensures
        a * b != 0,
{
}

/// When the gcd of `n` and `d` is one they are coprime: every common divisor
/// divides the gcd.
proof fn lemma_gcd_one_coprime(n: int, d: int, g: int)
    requires
        g == 1,
        forall|e: int| divides(e, n) && divides(e, d) ==> divides(e, g),
    ensures
        coprime(n, d),
{
    assert forall|e: int| divides(e, n) && divides(e, d) implies -1 <= e <= 1 by {
        assert(divides(e, 1));
        lemma_divides_one(e);
    }
}

/// Exact division: a divisor's quotient multiplies back.
proof fn lemma_exact_div(n: int, g: int)
    requires
        divides(g, n),
        g > 0,
    ensures
        n == g * tdiv(n, g),
{
    let k = choose|k: int| n == #[trigger] (g * k);
    if n >= 0 {
        assert(k >= 0) by (nonlinear_arith)
            requires
                n == g * k,
                n >= 0,
                g > 0,
        ;
        vstd::arithmetic::div_mod::lemma_fundamental_div_mod_converse(n, g, k, 0);
        assert(n == k * g + 0) by (nonlinear_arith)
            requires
                n == g * k,
        ;
    } else {
        assert(-n == g * (-k) && -k >= 0) by (nonlinear_arith)
            requires
                n == g * k,
                n < 0,
                g > 0,
        ;
        vstd::arithmetic::div_mod::lemma_fundamental_div_mod_converse(-n, g, -k, 0);
        assert(-n == (-k) * g + 0) by (nonlinear_arith)
            requires
                -n == g * (-k),
        ;
        assert(n == g * (-((-n) / g))) by (nonlinear_arith)
            requires
                (-n) / g == -k,
                n == g * k,
        ;
    }
}

/// One reduction step: exact quotients, preserved cross ratio, strictly
/// smaller positive denominator, nonzero numerator.
proof fn lemma_reduce_step(n: int, d: int, g: int, n0: int, d0: int)
    requires
        d > 0,
        n != 0,
        n * d0 == n0 * d,
        g != 1,
        g >= 0,
        divides(g, n),
        divides(g, d),
        n != 0 || d != 0 ==> g > 0,
    ensures
        g >= 2,
        n == g * tdiv(n, g),
        d == g * tdiv(d, g),
        tdiv(d, g) > 0,
        tdiv(d, g) < d,
        tdiv(n, g) != 0,
        tdiv(n, g) * d0 == n0 * tdiv(d, g),
{
    lemma_exact_div(n, g);
    lemma_exact_div(d, g);
    let nq = tdiv(n, g);
    let dq = tdiv(d, g);
    assert(dq > 0 && nq != 0) by (nonlinear_arith)
        requires
            d == g * dq,
            n == g * nq,
            d > 0,
            n != 0,
            g >= 2,
    ;
    assert(dq < d) by (nonlinear_arith)
        requires
            d == g * dq,
            g >= 2,
            dq > 0,
    ;
    assert(nq * d0 == n0 * dq) by (nonlinear_arith)
        requires
            n == g * nq,
            d == g * dq,
            n * d0 == n0 * d,
            g >= 2,
    ;
}

proof fn lemma_floor_den_one(n: int)
    by (nonlinear_arith)
    ensures
        1 * n <= n < 1 * (n + 1),
{
}

/// For a reduced fraction with denominator at least two, the denominator
/// does not divide the numerator.
proof fn lemma_coprime_not_divides(n: int, d: int)
    requires
        coprime(n, d),
        d >= 2,
    ensures
        n % d != 0,
{
    if n % d == 0 {
        vstd::arithmetic::div_mod::lemma_fundamental_div_mod(n, d);
        assert(n == d * (n / d));
        assert(divides(d, n));
        assert(divides(d, d)) by {
            assert(d == d * 1) by (nonlinear_arith);
        }
    }
}

proof fn lemma_floor_pos(n: int, d: int)
    requires
        n >= 0,
        d > 0,
    ensures
        d * tdiv(n, d) <= n < d * (tdiv(n, d) + 1),
{
    vstd::arithmetic::div_mod::lemma_fundamental_div_mod(n, d);
    vstd::arithmetic::div_mod::lemma_mod_bound(n, d);
    assert(d * (n / d) <= n < d * (n / d + 1)) by (nonlinear_arith)
        requires
            n == d * (n / d) + n % d,
            0 <= n % d < d,
    ;
}

proof fn lemma_floor_neg(n: int, d: int)
    requires
        n < 0,
        d >= 2,
        coprime(n, d),
    ensures
        d * (tdiv(n, d) - 1) <= n < d * tdiv(n, d),
{
    let m = -n;
    vstd::arithmetic::div_mod::lemma_fundamental_div_mod(m, d);
    vstd::arithmetic::div_mod::lemma_mod_bound(m, d);
    // the denominator cannot divide the numerator of a reduced fraction
    if m % d == 0 {
        assert(m == d * (m / d));
        assert(n == d * (-(m / d))) by (nonlinear_arith)
            requires
                m == d * (m / d),
                n == -m,
        ;
        assert(divides(d, n));
        assert(divides(d, d)) by {
            assert(d == d * 1) by (nonlinear_arith);
        }
    }
    assert(m % d != 0);
    assert(d * (-(m / d) - 1) <= n < d * (-(m / d))) by (nonlinear_arith)
        requires
            m == d * (m / d) + m % d,
            0 < m % d < d,
            n == -m,
    ;
}

proof fn lemma_ceil_pos(n: int, d: int)
    requires
        n > 0,
        d >= 2,
        coprime(n, d),
    ensures
        d * tdiv(n, d) < n <= d * (tdiv(n, d) + 1),
{
    vstd::arithmetic::div_mod::lemma_fundamental_div_mod(n, d);
    vstd::arithmetic::div_mod::lemma_mod_bound(n, d);
    lemma_coprime_not_divides(n, d);
    assert(d * (n / d) < n <= d * (n / d + 1)) by (nonlinear_arith)
        requires
            n == d * (n / d) + n % d,
            0 < n % d < d,
    ;
}

proof fn lemma_ceil_neg(n: int, d: int)
    requires
        n <= 0,
        d > 0,
    ensures
        d * (tdiv(n, d) - 1) < n <= d * tdiv(n, d),
{
    if n == 0 {
        assert(d * (0 - 1) < 0 <= d * 0) by (nonlinear_arith)
            requires
                d > 0,
        ;
        assert(tdiv(0, d) == 0) by {
            vstd::arithmetic::div_mod::lemma_div_of0(d);
        }
    } else {
        let m = -n;
        vstd::arithmetic::div_mod::lemma_fundamental_div_mod(m, d);
        vstd::arithmetic::div_mod::lemma_mod_bound(m, d);
        assert(d * (-(m / d) - 1) < n <= d * (-(m / d))) by (nonlinear_arith)
            requires
                m == d * (m / d) + m % d,
                0 <= m % d < d,
                n == -m,
                d > 0,
        ;
    }
}

/// The floor of `self + 1/2` satisfies the round-half-up characterization.
proof fn lemma_round_char(n: int, d: int, sn: int, sd: int, r: int)
    requires
        d > 0,
        sd > 0,
        sn * (d * 2) == (n * 2 + 1 * d) * sd,
        sd * r <= sn < sd * (r + 1),
    ensures
        2 * d * r <= 2 * n + d < 2 * d * (r + 1),
{
    assert(2 * d * r <= 2 * n + d) by (nonlinear_arith)
        requires
            sn * (d * 2) == (n * 2 + d) * sd,
            sd * r <= sn,
            d > 0,
            sd > 0,
    ;
    assert(2 * n + d < 2 * d * (r + 1)) by (nonlinear_arith)
        requires
            sn * (d * 2) == (n * 2 + d) * sd,
            sn < sd * (r + 1),
            d > 0,
            sd > 0,
    ;
}

} // verus!

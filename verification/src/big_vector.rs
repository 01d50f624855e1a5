use vstd::prelude::*;
use crate::big_fraction::BigFraction;
use crate::bigint::int_of;

verus! {

/// A rational as an unreduced pair (numerator, denominator).
pub open spec fn rat_add(p: (int, int), q: (int, int)) -> (int, int) {
    (p.0 * q.1 + q.0 * p.1, p.1 * q.1)
}

pub open spec fn rat_sub(p: (int, int), q: (int, int)) -> (int, int) {
    (p.0 * q.1 - q.0 * p.1, p.1 * q.1)
}

pub open spec fn rat_mul(p: (int, int), q: (int, int)) -> (int, int) {
    (p.0 * q.0, p.1 * q.1)
}

/// The two pairs denote the same rational.
pub open spec fn rat_eqv(p: (int, int), q: (int, int)) -> bool {
    p.0 * q.1 == q.0 * p.1
}

impl BigFraction {
    /// The value as a pair.
    pub open spec fn pair(&self) -> (int, int) {
        (self.num_int(), self.den_int())
    }
}

/// A dense vector of exact rationals.
pub struct BigVector {
    data: Vec<BigFraction>,
}

/// The inner product of the first `n` coordinates, as an unreduced pair.
pub open spec fn dot_spec(a: Seq<BigFraction>, b: Seq<BigFraction>, n: int) -> (int, int)
    decreases n,
{
    if n <= 0 {
        (0int, 1int)
    } else {
        rat_add(dot_spec(a, b, n - 1), rat_mul(a[n - 1].pair(), b[n - 1].pair()))
    }
}

impl BigVector {
    /// The coordinates.
    pub closed spec fn view_seq(&self) -> Seq<BigFraction> {
        self.data@
    }

    /// Every coordinate is in reduced form.
    pub open spec fn wf(&self) -> bool {
        forall|i: int| 0 <= i < self.view_seq().len() ==> #[trigger] self.view_seq()[i].wf()
    }

    pub open spec fn dim(&self) -> nat {
        self.view_seq().len()
    }

    /// The all-zero vector of the given dimension.
    pub fn new(dimension: usize) -> (r: BigVector)
        ensures
            r.wf(),
            r.dim() == dimension,
            forall|i: int| 0 <= i < dimension ==> (#[trigger] r.view_seq()[i]).pair() == (0int, 1int),
    {
        let mut data: Vec<BigFraction> = Vec::new();
        let mut i: usize = 0;
        while i < dimension
            invariant
                i <= dimension,
                data@.len() == i,
                forall|k: int| 0 <= k < i ==> #[trigger] data@[k].wf(),
                forall|k: int| 0 <= k < i ==> (#[trigger] data@[k]).pair() == (0int, 1int),
            decreases dimension - i,
        {
            data.push(BigFraction::zero());
            i = i + 1;
        }
        BigVector { data }
    }

    /// Wrap existing coordinates.
    pub fn from_data(data: Vec<BigFraction>) -> (r: BigVector)
        ensures
            r.view_seq() == data@,
    {
        BigVector { data }
    }

    pub fn dimension(&self) -> (r: usize)
        ensures
            r == self.dim(),
    {
        self.data.len()
    }

    pub fn get(&self, i: usize) -> (r: &BigFraction)
        requires
            i < self.dim(),
        ensures
            *r == self.view_seq()[i as int],
    {
        &self.data[i]
    }

    pub fn set(&mut self, i: usize, value: BigFraction)
        requires
            i < old(self).dim(),
        ensures
            final(self).view_seq() == old(self).view_seq().update(i as int, value),
    {
        let ghost pre = self.data@;
        let _ = self.data.remove(i);
        self.data.insert(i, value);
        proof {
            assert(self.data@ =~= pre.update(i as int, value));
        }
    }

    pub fn swap(&mut self, i: usize, j: usize)
        requires
            i < old(self).dim(),
            j < old(self).dim(),
        ensures
            final(self).view_seq() == old(self).view_seq().update(
                i as int,
                old(self).view_seq()[j as int],
            ).update(j as int, old(self).view_seq()[i as int]),
    {
        let ghost pre = self.data@;
        if i == j {
            proof {
                assert(pre.update(i as int, pre[j as int]).update(j as int, pre[i as int]) =~= pre);
            }
            return ;
        }
        let a = self.data.remove(i);
        self.data.insert(i, BigFraction::zero());
        let b = self.data.remove(j);
        self.data.insert(j, a);
        let _ = self.data.remove(i);
        self.data.insert(i, b);
        proof {
            assert(self.data@ =~= pre.update(i as int, pre[j as int]).update(
                j as int,
                pre[i as int],
            ));
        }
    }

    /// Whether every coordinate is zero.
    pub fn is_zero(&self) -> (r: bool)
        requires
            self.wf(),
        ensures
            r == forall|i: int|
                0 <= i < self.dim() ==> (#[trigger] self.view_seq()[i]).num_int() == 0,
    {
        let mut i: usize = 0;
        while i < self.data.len()
            invariant
                i <= self.dim(),
                self.wf(),
                forall|k: int| 0 <= k < i ==> (#[trigger] self.view_seq()[k]).num_int() == 0,
            decreases self.dim() - i,
        {
            if !self.data[i].is_zero() {
                return false;
            }
            i = i + 1;
        }
        true
    }

    /// Coordinate-wise sum.
    pub fn add(&self, other: &BigVector) -> (r: BigVector)
        requires
            self.wf(),
            other.wf(),
            self.dim() == other.dim(),
        ensures
            r.wf(),
            r.dim() == self.dim(),
            forall|i: int|
                0 <= i < self.dim() ==> rat_eqv(
                    (#[trigger] r.view_seq()[i]).pair(),
                    rat_add(self.view_seq()[i].pair(), other.view_seq()[i].pair()),
                ),
    {
        let mut data: Vec<BigFraction> = Vec::new();
        let mut i: usize = 0;
        while i < self.data.len()
            invariant
                i <= self.dim(),
                self.wf(),
                other.wf(),
                self.dim() == other.dim(),
                data@.len() == i,
                forall|k: int| 0 <= k < i ==> #[trigger] data@[k].wf(),
                forall|k: int|
                    0 <= k < i ==> rat_eqv(
                        (#[trigger] data@[k]).pair(),
                        rat_add(self.view_seq()[k].pair(), other.view_seq()[k].pair()),
                    ),
            decreases self.dim() - i,
        {
            data.push(self.data[i].add_frac(&other.data[i]));
            i = i + 1;
        }
        BigVector { data }
    }

    /// Coordinate-wise difference.
    pub fn subtract(&self, other: &BigVector) -> (r: BigVector)
        requires
            self.wf(),
            other.wf(),
            self.dim() == other.dim(),
        ensures
            r.wf(),
            r.dim() == self.dim(),
            forall|i: int|
                0 <= i < self.dim() ==> rat_eqv(
                    (#[trigger] r.view_seq()[i]).pair(),
                    rat_sub(self.view_seq()[i].pair(), other.view_seq()[i].pair()),
                ),
    {
        let mut data: Vec<BigFraction> = Vec::new();
        let mut i: usize = 0;
        while i < self.data.len()
            invariant
                i <= self.dim(),
                self.wf(),
                other.wf(),
                self.dim() == other.dim(),
                data@.len() == i,
                forall|k: int| 0 <= k < i ==> #[trigger] data@[k].wf(),
                forall|k: int|
                    0 <= k < i ==> rat_eqv(
                        (#[trigger] data@[k]).pair(),
                        rat_sub(self.view_seq()[k].pair(), other.view_seq()[k].pair()),
                    ),
            decreases self.dim() - i,
        {
            data.push(self.data[i].sub_frac(&other.data[i]));
            i = i + 1;
        }
        BigVector { data }
    }

    /// Scale every coordinate by a rational.
    pub fn multiply_scalar(&self, scalar: &BigFraction) -> (r: BigVector)
        requires
            self.wf(),
            scalar.wf(),
        ensures
            r.wf(),
            r.dim() == self.dim(),
            forall|i: int|
                0 <= i < self.dim() ==> rat_eqv(
                    (#[trigger] r.view_seq()[i]).pair(),
                    rat_mul(self.view_seq()[i].pair(), scalar.pair()),
                ),
    {
        let mut data: Vec<BigFraction> = Vec::new();
        let mut i: usize = 0;
        while i < self.data.len()
            invariant
                i <= self.dim(),
                self.wf(),
                scalar.wf(),
                data@.len() == i,
                forall|k: int| 0 <= k < i ==> #[trigger] data@[k].wf(),
                forall|k: int|
                    0 <= k < i ==> rat_eqv(
                        (#[trigger] data@[k]).pair(),
                        rat_mul(self.view_seq()[k].pair(), scalar.pair()),
                    ),
            decreases self.dim() - i,
        {
            data.push(self.data[i].mul_frac(scalar));
            i = i + 1;
        }
        BigVector { data }
    }

    /// Scale every coordinate by an integer.
    pub fn multiply_bigint(&self, scalar: &num_bigint::BigInt) -> (r: BigVector)
        requires
            self.wf(),
        ensures
            r.wf(),
            r.dim() == self.dim(),
            forall|i: int|
                0 <= i < self.dim() ==> rat_eqv(
                    (#[trigger] r.view_seq()[i]).pair(),
                    rat_mul(self.view_seq()[i].pair(), (int_of(*scalar), 1int)),
                ),
    {
        let mut data: Vec<BigFraction> = Vec::new();
        let mut i: usize = 0;
        while i < self.data.len()
            invariant
                i <= self.dim(),
                self.wf(),
                data@.len() == i,
                forall|k: int| 0 <= k < i ==> #[trigger] data@[k].wf(),
                forall|k: int|
                    0 <= k < i ==> rat_eqv(
                        (#[trigger] data@[k]).pair(),
                        rat_mul(self.view_seq()[k].pair(), (int_of(*scalar), 1int)),
                    ),
            decreases self.dim() - i,
        {
            data.push(self.data[i].mul_bigint(scalar));
            i = i + 1;
        }
        BigVector { data }
    }

    /// The inner product.
    pub fn dot(&self, other: &BigVector) -> (r: BigFraction)
        requires
            self.wf(),
            other.wf(),
            self.dim() == other.dim(),
        ensures
            r.wf(),
            rat_eqv(r.pair(), dot_spec(self.view_seq(), other.view_seq(), self.dim() as int)),
    {
        let mut acc = BigFraction::zero();
        let mut i: usize = 0;
        while i < self.data.len()
            invariant
                i <= self.dim(),
                self.wf(),
                other.wf(),
                self.dim() == other.dim(),
                acc.wf(),
                rat_eqv(acc.pair(), dot_spec(self.view_seq(), other.view_seq(), i as int)),
            decreases self.dim() - i,
        {
            proof {
                assert(self.view_seq()[i as int].wf());
                assert(other.view_seq()[i as int].wf());
            }
            let prod = self.data[i].mul_frac(&other.data[i]);
            let next = acc.add_frac(&prod);
            proof {
                assert forall|k: int|
                    0 <= k < self.view_seq().len() implies (#[trigger] self.view_seq()[k]).den_int()
                    > 0 by {
                    assert(self.view_seq()[k].wf());
                }
                assert forall|k: int|
                    0 <= k < other.view_seq().len() implies (#[trigger] other.view_seq()[k]).den_int()
                    > 0 by {
                    assert(other.view_seq()[k].wf());
                }
                lemma_dot_step(
                    self.view_seq(),
                    other.view_seq(),
                    i as int,
                    acc.pair(),
                    prod.pair(),
                    next.pair(),
                );
            }
            acc = next;
            i = i + 1;
        }
        acc
    }

    /// The squared Euclidean norm.
    pub fn magnitude_sq(&self) -> (r: BigFraction)
        requires
            self.wf(),
        ensures
            r.wf(),
            rat_eqv(r.pair(), dot_spec(self.view_seq(), self.view_seq(), self.dim() as int)),
    {
        let ghost pre = *self;
        self.dot(self)
    }

    /// A basis vector: `scale` at position `i`, zero elsewhere.
    pub fn basis(size: usize, i: usize, scale: BigFraction) -> (r: BigVector)
        requires
            i < size,
        ensures
            r.dim() == size,
            r.view_seq()[i as int] == scale,
            forall|k: int|
                0 <= k < size && k != i ==> (#[trigger] r.view_seq()[k]).pair() == (0int, 1int)
                    && r.view_seq()[k].wf(),
    {
        let mut v = BigVector::new(size);
        v.set(i, scale);
        v
    }

    /// A basis vector with a one at position `i`.
    pub fn basis_one(size: usize, i: usize) -> (r: BigVector)
        requires
            i < size,
        ensures
            r.wf(),
            r.dim() == size,
            r.view_seq()[i as int].pair() == (1int, 1int),
            forall|k: int|
                0 <= k < size && k != i ==> (#[trigger] r.view_seq()[k]).pair() == (0int, 1int),
    {
        let one = BigFraction::one();
        let r = Self::basis(size, i, one);
        r
    }
}

/// Rational equivalence is compatible with accumulating one product term.
proof fn lemma_dot_step(
    a: Seq<BigFraction>,
    b: Seq<BigFraction>,
    i: int,
    acc: (int, int),
    prod: (int, int),
    next: (int, int),
)
    requires
        0 <= i < a.len(),
        i < b.len(),
        acc.1 > 0,
        prod.1 > 0,
        next.1 > 0,
        forall|k: int| 0 <= k < a.len() ==> (#[trigger] a[k]).den_int() > 0,
        forall|k: int| 0 <= k < b.len() ==> (#[trigger] b[k]).den_int() > 0,
        rat_eqv(acc, dot_spec(a, b, i)),
        rat_eqv(prod, rat_mul(a[i].pair(), b[i].pair())),
        rat_eqv(next, rat_add(acc, prod)),
    ensures
        rat_eqv(next, dot_spec(a, b, i + 1)),
{
    let s = dot_spec(a, b, i);
    let p = rat_mul(a[i].pair(), b[i].pair());
    lemma_dot_den_pos(a, b, i);
    assert(p.1 > 0) by (nonlinear_arith)
        requires
            p.1 == a[i].den_int() * b[i].den_int(),
            a[i].den_int() > 0,
            b[i].den_int() > 0,
    ;
    // next ~ acc + prod ~ s + prod ~ s + p
    lemma_add_cong_left(acc, s, prod);
    lemma_add_cong_right(s, prod, p);
    lemma_den_prod_pos(acc.1, prod.1);
    lemma_den_prod_pos(s.1, prod.1);
    lemma_den_prod_pos(s.1, p.1);
    lemma_eqv_trans(next, rat_add(acc, prod), rat_add(s, prod));
    lemma_eqv_trans(next, rat_add(s, prod), rat_add(s, p));
}

proof fn lemma_den_prod_pos(x: int, y: int)
    by (nonlinear_arith)
    requires
        x > 0,
        y > 0,
    ensures
        x * y > 0,
{
}

/// Equivalence of rational pairs is transitive through a pair with a
/// nonzero denominator.
pub proof fn lemma_eqv_trans(p: (int, int), q: (int, int), r: (int, int))
    requires
        rat_eqv(p, q),
        rat_eqv(q, r),
        q.1 != 0,
    ensures
        rat_eqv(p, r),
{
    assert(p.0 * r.1 == r.0 * p.1) by (nonlinear_arith)
        requires
            p.0 * q.1 == q.0 * p.1,
            q.0 * r.1 == r.0 * q.1,
            q.1 != 0,
    ;
}

/// Addition of pairs respects equivalence in the left summand.
proof fn lemma_add_cong_left(a: (int, int), a2: (int, int), b: (int, int))
    requires
        rat_eqv(a, a2),
    ensures
        rat_eqv(rat_add(a, b), rat_add(a2, b)),
{
    assert((a.0 * b.1 + b.0 * a.1) * (a2.1 * b.1) == (a2.0 * b.1 + b.0 * a2.1) * (a.1 * b.1))
        by (nonlinear_arith)
        requires
            a.0 * a2.1 == a2.0 * a.1,
    ;
}

/// Addition of pairs respects equivalence in the right summand.
#[verifier::rlimit(100)]
proof fn lemma_add_cong_right(s: (int, int), b: (int, int), b2: (int, int))
    requires
        rat_eqv(b, b2),
    ensures
        rat_eqv(rat_add(s, b), rat_add(s, b2)),
{
    assert((s.0 * b.1 + b.0 * s.1) * (s.1 * b2.1) == (s.0 * b2.1 + b2.0 * s.1) * (s.1 * b.1))
        by (nonlinear_arith)
        requires
            b.0 * b2.1 == b2.0 * b.1,
    ;
}

/// Denominators of partial inner products are positive.
pub proof fn lemma_dot_den_pos(a: Seq<BigFraction>, b: Seq<BigFraction>, n: int)
    requires
        n <= a.len(),
        n <= b.len(),
        forall|i: int| 0 <= i < a.len() ==> (#[trigger] a[i]).den_int() > 0,
        forall|i: int| 0 <= i < b.len() ==> (#[trigger] b[i]).den_int() > 0,
    ensures
        dot_spec(a, b, n).1 > 0,
    decreases n,
{
    if n > 0 {
        lemma_dot_den_pos(a, b, n - 1);
        let s = dot_spec(a, b, n - 1);
        assert(s.1 * (a[n - 1].den_int() * b[n - 1].den_int()) > 0) by (nonlinear_arith)
            requires
                s.1 > 0,
                a[n - 1].den_int() > 0,
                b[n - 1].den_int() > 0,
        ;
    }
}

} // verus!

use dungeon_cracker::big_fraction::BigFraction;
use dungeon_cracker::big_vector::BigVector;
use num_bigint::BigInt;
use num_integer::Integer;
use num_traits::{One, Signed, Zero};
use dungeon_cracker::big_matrix::BigMatrix;
use dungeon_cracker::lu_decomposition::inverse;

fn assert_reduced(f: &BigFraction) {
    // The reduced-form invariant, checked at runtime: positive denominator,
    // coprime parts, denominator one for zero.
    assert!(f.denominator().is_positive());
    assert!(f.numerator().abs().gcd(f.denominator()).is_one() || f.numerator().is_zero());
    if f.numerator().is_zero() {
        assert!(f.denominator().is_one());
    }
}

#[test]
fn test_fraction_reduction() {
    let f = BigFraction::new(BigInt::from(6), BigInt::from(-4));
    assert_reduced(&f);
    assert_eq!(*f.numerator(), BigInt::from(-3));
    assert_eq!(*f.denominator(), BigInt::from(2));
    let z = BigFraction::new(BigInt::from(0), BigInt::from(17));
    assert_reduced(&z);
    assert_eq!(*z.denominator(), BigInt::from(1));
}

#[test]
fn test_fraction_arithmetic() {
    let a = BigFraction::new(BigInt::from(1), BigInt::from(6));
    let b = BigFraction::new(BigInt::from(1), BigInt::from(3));
    let s = a.add_frac(&b);
    assert_reduced(&s);
    assert_eq!(*s.numerator(), BigInt::from(1));
    assert_eq!(*s.denominator(), BigInt::from(2));
    let p = a.mul_frac(&b);
    assert_eq!(*p.numerator(), BigInt::from(1));
    assert_eq!(*p.denominator(), BigInt::from(18));
    let q = a.div_frac(&b);
    assert_eq!(*q.numerator(), BigInt::from(1));
    assert_eq!(*q.denominator(), BigInt::from(2));
    let d = a.sub_frac(&b);
    assert_eq!(*d.numerator(), BigInt::from(-1));
    assert_eq!(*d.denominator(), BigInt::from(6));
}

#[test]
fn test_fraction_floor_ceil_round() {
    let f = BigFraction::new(BigInt::from(-7), BigInt::from(2));
    assert_eq!(f.floor(), BigInt::from(-4));
    assert_eq!(f.ceil(), BigInt::from(-3));
    // round(x) = floor(x + 1/2): -3.5 + 0.5 = -3
    assert_eq!(f.round(), BigInt::from(-3));
    let g = BigFraction::new(BigInt::from(7), BigInt::from(2));
    assert_eq!(g.floor(), BigInt::from(3));
    assert_eq!(g.ceil(), BigInt::from(4));
    assert_eq!(g.round(), BigInt::from(4));
}

#[test]
fn test_fraction_compare() {
    let a = BigFraction::new(BigInt::from(1), BigInt::from(3));
    let b = BigFraction::new(BigInt::from(2), BigInt::from(5));
    assert!(a.lt_frac(&b));
    assert!(!b.lt_frac(&a));
    let c = BigFraction::new(BigInt::from(2), BigInt::from(6));
    assert!(a.eq_frac(&c));
    assert_eq!(a.signum(), 1);
    assert_eq!(a.negate().signum(), -1);
    assert_eq!(BigFraction::zero().signum(), 0);
}

#[test]
fn test_vector_dot() {
    let mk = |n: i64| BigFraction::from_i64(n);
    let a = BigVector::from_data(vec![mk(1), mk(2), mk(3)]);
    let b = BigVector::from_data(vec![mk(4), mk(5), mk(6)]);
    let d = a.dot(&b);
    assert_eq!(*d.numerator(), BigInt::from(32));
    assert_eq!(*d.denominator(), BigInt::from(1));
    let s = a.add(&b);
    assert_eq!(*s.get(0).numerator(), BigInt::from(5));
    let m = a.magnitude_sq();
    assert_eq!(*m.numerator(), BigInt::from(14));
    let e = BigVector::basis_one(3, 1);
    let proj = e.dot(&b);
    assert_eq!(*proj.numerator(), BigInt::from(5));
}

#[test]
fn test_matrix_inverse_product_is_identity() {
    // A = [[2, 1], [1, 1]]; inverse = [[1, -1], [-1, 2]].
    let mut a = BigMatrix::new(2, 2);
    a.set(0, 0, BigFraction::from_i64(2));
    a.set(0, 1, BigFraction::from_i64(1));
    a.set(1, 0, BigFraction::from_i64(1));
    a.set(1, 1, BigFraction::from_i64(1));
    let inv = inverse(&a).unwrap();
    assert_eq!(*inv.get(0, 0).numerator(), BigInt::from(1));
    assert_eq!(*inv.get(0, 1).numerator(), BigInt::from(-1));
    assert_eq!(*inv.get(1, 0).numerator(), BigInt::from(-1));
    assert_eq!(*inv.get(1, 1).numerator(), BigInt::from(2));
    // The product check: A * inverse(A) = I exactly.
    let prod = a.multiply_matrix(&inv);
    for r in 0..2 {
        for c in 0..2 {
            let e = prod.get(r, c);
            if r == c {
                assert!(e.numerator().is_one() && e.denominator().is_one());
            } else {
                assert!(e.numerator().is_zero());
            }
        }
    }
    // A singular matrix yields none.
    let mut s = BigMatrix::new(2, 2);
    s.set(0, 0, BigFraction::from_i64(1));
    s.set(0, 1, BigFraction::from_i64(2));
    s.set(1, 0, BigFraction::from_i64(2));
    s.set(1, 1, BigFraction::from_i64(4));
    assert!(inverse(&s).is_none());
}

#[test]
fn test_matrix_transpose_and_vector_product() {
    let mut m = BigMatrix::new(2, 3);
    m.set(0, 2, BigFraction::from_i64(5));
    m.set(1, 0, BigFraction::from_i64(7));
    let t = m.transpose();
    assert_eq!(t.row_count(), 3);
    assert_eq!(t.col_count(), 2);
    assert_eq!(*t.get(2, 0).numerator(), BigInt::from(5));
    assert_eq!(*t.get(0, 1).numerator(), BigInt::from(7));
    let v = BigVector::from_data(vec![
        BigFraction::from_i64(1),
        BigFraction::from_i64(1),
        BigFraction::from_i64(1),
    ]);
    let mv = m.multiply_vector(&v);
    assert_eq!(*mv.get(0).numerator(), BigInt::from(5));
    assert_eq!(*mv.get(1).numerator(), BigInt::from(7));
}

use vstd::prelude::*;

verus! {

#[verifier::external_type_specification]
#[verifier::external_body]
pub struct ExBigInt(num_bigint::BigInt);

/// The mathematical integer a `BigInt` holds. Every trusted contract below
/// speaks of values through this name.
pub uninterp spec fn int_of(b: num_bigint::BigInt) -> int;

/// `d` divides `n`.
pub open spec fn divides(d: int, n: int) -> bool {
    exists|k: int| n == #[trigger] (d * k)
}

/// Truncating division, as `num_bigint`'s `/` rounds: toward zero.
pub open spec fn tdiv(a: int, b: int) -> int {
    if a >= 0 && b > 0 {
        a / b
    } else if a < 0 && b > 0 {
        -((-a) / b)
    } else if a >= 0 {
        -(a / (-b))
    } else {
        (-a) / (-b)
    }
}

/// Relies on BigInt::from(i64): the big integer holding exactly `x`.
#[verifier::external_body]
pub fn bi_from_i64(x: i64) -> (r: num_bigint::BigInt)
    ensures
        int_of(r) == x,
{
    num_bigint::BigInt::from(x)
}

/// Relies on BigInt's Clone: the copy holds the same integer.
#[verifier::external_body]
pub fn bi_clone(a: &num_bigint::BigInt) -> (r: num_bigint::BigInt)
    ensures
        int_of(r) == int_of(*a),
{
    a.clone()
}

/// Relies on BigInt's Add: exact integer addition.
#[verifier::external_body]
pub fn bi_add(a: &num_bigint::BigInt, b: &num_bigint::BigInt) -> (r: num_bigint::BigInt)
    ensures
        int_of(r) == int_of(*a) + int_of(*b),
{
    a + b
}

/// Relies on BigInt's Sub: exact integer subtraction.
#[verifier::external_body]
pub fn bi_sub(a: &num_bigint::BigInt, b: &num_bigint::BigInt) -> (r: num_bigint::BigInt)
    ensures
        int_of(r) == int_of(*a) - int_of(*b),
{
    a - b
}

/// Relies on BigInt's Mul: exact integer multiplication.
#[verifier::external_body]
pub fn bi_mul(a: &num_bigint::BigInt, b: &num_bigint::BigInt) -> (r: num_bigint::BigInt)
    ensures
        int_of(r) == int_of(*a) * int_of(*b),
{
    a * b
}

/// Relies on BigInt's Div: truncating division (toward zero).
#[verifier::external_body]
pub fn bi_div_trunc(a: &num_bigint::BigInt, b: &num_bigint::BigInt) -> (r: num_bigint::BigInt)
    requires
        int_of(*b) != 0,
    ensures
        int_of(r) == tdiv(int_of(*a), int_of(*b)),
{
    a / b
}

/// Relies on BigInt's Neg: exact negation.
#[verifier::external_body]
pub fn bi_neg(a: &num_bigint::BigInt) -> (r: num_bigint::BigInt)
    ensures
        int_of(r) == -int_of(*a),
{
    -a
}

/// Relies on num_integer's `Integer::gcd` for BigInt: the non-negative
/// greatest common divisor of the two values (zero only when both are zero),
/// which every common divisor divides.
#[verifier::external_body]
pub fn bi_gcd(a: &num_bigint::BigInt, b: &num_bigint::BigInt) -> (r: num_bigint::BigInt)
    ensures
        int_of(r) >= 0,
        divides(int_of(r), int_of(*a)),
        divides(int_of(r), int_of(*b)),
        forall|e: int|
            divides(e, int_of(*a)) && divides(e, int_of(*b)) ==> divides(e, int_of(r)),
        int_of(*a) != 0 || int_of(*b) != 0 ==> int_of(r) > 0,
        int_of(*a) == 0 && int_of(*b) == 0 ==> int_of(r) == 0,
{
    num_integer::Integer::gcd(a, b)
}

/// Relies on BigInt's PartialEq: value equality.
#[verifier::external_body]
pub fn bi_eq(a: &num_bigint::BigInt, b: &num_bigint::BigInt) -> (r: bool)
    ensures
        r == (int_of(*a) == int_of(*b)),
{
    a == b
}

/// Relies on BigInt's Ord: value comparison.
#[verifier::external_body]
pub fn bi_lt(a: &num_bigint::BigInt, b: &num_bigint::BigInt) -> (r: bool)
    ensures
        r == (int_of(*a) < int_of(*b)),
{
    a < b
}

} // verus!

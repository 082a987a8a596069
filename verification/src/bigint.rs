//! Trusted interface to the `num_bigint` crate: arbitrary-precision unsigned
//! integers, seen by specifications only through their numeric value.

use vstd::prelude::*;

verus! {

use num_bigint::BigUint;

/// The numeric value held by a `num_bigint::BigUint`.
///
/// `num_bigint` keeps one canonical digit vector per value, so the value is a
/// function of the representation, and equal values are equal terms.
pub uninterp spec fn nat_of(b: BigUint) -> nat;

#[verifier::external_type_specification]
#[verifier::external_body]
pub struct ExBigUint(BigUint);

/// The values of a sequence of big integers, in order.
pub open spec fn vals(s: Seq<BigUint>) -> Seq<int> {
    s.map_values(|b: BigUint| nat_of(b) as int)
}

/// Relies on `num_bigint`'s `From<u64>`: builds the big integer of that value.
#[verifier::external_body]
pub(crate) fn big_from_u64(x: u64) -> (r: BigUint)
    ensures
        nat_of(r) == x as nat,
{
    BigUint::from(x)
}

/// Relies on `num_bigint`'s `Add` for `&BigUint`: returns the exact sum.
#[verifier::external_body]
pub(crate) fn big_add(a: &BigUint, b: &BigUint) -> (r: BigUint)
    ensures
        nat_of(r) == nat_of(*a) + nat_of(*b),
{
    a + b
}

/// Relies on `num_bigint`'s `Sub` for `&BigUint`: returns the exact
/// difference. It panics on underflow, which the precondition rules out.
#[verifier::external_body]
pub(crate) fn big_sub(a: &BigUint, b: &BigUint) -> (r: BigUint)
    requires
        nat_of(*b) <= nat_of(*a),
    ensures
        nat_of(r) == nat_of(*a) - nat_of(*b),
{
    a - b
}

/// Relies on `num_bigint`'s `Mul` for `&BigUint`: returns the exact product.
#[verifier::external_body]
pub(crate) fn big_mul(a: &BigUint, b: &BigUint) -> (r: BigUint)
    ensures
        nat_of(r) == nat_of(*a) * nat_of(*b),
{
    a * b
}

/// Relies on `num_bigint`'s `Rem` for `&BigUint`: returns the remainder of
/// Euclidean division. It panics on a zero divisor, ruled out here.
#[verifier::external_body]
pub(crate) fn big_rem(a: &BigUint, b: &BigUint) -> (r: BigUint)
    requires
        nat_of(*b) > 0,
    ensures
        nat_of(r) == nat_of(*a) % nat_of(*b),
{
    a % b
}

/// Relies on `BigUint::modpow`: returns `base^exponent mod modulus`.
/// It panics on a zero modulus, ruled out here.
#[verifier::external_body]
pub(crate) fn big_modpow(base: &BigUint, exponent: &BigUint, modulus: &BigUint) -> (r: BigUint)
    requires
        nat_of(*modulus) > 0,
    ensures
        nat_of(r) as int == vstd::arithmetic::power::pow(nat_of(*base) as int, nat_of(*exponent))
            % (nat_of(*modulus) as int),
{
    base.modpow(exponent, modulus)
}

/// Relies on `num_bigint`'s `Ord`: `<` compares the numeric values.
#[verifier::external_body]
pub(crate) fn big_lt(a: &BigUint, b: &BigUint) -> (r: bool)
    ensures
        r == (nat_of(*a) < nat_of(*b)),
{
    a < b
}

/// Relies on `num_bigint`'s `Clone`: the copy holds the same value.
#[verifier::external_body]
pub(crate) fn big_clone(a: &BigUint) -> (r: BigUint)
    ensures
        nat_of(r) == nat_of(*a),
{
    a.clone()
}

/// Relies on `num_traits::Zero::is_zero`: true exactly on the value zero.
#[verifier::external_body]
pub(crate) fn big_is_zero(a: &BigUint) -> (r: bool)
    ensures
        r == (nat_of(*a) == 0),
{
    num_traits::Zero::is_zero(a)
}

} // verus!

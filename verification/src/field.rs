//! Arithmetic over the prime field: normalized modular addition, subtraction,
//! exponentiation, and division via the Fermat inverse.

use vstd::prelude::*;

verus! {

use num_bigint::BigUint;
use vstd::arithmetic::power::pow;
use vstd::arithmetic::div_mod::{lemma_small_mod, lemma_mod_add_multiples_vanish};
use crate::bigint::{nat_of, big_from_u64, big_add, big_sub, big_mul, big_rem, big_modpow,
    big_lt, big_is_zero};
use crate::errors::RecoverError;

/// `b^e mod p` as mathematical integers.
pub open spec fn pow_mod(b: int, e: nat, p: int) -> int {
    pow(b, e) % p
}

/// The modular sum of two field elements.
pub open spec fn fe_add(a: int, b: int, p: int) -> int {
    (a + b) % p
}

/// The underflow-safe difference of two field elements, exactly as computed:
/// `a - b` when `b <= a`, else `p - (b - a)`.
pub open spec fn fe_diff(a: int, b: int, p: int) -> int {
    if b > a {
        p - (b - a)
    } else {
        a - b
    }
}

/// The modular quotient via the Fermat inverse: `a * b^(p-2) mod p`.
pub open spec fn fe_div(a: int, b: int, p: int) -> int {
    (a * pow_mod(b, (p - 2) as nat, p)) % p
}

/// Modular addition: the sum of `a` and `b`, reduced modulo `p`.
pub fn mod_add(a: &BigUint, b: &BigUint, p: &BigUint) -> (r: BigUint)
    requires
        nat_of(*p) > 0,
    ensures
        nat_of(r) as int == fe_add(nat_of(*a) as int, nat_of(*b) as int, nat_of(*p) as int),
        nat_of(r) < nat_of(*p),
{
    let s = big_add(a, b);
    big_rem(&s, p)
}

/// Modular subtraction of field elements, guarded against underflow: when the
/// subtrahend exceeds the minuend the result is `p - (b - a)`, never a
/// negative intermediate.
pub fn mod_sub(a: &BigUint, b: &BigUint, p: &BigUint) -> (r: BigUint)
    requires
        nat_of(*a) < nat_of(*p),
        nat_of(*b) < nat_of(*p),
    ensures
        nat_of(r) as int == fe_diff(nat_of(*a) as int, nat_of(*b) as int, nat_of(*p) as int),
        nat_of(r) < nat_of(*p),
{
    if big_lt(a, b) {
        let d = big_sub(b, a);
        big_sub(p, &d)
    } else {
        big_sub(a, b)
    }
}

/// Modular exponentiation: `a^e mod p`.
pub fn mod_pow(a: &BigUint, e: &BigUint, p: &BigUint) -> (r: BigUint)
    requires
        nat_of(*p) > 0,
    ensures
        nat_of(r) as int == pow_mod(nat_of(*a) as int, nat_of(*e), nat_of(*p) as int),
        nat_of(r) < nat_of(*p),
{
    big_modpow(a, e, p)
}

/// Divides `a` by `b` modulo `p`, as `a * b^(p-2) mod p`: for prime `p` and
/// `b` not a multiple of `p`, this is the unique field element `x` with
/// `x * b ≡ a (mod p)` by Fermat's little theorem — proved by
/// `crate::fermat::lemma_div_mod_inverse` and
/// `crate::fermat::lemma_quotient_unique`.
pub fn div_mod(a: BigUint, b: BigUint, p: &BigUint) -> (r: BigUint)
    requires
        nat_of(*p) >= 2,
    ensures
        nat_of(r) as int == fe_div(nat_of(a) as int, nat_of(b) as int, nat_of(*p) as int),
        nat_of(r) < nat_of(*p),
{
    let two = big_from_u64(2);
    let e = big_sub(p, &two);
    let inv = big_modpow(&b, &e, p);
    let prod = big_mul(&a, &inv);
    big_rem(&prod, p)
}

/// Modular division with the defensive divisor check of the error design:
/// `Err(ArithmeticError)` exactly when `b ≡ 0 (mod p)`, else the Fermat
/// quotient.
pub fn try_div_mod(a: BigUint, b: BigUint, p: &BigUint) -> (r: Result<BigUint, RecoverError>)
    requires
        nat_of(*p) >= 2,
    ensures
        r is Err <==> nat_of(b) % nat_of(*p) == 0,
        r is Err ==> r->Err_0 == RecoverError::ArithmeticError,
        r is Ok ==> nat_of(r->Ok_0) as int == fe_div(
            nat_of(a) as int,
            nat_of(b) as int,
            nat_of(*p) as int,
        ) && nat_of(r->Ok_0) < nat_of(*p),
{
    let rem = big_rem(&b, p);
    if big_is_zero(&rem) {
        Err(RecoverError::ArithmeticError)
    } else {
        Ok(div_mod(a, b, p))
    }
}

/// Law: for field elements `a, b < p`, the underflow-safe difference is the
/// Euclidean remainder `(a - b) mod p`, on both sides of the guard.
pub proof fn lemma_fe_diff_is_mod(a: int, b: int, p: int)
    requires
        0 <= a < p,
        0 <= b < p,
    ensures
        fe_diff(a, b, p) == (a - b) % p,
{
    if b > a {
        lemma_mod_add_multiples_vanish(a - b, p);
        lemma_small_mod((p - (b - a)) as nat, p as nat);
    } else {
        lemma_small_mod((a - b) as nat, p as nat);
    }
}

} // verus!

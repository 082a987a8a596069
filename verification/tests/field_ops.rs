use blob_recovery::errors::RecoverError;
use blob_recovery::field::{div_mod, mod_add, mod_pow, mod_sub, try_div_mod};
use num_bigint::BigUint;

fn big(x: u64) -> BigUint {
    BigUint::from(x)
}

#[test]
fn mod_add_wraps_around() {
    // 5 + 4 = 9 = 2 mod 7
    assert_eq!(mod_add(&big(5), &big(4), &big(7)), big(2));
    // no reduction needed
    assert_eq!(mod_add(&big(2), &big(3), &big(7)), big(5));
}

#[test]
fn mod_sub_is_underflow_safe() {
    // a >= b: plain difference
    assert_eq!(mod_sub(&big(5), &big(2), &big(7)), big(3));
    // a < b: p - (b - a), never a negative intermediate
    assert_eq!(mod_sub(&big(3), &big(4), &big(7)), big(6));
    // equal operands
    assert_eq!(mod_sub(&big(4), &big(4), &big(7)), big(0));
}

#[test]
fn mod_pow_exact_value() {
    // 3^5 = 243 = 5 mod 7
    assert_eq!(mod_pow(&big(3), &big(5), &big(7)), big(5));
    // exponent zero gives one
    assert_eq!(mod_pow(&big(6), &big(0), &big(7)), big(1));
}

#[test]
fn div_mod_is_multiplicative_inverse() {
    // 6 / 3 = 2 mod 7, and indeed 2 * 3 = 6 mod 7
    assert_eq!(div_mod(big(6), big(3), &big(7)), big(2));
    // x = a / b must satisfy x * b = a mod p, over several samples
    let p = big(101);
    for a in 0u64..8 {
        for b in 1u64..8 {
            let x = div_mod(big(a), big(b), &p);
            assert_eq!((&x * big(b)) % &p, big(a) % &p);
        }
    }
}

#[test]
fn div_mod_by_two_halves() {
    // (3 + 3) / 2 = 3 mod 5: the butterfly's even combine on a constant pair
    assert_eq!(div_mod(big(6), big(2), &big(5)), big(3));
}

#[test]
fn try_div_mod_rejects_zero_divisor() {
    assert_eq!(
        try_div_mod(big(3), big(0), &big(7)),
        Err(RecoverError::ArithmeticError)
    );
    // a multiple of p is congruent to zero and refused too
    assert_eq!(
        try_div_mod(big(3), big(14), &big(7)),
        Err(RecoverError::ArithmeticError)
    );
    assert_eq!(try_div_mod(big(6), big(3), &big(7)), Ok(big(2)));
}

use blob_recovery::blob::{recover, try_recover};
use blob_recovery::errors::RecoverError;
use blob_recovery::ifft::ifft;
use blob_recovery::params::{bls_generator, bls_modulus, BLOB_LEN};
use blob_recovery::table::{bit_reverse, evaluation_point_table};
use num_bigint::BigUint;

fn big(x: u64) -> BigUint {
    BigUint::from(x)
}

#[test]
fn constants_match_protocol() {
    let p: BigUint =
        "52435875175126190479447740508185965837690552500527637822603658699938581184513"
            .parse()
            .unwrap();
    let g: BigUint =
        "39033254847818212395286706435128746857159659164139250548781411570340225835782"
            .parse()
            .unwrap();
    assert_eq!(bls_modulus(), p);
    assert_eq!(bls_generator(), g);
    assert_eq!(BLOB_LEN, 4096);
    // g has multiplicative order exactly BLOB_LEN
    assert_eq!(g.modpow(&big(4096), &p), big(1));
    assert_ne!(g.modpow(&big(2048), &p), big(1));
}

#[test]
fn bit_reverse_permutes_indices() {
    assert_eq!(bit_reverse(0, 12), 0);
    assert_eq!(bit_reverse(1, 12), 2048);
    assert_eq!(bit_reverse(2, 12), 1024);
    assert_eq!(bit_reverse(3, 12), 3072);
    assert_eq!(bit_reverse(0b000000000001, 1), 1);
    assert_eq!(bit_reverse(0b110, 3), 0b011);
}

#[test]
fn table_first_entry_is_one() {
    // bit-reversal of index 0 is 0 and g^0 = 1, at any length
    for n in [1usize, 2, 4, 16] {
        let t = evaluation_point_table(n, &big(4), &big(5));
        assert_eq!(t[0], big(1));
        assert_eq!(t.len(), n);
    }
    let t = evaluation_point_table(BLOB_LEN, &bls_generator(), &bls_modulus());
    assert_eq!(t[0], big(1));
}

#[test]
fn table_follows_bit_reversal_order() {
    let p = bls_modulus();
    let g = bls_generator();
    let t = evaluation_point_table(BLOB_LEN, &g, &p);
    assert_eq!(t.len(), BLOB_LEN);
    // index 1 reverses to 2048, index 2 to 1024
    assert_eq!(t[1], g.modpow(&big(2048), &p));
    assert_eq!(t[2], g.modpow(&big(1024), &p));
    assert_eq!(t[4095], g.modpow(&big(4095), &p));
}

#[test]
fn ifft_base_case_is_identity() {
    // a one-element vector is its own coefficient form, whatever the point
    assert_eq!(ifft(vec![big(7)], vec![big(9)], &big(11)), vec![big(7)]);
    assert_eq!(ifft(vec![big(0)], vec![big(3)], &big(5)), vec![big(0)]);
}

#[test]
fn ifft_keeps_length_at_every_power_of_two() {
    let p = big(17);
    for k in 0..5u32 {
        let n = 1usize << k;
        let data: Vec<BigUint> = (0..n as u64).map(|v| big(v % 17)).collect();
        let xs: Vec<BigUint> = vec![big(1); n];
        assert_eq!(ifft(data, xs, &p).len(), n);
    }
}

#[test]
fn small_prime_constant_pair() {
    // p = 5, n = 2, generator 4 of order 2: the constant vector [3, 3]
    // recovers to the constant polynomial [3, 0]
    let p = big(5);
    let xs = evaluation_point_table(2, &big(4), &p);
    assert_eq!(xs, vec![big(1), big(4)]);
    let out = ifft(vec![big(3), big(3)], xs, &p);
    assert_eq!(out, vec![big(3), big(0)]);
}

#[test]
fn reference_blob_of_constants() {
    // with the real modulus, generator and length, a blob whose every
    // evaluation is the same constant recovers to [c, 0, 0, ...]
    let c: BigUint = "123456789123456789123456789".parse().unwrap();
    let data: Vec<BigUint> = vec![c.clone(); BLOB_LEN];
    let out = recover(data);
    assert_eq!(out.len(), BLOB_LEN);
    assert_eq!(out[0], c);
    for i in 1..BLOB_LEN {
        assert_eq!(out[i], big(0));
    }
}

#[test]
fn try_recover_rejects_wrong_length() {
    assert_eq!(
        try_recover(vec![big(1); 5]),
        Err(RecoverError::InvalidLength)
    );
    assert_eq!(try_recover(Vec::new()), Err(RecoverError::InvalidLength));
}

#[test]
fn try_recover_accepts_full_blob() {
    let data: Vec<BigUint> = vec![big(42); BLOB_LEN];
    let out = try_recover(data).unwrap();
    assert_eq!(out[0], big(42));
    assert_eq!(out[1], big(0));
    assert_eq!(out.len(), BLOB_LEN);
}

//! The fixed protocol constants: the prime modulus of the BLS12-381 scalar
//! field, the primitive 4096th root of unity, and the transform length.

use vstd::prelude::*;

verus! {

use num_bigint::BigUint;
use crate::bigint::{nat_of, big_from_u64, big_add, big_mul};

/// Number of field elements in a blob: the transform length.
pub const BLOB_LEN: usize = 4096;

/// The order of the BLS12-381 scalar field: the prime modulus `p`.
pub open spec fn modulus_val() -> int {
    0x73eda753299d7d483339d80809a1d80553bda402fffe5bfeffffffff00000001int
}

/// The fixed generator `g`: a primitive root whose multiplicative order
/// modulo the modulus is exactly the transform length.
pub open spec fn generator_val() -> int {
    0x564c0a11a0f704f4fc3e8acfe0f8245f0ad1347b378fbf96e206da11a5d36306int
}

/// Shifts `acc` left by 64 bits and adds one more limb.
fn append_u64(acc: &BigUint, limb: u64) -> (r: BigUint)
    ensures
        nat_of(r) as int == nat_of(*acc) * 0x10000000000000000int + limb,
{
    let half = big_from_u64(0x100000000);
    let base = big_mul(&half, &half);
    assert(nat_of(base) == 0x10000000000000000nat);
    let hi = big_mul(acc, &base);
    let low = big_from_u64(limb);
    big_add(&hi, &low)
}

/// The prime modulus `p` as a big integer.
pub fn bls_modulus() -> (r: BigUint)
    ensures
        nat_of(r) as int == modulus_val(),
{
    let a = big_from_u64(0x73eda753299d7d48);
    let b = append_u64(&a, 0x3339d80809a1d805);
    assert(nat_of(b) == 0x73eda753299d7d483339d80809a1d805nat);
    let c = append_u64(&b, 0x53bda402fffe5bfe);
    assert(nat_of(c) == 0x73eda753299d7d483339d80809a1d80553bda402fffe5bfenat);
    append_u64(&c, 0xffffffff00000001)
}

/// The generator `g` as a big integer.
pub fn bls_generator() -> (r: BigUint)
    ensures
        nat_of(r) as int == generator_val(),
{
    let a = big_from_u64(0x564c0a11a0f704f4);
    let b = append_u64(&a, 0xfc3e8acfe0f8245f);
    assert(nat_of(b) == 0x564c0a11a0f704f4fc3e8acfe0f8245fnat);
    let c = append_u64(&b, 0x0ad1347b378fbf96);
    assert(nat_of(c) == 0x564c0a11a0f704f4fc3e8acfe0f8245f0ad1347b378fbf96nat);
    append_u64(&c, 0xe206da11a5d36306)
}

} // verus!

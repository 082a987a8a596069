//! Recovery of the original data from a blob: builds the evaluation-point
//! table for the fixed protocol constants, then runs the inverse transform on
//! the caller's evaluation vector.

use vstd::prelude::*;

verus! {

use num_bigint::BigUint;
use crate::bigint::{nat_of, vals};
use crate::errors::RecoverError;
use crate::ifft::{ifft, ifft_spec};
use crate::params::{BLOB_LEN, bls_modulus, bls_generator, modulus_val, generator_val};
use crate::table::{evaluation_point_table, table_spec, is_pow2, log2};

/// The coefficient vector that recovery owes for an evaluation vector: the
/// inverse transform over the protocol's bit-reversed table of generator
/// powers.
pub open spec fn recover_spec(data: Seq<int>) -> Seq<int> {
    ifft_spec(data, table_spec(BLOB_LEN as nat, 12, generator_val(), modulus_val()), modulus_val())
}

/// Recovers the original data from a given blob: the coefficient form of the
/// polynomial whose evaluations at the table points are the blob's elements.
pub fn recover(data: Vec<BigUint>) -> (r: Vec<BigUint>)
    requires
        data@.len() == BLOB_LEN,
        forall|i: int| 0 <= i < data@.len() ==> (nat_of(data@[i]) as int) < modulus_val(),
    ensures
        r@.len() == BLOB_LEN,
        vals(r@) == recover_spec(vals(data@)),
        forall|i: int| 0 <= i < r@.len() ==> (nat_of(r@[i]) as int) < modulus_val(),
{
    let p = bls_modulus();
    let g = bls_generator();
    proof {
        reveal_with_fuel(is_pow2, 14);
        assert(is_pow2(BLOB_LEN as nat));
        reveal_with_fuel(log2, 14);
        assert(log2(BLOB_LEN as nat) == 12);
    }
    let xs = evaluation_point_table(BLOB_LEN, &g, &p);
    ifft(data, xs, &p)
}

/// The checked entry point: refuses a vector of the wrong length, and
/// otherwise recovers.
pub fn try_recover(data: Vec<BigUint>) -> (r: Result<Vec<BigUint>, RecoverError>)
    requires
        forall|i: int| 0 <= i < data@.len() ==> (nat_of(data@[i]) as int) < modulus_val(),
    ensures
        r is Err <==> data@.len() != BLOB_LEN,
        r is Err ==> r->Err_0 == RecoverError::InvalidLength,
        r is Ok ==> vals(r->Ok_0@) == recover_spec(vals(data@)) && r->Ok_0@.len() == BLOB_LEN,
{
    if data.len() != BLOB_LEN {
        return Err(RecoverError::InvalidLength);
    }
    Ok(recover(data))
}

} // verus!

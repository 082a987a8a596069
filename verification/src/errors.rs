//! The error taxonomy of the recovery core: both conditions are contract
//! violations by the caller, caught defensively rather than computed around.

use vstd::prelude::*;

verus! {

/// Why a recovery request was refused.
#[derive(Clone, Copy, Debug, PartialEq, Eq, Structural)]
pub enum RecoverError {
    /// The input vector does not have the transform length.
    InvalidLength,
    /// A modular division was attempted by a multiple of the modulus.
    ArithmeticError,
}

} // verus!

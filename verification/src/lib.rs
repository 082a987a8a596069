//! Recovery of a polynomial's coefficient form from its blob evaluation form,
//! by a recursive inverse FFT over the BLS12-381 scalar field.

pub mod bigint;
pub mod errors;
pub mod fermat;
pub mod field;
pub mod params;
pub mod table;
pub mod ifft;
pub mod blob;

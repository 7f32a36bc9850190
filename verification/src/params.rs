use vstd::prelude::*;

pub mod ml_dsa_44;

verus! {

/// Number of coefficients of a polynomial.
pub const N: usize = 256;

/// The prime modulus q = 2^23 - 2^13 + 1.
pub const Q: u32 = 8380417;

/// Number of low-order bits dropped from t.
pub const D: u32 = 13;

/// Length of the seeds rho and K and of the key-generation seed.
pub const SEEDBYTES: usize = 32;

/// Length of rho' and of the message representative mu.
pub const CRHBYTES: usize = 64;

/// Length of the public-key hash tr.
pub const TR_BYTES: usize = 64;

/// Packed size of a polynomial of t1 (10 bits per coefficient).
pub const POLYT1_PACKEDBYTES: usize = 320;

/// Packed size of a polynomial of t0 (13 bits per coefficient).
pub const POLYT0_PACKEDBYTES: usize = 416;

} // verus!

use vstd::prelude::*;

verus! {

/// Rows of the matrix A.
pub const K: usize = 4;

/// Columns of the matrix A.
pub const L: usize = 4;

/// Bound on the coefficients of the secret vectors s1 and s2.
pub const ETA: u32 = 2;

/// Number of nonzero coefficients of the challenge polynomial.
pub const TAU: usize = 39;

/// Bound TAU * ETA used when checking norms.
pub const BETA: u32 = 78;

/// Range of the masking vector y: coefficients lie in (-GAMMA1, GAMMA1].
pub const GAMMA1: u32 = 131072;

/// Low-order rounding range (q - 1) / 88.
pub const GAMMA2: u32 = 95232;

/// Maximal number of ones in the hint.
pub const OMEGA: usize = 80;

/// Length of the commitment hash c~.
pub const C_DASH_BYTES: usize = 32;

/// Packed size of a polynomial with coefficients in [-ETA, ETA] (3 bits each).
pub const POLYETA_PACKEDBYTES: usize = 96;

/// Packed size of a polynomial of z (18 bits per coefficient).
pub const POLYZ_PACKEDBYTES: usize = 576;

/// Packed size of a polynomial of w1 (6 bits per coefficient).
pub const POLYW1_PACKEDBYTES: usize = 192;

/// Size of a public key: rho followed by t1.
pub const PUBLICKEYBYTES: usize = 1312;

/// Size of a secret key: rho, K, tr, s1, s2 and t0.
pub const SECRETKEYBYTES: usize = 2560;

/// Size of a signature: c~, z and the hint.
pub const SIGNBYTES: usize = 2420;

} // verus!

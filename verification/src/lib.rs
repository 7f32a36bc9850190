//! ML-DSA-44 key generation, signing and verification, with every arithmetic,
//! hashing, sampling and encoding step specified and proved.
//!
//! `sign::ml_dsa_44` holds the three operations; their contracts state the exact
//! bytes produced (or the exact answer of verification) through the spec
//! functions of the modules below. `laws` proves that every signature made with
//! a generated key verifies under its public key.
pub mod params;
pub mod arith;
pub mod ntt;
pub mod ntt_props;
pub mod keccak;
pub mod bits;
pub mod bytes;
pub mod sample;
pub mod poly;
pub mod polyvec;
pub mod packing;
pub mod algebra;
pub mod sign;
pub mod rng;
pub mod laws;
pub mod scheme_laws;

pub use rng::random_bytes;

# dilithium

ML-DSA-44 (the lattice signature scheme also known as Dilithium2) written in
Verus: key generation, signing and verification over byte buffers, with every
step specified and machine-checked.

## Layout

- `src/params.rs`, `src/params/ml_dsa_44.rs`: the parameter set (q, K, L, eta,
  gamma1, gamma2, tau, omega and the encoded sizes).
- `src/arith.rs`: arithmetic modulo q, Power2Round, Decompose, MakeHint, UseHint.
- `src/ntt.rs`: the number-theoretic transform and its inverse, each proved equal
  to its layer-by-layer definition; `src/ntt_props.rs` proves that the two
  transforms undo each other and are linear.
- `src/keccak.rs`: Keccak-f[1600] and the SHAKE128/SHAKE256 sponge.
- `src/sample.rs`: rejection sampling of A, s1, s2, the mask y and the challenge.
- `src/bits.rs`, `src/packing.rs`: bit packing, key, signature and hint encodings,
  with the proofs that decoding undoes encoding.
- `src/poly.rs`, `src/polyvec.rs`: coefficient-wise and vector operations.
- `src/sign/ml_dsa_44.rs`: `keypair`, `signature`, `verify` and their
  deterministic cores, each with a contract giving the exact result.
- `src/algebra.rs`, `src/laws.rs`: the algebra behind correctness and the proof
  that `verify` accepts every signature made with a generated key.
- `src/rng.rs`: the system random source (through the `rand` crate).

Samplers read a fixed number of output blocks and signing tries at most
`MAX_SIGN_ATTEMPTS` nonces; when a bound is reached the operation reports failure
(the contracts say exactly when).

`extras/known_answers.py` is an independent Python model of key generation and
deterministic signing (transforms by direct evaluation at the roots of unity,
products by schoolbook multiplication, SHAKE from `hashlib`); the bytes it prints
for the all-zero seed are the expected values in `tests/known_answers.rs`.

use vstd::prelude::*;
use crate::params::{Q, N, CRHBYTES, SEEDBYTES};
use crate::params::ml_dsa_44::{GAMMA1, TAU, C_DASH_BYTES, K, L};
use crate::polyvec::{pv, pm, is_polyvec};
use crate::ntt::is_poly;
use crate::keccak::{
    shake_blocks, shake_spec, shake_stream, shake, lemma_squeeze_len, absorb_spec,
    SHAKE128_RATE, SHAKE256_RATE,
};
use crate::bits::{unpack_bits_spec, unpack_bits};
use crate::bytes::{le16, push_le16, append_bytes};

verus! {

/// Blocks of SHAKE128 output read when sampling one entry of A (1344 bytes).
pub const BLOCKS_UNIFORM: usize = 8;

/// Blocks of SHAKE256 output read when sampling one polynomial of s1 or s2 (544 bytes).
pub const BLOCKS_ETA: usize = 4;

/// Blocks of SHAKE256 output read when sampling the challenge (272 bytes).
pub const BLOCKS_BALL: usize = 2;

/// Candidate `i` of RejNTTPoly: three little-endian bytes with the top bit cleared.
pub open spec fn uniform_candidate(bytes: Seq<u8>, i: int) -> int {
    bytes[3 * i] + 256 * bytes[3 * i + 1] + 65536 * (bytes[3 * i + 2] % 128)
}

/// The candidates among the first `n` that lie below q, in order.
pub open spec fn accepted_uniform(bytes: Seq<u8>, n: nat) -> Seq<u32>
    decreases n,
{
    if n == 0 {
        Seq::empty()
    } else {
        let prev = accepted_uniform(bytes, (n - 1) as nat);
        let c = uniform_candidate(bytes, n - 1);
        if c < Q {
            prev.push(c as u32)
        } else {
            prev
        }
    }
}

/// RejNTTPoly read from a finite stream: the first 256 accepted
/// candidates, or None when the stream holds fewer.
pub open spec fn rej_ntt_poly_spec(bytes: Seq<u8>) -> Option<Seq<u32>> {
    let acc = accepted_uniform(bytes, bytes.len() / 3);
    if acc.len() >= 256 {
        Some(acc.take(256))
    } else {
        None
    }
}

/// Candidate `i` of RejBoundedPoly: the low, then the high half of each byte.
pub open spec fn eta_candidate(bytes: Seq<u8>, i: int) -> int {
    if i % 2 == 0 {
        (bytes[i / 2] % 16) as int
    } else {
        (bytes[i / 2] / 16) as int
    }
}

/// For eta = 2: the accepted candidates (below 15) among the first `n`, each mapped
/// to 2 - (z mod 5) as a residue modulo q.
pub open spec fn accepted_eta(bytes: Seq<u8>, n: nat) -> Seq<u32>
    decreases n,
{
    if n == 0 {
        Seq::empty()
    } else {
        let prev = accepted_eta(bytes, (n - 1) as nat);
        let z = eta_candidate(bytes, n - 1);
        if z < 15 {
            prev.push(((2 - z % 5) % (Q as int)) as u32)
        } else {
            prev
        }
    }
}

/// RejBoundedPoly (eta = 2) read from a finite stream.
pub open spec fn rej_bounded_poly_spec(bytes: Seq<u8>) -> Option<Seq<u32>> {
    let acc = accepted_eta(bytes, 2 * bytes.len());
    if acc.len() >= 256 {
        Some(acc.take(256))
    } else {
        None
    }
}

/// Entry (r, s) of the matrix A: RejNTTPoly on SHAKE128(rho || s || r).
pub open spec fn matrix_entry_spec(rho: Seq<u8>, r: int, s: int) -> Option<Seq<u32>> {
    rej_ntt_poly_spec(
        shake_blocks(rho + seq![s as u8, r as u8], SHAKE128_RATE as int, BLOCKS_UNIFORM as nat),
    )
}

/// Polynomial number `nonce` of the secret vectors: RejBoundedPoly on SHAKE256(rho' || nonce).
pub open spec fn eta_poly_spec(rhoprime: Seq<u8>, nonce: u16) -> Option<Seq<u32>> {
    rej_bounded_poly_spec(
        shake_blocks(rhoprime + le16(nonce), SHAKE256_RATE as int, BLOCKS_ETA as nat),
    )
}

/// Polynomial number `nonce` of the mask y: 18-bit coefficients z of
/// SHAKE256(rho' || nonce), each mapped to gamma1 - z modulo q.
pub open spec fn mask_poly_spec(rhoprime: Seq<u8>, nonce: u16) -> Seq<u32> {
    let raw = unpack_bits_spec(shake_spec(rhoprime + le16(nonce), SHAKE256_RATE as int, 576), 18, 256);
    Seq::new(256, |i: int| ((GAMMA1 - raw[i]) % (Q as int)) as u32)
}

proof fn first_256_step(acc: Seq<u32>, c: u32)
    requires
        acc.len() >= 256,
    ensures
        acc.push(c).take(256) == acc.take(256),
{
    assert(acc.push(c).take(256) =~= acc.take(256));
}

/// RejNTTPoly on SHAKE128(seed): a uniformly distributed polynomial in the NTT domain.
pub fn rej_ntt_poly(seed: &Vec<u8>) -> (res: Option<Vec<u32>>)
    requires
        seed.len() <= 1024,
    ensures
        match res {
            Some(p) => rej_ntt_poly_spec(
                shake_blocks(seed@, SHAKE128_RATE as int, BLOCKS_UNIFORM as nat),
            ) == Some(p@) && is_poly(p@),
            None => rej_ntt_poly_spec(
                shake_blocks(seed@, SHAKE128_RATE as int, BLOCKS_UNIFORM as nat),
            ) is None,
        },
{
    let bytes = shake_stream(seed, SHAKE128_RATE, BLOCKS_UNIFORM);
    proof {
        lemma_squeeze_len(absorb_spec(seed@, 168), 168, 8);
    }
    let n = bytes.len() / 3;
    let mut out: Vec<u32> = Vec::new();
    let mut i: usize = 0;
    while i < n
        invariant
            n == bytes@.len() / 3,
            bytes@.len() == 1344,
            i <= n,
            accepted_uniform(bytes@, i as nat).len() <= 256 ==> out@ == accepted_uniform(
                bytes@,
                i as nat,
            ),
            accepted_uniform(bytes@, i as nat).len() > 256 ==> out@ == accepted_uniform(
                bytes@,
                i as nat,
            ).take(256),
            forall|j: int| 0 <= j < out@.len() ==> #[trigger] out@[j] < Q,
        decreases n - i,
    {
        let c: u32 = bytes[3 * i] as u32 + 256 * (bytes[3 * i + 1] as u32) + 65536 * ((bytes[3 * i
            + 2] % 128) as u32);
        let ghost prev = accepted_uniform(bytes@, i as nat);
        if c < Q {
            if out.len() < 256 {
                out.push(c);
            }
            proof {
                if prev.len() >= 256 {
                    first_256_step(prev, c);
                }
            }
        }
        i += 1;
    }
    if out.len() == 256 {
        assert(is_poly(out@));
        Some(out)
    } else {
        None
    }
}

/// RejBoundedPoly (eta = 2) on SHAKE256(seed): a polynomial with coefficients in [-2, 2].
pub fn rej_bounded_poly(seed: &Vec<u8>) -> (res: Option<Vec<u32>>)
    requires
        seed.len() <= 1024,
    ensures
        match res {
            Some(p) => rej_bounded_poly_spec(
                shake_blocks(seed@, SHAKE256_RATE as int, BLOCKS_ETA as nat),
            ) == Some(p@) && is_poly(p@),
            None => rej_bounded_poly_spec(
                shake_blocks(seed@, SHAKE256_RATE as int, BLOCKS_ETA as nat),
            ) is None,
        },
{
    let bytes = shake_stream(seed, SHAKE256_RATE, BLOCKS_ETA);
    proof {
        lemma_squeeze_len(absorb_spec(seed@, 136), 136, 4);
    }
    let n = 2 * bytes.len();
    let mut out: Vec<u32> = Vec::new();
    let mut i: usize = 0;
    while i < n
        invariant
            n == 2 * bytes@.len(),
            bytes@.len() == 544,
            i <= n,
            accepted_eta(bytes@, i as nat).len() <= 256 ==> out@ == accepted_eta(
                bytes@,
                i as nat,
            ),
            accepted_eta(bytes@, i as nat).len() > 256 ==> out@ == accepted_eta(
                bytes@,
                i as nat,
            ).take(256),
            forall|j: int| 0 <= j < out@.len() ==> #[trigger] out@[j] < Q,
        decreases n - i,
    {
        let z: u8 = if i % 2 == 0 {
            bytes[i / 2] % 16
        } else {
            bytes[i / 2] / 16
        };
        let ghost prev = accepted_eta(bytes@, i as nat);
        if z < 15 {
            let m = z % 5;
            let v: u32 = if m <= 2 {
                (2 - m) as u32
            } else {
                Q + 2 - (m as u32)
            };
            if out.len() < 256 {
                out.push(v);
            }
            proof {
                if prev.len() >= 256 {
                    first_256_step(prev, v);
                }
            }
        }
        i += 1;
    }
    if out.len() == 256 {
        assert(is_poly(out@));
        Some(out)
    } else {
        None
    }
}

/// Entry (r, s) of the matrix A, sampled from rho.
pub fn matrix_entry(rho: &[u8], r: u8, s: u8) -> (res: Option<Vec<u32>>)
    requires
        rho@.len() == SEEDBYTES,
    ensures
        match res {
            Some(p) => matrix_entry_spec(rho@, r as int, s as int) == Some(p@) && is_poly(p@),
            None => matrix_entry_spec(rho@, r as int, s as int) is None,
        },
{
    let mut seed: Vec<u8> = Vec::new();
    append_bytes(&mut seed, rho);
    seed.push(s);
    seed.push(r);
    assert(seed@ =~= rho@ + seq![s as u8, r as u8]);
    rej_ntt_poly(&seed)
}

/// Polynomial number `nonce` of the secret vectors, sampled from rho'.
pub fn eta_poly(rhoprime: &[u8], nonce: u16) -> (res: Option<Vec<u32>>)
    requires
        rhoprime@.len() == CRHBYTES,
    ensures
        match res {
            Some(p) => eta_poly_spec(rhoprime@, nonce) == Some(p@) && is_poly(p@),
            None => eta_poly_spec(rhoprime@, nonce) is None,
        },
{
    let mut seed: Vec<u8> = Vec::new();
    append_bytes(&mut seed, rhoprime);
    push_le16(&mut seed, nonce);
    assert(seed@ =~= rhoprime@ + le16(nonce));
    rej_bounded_poly(&seed)
}

/// Polynomial number `nonce` of the mask y, expanded from rho'.
pub fn mask_poly(rhoprime: &[u8], nonce: u16) -> (p: Vec<u32>)
    requires
        rhoprime@.len() == CRHBYTES,
    ensures
        p@ == mask_poly_spec(rhoprime@, nonce),
        is_poly(p@),
{
    let mut seed: Vec<u8> = Vec::new();
    append_bytes(&mut seed, rhoprime);
    push_le16(&mut seed, nonce);
    assert(seed@ =~= rhoprime@ + le16(nonce));
    let bytes = shake(&seed, SHAKE256_RATE, 576);
    let raw = unpack_bits(&bytes, 0, 18, 256);
    assert(bytes@.subrange(0, bytes@.len() as int) =~= bytes@);
    let ghost rawspec = unpack_bits_spec(bytes@, 18, 256);
    let mut p: Vec<u32> = Vec::new();
    let mut i: usize = 0;
    while i < 256
        invariant
            raw@ == rawspec,
            raw.len() == 256,
            rawspec == unpack_bits_spec(shake_spec(rhoprime@ + le16(nonce), SHAKE256_RATE as int, 576), 18, 256),
            i <= 256,
            p.len() == i,
            forall|j: int| 0 <= j < i ==> #[trigger] p@[j] == mask_poly_spec(rhoprime@, nonce)[j],
            forall|j: int| 0 <= j < i ==> #[trigger] p@[j] < Q,
        decreases 256 - i,
    {
        let v = raw[i];
        let y: u32 = if v <= GAMMA1 {
            GAMMA1 - v
        } else {
            let e = (v - GAMMA1) % Q;
            proof {
                vstd::arithmetic::div_mod::lemma_fundamental_div_mod((v - GAMMA1) as int, Q as int);
                vstd::arithmetic::div_mod::lemma_mod_multiples_vanish(
                    ((v - GAMMA1) as int) / (Q as int) + 1,
                    (Q - e) as int,
                    Q as int,
                );
            }
            if e == 0 {
                0
            } else {
                Q - e
            }
        };
        p.push(y);
        i += 1;
    }
    assert(p@ =~= mask_poly_spec(rhoprime@, nonce));
    p
}

/// The sign bit used for position `i` of the challenge: bit i + tau - 256 of the first eight bytes.
pub open spec fn ball_sign(stream: Seq<u8>, i: int) -> bool {
    let k = i + TAU - 256;
    (stream[k / 8] >> ((k % 8) as u8)) & 1 == 1
}

/// SampleInBall from stream position `pos`, with positions [i, 256) still to place.
pub open spec fn ball_from(stream: Seq<u8>, pos: int, i: int, c: Seq<u32>) -> (Seq<u32>, bool)
    decreases stream.len() - pos,
{
    if i >= 256 {
        (c, true)
    } else if pos < 0 || pos >= stream.len() {
        (c, false)
    } else {
        let j = stream[pos] as int;
        if j > i {
            ball_from(stream, pos + 1, i, c)
        } else {
            let sign: u32 = if ball_sign(stream, i) {
                (Q - 1) as u32
            } else {
                1
            };
            ball_from(stream, pos + 1, i + 1, c.update(i, c[j]).update(j, sign))
        }
    }
}

/// The all-zero polynomial.
pub open spec fn zero_poly() -> Seq<u32> {
    Seq::new(256, |i: int| 0u32)
}

/// SampleInBall on a finite stream: a polynomial with TAU coefficients
/// equal to 1 or -1 and all others 0, or None when the stream runs out.
pub open spec fn sample_in_ball_spec(stream: Seq<u8>) -> Option<Seq<u32>> {
    let (c, ok) = ball_from(stream, 8, 256 - TAU, zero_poly());
    if ok {
        Some(c)
    } else {
        None
    }
}

/// The challenge polynomial of the commitment hash c~: SampleInBall on SHAKE256(c~).
pub open spec fn challenge_spec(ctilde: Seq<u8>) -> Option<Seq<u32>> {
    sample_in_ball_spec(shake_blocks(ctilde, SHAKE256_RATE as int, BLOCKS_BALL as nat))
}

/// Samples the challenge polynomial from the commitment hash `ctilde`.
pub fn challenge(ctilde: &[u8]) -> (res: Option<Vec<u32>>)
    requires
        ctilde@.len() == C_DASH_BYTES,
    ensures
        match res {
            Some(p) => challenge_spec(ctilde@) == Some(p@) && is_poly(p@),
            None => challenge_spec(ctilde@) is None,
        },
{
    let mut seed: Vec<u8> = Vec::new();
    append_bytes(&mut seed, ctilde);
    assert(seed@ =~= ctilde@);
    let stream = shake_stream(&seed, SHAKE256_RATE, BLOCKS_BALL);
    proof {
        lemma_squeeze_len(absorb_spec(seed@, 136), 136, 2);
    }
    let mut c: Vec<u32> = vec![0u32; 256];
    assert(c@ =~= zero_poly());
    let mut pos: usize = 8;
    let mut i: usize = N - TAU;
    while i < 256 && pos < stream.len()
        invariant
            stream@.len() == 272,
            8 <= pos <= 272,
            217 <= i <= 256,
            c.len() == 256,
            forall|j: int| 0 <= j < 256 ==> #[trigger] c@[j] < Q,
            ball_from(stream@, pos as int, i as int, c@) == ball_from(stream@, 8, 217, zero_poly()),
        decreases stream@.len() - pos,
    {
        let j = stream[pos] as usize;
        if j <= i {
            let k = i + TAU - 256;
            let bit = (stream[k / 8] >> ((k % 8) as u8)) & 1;
            let sign: u32 = if bit == 1 {
                Q - 1
            } else {
                1
            };
            let cj = c[j];
            c[i] = cj;
            c[j] = sign;
            i += 1;
        }
        pos += 1;
    }
    if i >= 256 {
        Some(c)
    } else {
        None
    }
}

} // verus!

verus! {

/// Whether every entry of A can be sampled from the available stream.
pub open spec fn matrix_ok(rho: Seq<u8>) -> bool {
    forall|r: int, s: int|
        0 <= r < K && 0 <= s < L ==> (#[trigger] matrix_entry_spec(rho, r, s)) is Some
}

/// ExpandA: the K x L matrix A in the NTT domain.
pub open spec fn matrix_spec(rho: Seq<u8>) -> Seq<Seq<Seq<u32>>> {
    Seq::new(
        K as nat,
        |r: int| Seq::new(L as nat, |s: int| matrix_entry_spec(rho, r, s).unwrap()),
    )
}

/// Whether `n` secret polynomials from nonce `base` on can be sampled.
pub open spec fn secret_ok(rhoprime: Seq<u8>, base: int, n: int) -> bool {
    forall|i: int| 0 <= i < n ==> (#[trigger] eta_poly_spec(rhoprime, (base + i) as u16)) is Some
}

/// ExpandS, one vector: `n` polynomials with nonces base, base + 1, ...
pub open spec fn secret_vec_spec(rhoprime: Seq<u8>, base: int, n: int) -> Seq<Seq<u32>> {
    Seq::new(n as nat, |i: int| eta_poly_spec(rhoprime, (base + i) as u16).unwrap())
}

/// ExpandMask: L polynomials with nonces kappa, kappa + 1, ...
pub open spec fn mask_vec_spec(rhoprime: Seq<u8>, kappa: int) -> Seq<Seq<u32>> {
    Seq::new(L as nat, |i: int| mask_poly_spec(rhoprime, (kappa + i) as u16))
}

/// Samples the matrix A from rho; None when some entry runs out of stream.
pub fn expand_matrix(rho: &Vec<u8>) -> (res: Option<Vec<Vec<Vec<u32>>>>)
    requires
        rho@.len() == SEEDBYTES,
    ensures
        match res {
            Some(m) => matrix_ok(rho@) && pm(m@) == matrix_spec(rho@) && m@.len() == K
                && forall|i: int| 0 <= i < K ==> is_polyvec(#[trigger] pm(m@)[i], L as int),
            None => !matrix_ok(rho@),
        },
{
    let mut m: Vec<Vec<Vec<u32>>> = Vec::new();
    let mut r: usize = 0;
    while r < K
        invariant
            rho@.len() == SEEDBYTES,
            r <= K,
            m@.len() == r,
            forall|i: int, s: int|
                0 <= i < r && 0 <= s < L ==> (#[trigger] matrix_entry_spec(rho@, i, s)) is Some,
            forall|i: int| 0 <= i < r ==> #[trigger] pm(m@)[i] == matrix_spec(rho@)[i],
            forall|i: int| 0 <= i < r ==> is_polyvec(#[trigger] pm(m@)[i], L as int),
        decreases K - r,
    {
        let mut row: Vec<Vec<u32>> = Vec::new();
        let mut s: usize = 0;
        while s < L
            invariant
                rho@.len() == SEEDBYTES,
                r < K,
                s <= L,
                row@.len() == s,
                forall|j: int|
                    0 <= j < s ==> (#[trigger] matrix_entry_spec(rho@, r as int, j)) is Some,
                forall|j: int|
                    0 <= j < s ==> #[trigger] row@[j]@ == matrix_entry_spec(rho@, r as int, j).unwrap(),
                forall|j: int| 0 <= j < s ==> is_poly(#[trigger] row@[j]@),
            decreases L - s,
        {
            match matrix_entry(rho.as_slice(), r as u8, s as u8) {
                Some(p) => {
                    row.push(p);
                },
                None => {
                    return None;
                },
            }
            s += 1;
        }
        let ghost m0 = pm(m@);
        m.push(row);
        assert(pm(m@)[r as int] =~= matrix_spec(rho@)[r as int]);
        assert forall|i: int| 0 <= i < r implies #[trigger] pm(m@)[i] == matrix_spec(rho@)[i] by {
            assert(pm(m@)[i] == m0[i]);
        }
        assert forall|i: int| 0 <= i <= r implies is_polyvec(#[trigger] pm(m@)[i], L as int) by {
            if i < r {
                assert(pm(m@)[i] == m0[i]);
            }
        }
        r += 1;
    }
    assert(pm(m@) =~= matrix_spec(rho@));
    Some(m)
}

/// Samples `n` secret polynomials with nonces base, base + 1, ...; None when one runs out of stream.
pub fn expand_secret(rhoprime: &Vec<u8>, base: u16, n: u16) -> (res: Option<Vec<Vec<u32>>>)
    requires
        rhoprime@.len() == CRHBYTES,
        base + n <= 0xffff,
    ensures
        match res {
            Some(v) => secret_ok(rhoprime@, base as int, n as int) && pv(v@) == secret_vec_spec(
                rhoprime@,
                base as int,
                n as int,
            ) && is_polyvec(pv(v@), n as int),
            None => !secret_ok(rhoprime@, base as int, n as int),
        },
{
    let mut v: Vec<Vec<u32>> = Vec::new();
    let mut i: u16 = 0;
    while i < n
        invariant
            rhoprime@.len() == CRHBYTES,
            base + n <= 0xffff,
            i <= n,
            v@.len() == i,
            forall|j: int|
                0 <= j < i ==> (#[trigger] eta_poly_spec(rhoprime@, (base + j) as u16)) is Some,
            forall|j: int|
                0 <= j < i ==> #[trigger] v@[j]@ == eta_poly_spec(rhoprime@, (base + j) as u16).unwrap(),
            forall|j: int| 0 <= j < i ==> is_poly(#[trigger] v@[j]@),
        decreases n - i,
    {
        match eta_poly(rhoprime.as_slice(), base + i) {
            Some(p) => {
                v.push(p);
            },
            None => {
                return None;
            },
        }
        i += 1;
    }
    assert(pv(v@) =~= secret_vec_spec(rhoprime@, base as int, n as int));
    Some(v)
}

/// The mask vector y with nonces kappa, kappa + 1, ..., kappa + L - 1.
pub fn expand_mask(rhoprime: &Vec<u8>, kappa: u16) -> (y: Vec<Vec<u32>>)
    requires
        rhoprime@.len() == CRHBYTES,
        kappa + L <= 0x1_0000,
    ensures
        pv(y@) == mask_vec_spec(rhoprime@, kappa as int),
        is_polyvec(pv(y@), L as int),
{
    let mut y: Vec<Vec<u32>> = Vec::new();
    let mut i: usize = 0;
    while i < L
        invariant
            rhoprime@.len() == CRHBYTES,
            kappa + L <= 0x1_0000,
            i <= L,
            y@.len() == i,
            forall|j: int|
                0 <= j < i ==> #[trigger] y@[j]@ == mask_poly_spec(rhoprime@, (kappa + j) as u16),
            forall|j: int| 0 <= j < i ==> is_poly(#[trigger] y@[j]@),
        decreases L - i,
    {
        let p = mask_poly(rhoprime.as_slice(), kappa + i as u16);
        y.push(p);
        i += 1;
    }
    assert(pv(y@) =~= mask_vec_spec(rhoprime@, kappa as int));
    y
}

} // verus!

verus! {

/// Every accepted RejNTTPoly candidate lies below q.
pub proof fn lemma_accepted_uniform_lt_q(bytes: Seq<u8>, n: nat)
    ensures
        forall|k: int| 0 <= k < accepted_uniform(bytes, n).len() ==> #[trigger] accepted_uniform(bytes, n)[k] < Q,
    decreases n,
{
    if n > 0 {
        let m = (n - 1) as nat;
        lemma_accepted_uniform_lt_q(bytes, m);
        let prev = accepted_uniform(bytes, m);
        let c = uniform_candidate(bytes, n - 1);
        assert forall|k: int| 0 <= k < accepted_uniform(bytes, n).len() implies #[trigger] accepted_uniform(bytes, n)[k] < Q by {
            if c < Q {
                assert(accepted_uniform(bytes, n) == prev.push(c as u32));
                if k < prev.len() {
                    assert(prev.push(c as u32)[k] == prev[k]);
                }
            } else {
                assert(accepted_uniform(bytes, n) == prev);
            }
        }
    }
}

/// Every accepted RejBoundedPoly value is a residue of -2, -1, 0, 1 or 2.
pub proof fn lemma_accepted_eta_range(bytes: Seq<u8>, n: nat)
    ensures
        forall|k: int|
            0 <= k < accepted_eta(bytes, n).len() ==> #[trigger] accepted_eta(bytes, n)[k] < Q
                && -2 <= crate::arith::centered(accepted_eta(bytes, n)[k] as int) <= 2,
    decreases n,
{
    if n > 0 {
        let m = (n - 1) as nat;
        lemma_accepted_eta_range(bytes, m);
        let prev = accepted_eta(bytes, m);
        let z = eta_candidate(bytes, n - 1);
        assert forall|k: int| 0 <= k < accepted_eta(bytes, n).len() implies #[trigger] accepted_eta(bytes, n)[k] < Q
                && -2 <= crate::arith::centered(accepted_eta(bytes, n)[k] as int) <= 2 by {
            if z < 15 {
                let v = ((2 - z % 5) % (Q as int)) as u32;
                assert(accepted_eta(bytes, n) == prev.push(v));
                if k < prev.len() {
                    assert(prev.push(v)[k] == prev[k]);
                } else {
                    assert(prev.push(v)[k] == v);
                    assert(0 <= z % 5 < 5);
                    if z % 5 <= 2 {
                        vstd::arithmetic::div_mod::lemma_fundamental_div_mod_converse(2 - z % 5, Q as int, 0, 2 - z % 5);
                    } else {
                        vstd::arithmetic::div_mod::lemma_fundamental_div_mod_converse(2 - z % 5, Q as int, -1, Q + 2 - z % 5);
                    }
                }
            } else {
                assert(accepted_eta(bytes, n) == prev);
            }
        }
    }
}

/// The entries of A are polynomials with canonical coefficients.
pub proof fn lemma_matrix_poly(rho: Seq<u8>)
    requires
        matrix_ok(rho),
    ensures
        forall|r: int, s: int|
            0 <= r < K && 0 <= s < L ==> is_poly(#[trigger] matrix_spec(rho)[r][s]),
        forall|r: int| 0 <= r < K ==> is_polyvec(#[trigger] matrix_spec(rho)[r], L as int),
        matrix_spec(rho).len() == K,
{
    assert forall|r: int, s: int| 0 <= r < K && 0 <= s < L implies is_poly(
        #[trigger] matrix_spec(rho)[r][s],
    ) by {
        let bytes = shake_blocks(rho + seq![s as u8, r as u8], SHAKE128_RATE as int, BLOCKS_UNIFORM as nat);
        assert(matrix_entry_spec(rho, r, s) is Some);
        let acc = accepted_uniform(bytes, bytes.len() / 3);
        lemma_accepted_uniform_lt_q(bytes, bytes.len() / 3);
        assert(matrix_spec(rho)[r][s] == acc.take(256));
        assert forall|j: int| 0 <= j < 256 implies #[trigger] acc.take(256)[j] < Q by {
            assert(acc.take(256)[j] == acc[j]);
        }
    }
    assert forall|r: int| 0 <= r < K implies is_polyvec(#[trigger] matrix_spec(rho)[r], L as int) by {
        assert forall|s: int| 0 <= s < L implies is_poly(#[trigger] matrix_spec(rho)[r][s]) by {
        }
    }
}

/// The secret polynomials have coefficients in [-2, 2].
pub proof fn lemma_secret_poly(rhoprime: Seq<u8>, base: int, n: int)
    requires
        secret_ok(rhoprime, base, n),
        0 <= n,
    ensures
        is_polyvec(secret_vec_spec(rhoprime, base, n), n),
        forall|i: int, j: int|
            0 <= i < n && 0 <= j < 256 ==> -2 <= crate::arith::centered(
                #[trigger] secret_vec_spec(rhoprime, base, n)[i][j] as int,
            ) <= 2,
{
    assert forall|i: int, j: int| 0 <= i < n && 0 <= j < 256 implies #[trigger] secret_vec_spec(
        rhoprime,
        base,
        n,
    )[i][j] < Q && -2 <= crate::arith::centered(secret_vec_spec(rhoprime, base, n)[i][j] as int)
        <= 2 by {
        let nonce = (base + i) as u16;
        let bytes = shake_blocks(rhoprime + le16(nonce), SHAKE256_RATE as int, BLOCKS_ETA as nat);
        assert(eta_poly_spec(rhoprime, nonce) is Some);
        let acc = accepted_eta(bytes, 2 * bytes.len());
        lemma_accepted_eta_range(bytes, 2 * bytes.len());
        assert(secret_vec_spec(rhoprime, base, n)[i] == acc.take(256));
        assert(acc.take(256)[j] == acc[j]);
    }
    assert forall|i: int| 0 <= i < n implies is_poly(#[trigger] secret_vec_spec(rhoprime, base, n)[i]) by {
        assert forall|j: int| 0 <= j < 256 implies #[trigger] secret_vec_spec(rhoprime, base, n)[i][j] < Q by {
        }
    }
}

/// The mask polynomials have canonical coefficients.
pub proof fn lemma_mask_poly(rhoprime: Seq<u8>, kappa: int)
    ensures
        is_polyvec(mask_vec_spec(rhoprime, kappa), L as int),
{
}

} // verus!

verus! {

/// SampleInBall keeps coefficients canonical.
pub proof fn lemma_ball_from_poly(stream: Seq<u8>, pos: int, i: int, c: Seq<u32>)
    requires
        is_poly(c),
        0 <= i,
    ensures
        is_poly(ball_from(stream, pos, i, c).0),
    decreases stream.len() - pos,
{
    if i >= 256 {
    } else if pos < 0 || pos >= stream.len() {
    } else {
        let j = stream[pos] as int;
        if j > i {
            lemma_ball_from_poly(stream, pos + 1, i, c);
        } else {
            let sign: u32 = if ball_sign(stream, i) {
                (Q - 1) as u32
            } else {
                1
            };
            let c2 = c.update(i, c[j]).update(j, sign);
            assert(is_poly(c2));
            lemma_ball_from_poly(stream, pos + 1, i + 1, c2);
        }
    }
}

/// The challenge polynomial has canonical coefficients.
pub proof fn lemma_challenge_poly(ctilde: Seq<u8>)
    requires
        challenge_spec(ctilde) is Some,
    ensures
        is_poly(challenge_spec(ctilde).unwrap()),
{
    let stream = shake_blocks(ctilde, SHAKE256_RATE as int, BLOCKS_BALL as nat);
    lemma_ball_from_poly(stream, 8, 256 - TAU, zero_poly());
}

} // verus!

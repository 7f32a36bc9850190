use vstd::prelude::*;
use crate::params::{Q, SEEDBYTES, CRHBYTES, TR_BYTES};
use crate::params::ml_dsa_44::{
    K, L, GAMMA1, GAMMA2, BETA, OMEGA, C_DASH_BYTES, PUBLICKEYBYTES, SECRETKEYBYTES, SIGNBYTES,
    POLYW1_PACKEDBYTES,
};
use crate::keccak::{shake, shake_spec, SHAKE256_RATE};
use crate::bytes::{append_bytes, sub_bytes, write_bytes};
use crate::sample::{
    expand_matrix, expand_secret, expand_mask, matrix_ok, matrix_spec, secret_ok,
    secret_vec_spec, mask_vec_spec, challenge, challenge_spec,
};
use crate::ntt::{ntt, ntt_spec};
use crate::bytes::bytes_eq;
use crate::ntt::is_poly;
use crate::poly::{p2r_high_spec, p2r_low_spec, high_spec, low_spec, make_hint_poly_spec};
use crate::polyvec::{
    pv, pm, is_polyvec, vec_ntt, vec_intt, vec_add, vec_sub, mat_vec, vec_power2round,
    vec_ntt_spec, vec_intt_spec, vec_add_spec, vec_sub_spec, mat_vec_spec, vec_decompose,
    vec_scale, vec_scale_spec, vec_chknorm, vec_norm_ge, vec_make_hint, vec_count, vec_shiftl,
    vec_shiftl_spec, vec_use_hint, vec_use_hint_spec,
};
use crate::packing::{
    pack_vec, offset_vec, pk_encode_spec, sk_encode_spec, pack_vec_spec, offset_vec_spec,
    lemma_pack_vec_len, lemma_offset_vec_lens, unpack_vec, unpack_vec_raw, unpack_vec_spec,
    unoffset_vec_spec, sig_encode_spec, pack_hint, unpack_hint, hint_unpack_spec,
    hint_pack_spec,
};

verus! {

/// The 128 bytes H(xi || K || L) from which key generation takes rho, rho' and K.
pub open spec fn keygen_seedbuf(seed: Seq<u8>) -> Seq<u8> {
    shake_spec(seed + seq![K as u8, L as u8], SHAKE256_RATE as int, 128)
}

/// The public seed rho of the matrix A.
pub open spec fn keygen_rho(seed: Seq<u8>) -> Seq<u8> {
    keygen_seedbuf(seed).subrange(0, 32)
}

/// The seed rho' of the secret vectors.
pub open spec fn keygen_rhoprime(seed: Seq<u8>) -> Seq<u8> {
    keygen_seedbuf(seed).subrange(32, 96)
}

/// The signing seed K.
pub open spec fn keygen_key(seed: Seq<u8>) -> Seq<u8> {
    keygen_seedbuf(seed).subrange(96, 128)
}

/// Whether every sampler of key generation finds enough candidates in its stream.
pub open spec fn keygen_ok(seed: Seq<u8>) -> bool {
    &&& matrix_ok(keygen_rho(seed))
    &&& secret_ok(keygen_rhoprime(seed), 0, L as int)
    &&& secret_ok(keygen_rhoprime(seed), L as int, K as int)
}

/// The secret vector s1.
pub open spec fn keygen_s1(seed: Seq<u8>) -> Seq<Seq<u32>> {
    secret_vec_spec(keygen_rhoprime(seed), 0, L as int)
}

/// The secret vector s2.
pub open spec fn keygen_s2(seed: Seq<u8>) -> Seq<Seq<u32>> {
    secret_vec_spec(keygen_rhoprime(seed), L as int, K as int)
}

/// t = A * s1 + s2, computed as NTT^-1(A_hat o NTT(s1)) + s2.
pub open spec fn keygen_t(seed: Seq<u8>) -> Seq<Seq<u32>> {
    vec_add_spec(
        vec_intt_spec(mat_vec_spec(matrix_spec(keygen_rho(seed)), vec_ntt_spec(keygen_s1(seed)))),
        keygen_s2(seed),
    )
}

/// The high parts t1 of t.
pub open spec fn keygen_t1(seed: Seq<u8>) -> Seq<Seq<u32>> {
    Seq::new(K as nat, |i: int| p2r_high_spec(keygen_t(seed)[i]))
}

/// The low parts t0 of t.
pub open spec fn keygen_t0(seed: Seq<u8>) -> Seq<Seq<u32>> {
    Seq::new(K as nat, |i: int| p2r_low_spec(keygen_t(seed)[i]))
}

/// The public key of ML-DSA-44 KeyGen_internal for the seed xi.
pub open spec fn keygen_pk_spec(seed: Seq<u8>) -> Seq<u8> {
    pk_encode_spec(keygen_rho(seed), keygen_t1(seed))
}

/// The secret key of ML-DSA-44 KeyGen_internal for the seed xi.
pub open spec fn keygen_sk_spec(seed: Seq<u8>) -> Seq<u8> {
    sk_encode_spec(
        keygen_rho(seed),
        keygen_key(seed),
        shake_spec(keygen_pk_spec(seed), SHAKE256_RATE as int, TR_BYTES as nat),
        keygen_s1(seed),
        keygen_s2(seed),
        keygen_t0(seed),
    )
}

/// Generates the key pair of the 32-byte seed `seed` into the first
/// PUBLICKEYBYTES bytes of `pk` and the first SECRETKEYBYTES bytes of `sk`.
/// Returns false, writing nothing, when a sampler runs out of its stream.
pub fn keypair_internal(pk: &mut [u8], sk: &mut [u8], seed: &[u8]) -> (ok: bool)
    requires
        old(pk)@.len() >= PUBLICKEYBYTES,
        old(sk)@.len() >= SECRETKEYBYTES,
        seed@.len() == SEEDBYTES,
    ensures
        ok == keygen_ok(seed@),
        ok ==> final(pk)@ == keygen_pk_spec(seed@) + old(pk)@.subrange(
            PUBLICKEYBYTES as int,
            old(pk)@.len() as int,
        ),
        ok ==> final(sk)@ == keygen_sk_spec(seed@) + old(sk)@.subrange(
            SECRETKEYBYTES as int,
            old(sk)@.len() as int,
        ),
        !ok ==> final(pk)@ == old(pk)@ && final(sk)@ == old(sk)@,
{
    let mut init: Vec<u8> = Vec::new();
    append_bytes(&mut init, seed);
    init.push(K as u8);
    init.push(L as u8);
    assert(init@ =~= seed@ + seq![K as u8, L as u8]);
    let seedbuf = shake(&init, SHAKE256_RATE, 128);
    let rho = sub_bytes(seedbuf.as_slice(), 0, 32);
    let rhoprime = sub_bytes(seedbuf.as_slice(), 32, 96);
    let key = sub_bytes(seedbuf.as_slice(), 96, 128);
    let mat = match expand_matrix(&rho) {
        Some(m) => m,
        None => {
            return false;
        },
    };
    let s1 = match expand_secret(&rhoprime, 0, L as u16) {
        Some(v) => v,
        None => {
            return false;
        },
    };
    let s2 = match expand_secret(&rhoprime, L as u16, K as u16) {
        Some(v) => v,
        None => {
            return false;
        },
    };
    let s1hat = vec_ntt(&s1);
    let as1 = mat_vec(&mat, &s1hat);
    let as1_std = vec_intt(&as1);
    let t = vec_add(&as1_std, &s2);
    let (t1, t0) = vec_power2round(&t);
    assert(pv(t@) == keygen_t(seed@));
    assert(pv(t1@) =~= keygen_t1(seed@));
    assert(pv(t0@) =~= keygen_t0(seed@));
    let mut pkv: Vec<u8> = Vec::new();
    append_bytes(&mut pkv, rho.as_slice());
    assert forall|i: int| 0 <= i < t1@.len() implies (#[trigger] t1@[i])@.len() == 256 by {
        assert(is_poly(pv(t1@)[i]));
    }
    pack_vec(&t1, 10, &mut pkv);
    proof {
        lemma_pack_vec_len(pv(t1@), 10);
    }
    assert(pkv@ == keygen_pk_spec(seed@));
    let tr = shake(&pkv, SHAKE256_RATE, TR_BYTES);
    let mut skv: Vec<u8> = Vec::new();
    append_bytes(&mut skv, rho.as_slice());
    append_bytes(&mut skv, key.as_slice());
    append_bytes(&mut skv, tr.as_slice());
    let e1 = offset_vec(&s1, 2);
    let e2 = offset_vec(&s2, 2);
    let e0 = offset_vec(&t0, 4096);
    pack_vec(&e1, 3, &mut skv);
    pack_vec(&e2, 3, &mut skv);
    pack_vec(&e0, 13, &mut skv);
    proof {
        lemma_pack_vec_len(pv(e1@), 3);
        lemma_pack_vec_len(pv(e2@), 3);
        lemma_pack_vec_len(pv(e0@), 13);
    }
    assert(skv@ == keygen_sk_spec(seed@));
    let ghost pk0 = pk@;
    let ghost sk0 = sk@;
    write_bytes(pk, 0, &pkv);
    write_bytes(sk, 0, &skv);
    assert(pk0.subrange(0, 0) + pkv@ =~= pkv@);
    assert(sk0.subrange(0, 0) + skv@ =~= skv@);
    true
}

/// Number of signing attempts (nonces 0, 1, ...) made before giving up.
pub const MAX_SIGN_ATTEMPTS: usize = 16384;

/// The public seed rho stored in a secret key.
pub open spec fn sk_rho(sk: Seq<u8>) -> Seq<u8> {
    sk.subrange(0, 32)
}

/// The signing seed K stored in a secret key.
pub open spec fn sk_key(sk: Seq<u8>) -> Seq<u8> {
    sk.subrange(32, 64)
}

/// The public-key hash tr stored in a secret key.
pub open spec fn sk_tr(sk: Seq<u8>) -> Seq<u8> {
    sk.subrange(64, 128)
}

/// The vector s1 stored in a secret key.
pub open spec fn sk_s1(sk: Seq<u8>) -> Seq<Seq<u32>> {
    unoffset_vec_spec(unpack_vec_spec(sk, 128, L as nat, 3), 2)
}

/// The vector s2 stored in a secret key.
pub open spec fn sk_s2(sk: Seq<u8>) -> Seq<Seq<u32>> {
    unoffset_vec_spec(unpack_vec_spec(sk, 512, K as nat, 3), 2)
}

/// The vector t0 stored in a secret key.
pub open spec fn sk_t0(sk: Seq<u8>) -> Seq<Seq<u32>> {
    unoffset_vec_spec(unpack_vec_spec(sk, 896, K as nat, 13), 4096)
}

/// The message representative mu = H(tr || M, 64).
pub open spec fn sign_mu(sk: Seq<u8>, msg: Seq<u8>) -> Seq<u8> {
    shake_spec(sk_tr(sk) + msg, SHAKE256_RATE as int, CRHBYTES as nat)
}

/// The private random seed rho'' = H(K || rnd || mu, 64).
pub open spec fn sign_rhoprime(sk: Seq<u8>, msg: Seq<u8>, rnd: Seq<u8>) -> Seq<u8> {
    shake_spec(sk_key(sk) + rnd + sign_mu(sk, msg), SHAKE256_RATE as int, CRHBYTES as nat)
}

/// The high parts w1 of w.
pub open spec fn highs(w: Seq<Seq<u32>>) -> Seq<Seq<u32>> {
    Seq::new(w.len(), |i: int| high_spec(w[i]))
}

/// The low parts w0 of w, as residues modulo q.
pub open spec fn lows(w: Seq<Seq<u32>>) -> Seq<Seq<u32>> {
    Seq::new(w.len(), |i: int| low_spec(w[i]))
}

/// The hint polynomials for low parts `r` and high parts `w1`.
pub open spec fn hints(r: Seq<Seq<u32>>, w1: Seq<Seq<u32>>) -> Seq<Seq<u32>> {
    Seq::new(r.len(), |i: int| make_hint_poly_spec(r[i], w1[i]))
}

/// The commitment hash c~ = H(mu || w1Encode(w1), 32).
pub open spec fn commit_hash(mu: Seq<u8>, w1: Seq<Seq<u32>>) -> Seq<u8> {
    shake_spec(mu + pack_vec_spec(w1, 6), SHAKE256_RATE as int, C_DASH_BYTES as nat)
}

/// One iteration of the signing loop of ML-DSA-44 Sign_internal with mask nonce
/// kappa = L * nonce: the encoded signature, or None when the attempt is rejected
/// (norm checks, too many hints, or a challenge that cannot be sampled).
#[verifier::opaque]
pub open spec fn sign_attempt_spec(
    mu: Seq<u8>,
    rhoprime: Seq<u8>,
    a: Seq<Seq<Seq<u32>>>,
    s1hat: Seq<Seq<u32>>,
    s2hat: Seq<Seq<u32>>,
    t0hat: Seq<Seq<u32>>,
    nonce: int,
) -> Option<Seq<u8>> {
    let y = mask_vec_spec(rhoprime, L * nonce);
    let w = vec_intt_spec(mat_vec_spec(a, vec_ntt_spec(y)));
    let w1 = highs(w);
    let w0 = lows(w);
    let ctilde = commit_hash(mu, w1);
    match challenge_spec(ctilde) {
        None => None,
        Some(c) => {
            let chat = ntt_spec(c);
            let z = vec_add_spec(vec_intt_spec(vec_scale_spec(chat, s1hat)), y);
            let r0 = vec_sub_spec(w0, vec_intt_spec(vec_scale_spec(chat, s2hat)));
            let ct0 = vec_intt_spec(vec_scale_spec(chat, t0hat));
            let h = hints(vec_add_spec(r0, ct0), w1);
            if vec_norm_ge(z, GAMMA1 - BETA) || vec_norm_ge(r0, GAMMA2 - BETA) || vec_norm_ge(
                ct0,
                GAMMA2 as int,
            ) || vec_count(h, K as nat) > OMEGA {
                None
            } else {
                Some(sig_encode_spec(ctilde, z, h))
            }
        },
    }
}

/// The first accepted attempt with nonce at least `nonce`, or None when all
/// attempts below MAX_SIGN_ATTEMPTS are rejected.
pub open spec fn sign_from(
    mu: Seq<u8>,
    rhoprime: Seq<u8>,
    a: Seq<Seq<Seq<u32>>>,
    s1hat: Seq<Seq<u32>>,
    s2hat: Seq<Seq<u32>>,
    t0hat: Seq<Seq<u32>>,
    nonce: int,
) -> Option<Seq<u8>>
    decreases MAX_SIGN_ATTEMPTS - nonce,
{
    if nonce >= MAX_SIGN_ATTEMPTS {
        None
    } else {
        match sign_attempt_spec(mu, rhoprime, a, s1hat, s2hat, t0hat, nonce) {
            Some(s) => Some(s),
            None => sign_from(mu, rhoprime, a, s1hat, s2hat, t0hat, nonce + 1),
        }
    }
}

/// ML-DSA-44 Sign_internal of `msg` under the secret key `sk` (its first
/// SECRETKEYBYTES bytes) with the 32 random bytes `rnd`; None when A cannot be
/// sampled or no attempt succeeds.
pub open spec fn sign_spec(sk: Seq<u8>, msg: Seq<u8>, rnd: Seq<u8>) -> Option<Seq<u8>> {
    if !matrix_ok(sk_rho(sk)) {
        None
    } else {
        sign_from(
            sign_mu(sk, msg),
            sign_rhoprime(sk, msg, rnd),
            matrix_spec(sk_rho(sk)),
            vec_ntt_spec(sk_s1(sk)),
            vec_ntt_spec(sk_s2(sk)),
            vec_ntt_spec(sk_t0(sk)),
            0,
        )
    }
}

fn sign_attempt(
    mu: &Vec<u8>,
    rhoprime: &Vec<u8>,
    mat: &Vec<Vec<Vec<u32>>>,
    s1hat: &Vec<Vec<u32>>,
    s2hat: &Vec<Vec<u32>>,
    t0hat: &Vec<Vec<u32>>,
    nonce: usize,
) -> (res: Option<Vec<u8>>)
    requires
        mu@.len() == CRHBYTES,
        rhoprime@.len() == CRHBYTES,
        mat@.len() == K,
        forall|i: int| 0 <= i < K ==> is_polyvec(#[trigger] pm(mat@)[i], L as int),
        is_polyvec(pv(s1hat@), L as int),
        is_polyvec(pv(s2hat@), K as int),
        is_polyvec(pv(t0hat@), K as int),
        nonce < MAX_SIGN_ATTEMPTS,
    ensures
        match res {
            Some(s) => sign_attempt_spec(
                mu@,
                rhoprime@,
                pm(mat@),
                pv(s1hat@),
                pv(s2hat@),
                pv(t0hat@),
                nonce as int,
            ) == Some(s@),
            None => sign_attempt_spec(
                mu@,
                rhoprime@,
                pm(mat@),
                pv(s1hat@),
                pv(s2hat@),
                pv(t0hat@),
                nonce as int,
            ) is None,
        },
        res matches Some(s) ==> s@.len() == SIGNBYTES,
{
    reveal(sign_attempt_spec);
    let kappa: u16 = (L * nonce) as u16;
    let y = expand_mask(rhoprime, kappa);
    let yhat = vec_ntt(&y);
    let ay = mat_vec(mat, &yhat);
    let w = vec_intt(&ay);
    let (w1, w0) = vec_decompose(&w);
    assert(pv(w1@) =~= highs(pv(w@)));
    assert(pv(w0@) =~= lows(pv(w@)));
    let mut hin: Vec<u8> = Vec::new();
    append_bytes(&mut hin, mu.as_slice());
    assert forall|i: int| 0 <= i < w1@.len() implies (#[trigger] w1@[i])@.len() == 256 by {
        assert(is_poly(pv(w1@)[i]));
    }
    pack_vec(&w1, 6, &mut hin);
    proof {
        lemma_pack_vec_len(pv(w1@), 6);
    }
    let ctilde = shake(&hin, SHAKE256_RATE, C_DASH_BYTES);
    let mut chat = match challenge(ctilde.as_slice()) {
        Some(c) => c,
        None => {
            return None;
        },
    };
    ntt(&mut chat);
    let cs1 = vec_intt(&vec_scale(&chat, s1hat));
    let z = vec_add(&cs1, &y);
    if vec_chknorm(&z, GAMMA1 - BETA) {
        return None;
    }
    let cs2 = vec_intt(&vec_scale(&chat, s2hat));
    let r0 = vec_sub(&w0, &cs2);
    if vec_chknorm(&r0, GAMMA2 - BETA) {
        return None;
    }
    let ct0 = vec_intt(&vec_scale(&chat, t0hat));
    if vec_chknorm(&ct0, GAMMA2) {
        return None;
    }
    let r = vec_add(&r0, &ct0);
    let (h, n) = vec_make_hint(&r, &w1);
    assert(pv(h@) =~= hints(pv(r@), pv(w1@)));
    if n > OMEGA {
        return None;
    }
    let mut sig: Vec<u8> = Vec::new();
    append_bytes(&mut sig, ctilde.as_slice());
    let ez = offset_vec(&z, GAMMA1);
    pack_vec(&ez, 18, &mut sig);
    proof {
        lemma_pack_vec_len(pv(ez@), 18);
    }
    let hb = pack_hint(&h);
    append_bytes(&mut sig, hb.as_slice());
    Some(sig)
}

/// Signs `msg` with the secret key in the first SECRETKEYBYTES bytes of `sk` and
/// the 32 bytes `rnd`, writing the signature to the first SIGNBYTES bytes of `sig`.
/// Returns false, writing nothing, when no signing attempt succeeds.
#[verifier::rlimit(100)]
pub fn signature_internal(sig: &mut [u8], msg: &[u8], sk: &[u8], rnd: &[u8]) -> (ok: bool)
    requires
        old(sig)@.len() >= SIGNBYTES,
        sk@.len() >= SECRETKEYBYTES,
        rnd@.len() == SEEDBYTES,
        msg@.len() <= usize::MAX - 1024,
    ensures
        ok == sign_spec(sk@.subrange(0, SECRETKEYBYTES as int), msg@, rnd@) is Some,
        ok ==> final(sig)@ == sign_spec(sk@.subrange(0, SECRETKEYBYTES as int), msg@, rnd@).unwrap()
            + old(sig)@.subrange(SIGNBYTES as int, old(sig)@.len() as int),
        !ok ==> final(sig)@ == old(sig)@,
{
    let skv = sub_bytes(sk, 0, SECRETKEYBYTES);
    let ghost skp = skv@;
    let rho = sub_bytes(skv.as_slice(), 0, 32);
    let key = sub_bytes(skv.as_slice(), 32, 64);
    let tr = sub_bytes(skv.as_slice(), 64, 128);
    let s1 = unpack_vec(&skv, 128, L, 3, 2);
    let s2 = unpack_vec(&skv, 512, K, 3, 2);
    let t0 = unpack_vec(&skv, 896, K, 13, 4096);
    let mut mi: Vec<u8> = Vec::new();
    append_bytes(&mut mi, tr.as_slice());
    append_bytes(&mut mi, msg);
    let mu = shake(&mi, SHAKE256_RATE, CRHBYTES);
    let mut ri: Vec<u8> = Vec::new();
    append_bytes(&mut ri, key.as_slice());
    append_bytes(&mut ri, rnd);
    append_bytes(&mut ri, mu.as_slice());
    let rhoprime = shake(&ri, SHAKE256_RATE, CRHBYTES);
    let mat = match expand_matrix(&rho) {
        Some(m) => m,
        None => {
            return false;
        },
    };
    let s1hat = vec_ntt(&s1);
    let s2hat = vec_ntt(&s2);
    let t0hat = vec_ntt(&t0);
    let ghost g = (mu@, rhoprime@, pm(mat@), pv(s1hat@), pv(s2hat@), pv(t0hat@));
    assert(sign_spec(skp, msg@, rnd@) == sign_from(g.0, g.1, g.2, g.3, g.4, g.5, 0));
    let mut nonce: usize = 0;
    while nonce < MAX_SIGN_ATTEMPTS
        invariant
            g == (mu@, rhoprime@, pm(mat@), pv(s1hat@), pv(s2hat@), pv(t0hat@)),
            mu@.len() == CRHBYTES,
            rhoprime@.len() == CRHBYTES,
            mat@.len() == K,
            forall|i: int| 0 <= i < K ==> is_polyvec(#[trigger] pm(mat@)[i], L as int),
            is_polyvec(pv(s1hat@), L as int),
            is_polyvec(pv(s2hat@), K as int),
            is_polyvec(pv(t0hat@), K as int),
            nonce <= MAX_SIGN_ATTEMPTS,
            sign_spec(skp, msg@, rnd@) == sign_from(g.0, g.1, g.2, g.3, g.4, g.5, nonce as int),
            sig@ == old(sig)@,
            old(sig)@.len() >= SIGNBYTES,
            skp == sk@.subrange(0, SECRETKEYBYTES as int),
        decreases MAX_SIGN_ATTEMPTS - nonce,
    {
        match sign_attempt(&mu, &rhoprime, &mat, &s1hat, &s2hat, &t0hat, nonce) {
            Some(s) => {
                assert(sign_from(g.0, g.1, g.2, g.3, g.4, g.5, nonce as int) == Some(s@));
                let ghost sig0 = sig@;
                write_bytes(sig, 0, &s);
                assert(sig0.subrange(0, 0) + s@ =~= s@);
                return true;
            },
            None => {},
        }
        nonce += 1;
    }
    false
}

/// ML-DSA-44 Verify_internal of the signature `sig` on `m` under the public key
/// `pk` (PUBLICKEYBYTES bytes).
pub open spec fn verify_spec(sig: Seq<u8>, m: Seq<u8>, pk: Seq<u8>) -> bool {
    if sig.len() != SIGNBYTES {
        false
    } else {
        let rho = pk.subrange(0, 32);
        let t1 = unpack_vec_spec(pk, 32, K as nat, 10);
        let ctilde = sig.subrange(0, 32);
        let z = unoffset_vec_spec(unpack_vec_spec(sig, 32, L as nat, 18), GAMMA1 as int);
        match hint_unpack_spec(sig.subrange(2336, 2420)) {
            None => false,
            Some(h) => if vec_norm_ge(z, GAMMA1 - BETA) {
                false
            } else {
                let tr = shake_spec(pk, SHAKE256_RATE as int, TR_BYTES as nat);
                let mu = shake_spec(tr + m, SHAKE256_RATE as int, CRHBYTES as nat);
                match challenge_spec(ctilde) {
                    None => false,
                    Some(c) => if !matrix_ok(rho) {
                        false
                    } else {
                        let w = vec_intt_spec(
                            vec_sub_spec(
                                mat_vec_spec(matrix_spec(rho), vec_ntt_spec(z)),
                                vec_scale_spec(ntt_spec(c), vec_ntt_spec(vec_shiftl_spec(t1))),
                            ),
                        );
                        let w1 = vec_use_hint_spec(w, h);
                        ctilde == commit_hash(mu, w1)
                    },
                }
            },
        }
    }
}

/// Verifies the signature `sig` on the message `m` under the public key in the
/// first PUBLICKEYBYTES bytes of `pk`. A signature of the wrong length is refused
/// before `pk` is read, so `pk` may then have any length.
#[verifier::rlimit(100)]
pub fn verify(sig: &[u8], m: &[u8], pk: &[u8]) -> (ok: bool)
    requires
        sig@.len() == SIGNBYTES ==> pk@.len() >= PUBLICKEYBYTES,
        m@.len() <= usize::MAX - 1024,
    ensures
        sig@.len() != SIGNBYTES ==> !ok,
        sig@.len() == SIGNBYTES ==> ok == verify_spec(
            sig@,
            m@,
            pk@.subrange(0, PUBLICKEYBYTES as int),
        ),
{
    if sig.len() != SIGNBYTES {
        return false;
    }
    let pkv = sub_bytes(pk, 0, PUBLICKEYBYTES);
    let sigv = sub_bytes(sig, 0, SIGNBYTES);
    assert(sigv@ =~= sig@);
    let rho = sub_bytes(pkv.as_slice(), 0, 32);
    let t1 = unpack_vec_raw(&pkv, 32, K, 10);
    let ctilde = sub_bytes(sigv.as_slice(), 0, 32);
    let z = unpack_vec(&sigv, 32, L, 18, GAMMA1);
    let hb = sub_bytes(sigv.as_slice(), 2336, 2420);
    let h = match unpack_hint(&hb) {
        Some(h) => h,
        None => {
            return false;
        },
    };
    if vec_chknorm(&z, GAMMA1 - BETA) {
        return false;
    }
    let tr = shake(&pkv, SHAKE256_RATE, TR_BYTES);
    let mut mi: Vec<u8> = Vec::new();
    append_bytes(&mut mi, tr.as_slice());
    append_bytes(&mut mi, m);
    let mu = shake(&mi, SHAKE256_RATE, CRHBYTES);
    let mut chat = match challenge(ctilde.as_slice()) {
        Some(c) => c,
        None => {
            return false;
        },
    };
    let mat = match expand_matrix(&rho) {
        Some(m) => m,
        None => {
            return false;
        },
    };
    ntt(&mut chat);
    let zhat = vec_ntt(&z);
    let az = mat_vec(&mat, &zhat);
    let t1hat = vec_ntt(&vec_shiftl(&t1));
    let ct1 = vec_scale(&chat, &t1hat);
    let w = vec_intt(&vec_sub(&az, &ct1));
    let w1 = vec_use_hint(&w, &h);
    let mut hin: Vec<u8> = Vec::new();
    append_bytes(&mut hin, mu.as_slice());
    assert forall|i: int| 0 <= i < w1@.len() implies (#[trigger] w1@[i])@.len() == 256 by {
        assert(is_poly(pv(w1@)[i]));
    }
    pack_vec(&w1, 6, &mut hin);
    proof {
        lemma_pack_vec_len(pv(w1@), 6);
    }
    let c2 = shake(&hin, SHAKE256_RATE, C_DASH_BYTES);
    bytes_eq(&ctilde, &c2)
}

} // verus!

verus! {

/// Generates a key pair into the first PUBLICKEYBYTES bytes of `pk` and the first
/// SECRETKEYBYTES bytes of `sk`, from the 32-byte `seed` when one is given and from
/// 32 bytes of system randomness otherwise. Returns false, writing nothing, when a
/// sampler runs out of its stream or the random source is unavailable.
pub fn keypair(pk: &mut [u8], sk: &mut [u8], seed: Option<&[u8]>) -> (ok: bool)
    requires
        old(pk)@.len() >= PUBLICKEYBYTES,
        old(sk)@.len() >= SECRETKEYBYTES,
        seed matches Some(s) ==> s@.len() == SEEDBYTES,
    ensures
        seed matches Some(s) ==> ok == keygen_ok(s@),
        seed matches Some(s) ==> (ok ==> final(pk)@ == keygen_pk_spec(s@) + old(pk)@.subrange(
            PUBLICKEYBYTES as int,
            old(pk)@.len() as int,
        ) && final(sk)@ == keygen_sk_spec(s@) + old(sk)@.subrange(
            SECRETKEYBYTES as int,
            old(sk)@.len() as int,
        )),
        ok ==> exists|xi: Seq<u8>|
            xi.len() == SEEDBYTES && keygen_ok(xi) && final(pk)@ == keygen_pk_spec(xi) + old(
                pk,
            )@.subrange(PUBLICKEYBYTES as int, old(pk)@.len() as int) && final(sk)@
                == keygen_sk_spec(xi) + old(sk)@.subrange(
                SECRETKEYBYTES as int,
                old(sk)@.len() as int,
            ),
        !ok ==> final(pk)@ == old(pk)@ && final(sk)@ == old(sk)@,
{
    match seed {
        Some(x) => keypair_internal(pk, sk, x),
        None => {
            let mut s: Vec<u8> = vec![0u8; SEEDBYTES];
            if !crate::rng::random_bytes(s.as_mut_slice(), SEEDBYTES) {
                return false;
            }
            let ok = keypair_internal(pk, sk, s.as_slice());
            assert(ok ==> s@.len() == SEEDBYTES && keygen_ok(s@));
            ok
        },
    }
}

/// The 32 zero bytes used as randomness by deterministic signing.
pub open spec fn zero_rnd() -> Seq<u8> {
    Seq::new(32, |i: int| 0u8)
}

/// Signs `msg` with the secret key in the first SECRETKEYBYTES bytes of `sk`, writing
/// the signature to the first SIGNBYTES bytes of `sig`. Hedged signing draws the
/// 32 bytes rnd from the system's random source; deterministic signing uses zeros.
/// Returns false, writing nothing, when no signing attempt succeeds or the random
/// source is unavailable.
pub fn signature(sig: &mut [u8], msg: &[u8], sk: &[u8], hedged: bool) -> (ok: bool)
    requires
        old(sig)@.len() >= SIGNBYTES,
        sk@.len() >= SECRETKEYBYTES,
        msg@.len() <= usize::MAX - 1024,
    ensures
        !hedged ==> ok == sign_spec(sk@.subrange(0, SECRETKEYBYTES as int), msg@, zero_rnd()) is Some,
        !hedged ==> (ok ==> final(sig)@ == sign_spec(
            sk@.subrange(0, SECRETKEYBYTES as int),
            msg@,
            zero_rnd(),
        ).unwrap() + old(sig)@.subrange(SIGNBYTES as int, old(sig)@.len() as int)),
        ok ==> exists|rnd: Seq<u8>|
            rnd.len() == SEEDBYTES && sign_spec(sk@.subrange(0, SECRETKEYBYTES as int), msg@, rnd)
                is Some && final(sig)@ == sign_spec(
                sk@.subrange(0, SECRETKEYBYTES as int),
                msg@,
                rnd,
            ).unwrap() + old(sig)@.subrange(SIGNBYTES as int, old(sig)@.len() as int),
        !ok ==> final(sig)@ == old(sig)@,
{
    let mut rnd: Vec<u8> = vec![0u8; SEEDBYTES];
    if hedged {
        if !crate::rng::random_bytes(rnd.as_mut_slice(), SEEDBYTES) {
            return false;
        }
    } else {
        assert(rnd@ =~= zero_rnd());
    }
    let ok = signature_internal(sig, msg, sk, rnd.as_slice());
    assert(ok ==> rnd@.len() == SEEDBYTES);
    ok
}

} // verus!

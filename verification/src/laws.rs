use vstd::prelude::*;
use crate::params::Q;
use crate::params::ml_dsa_44::{K, L};
use crate::ntt::{is_poly, ntt_spec, intt_spec, pointwise_spec, scale_spec};
use crate::poly::{poly_add_spec, poly_sub_spec, shiftl_spec, p2r_high_spec, p2r_low_spec};
use crate::polyvec::{
    is_polyvec, dot_spec, vec_ntt_spec, vec_intt_spec, vec_add_spec, vec_scale_spec,
};
use crate::ntt_props::{
    lemma_modq, lemma_cong, lemma_intt_ntt, lemma_ntt_intt, lemma_transforms_linear,
    lemma_ntt_layers_poly,
};
use crate::algebra::{lemma_pointwise_distrib, lemma_dot_linear, lemma_power2round_recon};
use crate::params::{SEEDBYTES, TR_BYTES};
use crate::params::ml_dsa_44::{GAMMA1, GAMMA2, BETA, PUBLICKEYBYTES, SECRETKEYBYTES, SIGNBYTES};
use crate::keccak::{shake_spec, lemma_shake_len, SHAKE256_RATE};
use crate::polyvec::vec_norm_ge;
use crate::packing::{
    offset_vec_spec, pack_vec_spec, unpack_vec_spec, unoffset_vec_spec, sig_encode_spec,
    hint_pack_spec, lemma_pack_vec_len, lemma_offset_vec_lens, lemma_unpack_vec_of_pack,
};
use crate::sign::ml_dsa_44::{
    keygen_ok, keygen_rho, keygen_rhoprime, keygen_key, keygen_s1, keygen_s2, keygen_t,
    keygen_t1, keygen_t0, keygen_pk_spec, keygen_sk_spec, sk_rho, sk_key, sk_tr, sk_s1, sk_s2,
    sk_t0, sign_from, sign_attempt_spec, MAX_SIGN_ATTEMPTS, sign_spec, sign_mu, sign_rhoprime,
    verify_spec, highs, lows, hints, commit_hash,
};
use crate::params::CRHBYTES;
use crate::sample::{matrix_spec, mask_vec_spec, challenge_spec};
use crate::polyvec::{mat_vec_spec, vec_sub_spec, vec_shiftl_spec, vec_use_hint_spec, vec_count};

verus! {

/// The forward transform maps polynomials to polynomials.
pub proof fn lemma_ntt_poly(x: Seq<u32>)
    requires
        is_poly(x),
    ensures
        is_poly(ntt_spec(x)),
{
    lemma_ntt_layers_poly(x, 128);
}

/// The inverse transform, sums, differences and products give polynomials.
pub proof fn lemma_ops_poly(a: Seq<u32>, b: Seq<u32>)
    requires
        a.len() == 256,
        b.len() == 256,
    ensures
        is_poly(intt_spec(a)),
        is_poly(poly_add_spec(a, b)),
        is_poly(poly_sub_spec(a, b)),
        is_poly(pointwise_spec(a, b)),
{
}

/// The inner product of polynomial vectors is a polynomial.
pub proof fn lemma_dot_poly(row: Seq<Seq<u32>>, v: Seq<Seq<u32>>, n: nat)
    requires
        n <= row.len(),
        n <= v.len(),
        forall|i: int| 0 <= i < n ==> (#[trigger] row[i]).len() == 256,
        forall|i: int| 0 <= i < n ==> (#[trigger] v[i]).len() == 256,
    ensures
        is_poly(dot_spec(row, v, n)),
    decreases n,
{
    if n > 0 {
        lemma_dot_poly(row, v, (n - 1) as nat);
    }
}

/// (p + a) - ((p + s) - t) = (a - s) + t modulo q, coefficient-wise.
pub proof fn lemma_cancel(p: Seq<u32>, a: Seq<u32>, s: Seq<u32>, t: Seq<u32>)
    ensures
        poly_sub_spec(poly_add_spec(p, a), poly_sub_spec(poly_add_spec(p, s), t)) == poly_add_spec(
            poly_sub_spec(a, s),
            t,
        ),
{
    let qq = Q as int;
    let lhs = poly_sub_spec(poly_add_spec(p, a), poly_sub_spec(poly_add_spec(p, s), t));
    let rhs = poly_add_spec(poly_sub_spec(a, s), t);
    assert forall|i: int| 0 <= i < 256 implies lhs[i] == rhs[i] by {
        let (x, y, u, v) = (p[i] as int, a[i] as int, s[i] as int, t[i] as int);
        lemma_modq(x + y);
        lemma_modq(x + u);
        lemma_modq((x + u) % qq - v);
        lemma_modq(y - u);
        lemma_cong((x + u) % qq, v, x + u, v);
        lemma_cong((x + y) % qq, ((x + u) % qq - v) % qq, x + y, x + u - v);
        lemma_cong((y - u) % qq, v, y - u, v);
        assert((x + y) - (x + u - v) == (y - u) + v);
    }
    assert(lhs =~= rhs);
}

/// The verifier's w'_r = NTT^-1(A_r * NTT(z) - c * NTT(2^13 t1_r)) equals w_r - c s2_r + c t0_r,
/// for t = A s1 + s2 and z = c s1 + y (all products taken in the NTT domain).
pub proof fn lemma_verify_row(
    arow: Seq<Seq<u32>>,
    s1: Seq<Seq<u32>>,
    s2r: Seq<u32>,
    y: Seq<Seq<u32>>,
    c: Seq<u32>,
)
    requires
        is_polyvec(arow, L as int),
        is_polyvec(s1, L as int),
        is_poly(s2r),
        is_polyvec(y, L as int),
        is_poly(c),
    ensures
        ({
            let chat = ntt_spec(c);
            let s1hat = vec_ntt_spec(s1);
            let t = poly_add_spec(intt_spec(dot_spec(arow, s1hat, L as nat)), s2r);
            let z = vec_add_spec(vec_intt_spec(vec_scale_spec(chat, s1hat)), y);
            intt_spec(
                poly_sub_spec(
                    dot_spec(arow, vec_ntt_spec(z), L as nat),
                    pointwise_spec(chat, ntt_spec(shiftl_spec(p2r_high_spec(t)))),
                ),
            ) == poly_add_spec(
                poly_sub_spec(
                    intt_spec(dot_spec(arow, vec_ntt_spec(y), L as nat)),
                    intt_spec(pointwise_spec(chat, ntt_spec(s2r))),
                ),
                intt_spec(pointwise_spec(chat, ntt_spec(p2r_low_spec(t)))),
            )
        }),
{
    let chat = ntt_spec(c);
    lemma_ntt_poly(c);
    let s1hat = vec_ntt_spec(s1);
    let yhat = vec_ntt_spec(y);
    assert forall|s: int| 0 <= s < L implies is_poly(#[trigger] s1hat[s]) by {
        assert(is_poly(s1[s]));
        lemma_ntt_poly(s1[s]);
    }
    assert forall|s: int| 0 <= s < L implies is_poly(#[trigger] yhat[s]) by {
        assert(is_poly(y[s]));
        lemma_ntt_poly(y[s]);
    }
    let bs1 = vec_scale_spec(chat, s1hat);
    let as1 = dot_spec(arow, s1hat, L as nat);
    let ay = dot_spec(arow, yhat, L as nat);
    assert forall|s: int| 0 <= s < L implies (#[trigger] arow[s]).len() == 256 by {
        assert(is_poly(arow[s]));
    }
    lemma_dot_poly(arow, s1hat, L as nat);
    lemma_dot_poly(arow, yhat, L as nat);
    let t = poly_add_spec(intt_spec(as1), s2r);
    let z = vec_add_spec(vec_intt_spec(bs1), y);
    // NTT(z) = c s1 + NTT(y)
    let zhat = vec_ntt_spec(z);
    assert forall|s: int| 0 <= s < L implies #[trigger] zhat[s] == vec_add_spec(bs1, yhat)[s] by {
        let b = bs1[s];
        lemma_ops_poly(chat, s1hat[s]);
        assert(b == pointwise_spec(chat, s1hat[s]));
        lemma_ops_poly(b, b);
        assert(is_poly(y[s]));
        lemma_transforms_linear(intt_spec(b), y[s], 0);
        lemma_ntt_intt(b);
    }
    assert(zhat =~= vec_add_spec(bs1, yhat));
    // A NTT(z) = c (A s1) + A y
    lemma_dot_linear(arow, bs1, yhat, chat, L as nat);
    lemma_dot_linear(arow, s1hat, yhat, chat, L as nat);
    let pa = pointwise_spec(chat, as1);
    assert(dot_spec(arow, zhat, L as nat) == poly_add_spec(pa, ay));
    // NTT(2^13 t1) = A s1 + NTT(s2) - NTT(t0)
    lemma_ops_poly(as1, s2r);
    lemma_ops_poly(intt_spec(as1), s2r);
    lemma_power2round_recon(t);
    let t0 = p2r_low_spec(t);
    let s2hat = ntt_spec(s2r);
    let t0hat = ntt_spec(t0);
    lemma_transforms_linear(t, t0, 0);
    lemma_transforms_linear(intt_spec(as1), s2r, 0);
    lemma_ntt_intt(as1);
    assert(ntt_spec(shiftl_spec(p2r_high_spec(t))) == poly_sub_spec(poly_add_spec(as1, s2hat), t0hat));
    // c NTT(2^13 t1) = c A s1 + c s2 - c t0
    lemma_ntt_poly(s2r);
    assert(is_poly(t0));
    lemma_ntt_poly(t0);
    lemma_pointwise_distrib(chat, poly_add_spec(as1, s2hat), t0hat);
    lemma_pointwise_distrib(chat, as1, s2hat);
    let cs2 = pointwise_spec(chat, s2hat);
    let ct0 = pointwise_spec(chat, t0hat);
    lemma_cancel(pa, ay, cs2, ct0);
    // back through the inverse transform
    lemma_transforms_linear(poly_sub_spec(ay, cs2), ct0, 0);
    lemma_transforms_linear(ay, cs2, 0);
}

} // verus!

verus! {

/// A centered representative is congruent to the residue it represents.
pub proof fn lemma_centered_cong(u: int)
    requires
        0 <= u < Q,
    ensures
        crate::arith::centered(u) % (Q as int) == u,
{
    if u > (Q - 1) / 2 {
        vstd::arithmetic::div_mod::lemma_fundamental_div_mod_converse(
            crate::arith::centered(u),
            Q as int,
            -1,
            u,
        );
    } else {
        vstd::arithmetic::div_mod::lemma_fundamental_div_mod_converse(
            crate::arith::centered(u),
            Q as int,
            0,
            u,
        );
    }
}

proof fn lemma_hint_v(w: int, w0: int, w1: int, cs2: int, ct0: int, x: int, yv: int)
    requires
        (w - w0) % (Q as int) == (2 * 95232 * w1) % (Q as int),
        x % (Q as int) == ((w0 % (Q as int)) - cs2) % (Q as int),
        yv % (Q as int) == ct0 % (Q as int),
    ensures
        (((w - cs2) % (Q as int)) + ct0) % (Q as int) == (2 * 95232 * w1 + (x + yv)) % (Q as int),
{
    let qq = Q as int;
    let m = 2 * 95232 * w1;
    lemma_modq(w0);
    lemma_modq(w - cs2);
    lemma_cong(w0 % qq, cs2, w0, cs2);
    // w - cs2 = (w - w0) + (w0 - cs2) = m + x (mod q)
    lemma_cong(w - w0, w0 - cs2, m, x);
    assert((w - w0) + (w0 - cs2) == w - cs2);
    lemma_cong((w - cs2) % qq, ct0, m + x, yv);
}

proof fn lemma_hint_r(r0: int, ct0: int)
    requires
        0 <= r0 < Q,
        0 <= ct0 < Q,
    ensures
        (r0 + ct0) % (Q as int) == (crate::arith::centered(r0) + crate::arith::centered(ct0)) % (
        Q as int),
{
    lemma_centered_cong(r0);
    lemma_centered_cong(ct0);
    lemma_modq(r0);
    lemma_modq(ct0);
    lemma_cong(crate::arith::centered(r0), crate::arith::centered(ct0), r0, ct0);
}

/// One coefficient of the hint mechanism: with the signer's norm checks passed,
/// UseHint of w - c s2 + c t0 under MakeHint(w0 - c s2 + c t0, w1) gives w1 = HighBits(w).
#[verifier::spinoff_prover]
pub proof fn lemma_hint_coeff(w: int, cs2: int, ct0: int)
    requires
        0 <= w < Q,
        0 <= cs2 < Q,
        0 <= ct0 < Q,
        crate::arith::coeff_norm(((crate::arith::low_bits_spec(w) % (Q as int)) - cs2) % (Q as int))
            < crate::params::ml_dsa_44::GAMMA2 - crate::params::ml_dsa_44::BETA,
        crate::arith::coeff_norm(ct0) < crate::params::ml_dsa_44::GAMMA2,
    ensures
        ({
            let r0 = ((crate::arith::low_bits_spec(w) % (Q as int)) - cs2) % (Q as int);
            let r = (r0 + ct0) % (Q as int);
            let v = (((w - cs2) % (Q as int)) + ct0) % (Q as int);
            crate::arith::use_hint_spec(
                v,
                crate::arith::make_hint_spec(r, crate::arith::high_bits_spec(w)),
            ) == crate::arith::high_bits_spec(w)
        }),
{
    let qq = Q as int;
    let w1 = crate::arith::high_bits_spec(w);
    let w0 = crate::arith::low_bits_spec(w);
    let r0 = ((w0 % qq) - cs2) % qq;
    let r = (r0 + ct0) % qq;
    let v = (((w - cs2) % qq) + ct0) % qq;
    crate::algebra::lemma_decompose_recon(w);
    lemma_modq((w0 % qq) - cs2);
    let x = crate::arith::centered(r0);
    let yv = crate::arith::centered(ct0);
    lemma_centered_cong(r0);
    lemma_centered_cong(ct0);
    lemma_modq(r0);
    lemma_modq(ct0);
    lemma_hint_r(r0, ct0);
    lemma_hint_v(w, w0, w1, cs2, ct0, x, yv);
    let a = x + yv;
    assert(-2 * 95232 < a < 2 * 95232);
    assert(0 <= a + qq) by {
    }
    assert(r == a % qq);
    assert(v == (2 * 95232 * w1 + a) % qq);
    crate::algebra::lemma_use_make_hint(w1, a);
}

} // verus!

verus! {

/// The low part of Power2Round, centered, is the signed low part in (-2^12, 2^12].
pub proof fn lemma_p2r_low_range(t: Seq<u32>)
    requires
        is_poly(t),
    ensures
        forall|j: int|
            0 <= j < 256 ==> 0 <= 4096 - crate::arith::centered(#[trigger] p2r_low_spec(t)[j] as int)
                < 8192,
{
    assert forall|j: int| 0 <= j < 256 implies 0 <= 4096 - crate::arith::centered(
        #[trigger] p2r_low_spec(t)[j] as int,
    ) < 8192 by {
        let r0 = crate::arith::power2round_spec(t[j] as int).1;
        assert(-4096 < r0 <= 4096);
        if r0 < 0 {
            vstd::arithmetic::div_mod::lemma_fundamental_div_mod_converse(r0, Q as int, -1, r0 + Q);
        } else {
            vstd::arithmetic::div_mod::lemma_fundamental_div_mod_converse(r0, Q as int, 0, r0);
        }
    }
}

/// A vector of polynomials is recovered from its offset packing when the offsets fit.
pub proof fn lemma_vec_roundtrip(
    bytes: Seq<u8>,
    off: int,
    v: Seq<Seq<u32>>,
    base: int,
    bits: int,
)
    requires
        0 <= off,
        0 <= base < Q,
        0 < bits <= 31,
        v.len() <= 16,
        forall|i: int| 0 <= i < v.len() ==> is_poly(#[trigger] v[i]),
        forall|i: int, j: int|
            0 <= i < v.len() && 0 <= j < 256 ==> 0 <= base - crate::arith::centered(
                #[trigger] v[i][j] as int,
            ) < (1u32 << (bits as u32)),
        off + v.len() * (32 * bits) <= bytes.len(),
        bytes.subrange(off, off + v.len() * (32 * bits)) == crate::packing::pack_vec_spec(
            crate::packing::offset_vec_spec(v, base),
            bits,
        ),
    ensures
        crate::packing::unoffset_vec_spec(
            crate::packing::unpack_vec_spec(bytes, off, v.len(), bits),
            base,
        ) == v,
{
    let e = crate::packing::offset_vec_spec(v, base);
    assert forall|i: int| 0 <= i < v.len() implies #[trigger] crate::poly::unoffset_spec(e[i], base)
        == v[i] && forall|j: int| 0 <= j < 256 ==> #[trigger] e[i][j] < (1u32 << (bits as u32)) by {
        assert(is_poly(v[i]));
        assert forall|j: int| 0 <= j < 256 implies 0 <= base - crate::arith::centered(
            #[trigger] v[i][j] as int,
        ) < (1u32 << (bits as u32)) by {
        }
        crate::packing::lemma_unoffset_offset(v[i], base, bits);
    }
    assert forall|k: int, j: int| 0 <= k < e.len() && 0 <= j < 256 implies #[trigger] e[k][j] < (1u32
        << (bits as u32)) by {
        assert(forall|jj: int| 0 <= jj < 256 ==> #[trigger] e[k][jj] < (1u32 << (bits as u32)));
    }
    crate::packing::lemma_unpack_vec_of_pack(bytes, off, e, bits);
    assert(crate::packing::unoffset_vec_spec(
        crate::packing::unpack_vec_spec(bytes, off, v.len(), bits),
        base,
    ) =~= v);
}

} // verus!

verus! {

/// The key-generation t has canonical coefficients.
pub proof fn lemma_keygen_t_poly(seed: Seq<u8>)
    ensures
        is_polyvec(keygen_t(seed), K as int),
{
    let t = keygen_t(seed);
    assert forall|i: int| 0 <= i < K implies is_poly(#[trigger] t[i]) by {
    }
}

/// Decoding a generated secret key returns the values it was made of.
pub proof fn lemma_sk_decode(seed: Seq<u8>)
    requires
        keygen_ok(seed),
    ensures
        ({
            let sk = keygen_sk_spec(seed);
            &&& sk.len() == SECRETKEYBYTES
            &&& sk_rho(sk) == keygen_rho(seed)
            &&& sk_key(sk) == keygen_key(seed)
            &&& sk_tr(sk) == shake_spec(keygen_pk_spec(seed), SHAKE256_RATE as int, TR_BYTES as nat)
            &&& sk_s1(sk) == keygen_s1(seed)
            &&& sk_s2(sk) == keygen_s2(seed)
            &&& sk_t0(sk) == keygen_t0(seed)
        }),
{
    let sk = keygen_sk_spec(seed);
    let rho = keygen_rho(seed);
    let key = keygen_key(seed);
    let tr = shake_spec(keygen_pk_spec(seed), SHAKE256_RATE as int, TR_BYTES as nat);
    let s1 = keygen_s1(seed);
    let s2 = keygen_s2(seed);
    let t0 = keygen_t0(seed);
    lemma_shake_len(seed + seq![K as u8, L as u8], 136, 128);
    lemma_shake_len(keygen_pk_spec(seed), 136, 64);
    let e1 = offset_vec_spec(s1, 2);
    let e2 = offset_vec_spec(s2, 2);
    let e0 = offset_vec_spec(t0, 4096);
    lemma_offset_vec_lens(s1, 2);
    lemma_offset_vec_lens(s2, 2);
    lemma_offset_vec_lens(t0, 4096);
    lemma_pack_vec_len(e1, 3);
    lemma_pack_vec_len(e2, 3);
    lemma_pack_vec_len(e0, 13);
    let p1 = pack_vec_spec(e1, 3);
    let p2 = pack_vec_spec(e2, 3);
    let p0 = pack_vec_spec(e0, 13);
    assert(sk == rho + key + tr + p1 + p2 + p0);
    assert(sk.subrange(0, 32) =~= rho);
    assert(sk.subrange(32, 64) =~= key);
    assert(sk.subrange(64, 128) =~= tr);
    assert(sk.subrange(128, 512) =~= p1);
    assert(sk.subrange(512, 896) =~= p2);
    assert(sk.subrange(896, 2560) =~= p0);
    crate::sample::lemma_secret_poly(keygen_rhoprime(seed), 0, L as int);
    crate::sample::lemma_secret_poly(keygen_rhoprime(seed), L as int, K as int);
    assert((1u32 << 3u32) == 8) by (bit_vector);
    assert((1u32 << 13u32) == 8192) by (bit_vector);
    lemma_vec_roundtrip(sk, 128, s1, 2, 3);
    lemma_vec_roundtrip(sk, 512, s2, 2, 3);
    lemma_keygen_t_poly(seed);
    assert forall|i: int, j: int| 0 <= i < K && 0 <= j < 256 implies 0 <= 4096 - crate::arith::centered(
        #[trigger] t0[i][j] as int,
    ) < (1u32 << 13u32) by {
        assert(is_poly(keygen_t(seed)[i]));
        lemma_p2r_low_range(keygen_t(seed)[i]);
        assert(t0[i] == p2r_low_spec(keygen_t(seed)[i]));
    }
    assert forall|i: int| 0 <= i < K implies is_poly(#[trigger] t0[i]) by {
    }
    lemma_vec_roundtrip(sk, 896, t0, 4096, 13);
}

/// Decoding a generated public key returns rho and t1.
pub proof fn lemma_pk_decode(seed: Seq<u8>)
    ensures
        ({
            let pk = keygen_pk_spec(seed);
            &&& pk.len() == PUBLICKEYBYTES
            &&& pk.subrange(0, 32) == keygen_rho(seed)
            &&& unpack_vec_spec(pk, 32, K as nat, 10) == keygen_t1(seed)
        }),
{
    let pk = keygen_pk_spec(seed);
    let rho = keygen_rho(seed);
    let t1 = keygen_t1(seed);
    lemma_shake_len(seed + seq![K as u8, L as u8], 136, 128);
    lemma_pack_vec_len(t1, 10);
    let p = pack_vec_spec(t1, 10);
    assert(pk.subrange(0, 32) =~= rho);
    assert(pk.subrange(32, 1312) =~= p);
    assert((1u32 << 10u32) == 1024) by (bit_vector);
    lemma_keygen_t_poly(seed);
    assert forall|i: int, j: int| 0 <= i < K && 0 <= j < 256 implies #[trigger] t1[i][j] < (1u32
        << 10u32) by {
        assert(is_poly(keygen_t(seed)[i]));
        assert(t1[i][j] == crate::arith::power2round_spec(keygen_t(seed)[i][j] as int).0);
    }
    lemma_unpack_vec_of_pack(pk, 32, t1, 10);
}

/// Decoding an encoded signature returns c~, z and the hint, when z is in range.
pub proof fn lemma_sig_decode(ctilde: Seq<u8>, z: Seq<Seq<u32>>, h: Seq<Seq<u32>>)
    requires
        ctilde.len() == 32,
        is_polyvec(z, L as int),
        !vec_norm_ge(z, GAMMA1 - BETA),
    ensures
        ({
            let sig = sig_encode_spec(ctilde, z, h);
            &&& sig.len() == SIGNBYTES
            &&& sig.subrange(0, 32) == ctilde
            &&& unoffset_vec_spec(unpack_vec_spec(sig, 32, L as nat, 18), GAMMA1 as int) == z
            &&& sig.subrange(2336, 2420) == hint_pack_spec(h)
        }),
{
    let sig = sig_encode_spec(ctilde, z, h);
    let e = offset_vec_spec(z, GAMMA1 as int);
    lemma_offset_vec_lens(z, GAMMA1 as int);
    lemma_pack_vec_len(e, 18);
    let p = pack_vec_spec(e, 18);
    assert(sig.subrange(0, 32) =~= ctilde);
    assert(sig.subrange(32, 2336) =~= p);
    assert(sig.subrange(2336, 2420) =~= hint_pack_spec(h));
    assert((1u32 << 18u32) == 262144) by (bit_vector);
    assert forall|i: int, j: int| 0 <= i < L && 0 <= j < 256 implies 0 <= GAMMA1
        - crate::arith::centered(#[trigger] z[i][j] as int) < (1u32 << 18u32) by {
        if crate::arith::coeff_norm(z[i][j] as int) >= GAMMA1 - BETA {
            assert(crate::poly::norm_ge_spec(z[i], GAMMA1 - BETA));
        }
    }
    lemma_vec_roundtrip(sig, 32, z, GAMMA1 as int, 18);
}

} // verus!

verus! {

/// The hint mechanism on one polynomial row.
pub proof fn lemma_row_use_hint(w: Seq<u32>, cs2: Seq<u32>, ct0: Seq<u32>)
    requires
        is_poly(w),
        is_poly(cs2),
        is_poly(ct0),
        !crate::poly::norm_ge_spec(poly_sub_spec(crate::poly::low_spec(w), cs2), GAMMA2 - BETA),
        !crate::poly::norm_ge_spec(ct0, GAMMA2 as int),
    ensures
        crate::poly::use_hint_poly_spec(
            poly_add_spec(poly_sub_spec(w, cs2), ct0),
            crate::poly::make_hint_poly_spec(
                poly_add_spec(poly_sub_spec(crate::poly::low_spec(w), cs2), ct0),
                crate::poly::high_spec(w),
            ),
        ) == crate::poly::high_spec(w),
{
    let lhs = crate::poly::use_hint_poly_spec(
        poly_add_spec(poly_sub_spec(w, cs2), ct0),
        crate::poly::make_hint_poly_spec(
            poly_add_spec(poly_sub_spec(crate::poly::low_spec(w), cs2), ct0),
            crate::poly::high_spec(w),
        ),
    );
    assert forall|j: int| 0 <= j < 256 implies lhs[j] == crate::poly::high_spec(w)[j] by {
        let r0 = poly_sub_spec(crate::poly::low_spec(w), cs2);
        if crate::arith::coeff_norm(r0[j] as int) >= GAMMA2 - BETA {
            assert(crate::poly::norm_ge_spec(r0, GAMMA2 - BETA));
        }
        if crate::arith::coeff_norm(ct0[j] as int) >= GAMMA2 {
            assert(crate::poly::norm_ge_spec(ct0, GAMMA2 as int));
        }
        lemma_modq(crate::arith::low_bits_spec(w[j] as int));
        lemma_hint_coeff(w[j] as int, cs2[j] as int, ct0[j] as int);
        crate::algebra::lemma_decompose_recon(w[j] as int);
    }
    assert(lhs =~= crate::poly::high_spec(w));
}

/// The accepted attempt behind a successful run of the signing loop.
pub proof fn lemma_sign_from_attempt(
    mu: Seq<u8>,
    rhoprime: Seq<u8>,
    a: Seq<Seq<Seq<u32>>>,
    s1hat: Seq<Seq<u32>>,
    s2hat: Seq<Seq<u32>>,
    t0hat: Seq<Seq<u32>>,
    n: int,
) -> (k: int)
    requires
        sign_from(mu, rhoprime, a, s1hat, s2hat, t0hat, n) is Some,
    ensures
        n <= k < MAX_SIGN_ATTEMPTS,
        sign_attempt_spec(mu, rhoprime, a, s1hat, s2hat, t0hat, k) == sign_from(
            mu,
            rhoprime,
            a,
            s1hat,
            s2hat,
            t0hat,
            n,
        ),
    decreases MAX_SIGN_ATTEMPTS - n,
{
    if sign_attempt_spec(mu, rhoprime, a, s1hat, s2hat, t0hat, n) is Some {
        n
    } else {
        lemma_sign_from_attempt(mu, rhoprime, a, s1hat, s2hat, t0hat, n + 1)
    }
}

} // verus!

verus! {

/// Correctness of ML-DSA-44: every signature produced with a generated secret key
/// is accepted by verification under the matching public key, for every message
/// and every randomness.
pub proof fn law_sign_then_verify(seed: Seq<u8>, msg: Seq<u8>, rnd: Seq<u8>)
    requires
        keygen_ok(seed),
        sign_spec(keygen_sk_spec(seed), msg, rnd) is Some,
    ensures
        verify_spec(sign_spec(keygen_sk_spec(seed), msg, rnd).unwrap(), msg, keygen_pk_spec(seed)),
{
    let sk = keygen_sk_spec(seed);
    let pk = keygen_pk_spec(seed);
    lemma_sk_decode(seed);
    lemma_pk_decode(seed);
    let rho = keygen_rho(seed);
    let s1 = keygen_s1(seed);
    let s2 = keygen_s2(seed);
    let t0 = keygen_t0(seed);
    let t1 = keygen_t1(seed);
    let a = matrix_spec(rho);
    crate::sample::lemma_matrix_poly(rho);
    crate::sample::lemma_secret_poly(keygen_rhoprime(seed), 0, L as int);
    crate::sample::lemma_secret_poly(keygen_rhoprime(seed), L as int, K as int);
    let mu = sign_mu(sk, msg);
    let rhoprime = sign_rhoprime(sk, msg, rnd);
    let s1hat = vec_ntt_spec(s1);
    let s2hat = vec_ntt_spec(s2);
    let t0hat = vec_ntt_spec(t0);
    assert(sk.subrange(0, SECRETKEYBYTES as int) =~= sk);
    let sig = sign_spec(sk, msg, rnd).unwrap();
    let k = lemma_sign_from_attempt(mu, rhoprime, a, s1hat, s2hat, t0hat, 0);
    reveal(sign_attempt_spec);
    let y = mask_vec_spec(rhoprime, L * k);
    crate::sample::lemma_mask_poly(rhoprime, L * k);
    let w = vec_intt_spec(mat_vec_spec(a, vec_ntt_spec(y)));
    let w1 = highs(w);
    let w0 = lows(w);
    let ctilde = commit_hash(mu, w1);
    lemma_shake_len(mu + pack_vec_spec(w1, 6), 136, 32);
    assert(challenge_spec(ctilde) is Some);
    let c = challenge_spec(ctilde).unwrap();
    crate::sample::lemma_challenge_poly(ctilde);
    let chat = ntt_spec(c);
    let z = vec_add_spec(vec_intt_spec(vec_scale_spec(chat, s1hat)), y);
    let cs2 = vec_intt_spec(vec_scale_spec(chat, s2hat));
    let r0 = vec_sub_spec(w0, cs2);
    let ct0 = vec_intt_spec(vec_scale_spec(chat, t0hat));
    let h = hints(vec_add_spec(r0, ct0), w1);
    assert(!vec_norm_ge(z, GAMMA1 - BETA));
    assert(!vec_norm_ge(r0, GAMMA2 - BETA));
    assert(!vec_norm_ge(ct0, GAMMA2 as int));
    assert(vec_count(h, K as nat) <= 80);
    assert(sig == sig_encode_spec(ctilde, z, h));
    // decoding the signature
    assert forall|i: int| 0 <= i < L implies is_poly(#[trigger] z[i]) by {
    }
    lemma_sig_decode(ctilde, z, h);
    assert forall|i: int| 0 <= i < K implies crate::packing::is_binary(#[trigger] h[i]) by {
    }
    crate::packing::lemma_hint_unpack_pack(h);
    assert(pk.subrange(0, PUBLICKEYBYTES as int) =~= pk);
    // the message representative
    assert(sign_mu(sk, msg) == shake_spec(
        shake_spec(pk, SHAKE256_RATE as int, TR_BYTES as nat) + msg,
        SHAKE256_RATE as int,
        CRHBYTES as nat,
    ));
    // the reconstructed high bits
    let zhat = vec_ntt_spec(z);
    let t1hat = vec_ntt_spec(vec_shiftl_spec(t1));
    let wv = vec_intt_spec(vec_sub_spec(mat_vec_spec(a, zhat), vec_scale_spec(chat, t1hat)));
    let w1v = vec_use_hint_spec(wv, h);
    assert forall|r: int| 0 <= r < K implies #[trigger] w1v[r] == w1[r] by {
        assert(is_polyvec(a[r], L as int));
        assert(is_poly(s2[r]));
        lemma_verify_row(a[r], s1, s2[r], y, c);
        assert(keygen_t(seed)[r] == poly_add_spec(intt_spec(dot_spec(a[r], s1hat, L as nat)), s2[r]));
        assert(wv[r] == intt_spec(
            poly_sub_spec(
                dot_spec(a[r], zhat, L as nat),
                pointwise_spec(chat, ntt_spec(shiftl_spec(t1[r]))),
            ),
        ));
        assert(w[r] == intt_spec(dot_spec(a[r], vec_ntt_spec(y), L as nat)));
        let mv = mat_vec_spec(a, vec_ntt_spec(y));
        lemma_dot_poly_vec(a[r], vec_ntt_spec(y), y);
        lemma_ops_poly(mv[r], mv[r]);
        lemma_ops_poly(vec_scale_spec(chat, s2hat)[r], vec_scale_spec(chat, s2hat)[r]);
        lemma_ops_poly(vec_scale_spec(chat, t0hat)[r], vec_scale_spec(chat, t0hat)[r]);
        assert(!crate::poly::norm_ge_spec(r0[r], GAMMA2 - BETA));
        assert(!crate::poly::norm_ge_spec(ct0[r], GAMMA2 as int));
        lemma_row_use_hint(w[r], cs2[r], ct0[r]);
    }
    assert(w1v =~= w1);
}

proof fn lemma_dot_poly_vec(row: Seq<Seq<u32>>, yhat: Seq<Seq<u32>>, y: Seq<Seq<u32>>)
    requires
        is_polyvec(row, L as int),
        is_polyvec(y, L as int),
        yhat == vec_ntt_spec(y),
    ensures
        dot_spec(row, yhat, yhat.len()).len() == 256,
{
    assert forall|i: int| 0 <= i < L implies (#[trigger] row[i]).len() == 256 by {
        assert(is_poly(row[i]));
    }
    assert forall|i: int| 0 <= i < L implies (#[trigger] yhat[i]).len() == 256 by {
        assert(is_poly(y[i]));
        lemma_ntt_poly(y[i]);
    }
    lemma_dot_poly(row, yhat, L as nat);
}

} // verus!

verus! {

/// A generated public key and its secret key begin with the same 32-byte seed rho,
/// and the secret key carries tr = H(pk).
pub proof fn law_keys_share_rho(seed: Seq<u8>)
    requires
        keygen_ok(seed),
    ensures
        keygen_pk_spec(seed).subrange(0, 32) == keygen_sk_spec(seed).subrange(0, 32),
        keygen_sk_spec(seed).subrange(64, 128) == shake_spec(
            keygen_pk_spec(seed),
            SHAKE256_RATE as int,
            TR_BYTES as nat,
        ),
        keygen_pk_spec(seed).len() == PUBLICKEYBYTES,
        keygen_sk_spec(seed).len() == SECRETKEYBYTES,
{
    lemma_sk_decode(seed);
    lemma_pk_decode(seed);
}

} // verus!

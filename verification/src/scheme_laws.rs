use vstd::prelude::*;
use crate::params::Q;
use crate::params::ml_dsa_44::{L, TAU, GAMMA1};
use crate::keccak::{pad_spec, shake_spec, SHAKE256_RATE};
use crate::bits::unpack_bits_spec;
use crate::sample::{mask_vec_spec, ball_from, challenge_spec, matrix_ok, matrix_spec};
use crate::ntt::ntt_spec;
use crate::polyvec::{vec_add_spec, vec_sub_spec, vec_intt_spec, vec_scale_spec, vec_ntt_spec};
use crate::packing::{unpack_vec_spec, unoffset_vec_spec};
use crate::sign::ml_dsa_44::{
    sign_attempt_spec, sign_from, sign_spec, sign_mu, sign_rhoprime, sk_rho, sk_s1, sk_s2, sk_t0,
    MAX_SIGN_ATTEMPTS,
};

verus! {

/// ExpandMask: polynomial `i` of the mask vector for counter `kappa` is read from
/// SHAKE256(rho'' || kappa + i), the counter as two little-endian bytes; its
/// coefficient `j` is gamma1 minus the `j`-th 18-bit little-endian field of the
/// first 576 output bytes, reduced modulo q.
pub proof fn law_mask_vector(rhoprime: Seq<u8>, kappa: int, i: int, j: int)
    requires
        0 <= kappa,
        0 <= i < L,
        kappa + i < 65536,
        0 <= j < 256,
    ensures
        mask_vec_spec(rhoprime, kappa)[i].len() == 256,
        mask_vec_spec(rhoprime, kappa)[i][j] as int == (GAMMA1 - unpack_bits_spec(
            shake_spec(
                rhoprime + seq![((kappa + i) % 256) as u8, ((kappa + i) / 256) as u8],
                SHAKE256_RATE as int,
                576,
            ),
            18,
            256,
        )[j]) % (Q as int),
{
    let n = (kappa + i) as u16;
    assert(n as int == kappa + i);
    assert(crate::bytes::le16(n) =~= seq![((kappa + i) % 256) as u8, ((kappa + i) / 256) as u8]);
}

/// The sign that SampleInBall gives position `i`: -1 (as q - 1) when bit
/// i + tau - 256 of the first eight stream bytes is set, else 1.
pub open spec fn ball_sign_value(stream: Seq<u8>, i: int) -> u32 {
    let k = i + TAU - 256;
    if (stream[k / 8] >> ((k % 8) as u8)) & 1 == 1 {
        (Q - 1) as u32
    } else {
        1
    }
}

/// SampleInBall, one stream byte `j` while position `i` is to be placed:
/// a byte above `i` is skipped; a byte equal to `i` puts the sign at `i`;
/// a byte below `i` moves coefficient `j` to `i` and puts the sign at `j`.
pub proof fn law_sample_in_ball_step(stream: Seq<u8>, pos: int, i: int, c: Seq<u32>)
    requires
        0 <= pos < stream.len(),
        256 - TAU <= i < 256,
        c.len() == 256,
    ensures
        stream[pos] as int > i ==> ball_from(stream, pos, i, c) == ball_from(
            stream,
            pos + 1,
            i,
            c,
        ),
        stream[pos] as int == i ==> ball_from(stream, pos, i, c) == ball_from(
            stream,
            pos + 1,
            i + 1,
            c.update(i, ball_sign_value(stream, i)),
        ),
        stream[pos] as int <= i ==> ball_from(stream, pos, i, c) == ball_from(
            stream,
            pos + 1,
            i + 1,
            c.update(i, c[stream[pos] as int]).update(stream[pos] as int, ball_sign_value(stream, i)),
        ),
{
    let j = stream[pos] as int;
    if j == i {
        assert(c.update(i, c[j]).update(j, ball_sign_value(stream, i)) =~= c.update(
            i,
            ball_sign_value(stream, i),
        ));
    }
}

/// SampleInBall stops once every position from 256 - tau on is placed, and fails
/// when the stream runs out first.
pub proof fn law_sample_in_ball_ends(stream: Seq<u8>, pos: int, c: Seq<u32>)
    requires
        0 <= pos,
    ensures
        ball_from(stream, pos, 256, c) == (c, true),
        pos >= stream.len() ==> forall|i: int| i < 256 ==> #[trigger] ball_from(stream, pos, i, c) == (c, false),
{
}

/// SHAKE padding: the input, then the domain byte 0x1F, zeros, and a final 0x80,
/// filling up to the next multiple of the rate; when the input is one byte short
/// of a multiple of the rate the two markers share that byte, which is 0x9F.
pub proof fn law_shake_padding(input: Seq<u8>, rate: int)
    requires
        0 < rate,
    ensures
        ({
            let p = pad_spec(input, rate);
            &&& (p.len() as int) % rate == 0
            &&& input.len() < p.len() <= input.len() + rate
            &&& p.subrange(0, input.len() as int) == input
            &&& p.len() == input.len() + 1 ==> p[input.len() as int] == 0x9Fu8
            &&& p.len() > input.len() + 1 ==> p[input.len() as int] == 0x1Fu8 && p[p.len() - 1]
                == 0x80u8
            &&& forall|k: int| input.len() < k < p.len() - 1 ==> #[trigger] p[k] == 0u8
        }),
{
    let n = input.len() as int;
    let p = pad_spec(input, rate);
    let d = n / rate;
    let plen = (d + 1) * rate;
    vstd::arithmetic::div_mod::lemma_fundamental_div_mod(n, rate);
    vstd::arithmetic::div_mod::lemma_mod_pos_bound(n, rate);
    assert(plen == rate * d + rate) by (nonlinear_arith)
        requires
            plen == (d + 1) * rate,
    ;
    assert(n == rate * d + n % rate);
    assert(plen % rate == 0) by {
        vstd::arithmetic::div_mod::lemma_mod_multiples_basic(d + 1, rate);
    }
    assert(p.len() == plen);
    assert(p.subrange(0, n) =~= input);
    assert((0x1Fu8 | 0x80u8) == 0x9Fu8) by (bit_vector);
    assert((0x1Fu8 | 0u8) == 0x1Fu8) by (bit_vector);
    assert((0u8 | 0x80u8) == 0x80u8) by (bit_vector);
    assert((0u8 | 0u8) == 0u8) by (bit_vector);
}

/// The signing loop returns the first accepted attempt: when attempts n, ..., k - 1
/// are rejected and attempt k is accepted, the loop started at n gives attempt k;
/// when every attempt from n below the limit is rejected, it gives None.
pub proof fn law_first_accepted_attempt(
    mu: Seq<u8>,
    rhoprime: Seq<u8>,
    a: Seq<Seq<Seq<u32>>>,
    s1hat: Seq<Seq<u32>>,
    s2hat: Seq<Seq<u32>>,
    t0hat: Seq<Seq<u32>>,
    n: int,
    k: int,
)
    requires
        0 <= n <= k,
        forall|m: int| n <= m < k ==> #[trigger] sign_attempt_spec(mu, rhoprime, a, s1hat, s2hat, t0hat, m) is None,
    ensures
        k < MAX_SIGN_ATTEMPTS && sign_attempt_spec(mu, rhoprime, a, s1hat, s2hat, t0hat, k) is Some
            ==> sign_from(mu, rhoprime, a, s1hat, s2hat, t0hat, n) == sign_attempt_spec(
            mu,
            rhoprime,
            a,
            s1hat,
            s2hat,
            t0hat,
            k,
        ),
        k >= MAX_SIGN_ATTEMPTS ==> sign_from(mu, rhoprime, a, s1hat, s2hat, t0hat, n) is None,
    decreases k - n,
{
    if n < k {
        if n < MAX_SIGN_ATTEMPTS {
            assert(sign_attempt_spec(mu, rhoprime, a, s1hat, s2hat, t0hat, n) is None);
        }
        law_first_accepted_attempt(mu, rhoprime, a, s1hat, s2hat, t0hat, n + 1, k);
    }
}

/// Signing starts with attempt 0: when the matrix can be sampled and the first
/// attempt (mask counter 0) is accepted, that attempt is the signature.
pub proof fn law_sign_first_attempt(sk: Seq<u8>, msg: Seq<u8>, rnd: Seq<u8>)
    requires
        matrix_ok(sk_rho(sk)),
        sign_attempt_spec(
            sign_mu(sk, msg),
            sign_rhoprime(sk, msg, rnd),
            matrix_spec(sk_rho(sk)),
            vec_ntt_spec(sk_s1(sk)),
            vec_ntt_spec(sk_s2(sk)),
            vec_ntt_spec(sk_t0(sk)),
            0,
        ) is Some,
    ensures
        sign_spec(sk, msg, rnd) == sign_attempt_spec(
            sign_mu(sk, msg),
            sign_rhoprime(sk, msg, rnd),
            matrix_spec(sk_rho(sk)),
            vec_ntt_spec(sk_s1(sk)),
            vec_ntt_spec(sk_s2(sk)),
            vec_ntt_spec(sk_t0(sk)),
            0,
        ),
{
    law_first_accepted_attempt(
        sign_mu(sk, msg),
        sign_rhoprime(sk, msg, rnd),
        matrix_spec(sk_rho(sk)),
        vec_ntt_spec(sk_s1(sk)),
        vec_ntt_spec(sk_s2(sk)),
        vec_ntt_spec(sk_t0(sk)),
        0,
        0,
    );
}

/// The response of attempt `n`: the vector z encoded in its signature is
/// c * s1 + y, where c is the challenge of the signature's first 32 bytes and y
/// is the mask vector for counter kappa = L * n.
pub proof fn law_attempt_response(
    mu: Seq<u8>,
    rhoprime: Seq<u8>,
    a: Seq<Seq<Seq<u32>>>,
    s1hat: Seq<Seq<u32>>,
    s2hat: Seq<Seq<u32>>,
    t0hat: Seq<Seq<u32>>,
    n: int,
)
    requires
        s1hat.len() == L,
        sign_attempt_spec(mu, rhoprime, a, s1hat, s2hat, t0hat, n) is Some,
    ensures
        ({
            let sig = sign_attempt_spec(mu, rhoprime, a, s1hat, s2hat, t0hat, n).unwrap();
            &&& challenge_spec(sig.subrange(0, 32)) is Some
            &&& unoffset_vec_spec(unpack_vec_spec(sig, 32, L as nat, 18), GAMMA1 as int)
                == vec_add_spec(
                vec_intt_spec(
                    vec_scale_spec(ntt_spec(challenge_spec(sig.subrange(0, 32)).unwrap()), s1hat),
                ),
                mask_vec_spec(rhoprime, L * n),
            )
        }),
{
    reveal(sign_attempt_spec);
    let y = mask_vec_spec(rhoprime, L * n);
    let w = vec_intt_spec(crate::polyvec::mat_vec_spec(a, vec_ntt_spec(y)));
    let w1 = crate::sign::ml_dsa_44::highs(w);
    let ctilde = crate::sign::ml_dsa_44::commit_hash(mu, w1);
    crate::keccak::lemma_shake_len(
        mu + crate::packing::pack_vec_spec(w1, 6),
        SHAKE256_RATE as int,
        32,
    );
    let c = challenge_spec(ctilde).unwrap();
    let chat = ntt_spec(c);
    let z = vec_add_spec(vec_intt_spec(vec_scale_spec(chat, s1hat)), y);
    let r0 = vec_sub_spec(crate::sign::ml_dsa_44::lows(w), vec_intt_spec(vec_scale_spec(chat, s2hat)));
    let ct0 = vec_intt_spec(vec_scale_spec(chat, t0hat));
    let h = crate::sign::ml_dsa_44::hints(vec_add_spec(r0, ct0), w1);
    assert(crate::polyvec::is_polyvec(z, L as int));
    crate::laws::lemma_sig_decode(ctilde, z, h);
}

} // verus!

use vstd::prelude::*;
use vstd::arithmetic::div_mod::{lemma_fundamental_div_mod_converse, lemma_add_mod_noop, lemma_sub_mod_noop, lemma_mul_mod_noop_right, lemma_mod_twice};
use crate::params::Q;
use crate::arith::{add_mod, sub_mod, mul_mod};

verus! {

/// The powers zeta^brv8(k) mod q of the 512-th root of unity zeta = 1753, for k in [0, 256).
pub const ZETAS: [u32; 256] = [
    1, 4808194, 3765607, 3761513, 5178923, 5496691, 5234739, 5178987, 7778734, 3542485,
    2682288, 2129892, 3764867, 7375178, 557458, 7159240, 5010068, 4317364, 2663378, 6705802,
    4855975, 7946292, 676590, 7044481, 5152541, 1714295, 2453983, 1460718, 7737789, 4795319,
    2815639, 2283733, 3602218, 3182878, 2740543, 4793971, 5269599, 2101410, 3704823,
    1159875, 394148, 928749, 1095468, 4874037, 2071829, 4361428, 3241972, 2156050, 3415069,
    1759347, 7562881, 4805951, 3756790, 6444618, 6663429, 4430364, 5483103, 3192354, 556856,
    3870317, 2917338, 1853806, 3345963, 1858416, 3073009, 1277625, 5744944, 3852015,
    4183372, 5157610, 5258977, 8106357, 2508980, 2028118, 1937570, 4564692, 2811291,
    5396636, 7270901, 4158088, 1528066, 482649, 1148858, 5418153, 7814814, 169688, 2462444,
    5046034, 4213992, 4892034, 1987814, 5183169, 1736313, 235407, 5130263, 3258457, 5801164,
    1787943, 5989328, 6125690, 3482206, 4197502, 7080401, 6018354, 7062739, 2461387,
    3035980, 621164, 3901472, 7153756, 2925816, 3374250, 1356448, 5604662, 2683270, 5601629,
    4912752, 2312838, 7727142, 7921254, 348812, 8052569, 1011223, 6026202, 4561790, 6458164,
    6143691, 1744507, 1753, 6444997, 5720892, 6924527, 2660408, 6600190, 8321269, 2772600,
    1182243, 87208, 636927, 4415111, 4423672, 6084020, 5095502, 4663471, 8352605, 822541,
    1009365, 5926272, 6400920, 1596822, 4423473, 4620952, 6695264, 4969849, 2678278,
    4611469, 4829411, 635956, 8129971, 5925040, 4234153, 6607829, 2192938, 6653329, 2387513,
    4768667, 8111961, 5199961, 3747250, 2296099, 1239911, 4541938, 3195676, 2642980,
    1254190, 8368000, 2998219, 141835, 8291116, 2513018, 7025525, 613238, 7070156, 6161950,
    7921677, 6458423, 4040196, 4908348, 2039144, 6500539, 7561656, 6201452, 6757063,
    2105286, 6006015, 6346610, 586241, 7200804, 527981, 5637006, 6903432, 1994046, 2491325,
    6987258, 507927, 7192532, 7655613, 6545891, 5346675, 8041997, 2647994, 3009748, 5767564,
    4148469, 749577, 4357667, 3980599, 2569011, 6764887, 1723229, 1665318, 2028038, 1163598,
    5011144, 3994671, 8368538, 7009900, 3020393, 3363542, 214880, 545376, 7609976, 3105558,
    7277073, 508145, 7826699, 860144, 3430436, 140244, 6866265, 6195333, 3123762, 2358373,
    6187330, 5365997, 6663603, 2926054, 7987710, 8077412, 3531229, 4405932, 4606686,
    1900052, 7598542, 1054478, 7648983
];

/// 256^-1 mod q, the scaling factor of the inverse transform.
pub const N_INV: u32 = 8347681;

/// A polynomial: 256 coefficients, each a canonical residue in [0, q).
pub open spec fn is_poly(p: Seq<u32>) -> bool {
    p.len() == 256 && forall|i: int| 0 <= i < 256 ==> #[trigger] p[i] < Q
}

/// The half-lengths of the butterfly layers: 1, 2, 4, ..., 128.
pub open spec fn is_layer_len(len: int) -> bool {
    len == 1 || len == 2 || len == 4 || len == 8 || len == 16 || len == 32 || len == 64 || len == 128
}

/// One Cooley-Tukey layer (forward transform) with half-length `len`:
/// block b of the layer uses zeta = ZETAS[128int / len + b].
pub open spec fn ntt_layer_spec(w: Seq<u32>, len: int) -> Seq<u32> {
    Seq::new(
        256,
        |i: int|
            {
                let z = ZETAS[128int / len + i / (2 * len)] as int;
                if i % (2 * len) < len {
                    ((w[i] + z * w[i + len]) % (Q as int)) as u32
                } else {
                    ((w[i - len] - z * w[i]) % (Q as int)) as u32
                }
            },
    )
}

/// The layers of the forward transform from half-length `len` down to 1.
pub open spec fn ntt_layers(w: Seq<u32>, len: nat) -> Seq<u32>
    decreases len,
{
    if len == 0 {
        w
    } else {
        ntt_layers(ntt_layer_spec(w, len as int), len / 2)
    }
}

/// The number-theoretic transform (forward transform).
pub open spec fn ntt_spec(w: Seq<u32>) -> Seq<u32> {
    ntt_layers(w, 128)
}

/// One Gentleman-Sande layer (inverse transform) with half-length `len`:
/// block b of the layer uses zeta = ZETAS[256 / len - 1 - b] (negated).
pub open spec fn intt_layer_spec(w: Seq<u32>, len: int) -> Seq<u32> {
    Seq::new(
        256,
        |i: int|
            {
                let z = ZETAS[2 * (128int / len) - 1 - i / (2 * len)] as int;
                if i % (2 * len) < len {
                    ((w[i] + w[i + len]) % (Q as int)) as u32
                } else {
                    ((z * (w[i] - w[i - len])) % (Q as int)) as u32
                }
            },
    )
}

/// The layers of the inverse transform from half-length `len` up to 128.
pub open spec fn intt_layers(w: Seq<u32>, len: nat) -> Seq<u32>
    decreases 256 - len,
{
    if len == 0 || len > 128 {
        w
    } else {
        intt_layers(intt_layer_spec(w, len as int), len * 2)
    }
}

/// Multiplies every coefficient by the constant `c` modulo q.
pub open spec fn scale_spec(w: Seq<u32>, c: int) -> Seq<u32> {
    Seq::new(256, |i: int| ((c * w[i]) % (Q as int)) as u32)
}

/// The inverse number-theoretic transform (inverse transform).
pub open spec fn intt_spec(w: Seq<u32>) -> Seq<u32> {
    scale_spec(intt_layers(w, 1), N_INV as int)
}

/// Coefficient-wise product modulo q (multiplication in the NTT domain).
pub open spec fn pointwise_spec(a: Seq<u32>, b: Seq<u32>) -> Seq<u32> {
    Seq::new(256, |i: int| ((a[i] * b[i]) % (Q as int)) as u32)
}

proof fn lemma_block_pos(i: int, len: int, blk: int, start: int)
    requires
        is_layer_len(len),
        start == blk * (2 * len),
        start <= i < start + 2 * len,
    ensures
        i / (2 * len) == blk,
        i % (2 * len) == i - start,
{
    lemma_fundamental_div_mod_converse(i, 2 * len, blk, i - start);
}

proof fn lemma_mod_add(a: int, b: int)
    ensures
        (a + b % (Q as int)) % (Q as int) == (a + b) % (Q as int),
        (a - b % (Q as int)) % (Q as int) == (a - b) % (Q as int),
{
    lemma_add_mod_noop(a, b, Q as int);
    lemma_sub_mod_noop(a, b, Q as int);
    lemma_mod_twice(a, Q as int);
    lemma_mod_twice(b, Q as int);
}

fn ntt_layer(w: &mut Vec<u32>, len: usize)
    requires
        is_poly(old(w)@),
        is_layer_len(len as int),
    ensures
        is_poly(final(w)@),
        final(w)@ == ntt_layer_spec(old(w)@, len as int),
{
    let ghost w0 = w@;
    let ghost lay = ntt_layer_spec(w0, len as int);
    let mut start: usize = 0;
    let mut k: usize = 128 / len;
    let ghost mut blk: int = 0;
    while start < 256
        invariant
            is_layer_len(len as int),
            is_poly(w@),
            lay == ntt_layer_spec(w0, len as int),
            w0.len() == 256,
            start == blk * (2 * len),
            0 <= blk <= 128int / (len as int),
            start <= 256,
            k == 128int / (len as int) + blk,
            forall|i: int| 0 <= i < start ==> #[trigger] w@[i] == lay[i],
            forall|i: int| start <= i < 256 ==> #[trigger] w@[i] == w0[i],
        decreases 256 - start,
    {
        assert(start + 2 * len <= 256) by (nonlinear_arith)
            requires
                is_layer_len(len as int),
                start == blk * (2 * len),
                start < 256,
                0 <= blk <= 128int / (len as int),
        {
            assert(blk < 128int / (len as int));
        }
        assert(blk < 128int / (len as int)) by (nonlinear_arith)
            requires
                is_layer_len(len as int),
                start == blk * (2 * len),
                start < 256,
        ;
        let z = ZETAS[k];
        let mut j: usize = start;
        while j < start + len
            invariant
                is_layer_len(len as int),
                is_poly(w@),
                lay == ntt_layer_spec(w0, len as int),
                w0.len() == 256,
                start == blk * (2 * len),
                start + 2 * len <= 256,
                start <= j <= start + len,
                k == 128int / (len as int) + blk,
                z == ZETAS[k as int],
                forall|i: int| 0 <= i < start ==> #[trigger] w@[i] == lay[i],
                forall|i: int| start <= i < j ==> #[trigger] w@[i] == lay[i],
                forall|i: int| start + len <= i < j + len ==> #[trigger] w@[i] == lay[i],
                forall|i: int| j <= i < start + len ==> #[trigger] w@[i] == w0[i],
                forall|i: int| j + len <= i < 256 ==> #[trigger] w@[i] == w0[i],
            decreases start + len - j,
        {
            let t = mul_mod(z, w[j + len]);
            let x = w[j];
            proof {
                lemma_block_pos(j as int, len as int, blk, start as int);
                lemma_block_pos(j + len, len as int, blk, start as int);
                lemma_mod_add(x as int, z * w0[j + len]);
            }
            w[j + len] = sub_mod(x, t);
            w[j] = add_mod(x, t);
            j += 1;
        }
        proof {
            assert(start + 2 * len == (blk + 1) * (2 * len)) by (nonlinear_arith)
                requires
                    start == blk * (2 * len),
            ;
        }
        start = start + 2 * len;
        k = k + 1;
        proof {
            blk = blk + 1;
        }
    }
}

/// Forward number-theoretic transform, in place.
pub fn ntt(w: &mut Vec<u32>)
    requires
        is_poly(old(w)@),
    ensures
        is_poly(final(w)@),
        final(w)@ == ntt_spec(old(w)@),
{
    let ghost w0 = w@;
    let mut len: usize = 128;
    while len > 0
        invariant
            len == 0 || is_layer_len(len as int),
            is_poly(w@),
            ntt_layers(w@, len as nat) == ntt_spec(w0),
        decreases len,
    {
        ntt_layer(w, len);
        len = len / 2;
    }
}

fn intt_layer(w: &mut Vec<u32>, len: usize)
    requires
        is_poly(old(w)@),
        is_layer_len(len as int),
    ensures
        is_poly(final(w)@),
        final(w)@ == intt_layer_spec(old(w)@, len as int),
{
    let ghost w0 = w@;
    let ghost lay = intt_layer_spec(w0, len as int);
    let mut start: usize = 0;
    let mut k: usize = 2 * (128 / len) - 1;
    let ghost mut blk: int = 0;
    while start < 256
        invariant
            is_layer_len(len as int),
            is_poly(w@),
            lay == intt_layer_spec(w0, len as int),
            w0.len() == 256,
            start == blk * (2 * len),
            0 <= blk <= 128int / (len as int),
            start <= 256,
            k + blk == 2 * (128int / (len as int)) - 1,
            forall|i: int| 0 <= i < start ==> #[trigger] w@[i] == lay[i],
            forall|i: int| start <= i < 256 ==> #[trigger] w@[i] == w0[i],
        decreases 256 - start,
    {
        assert(start + 2 * len <= 256) by (nonlinear_arith)
            requires
                is_layer_len(len as int),
                start == blk * (2 * len),
                start < 256,
                0 <= blk <= 128int / (len as int),
        {
            assert(blk < 128int / (len as int));
        }
        assert(blk < 128int / (len as int)) by (nonlinear_arith)
            requires
                is_layer_len(len as int),
                start == blk * (2 * len),
                start < 256,
        ;
        let z = ZETAS[k];
        let mut j: usize = start;
        while j < start + len
            invariant
                is_layer_len(len as int),
                is_poly(w@),
                lay == intt_layer_spec(w0, len as int),
                w0.len() == 256,
                start == blk * (2 * len),
                start + 2 * len <= 256,
                start <= j <= start + len,
                0 <= blk < 128int / (len as int),
                k + blk == 2 * (128int / (len as int)) - 1,
                z == ZETAS[k as int],
                forall|i: int| 0 <= i < start ==> #[trigger] w@[i] == lay[i],
                forall|i: int| start <= i < j ==> #[trigger] w@[i] == lay[i],
                forall|i: int| start + len <= i < j + len ==> #[trigger] w@[i] == lay[i],
                forall|i: int| j <= i < start + len ==> #[trigger] w@[i] == w0[i],
                forall|i: int| j + len <= i < 256 ==> #[trigger] w@[i] == w0[i],
            decreases start + len - j,
        {
            let t = w[j];
            let u = w[j + len];
            let d = sub_mod(u, t);
            proof {
                lemma_block_pos(j as int, len as int, blk, start as int);
                lemma_block_pos(j + len, len as int, blk, start as int);
                lemma_mul_mod_noop_right(z as int, u - t, Q as int);
            }
            w[j + len] = mul_mod(z, d);
            w[j] = add_mod(t, u);
            j += 1;
        }
        proof {
            assert(start + 2 * len == (blk + 1) * (2 * len)) by (nonlinear_arith)
                requires
                    start == blk * (2 * len),
            ;
        }
        start = start + 2 * len;
        if k > 0 {
            k = k - 1;
        }
        proof {
            blk = blk + 1;
        }
    }
}

/// Inverse number-theoretic transform, in place.
pub fn intt(w: &mut Vec<u32>)
    requires
        is_poly(old(w)@),
    ensures
        is_poly(final(w)@),
        final(w)@ == intt_spec(old(w)@),
{
    let ghost w0 = w@;
    let mut len: usize = 1;
    while len < 256
        invariant
            len == 256 || is_layer_len(len as int),
            is_poly(w@),
            intt_layers(w@, len as nat) == intt_layers(w0, 1),
        decreases 256 - len,
    {
        intt_layer(w, len);
        len = len * 2;
    }
    let ghost before = w@;
    let mut i: usize = 0;
    while i < 256
        invariant
            is_poly(w@),
            before.len() == 256,
            before == intt_layers(w0, 1),
            forall|j: int| 0 <= j < i ==> #[trigger] w@[j] == scale_spec(before, N_INV as int)[j],
            forall|j: int| i <= j < 256 ==> #[trigger] w@[j] == before[j],
        decreases 256 - i,
    {
        let v = mul_mod(N_INV, w[i]);
        w[i] = v;
        i += 1;
    }
    assert(w@ =~= intt_spec(w0));
}

/// Coefficient-wise product of two polynomials in the NTT domain.
pub fn pointwise(a: &Vec<u32>, b: &Vec<u32>) -> (c: Vec<u32>)
    requires
        is_poly(a@),
        is_poly(b@),
    ensures
        is_poly(c@),
        c@ == pointwise_spec(a@, b@),
{
    let mut c: Vec<u32> = Vec::new();
    let mut i: usize = 0;
    while i < 256
        invariant
            is_poly(a@),
            is_poly(b@),
            c.len() == i,
            i <= 256,
            forall|j: int| 0 <= j < i ==> #[trigger] c@[j] == pointwise_spec(a@, b@)[j],
            forall|j: int| 0 <= j < i ==> #[trigger] c@[j] < Q,
        decreases 256 - i,
    {
        c.push(mul_mod(a[i], b[i]));
        i += 1;
    }
    assert(c@ =~= pointwise_spec(a@, b@));
    c
}

} // verus!

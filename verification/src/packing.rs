use vstd::prelude::*;
use crate::params::{Q, SEEDBYTES, TR_BYTES};
use crate::params::ml_dsa_44::{K, L, GAMMA1, OMEGA};
use crate::bits::{pack_bits_spec, pack_bits, unpack_bits_spec, unpack_bits};
use crate::ntt::is_poly;
use crate::poly::{offset_spec, unoffset_spec, poly_offset, poly_unoffset, count_nonzero};
use crate::polyvec::{pv, is_polyvec, vec_count, lemma_vec_count_prefix};
use crate::sample::zero_poly;

verus! {

/// The `b`-bit packings of the polynomials of `v`, one after the other.
pub open spec fn pack_vec_spec(v: Seq<Seq<u32>>, b: int) -> Seq<u8>
    decreases v.len(),
{
    if v.len() == 0 {
        Seq::empty()
    } else {
        pack_vec_spec(v.drop_last(), b) + pack_bits_spec(v.last(), b)
    }
}

/// The BitPack values base - centered(x) of every polynomial of `v`.
pub open spec fn offset_vec_spec(v: Seq<Seq<u32>>, base: int) -> Seq<Seq<u32>> {
    Seq::new(v.len(), |i: int| offset_spec(v[i], base))
}

/// The residues (base - z) mod q of every polynomial of unpacked values.
pub open spec fn unoffset_vec_spec(v: Seq<Seq<u32>>, base: int) -> Seq<Seq<u32>> {
    Seq::new(v.len(), |i: int| unoffset_spec(v[i], base))
}

/// `n` polynomials of `b`-bit coefficients read from `bytes` at offset `off`.
pub open spec fn unpack_vec_spec(bytes: Seq<u8>, off: int, n: nat, b: int) -> Seq<Seq<u32>> {
    Seq::new(
        n,
        |i: int| unpack_bits_spec(bytes.subrange(off + i * (32 * b), bytes.len() as int), b, 256),
    )
}

/// Public key encoding: rho followed by t1 in 10-bit coefficients.
pub open spec fn pk_encode_spec(rho: Seq<u8>, t1: Seq<Seq<u32>>) -> Seq<u8> {
    rho + pack_vec_spec(t1, 10)
}

/// Secret key encoding: rho, K, tr, then s1 and s2 (as eta - x, 3 bits) and
/// t0 (as 2^12 - x, 13 bits).
pub open spec fn sk_encode_spec(
    rho: Seq<u8>,
    key: Seq<u8>,
    tr: Seq<u8>,
    s1: Seq<Seq<u32>>,
    s2: Seq<Seq<u32>>,
    t0: Seq<Seq<u32>>,
) -> Seq<u8> {
    rho + key + tr + pack_vec_spec(offset_vec_spec(s1, 2), 3) + pack_vec_spec(
        offset_vec_spec(s2, 2),
        3,
    ) + pack_vec_spec(offset_vec_spec(t0, 4096), 13)
}

/// The indices j < n (as bytes) with a nonzero coefficient, in increasing order.
pub open spec fn ones_spec(p: Seq<u32>, n: nat) -> Seq<u8>
    decreases n,
{
    if n == 0 {
        Seq::empty()
    } else {
        ones_spec(p, (n - 1) as nat) + if p[n - 1] != 0 {
            seq![(n - 1) as u8]
        } else {
            Seq::empty()
        }
    }
}

/// The nonzero positions of the first `i` hint polynomials, one after the other.
pub open spec fn hint_list(h: Seq<Seq<u32>>, i: nat) -> Seq<u8>
    decreases i,
{
    if i == 0 {
        Seq::empty()
    } else {
        hint_list(h, (i - 1) as nat) + ones_spec(h[i - 1], 256)
    }
}

/// HintBitPack: the positions of the ones, zero-padded to OMEGA bytes,
/// then for each polynomial the number of ones up to and including it.
pub open spec fn hint_pack_spec(h: Seq<Seq<u32>>) -> Seq<u8> {
    let all = hint_list(h, 4);
    Seq::new(
        84,
        |k: int|
            if k < 80 {
                if k < all.len() {
                    all[k]
                } else {
                    0u8
                }
            } else {
                hint_list(h, (k - 80 + 1) as nat).len() as u8
            },
    )
}

/// The polynomial `base` with coefficient y[t] set to 1 for t in [start, end).
pub open spec fn set_ones(base: Seq<u32>, y: Seq<u8>, start: int, end: int) -> Seq<u32>
    decreases end - start,
{
    if end <= start {
        base
    } else {
        set_ones(base, y, start, end - 1).update(y[end - 1] as int, 1u32)
    }
}

/// Whether y[start..end] is strictly increasing.
pub open spec fn strictly_increasing(y: Seq<u8>, start: int, end: int) -> bool {
    forall|t: int| start < t < end ==> #[trigger] y[t - 1] < y[t]
}

/// The first `i` hint polynomials decoded from `y`, with the position reached,
/// or None when the encoding is malformed.
pub open spec fn hint_rows(y: Seq<u8>, i: nat) -> Option<(Seq<Seq<u32>>, int)>
    decreases i,
{
    if i == 0 {
        Some((Seq::empty(), 0))
    } else {
        match hint_rows(y, (i - 1) as nat) {
            None => None,
            Some((rows, idx)) => {
                let end = y[80 + i - 1] as int;
                if end < idx || end > 80 || !strictly_increasing(y, idx, end) {
                    None
                } else {
                    Some((rows.push(set_ones(zero_poly(), y, idx, end)), end))
                }
            },
        }
    }
}

/// HintBitUnpack: the hint polynomials, or None when `y` is malformed
/// (counts out of order or above OMEGA, positions not increasing, nonzero padding).
pub open spec fn hint_unpack_spec(y: Seq<u8>) -> Option<Seq<Seq<u32>>> {
    match hint_rows(y, 4) {
        None => None,
        Some((rows, idx)) => if (forall|t: int| idx <= t < 80 ==> y[t] == 0) {
            Some(rows)
        } else {
            None
        },
    }
}

/// Signature encoding: c~, z (as gamma1 - x, 18 bits), then the packed hint.
pub open spec fn sig_encode_spec(ctilde: Seq<u8>, z: Seq<Seq<u32>>, h: Seq<Seq<u32>>) -> Seq<u8> {
    ctilde + pack_vec_spec(offset_vec_spec(z, GAMMA1 as int), 18) + hint_pack_spec(h)
}

/// Appends the `b`-bit packings of the polynomials of `v`.
pub fn pack_vec(v: &Vec<Vec<u32>>, b: usize, out: &mut Vec<u8>)
    requires
        0 < b <= 32,
        forall|i: int| 0 <= i < v@.len() ==> (#[trigger] v@[i])@.len() == 256,
    ensures
        final(out)@ == old(out)@ + pack_vec_spec(pv(v@), b as int),
{
    let ghost o0 = out@;
    let mut i: usize = 0;
    while i < v.len()
        invariant
            0 < b <= 32,
            forall|k: int| 0 <= k < v@.len() ==> (#[trigger] v@[k])@.len() == 256,
            i <= v@.len(),
            out@ == o0 + pack_vec_spec(pv(v@).take(i as int), b as int),
        decreases v@.len() - i,
    {
        assert(v@[i as int]@.len() == 256);
        assert((256 * b) % 8 == 0 && 256 * b < 0x1_0000_0000) by (nonlinear_arith)
            requires
                0 < b <= 32,
        ;
        pack_bits(&v[i], b, out);
        proof {
            let t = pv(v@).take(i + 1);
            assert(t.drop_last() =~= pv(v@).take(i as int));
            assert(t.last() == v@[i as int]@);
            assert(o0 + pack_vec_spec(t, b as int) =~= o0 + pack_vec_spec(
                pv(v@).take(i as int),
                b as int,
            ) + pack_bits_spec(v@[i as int]@, b as int));
        }
        i += 1;
    }
    assert(pv(v@).take(v@.len() as int) =~= pv(v@));
}

/// The BitPack values base - centered(x) of every polynomial.
pub fn offset_vec(v: &Vec<Vec<u32>>, base: u32) -> (r: Vec<Vec<u32>>)
    requires
        is_polyvec(pv(v@), v@.len() as int),
        base < Q,
    ensures
        pv(r@) == offset_vec_spec(pv(v@), base as int),
        forall|i: int| 0 <= i < r@.len() ==> (#[trigger] r@[i])@.len() == 256,
{
    let mut r: Vec<Vec<u32>> = Vec::new();
    let mut i: usize = 0;
    while i < v.len()
        invariant
            is_polyvec(pv(v@), v@.len() as int),
            base < Q,
            i <= v@.len(),
            r@.len() == i,
            forall|j: int| 0 <= j < i ==> #[trigger] r@[j]@ == offset_spec(v@[j]@, base as int),
            forall|j: int| 0 <= j < i ==> (#[trigger] r@[j])@.len() == 256,
        decreases v@.len() - i,
    {
        assert(is_poly(pv(v@)[i as int]));
        let p = poly_offset(&v[i], base);
        r.push(p);
        i += 1;
    }
    assert(pv(r@) =~= offset_vec_spec(pv(v@), base as int));
    r
}

/// Reads `n` polynomials of `b`-bit coefficients from `bytes` at `off`, each
/// coefficient z returned as (base - z) mod q.
pub fn unpack_vec(bytes: &Vec<u8>, off: usize, n: usize, b: usize, base: u32) -> (r: Vec<Vec<u32>>)
    requires
        0 < b <= 32,
        n <= 16,
        base < Q,
        off + n * (32 * b) <= bytes@.len(),
    ensures
        pv(r@) == unoffset_vec_spec(unpack_vec_spec(bytes@, off as int, n as nat, b as int), base as int),
        is_polyvec(pv(r@), n as int),
{
    let ghost u = unpack_vec_spec(bytes@, off as int, n as nat, b as int);
    let mut r: Vec<Vec<u32>> = Vec::new();
    let mut i: usize = 0;
    let mut pos: usize = off;
    while i < n
        invariant
            0 < b <= 32,
            n <= 16,
            base < Q,
            off + n * (32 * b) <= bytes@.len(),
            u == unpack_vec_spec(bytes@, off as int, n as nat, b as int),
            i <= n,
            pos == off + i * (32 * b),
            r@.len() == i,
            forall|j: int| 0 <= j < i ==> #[trigger] r@[j]@ == unoffset_spec(u[j], base as int),
            forall|j: int| 0 <= j < i ==> is_poly(#[trigger] r@[j]@),
        decreases n - i,
    {
        assert(pos + 32 * b <= off + n * (32 * b)) by (nonlinear_arith)
            requires
                pos == off + i * (32 * b),
                i < n,
        ;
        let raw = unpack_bits(bytes, pos, b, 256);
        let p = poly_unoffset(&raw, base);
        r.push(p);
        assert(pos + 32 * b == off + (i + 1) * (32 * b)) by (nonlinear_arith)
            requires
                pos == off + i * (32 * b),
        ;
        pos = pos + 32 * b;
        i += 1;
    }
    assert(pv(r@) =~= unoffset_vec_spec(u, base as int));
    r
}

/// The list of nonzero positions has one entry per nonzero coefficient.
pub proof fn lemma_ones_len(p: Seq<u32>, n: nat)
    ensures
        ones_spec(p, n).len() == count_nonzero(p, n),
        forall|t: int| 0 <= t < ones_spec(p, n).len() ==> #[trigger] ones_spec(p, n)[t] < n,
    decreases n,
{
    if n > 0 {
        lemma_ones_len(p, (n - 1) as nat);
    }
}

/// The list of nonzero positions of the hint has one entry per nonzero coefficient.
pub proof fn lemma_hint_list_len(h: Seq<Seq<u32>>, i: nat)
    ensures
        hint_list(h, i).len() == vec_count(h, i),
    decreases i,
{
    if i > 0 {
        lemma_hint_list_len(h, (i - 1) as nat);
        lemma_ones_len(h[i - 1], 256);
    }
}

/// Counting nonzero coefficients is monotone in the number counted.
pub proof fn lemma_count_mono(p: Seq<u32>, m: nat, n: nat)
    requires
        m <= n,
    ensures
        count_nonzero(p, m) <= count_nonzero(p, n),
    decreases n,
{
    if m < n {
        lemma_count_mono(p, m, (n - 1) as nat);
    }
}

/// Counting over vectors is monotone in the number of polynomials counted.
pub proof fn lemma_vec_count_mono(h: Seq<Seq<u32>>, m: nat, n: nat)
    requires
        m <= n,
    ensures
        vec_count(h, m) <= vec_count(h, n),
    decreases n,
{
    if m < n {
        lemma_vec_count_mono(h, m, (n - 1) as nat);
    }
}

/// HintBitPack of four hint polynomials with at most OMEGA ones in all.
pub fn pack_hint(h: &Vec<Vec<u32>>) -> (y: Vec<u8>)
    requires
        is_polyvec(pv(h@), 4),
        vec_count(pv(h@), 4) <= 80,
    ensures
        y@ == hint_pack_spec(pv(h@)),
{
    let ghost hs = pv(h@);
    let mut y: Vec<u8> = vec![0u8; 84];
    let mut idx: usize = 0;
    let mut i: usize = 0;
    proof {
        lemma_hint_list_len(hs, 4);
    }
    while i < 4
        invariant
            hs == pv(h@),
            is_polyvec(hs, 4),
            vec_count(hs, 4) <= 80,
            hint_list(hs, 4).len() <= 80,
            i <= 4,
            idx == hint_list(hs, i as nat).len(),
            idx <= vec_count(hs, i as nat),
            y@.len() == 84,
            forall|t: int| 0 <= t < idx ==> #[trigger] y@[t] == hint_list(hs, i as nat)[t],
            forall|t: int| idx <= t < 80 ==> #[trigger] y@[t] == 0u8,
            forall|r: int| 0 <= r < i ==> #[trigger] y@[80 + r] == hint_list(hs, (r + 1) as nat).len() as u8,
            forall|r: int| i <= r < 4 ==> #[trigger] y@[80 + r] == 0u8,
        decreases 4 - i,
    {
        assert(is_poly(hs[i as int]));
        proof {
            lemma_hint_list_len(hs, i as nat);
            lemma_hint_list_len(hs, (i + 1) as nat);
            lemma_vec_count_mono(hs, (i + 1) as nat, 4);
            lemma_ones_len(hs[i as int], 256);
        }
        let ghost base = hint_list(hs, i as nat);
        let mut j: usize = 0;
        while j < 256
            invariant
                hs == pv(h@),
                is_polyvec(hs, 4),
                i < 4,
                base == hint_list(hs, i as nat),
                base.len() + count_nonzero(hs[i as int], 256) <= 80,
                j <= 256,
                idx == base.len() + ones_spec(hs[i as int], j as nat).len(),
                y@.len() == 84,
                forall|t: int| 0 <= t < idx ==> #[trigger] y@[t] == (base + ones_spec(hs[i as int], j as nat))[t],
                forall|t: int| idx <= t < 80 ==> #[trigger] y@[t] == 0u8,
                forall|r: int| 0 <= r < i ==> #[trigger] y@[80 + r] == hint_list(hs, (r + 1) as nat).len() as u8,
                forall|r: int| i <= r < 4 ==> #[trigger] y@[80 + r] == 0u8,
            decreases 256 - j,
        {
            proof {
                lemma_ones_len(hs[i as int], j as nat);
                lemma_ones_len(hs[i as int], (j + 1) as nat);
                lemma_count_mono(hs[i as int], (j + 1) as nat, 256);
            }
            assert(h@[i as int]@ == hs[i as int]);
            assert(is_poly(hs[i as int]));
            if h[i][j] != 0 {
                assert(h@[i as int]@[j as int] == hs[i as int][j as int]);
                y[idx] = j as u8;
                idx += 1;
                assert(base + ones_spec(hs[i as int], (j + 1) as nat) =~= (base + ones_spec(
                    hs[i as int],
                    j as nat,
                )).push(j as u8));
            } else {
                assert(h@[i as int]@[j as int] == hs[i as int][j as int]);
                assert(ones_spec(hs[i as int], (j + 1) as nat) =~= ones_spec(hs[i as int], j as nat));
            }
            j += 1;
        }
        assert(base + ones_spec(hs[i as int], 256) == hint_list(hs, (i + 1) as nat));
        y[80 + i] = idx as u8;
        i += 1;
    }
    assert forall|k: int| 80 <= k < 84 implies y@[k] == hint_pack_spec(hs)[k] by {
        assert(y@[80 + (k - 80)] == hint_list(hs, (k - 80 + 1) as nat).len() as u8);
    }
    assert(y@ =~= hint_pack_spec(hs));
    y
}

/// hint_rows fails from some row on once it fails.
pub proof fn lemma_hint_rows_none(y: Seq<u8>, i: nat, n: nat)
    requires
        i <= n,
        hint_rows(y, i) is None,
    ensures
        hint_rows(y, n) is None,
    decreases n,
{
    if i < n {
        lemma_hint_rows_none(y, i, (n - 1) as nat);
    }
}

/// HintBitUnpack of OMEGA + 4 bytes.
pub fn unpack_hint(y: &Vec<u8>) -> (res: Option<Vec<Vec<u32>>>)
    requires
        y@.len() == 84,
    ensures
        match res {
            Some(h) => hint_unpack_spec(y@) == Some(pv(h@)) && is_polyvec(pv(h@), 4),
            None => hint_unpack_spec(y@) is None,
        },
{
    let mut rows: Vec<Vec<u32>> = Vec::new();
    let mut idx: usize = 0;
    let mut i: usize = 0;
    while i < 4
        invariant
            y@.len() == 84,
            i <= 4,
            idx <= 80,
            hint_rows(y@, i as nat) == Some((pv(rows@), idx as int)),
            is_polyvec(pv(rows@), i as int),
        decreases 4 - i,
    {
        let end = y[80 + i] as usize;
        if end < idx || end > 80 {
            proof {
                lemma_hint_rows_none(y@, (i + 1) as nat, 4);
            }
            return None;
        }
        let mut p: Vec<u32> = vec![0u32; 256];
        assert(p@ =~= zero_poly());
        let mut t: usize = idx;
        while t < end
            invariant
                y@.len() == 84,
                i < 4,
                end == y@[80 + i],
                hint_rows(y@, i as nat) == Some((pv(rows@), idx as int)),
                idx <= t <= end <= 80,
                p@ == set_ones(zero_poly(), y@, idx as int, t as int),
                is_poly(p@),
                strictly_increasing(y@, idx as int, t as int),
            decreases end - t,
        {
            if t > idx && y[t - 1] >= y[t] {
                proof {
                    assert(y@[t - 1] >= y@[t as int]);
                    assert(!strictly_increasing(y@, idx as int, end as int));
                    assert(hint_rows(y@, (i + 1) as nat) is None);
                    lemma_hint_rows_none(y@, (i + 1) as nat, 4);
                }
                return None;
            }
            let pos = y[t] as usize;
            p[pos] = 1;
            t += 1;
        }
        let ghost r0 = pv(rows@);
        rows.push(p);
        assert(pv(rows@) =~= r0.push(set_ones(zero_poly(), y@, idx as int, end as int)));
        idx = end;
        i += 1;
    }
    let mut t: usize = idx;
    while t < 80
        invariant
            y@.len() == 84,
            hint_rows(y@, 4) == Some((pv(rows@), idx as int)),
            is_polyvec(pv(rows@), 4),
            idx <= t <= 80,
            forall|s: int| idx <= s < t ==> y@[s] == 0,
        decreases 80 - t,
    {
        if y[t] != 0 {
            assert(!(forall|s: int| idx <= s < 80 ==> y@[s] == 0));
            return None;
        }
        t += 1;
    }
    Some(rows)
}

} // verus!

verus! {

/// The packing of `v` takes 32 * b bytes per polynomial.
pub proof fn lemma_pack_vec_len(v: Seq<Seq<u32>>, b: int)
    requires
        0 < b <= 32,
        forall|i: int| 0 <= i < v.len() ==> (#[trigger] v[i]).len() == 256,
    ensures
        pack_vec_spec(v, b).len() == v.len() * (32 * b),
    decreases v.len(),
{
    if v.len() > 0 {
        let d = v.drop_last();
        assert forall|i: int| 0 <= i < d.len() implies (#[trigger] d[i]).len() == 256 by {
            assert(d[i] == v[i]);
        }
        lemma_pack_vec_len(d, b);
        assert(v.last().len() == 256);
        assert((256 * b) / 8 == 32 * b);
        assert(d.len() * (32 * b) + 32 * b == v.len() * (32 * b)) by (nonlinear_arith)
            requires
                d.len() + 1 == v.len(),
        ;
    }
}

/// The BitPack values of a vector have 256 coefficients each.
pub proof fn lemma_offset_vec_lens(v: Seq<Seq<u32>>, base: int)
    ensures
        forall|i: int| 0 <= i < v.len() ==> (#[trigger] offset_vec_spec(v, base)[i]).len() == 256,
{
}

} // verus!

verus! {

/// Reads `n` polynomials of `b`-bit coefficients (b <= 22, so each is below q)
/// from `bytes` at `off`, as they are.
pub fn unpack_vec_raw(bytes: &Vec<u8>, off: usize, n: usize, b: usize) -> (r: Vec<Vec<u32>>)
    requires
        0 < b <= 22,
        n <= 16,
        off + n * (32 * b) <= bytes@.len(),
    ensures
        pv(r@) == unpack_vec_spec(bytes@, off as int, n as nat, b as int),
        is_polyvec(pv(r@), n as int),
{
    let ghost u = unpack_vec_spec(bytes@, off as int, n as nat, b as int);
    let mut r: Vec<Vec<u32>> = Vec::new();
    let mut i: usize = 0;
    let mut pos: usize = off;
    while i < n
        invariant
            0 < b <= 22,
            n <= 16,
            off + n * (32 * b) <= bytes@.len(),
            u == unpack_vec_spec(bytes@, off as int, n as nat, b as int),
            i <= n,
            pos == off + i * (32 * b),
            r@.len() == i,
            forall|j: int| 0 <= j < i ==> #[trigger] r@[j]@ == u[j],
            forall|j: int| 0 <= j < i ==> is_poly(#[trigger] r@[j]@),
        decreases n - i,
    {
        assert(pos + 32 * b <= off + n * (32 * b)) by (nonlinear_arith)
            requires
                pos == off + i * (32 * b),
                i < n,
        ;
        let raw = unpack_bits(bytes, pos, b, 256);
        proof {
            crate::bits::lemma_unpack_bound(
                bytes@.subrange(pos as int, bytes@.len() as int),
                b as int,
                256,
            );
            assert((1u32 << (b as u32)) <= 0x400000u32) by (bit_vector)
                requires
                    b <= 22,
            ;
            assert forall|k: int| 0 <= k < 256 implies #[trigger] raw@[k] < Q by {
                assert(raw@[k] < (1u32 << (b as u32)));
            }
        }
        r.push(raw);
        assert(pos + 32 * b == off + (i + 1) * (32 * b)) by (nonlinear_arith)
            requires
                pos == off + i * (32 * b),
        ;
        pos = pos + 32 * b;
        i += 1;
    }
    assert(pv(r@) =~= u);
    r
}

} // verus!

verus! {

/// The packing of polynomial i sits at bytes [i * 32b, (i + 1) * 32b) of the packed vector.
pub proof fn lemma_pack_vec_index(v: Seq<Seq<u32>>, b: int, i: int)
    requires
        0 < b <= 32,
        forall|k: int| 0 <= k < v.len() ==> (#[trigger] v[k]).len() == 256,
        0 <= i < v.len(),
    ensures
        pack_vec_spec(v, b).len() == v.len() * (32 * b),
        (i + 1) * (32 * b) <= v.len() * (32 * b),
        pack_vec_spec(v, b).subrange(i * (32 * b), (i + 1) * (32 * b)) == pack_bits_spec(v[i], b),
    decreases v.len(),
{
    lemma_pack_vec_len(v, b);
    let d = v.drop_last();
    assert forall|k: int| 0 <= k < d.len() implies (#[trigger] d[k]).len() == 256 by {
        assert(d[k] == v[k]);
    }
    lemma_pack_vec_len(d, b);
    assert((i + 1) * (32 * b) <= v.len() * (32 * b)) by (nonlinear_arith)
        requires
            i + 1 <= v.len(),
            0 < b,
    ;
    let p = pack_vec_spec(d, b);
    let last = pack_bits_spec(v.last(), b);
    assert(pack_vec_spec(v, b) == p + last);
    assert(last.len() == 32 * b) by {
        assert(v.last().len() == 256);
    }
    if i == v.len() - 1 {
        assert(i * (32 * b) == d.len() * (32 * b));
        assert((i + 1) * (32 * b) == d.len() * (32 * b) + 32 * b) by (nonlinear_arith)
            requires
                i == d.len(),
        ;
        assert((p + last).subrange(i * (32 * b), (i + 1) * (32 * b)) =~= last);
    } else {
        lemma_pack_vec_index(d, b, i);
        assert(d[i] == v[i]);
        assert(0 <= i * (32 * b) && (i + 1) * (32 * b) == i * (32 * b) + 32 * b) by (nonlinear_arith)
            requires
                0 <= i,
                0 < b,
        ;
        assert((p + last).subrange(i * (32 * b), (i + 1) * (32 * b)) =~= p.subrange(
            i * (32 * b),
            (i + 1) * (32 * b),
        ));
    }
}

/// Unpacking a packed vector, wherever it sits in a byte string, returns the vector.
pub proof fn lemma_unpack_vec_of_pack(bytes: Seq<u8>, off: int, v: Seq<Seq<u32>>, b: int)
    requires
        0 < b <= 31,
        0 <= off,
        forall|k: int| 0 <= k < v.len() ==> (#[trigger] v[k]).len() == 256,
        forall|k: int, j: int|
            0 <= k < v.len() && 0 <= j < 256 ==> #[trigger] v[k][j] < (1u32 << (b as u32)),
        off + v.len() * (32 * b) <= bytes.len(),
        bytes.subrange(off, off + v.len() * (32 * b)) == pack_vec_spec(v, b),
    ensures
        unpack_vec_spec(bytes, off, v.len(), b) == v,
{
    let u = unpack_vec_spec(bytes, off, v.len(), b);
    assert forall|i: int| 0 <= i < v.len() implies #[trigger] u[i] == v[i] by {
        lemma_pack_vec_index(v, b, i);
        let start = off + i * (32 * b);
        let x = bytes.subrange(start, bytes.len() as int);
        let y = pack_bits_spec(v[i], b);
        assert((256 * b) % 8 == 0 && 256 * b / 8 == 32 * b) by (nonlinear_arith)
            requires
                0 < b,
        ;
        assert(start + 32 * b <= off + v.len() * (32 * b)) by (nonlinear_arith)
            requires
                start == off + i * (32 * b),
                (i + 1) * (32 * b) <= v.len() * (32 * b),
        ;
        assert(0 <= i * (32 * b) && (i + 1) * (32 * b) == i * (32 * b) + 32 * b) by (nonlinear_arith)
            requires
                0 <= i,
                0 < b,
        ;
        assert forall|k: int| 0 <= k < 256 * b / 8 implies x[k] == y[k] by {
            assert(x[k] == bytes[start + k]);
            assert(bytes.subrange(off, off + v.len() * (32 * b))[i * (32 * b) + k] == bytes[off + i
                * (32 * b) + k]);
            assert(pack_vec_spec(v, b).subrange(i * (32 * b), (i + 1) * (32 * b))[k] == pack_vec_spec(
                v,
                b,
            )[i * (32 * b) + k]);
        }
        crate::bits::lemma_unpack_prefix(x, y, b, 256);
        assert forall|j: int| 0 <= j < v[i].len() implies #[trigger] v[i][j] < (1u32 << (b as u32)) by {
        }
        crate::bits::lemma_unpack_pack(v[i], b);
    }
    assert(u =~= v);
}

/// Undoing the BitPack offset returns the polynomial, when every offset value
/// base - centered(x) lies in [0, 2^bits).
pub proof fn lemma_unoffset_offset(x: Seq<u32>, base: int, bits: int)
    requires
        is_poly(x),
        0 <= base < Q,
        0 < bits <= 31,
        forall|j: int|
            0 <= j < 256 ==> 0 <= base - crate::arith::centered(#[trigger] x[j] as int) < (1u32
                << (bits as u32)),
    ensures
        forall|j: int| 0 <= j < 256 ==> #[trigger] offset_spec(x, base)[j] < (1u32 << (bits as u32)),
        unoffset_spec(offset_spec(x, base), base) == x,
{
    assert forall|j: int| 0 <= j < 256 implies unoffset_spec(offset_spec(x, base), base)[j]
        == x[j] by {
        let c = crate::arith::centered(x[j] as int);
        let o = offset_spec(x, base)[j];
        assert(o as int == base - c);
        assert((base - o) == c);
        assert(c % (Q as int) == x[j]) by {
            if x[j] > (Q - 1) / 2 {
                vstd::arithmetic::div_mod::lemma_fundamental_div_mod_converse(c, Q as int, -1, x[j] as int);
            } else {
                vstd::arithmetic::div_mod::lemma_fundamental_div_mod_converse(c, Q as int, 0, x[j] as int);
            }
        }
    }
    assert(unoffset_spec(offset_spec(x, base), base) =~= x);
}

} // verus!

verus! {

/// A hint polynomial: every coefficient is 0 or 1.
pub open spec fn is_binary(p: Seq<u32>) -> bool {
    p.len() == 256 && forall|j: int| 0 <= j < 256 ==> #[trigger] p[j] <= 1
}

/// The positions listed by `ones_spec` increase and stay below n.
proof fn lemma_ones_increasing(p: Seq<u32>, n: nat)
    requires
        n <= 256,
    ensures
        forall|t: int| 0 <= t < ones_spec(p, n).len() ==> #[trigger] ones_spec(p, n)[t] < n,
        forall|t: int|
            0 < t < ones_spec(p, n).len() ==> ones_spec(p, n)[t - 1] < #[trigger] ones_spec(p, n)[t],
    decreases n,
{
    if n > 0 {
        let m = (n - 1) as nat;
        lemma_ones_increasing(p, m);
        let prev = ones_spec(p, m);
        if p[m as int] != 0 {
            assert(ones_spec(p, n) == prev + seq![m as u8]);
            assert forall|t: int| 0 <= t < ones_spec(p, n).len() implies #[trigger] ones_spec(
                p,
                n,
            )[t] < n by {
                if t < prev.len() {
                    assert(ones_spec(p, n)[t] == prev[t]);
                } else {
                    assert(ones_spec(p, n)[t] == m as u8);
                }
            }
            assert forall|t: int| 0 < t < ones_spec(p, n).len() implies ones_spec(p, n)[t - 1]
                < #[trigger] ones_spec(p, n)[t] by {
                assert(ones_spec(p, n)[t - 1] == prev[t - 1]);
                if t < prev.len() {
                    assert(ones_spec(p, n)[t] == prev[t]);
                } else {
                    assert(ones_spec(p, n)[t] == m as u8);
                }
            }
        } else {
            assert(ones_spec(p, n) =~= prev);
        }
    }
}

/// Setting the listed positions of a zero polynomial to 1 rebuilds the nonzero pattern.
proof fn lemma_set_ones_of_ones(y: Seq<u8>, idx: int, p: Seq<u32>, n: nat)
    requires
        n <= 256,
        p.len() == 256,
        0 <= idx,
        idx + ones_spec(p, n).len() <= y.len(),
        forall|t: int| 0 <= t < ones_spec(p, n).len() ==> y[idx + t] == #[trigger] ones_spec(p, n)[t],
    ensures
        set_ones(zero_poly(), y, idx, idx + ones_spec(p, n).len()) == Seq::new(
            256,
            |j: int|
                if j < n && p[j] != 0 {
                    1u32
                } else {
                    0u32
                },
        ),
    decreases n,
{
    let target = Seq::new(256, |j: int| if j < n && p[j] != 0 { 1u32 } else { 0u32 });
    if n == 0 {
        assert(zero_poly() =~= target);
    } else {
        let m = (n - 1) as nat;
        let prev = ones_spec(p, m);
        assert forall|t: int| 0 <= t < prev.len() implies y[idx + t] == #[trigger] prev[t] by {
            assert(ones_spec(p, n)[t] == prev[t]);
        }
        lemma_set_ones_of_ones(y, idx, p, m);
        lemma_ones_increasing(p, m);
        let ptarget = Seq::new(256, |j: int| if j < m && p[j] != 0 { 1u32 } else { 0u32 });
        if p[m as int] != 0 {
            assert(ones_spec(p, n) == prev + seq![m as u8]);
            assert(ones_spec(p, n)[prev.len() as int] == m as u8);
            assert(y[idx + prev.len()] == m as u8);
            assert(ptarget.update(m as int, 1u32) =~= target);
        } else {
            assert(ones_spec(p, n) =~= prev);
            assert(ptarget =~= target);
        }
    }
}

/// The position list of the first i hint polynomials is a prefix of that of the first n.
proof fn lemma_hint_list_prefix(h: Seq<Seq<u32>>, i: nat, n: nat)
    requires
        i <= n,
    ensures
        hint_list(h, i).len() <= hint_list(h, n).len(),
        forall|t: int| 0 <= t < hint_list(h, i).len() ==> #[trigger] hint_list(h, n)[t] == hint_list(h, i)[t],
    decreases n,
{
    if i < n {
        lemma_hint_list_prefix(h, i, (n - 1) as nat);
    }
}

/// Decoding the first rows of a packed hint returns those rows.
proof fn lemma_hint_rows_of_pack(h: Seq<Seq<u32>>, i: nat)
    requires
        h.len() == 4,
        forall|k: int| 0 <= k < 4 ==> is_binary(#[trigger] h[k]),
        hint_list(h, 4).len() <= 80,
        i <= 4,
    ensures
        hint_rows(hint_pack_spec(h), i) == Some((h.take(i as int), hint_list(h, i).len() as int)),
    decreases i,
{
    let y = hint_pack_spec(h);
    if i == 0 {
        assert(h.take(0) =~= Seq::<Seq<u32>>::empty());
    } else {
        let m = (i - 1) as nat;
        lemma_hint_rows_of_pack(h, m);
        lemma_hint_list_prefix(h, m, i);
        lemma_hint_list_prefix(h, i, 4);
        let idx = hint_list(h, m).len() as int;
        let end = hint_list(h, i).len() as int;
        let row = h[m as int];
        let ones = ones_spec(row, 256);
        assert(hint_list(h, i) == hint_list(h, m) + ones);
        assert(y[80 + i - 1] == end as u8);
        assert(end <= 80);
        assert(y[80 + i - 1] as int == end);
        assert forall|t: int| 0 <= t < ones.len() implies y[idx + t] == #[trigger] ones[t] by {
            assert(hint_list(h, i)[idx + t] == ones[t]);
            assert(hint_list(h, 4)[idx + t] == hint_list(h, i)[idx + t]);
        }
        lemma_ones_increasing(row, 256);
        assert(strictly_increasing(y, idx, end)) by {
            assert forall|t: int| idx < t < end implies #[trigger] y[t - 1] < y[t] by {
                assert(y[idx + (t - idx)] == ones[t - idx]);
                assert(y[idx + (t - 1 - idx)] == ones[t - 1 - idx]);
            }
        }
        lemma_set_ones_of_ones(y, idx, row, 256);
        assert(is_binary(row));
        assert(Seq::new(256, |j: int| if j < 256 && row[j] != 0 { 1u32 } else { 0u32 }) =~= row);
        assert(h.take(m as int).push(row) =~= h.take(i as int));
    }
}

/// Decoding a packed hint returns it, for binary hints with at most OMEGA ones.
pub proof fn lemma_hint_unpack_pack(h: Seq<Seq<u32>>)
    requires
        h.len() == 4,
        forall|k: int| 0 <= k < 4 ==> is_binary(#[trigger] h[k]),
        vec_count(h, 4) <= 80,
    ensures
        hint_unpack_spec(hint_pack_spec(h)) == Some(h),
{
    lemma_hint_list_len(h, 4);
    lemma_hint_rows_of_pack(h, 4);
    assert(h.take(4) =~= h);
}

} // verus!

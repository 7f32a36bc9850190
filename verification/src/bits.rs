use vstd::prelude::*;

verus! {

/// Bit `t` (0 <= t < 32) of a coefficient, as 0 or 1.
pub open spec fn u32_bit(v: u32, t: int) -> u8 {
    ((v >> (t as u32)) & 1) as u8
}

/// Bit `j` of the little-endian bit string made of the `b`-bit coefficients `vals`.
pub open spec fn coeff_bit(vals: Seq<u32>, b: int, j: int) -> u8 {
    u32_bit(vals[j / b], j % b)
}

/// Byte `k` of the bit string made of the `b`-bit coefficients `vals`.
pub open spec fn pack_byte(vals: Seq<u32>, b: int, k: int) -> u8 {
    coeff_bit(vals, b, 8 * k) | (coeff_bit(vals, b, 8 * k + 1) << 1u8) | (coeff_bit(
        vals,
        b,
        8 * k + 2,
    ) << 2u8) | (coeff_bit(vals, b, 8 * k + 3) << 3u8) | (coeff_bit(vals, b, 8 * k + 4) << 4u8)
        | (coeff_bit(vals, b, 8 * k + 5) << 5u8) | (coeff_bit(vals, b, 8 * k + 6) << 6u8) | (
    coeff_bit(vals, b, 8 * k + 7) << 7u8)
}

/// SimpleBitPack: the coefficients `vals`, `b` bits each, least significant
/// bit first, as `vals.len() * b / 8` bytes.
pub open spec fn pack_bits_spec(vals: Seq<u32>, b: int) -> Seq<u8> {
    Seq::new((vals.len() * b / 8) as nat, |k: int| pack_byte(vals, b, k))
}

/// Bit `j` (least significant first) of the byte string `bytes`, as 0 or 1.
pub open spec fn byte_bit(bytes: Seq<u8>, j: int) -> u32 {
    ((bytes[j / 8] >> ((j % 8) as u8)) & 1) as u32
}

/// The low `t` bits of coefficient `i` of a string of `b`-bit coefficients.
pub open spec fn unpack_acc(bytes: Seq<u8>, b: int, i: int, t: nat) -> u32
    decreases t,
{
    if t == 0 {
        0
    } else {
        unpack_acc(bytes, b, i, (t - 1) as nat) | (byte_bit(bytes, b * i + t - 1) << ((t
            - 1) as u32))
    }
}

/// SimpleBitUnpack: `n` coefficients of `b` bits each from `bytes`.
pub open spec fn unpack_bits_spec(bytes: Seq<u8>, b: int, n: nat) -> Seq<u32> {
    Seq::new(n, |i: int| unpack_acc(bytes, b, i, b as nat))
}

fn coeff_bit_exec(vals: &Vec<u32>, b: usize, j: usize) -> (r: u8)
    requires
        0 < b <= 32,
        j < vals.len() * b,
    ensures
        r == coeff_bit(vals@, b as int, j as int),
{
    assert(j / b < vals.len()) by (nonlinear_arith)
        requires
            0 < b,
            j < vals.len() * b,
    ;
    ((vals[j / b] >> ((j % b) as u32)) & 1) as u8
}

/// Appends the `b`-bit packing of `vals` to `out`.
pub fn pack_bits(vals: &Vec<u32>, b: usize, out: &mut Vec<u8>)
    requires
        0 < b <= 32,
        (vals.len() * b) % 8 == 0,
        vals.len() * b < 0x1_0000_0000,
    ensures
        final(out)@ == old(out)@ + pack_bits_spec(vals@, b as int),
{
    let ghost o0 = out@;
    let ghost p = pack_bits_spec(vals@, b as int);
    let nbytes = vals.len() * b / 8;
    let mut k: usize = 0;
    while k < nbytes
        invariant
            0 < b <= 32,
            (vals.len() * b) % 8 == 0,
            vals.len() * b < 0x1_0000_0000,
            nbytes == vals.len() * b / 8,
            p == pack_bits_spec(vals@, b as int),
            k <= nbytes,
            out@ == o0 + p.take(k as int),
        decreases nbytes - k,
    {
        let j = 8 * k;
        let byte = coeff_bit_exec(vals, b, j) | (coeff_bit_exec(vals, b, j + 1) << 1u8) | (
        coeff_bit_exec(vals, b, j + 2) << 2u8) | (coeff_bit_exec(vals, b, j + 3) << 3u8) | (
        coeff_bit_exec(vals, b, j + 4) << 4u8) | (coeff_bit_exec(vals, b, j + 5) << 5u8) | (
        coeff_bit_exec(vals, b, j + 6) << 6u8) | (coeff_bit_exec(vals, b, j + 7) << 7u8);
        out.push(byte);
        assert(o0 + p.take(k + 1) =~= (o0 + p.take(k as int)).push(p[k as int]));
        k += 1;
    }
    assert(p.take(nbytes as int) =~= p);
}

fn byte_bit_exec(bytes: &Vec<u8>, off: usize, j: usize) -> (r: u32)
    requires
        off + j / 8 < bytes.len(),
    ensures
        r == byte_bit(bytes@.subrange(off as int, bytes.len() as int), j as int),
{
    ((bytes[off + j / 8] >> ((j % 8) as u8)) & 1) as u32
}

/// Unpacks `n` coefficients of `b` bits each from the bytes of `bytes` starting at `off`.
pub fn unpack_bits(bytes: &Vec<u8>, off: usize, b: usize, n: usize) -> (vals: Vec<u32>)
    requires
        0 < b <= 32,
        (n * b) % 8 == 0,
        n * b < 0x1_0000_0000,
        off + n * b / 8 <= bytes.len(),
    ensures
        vals@ == unpack_bits_spec(bytes@.subrange(off as int, bytes.len() as int), b as int, n as nat),
        vals.len() == n,
{
    let ghost sub = bytes@.subrange(off as int, bytes.len() as int);
    let mut vals: Vec<u32> = Vec::new();
    let mut i: usize = 0;
    let mut base: usize = 0;
    while i < n
        invariant
            0 < b <= 32,
            (n * b) % 8 == 0,
            n * b < 0x1_0000_0000,
            off + n * b / 8 <= bytes.len(),
            sub == bytes@.subrange(off as int, bytes.len() as int),
            i <= n,
            base == b * i,
            vals.len() == i,
            forall|k: int| 0 <= k < i ==> #[trigger] vals@[k] == unpack_bits_spec(sub, b as int, n as nat)[k],
        decreases n - i,
    {
        assert(base + b <= n * b) by (nonlinear_arith)
            requires
                base == b * i,
                i < n,
        ;
        let mut acc: u32 = 0;
        let mut t: usize = 0;
        while t < b
            invariant
                0 < b <= 32,
                (n * b) % 8 == 0,
                n * b < 0x1_0000_0000,
                off + n * b / 8 <= bytes.len(),
                sub == bytes@.subrange(off as int, bytes.len() as int),
                base == b * i,
                base + b <= n * b,
                t <= b,
                acc == unpack_acc(sub, b as int, i as int, t as nat),
            decreases b - t,
        {
            assert((base + t) / 8 < n * b / 8) by (nonlinear_arith)
                requires
                    base + t < n * b,
                    (n * b) % 8 == 0,
            ;
            let bit = byte_bit_exec(bytes, off, base + t);
            acc = acc | (bit << (t as u32));
            t += 1;
        }
        vals.push(acc);
        assert(base + b == b * (i + 1)) by (nonlinear_arith)
            requires
                base == b * i,
        ;
        base = base + b;
        i += 1;
    }
    assert(vals@ =~= unpack_bits_spec(sub, b as int, n as nat));
    vals
}

} // verus!

verus! {

proof fn lemma_or_bit_bound(a: u32, bit: u32, s: u32)
    by (bit_vector)
    requires
        s < 31,
        a < (1u32 << s),
        bit <= 1,
    ensures
        (a | (bit << s)) < (1u32 << (s + 1)),
{
}

proof fn lemma_byte_bit_le1(x: u8, k: u8)
    by (bit_vector)
    ensures
        ((x >> k) & 1) as u32 <= 1,
{
}

/// The low `t` bits of an unpacked coefficient form a number below 2^t.
pub proof fn lemma_unpack_acc_bound(bytes: Seq<u8>, b: int, i: int, t: nat)
    requires
        t <= 31,
    ensures
        unpack_acc(bytes, b, i, t) < (1u32 << (t as u32)),
    decreases t,
{
    if t == 0 {
        assert((1u32 << 0u32) == 1) by (bit_vector);
    } else {
        let j = b * i + t - 1;
        lemma_unpack_acc_bound(bytes, b, i, (t - 1) as nat);
        lemma_byte_bit_le1(bytes[j / 8], (j % 8) as u8);
        lemma_or_bit_bound(
            unpack_acc(bytes, b, i, (t - 1) as nat),
            byte_bit(bytes, j),
            (t - 1) as u32,
        );
    }
}

/// Every unpacked `b`-bit coefficient lies below 2^b.
pub proof fn lemma_unpack_bound(bytes: Seq<u8>, b: int, n: nat)
    requires
        0 < b <= 31,
    ensures
        forall|i: int|
            0 <= i < n ==> #[trigger] unpack_bits_spec(bytes, b, n)[i] < (1u32 << (b as u32)),
{
    assert forall|i: int| 0 <= i < n implies #[trigger] unpack_bits_spec(bytes, b, n)[i] < (1u32
        << (b as u32)) by {
        lemma_unpack_acc_bound(bytes, b, i, b as nat);
    }
}

} // verus!

verus! {

proof fn lemma_byte_bits(c0: u8, c1: u8, c2: u8, c3: u8, c4: u8, c5: u8, c6: u8, c7: u8)
    by (bit_vector)
    requires
        c0 <= 1,
        c1 <= 1,
        c2 <= 1,
        c3 <= 1,
        c4 <= 1,
        c5 <= 1,
        c6 <= 1,
        c7 <= 1,
    ensures
        (((c0 | (c1 << 1u8) | (c2 << 2u8) | (c3 << 3u8) | (c4 << 4u8) | (c5 << 5u8) | (c6 << 6u8)
            | (c7 << 7u8)) >> 0u8) & 1) as u32 == c0 as u32,
        (((c0 | (c1 << 1u8) | (c2 << 2u8) | (c3 << 3u8) | (c4 << 4u8) | (c5 << 5u8) | (c6 << 6u8)
            | (c7 << 7u8)) >> 1u8) & 1) as u32 == c1 as u32,
        (((c0 | (c1 << 1u8) | (c2 << 2u8) | (c3 << 3u8) | (c4 << 4u8) | (c5 << 5u8) | (c6 << 6u8)
            | (c7 << 7u8)) >> 2u8) & 1) as u32 == c2 as u32,
        (((c0 | (c1 << 1u8) | (c2 << 2u8) | (c3 << 3u8) | (c4 << 4u8) | (c5 << 5u8) | (c6 << 6u8)
            | (c7 << 7u8)) >> 3u8) & 1) as u32 == c3 as u32,
        (((c0 | (c1 << 1u8) | (c2 << 2u8) | (c3 << 3u8) | (c4 << 4u8) | (c5 << 5u8) | (c6 << 6u8)
            | (c7 << 7u8)) >> 4u8) & 1) as u32 == c4 as u32,
        (((c0 | (c1 << 1u8) | (c2 << 2u8) | (c3 << 3u8) | (c4 << 4u8) | (c5 << 5u8) | (c6 << 6u8)
            | (c7 << 7u8)) >> 5u8) & 1) as u32 == c5 as u32,
        (((c0 | (c1 << 1u8) | (c2 << 2u8) | (c3 << 3u8) | (c4 << 4u8) | (c5 << 5u8) | (c6 << 6u8)
            | (c7 << 7u8)) >> 6u8) & 1) as u32 == c6 as u32,
        (((c0 | (c1 << 1u8) | (c2 << 2u8) | (c3 << 3u8) | (c4 << 4u8) | (c5 << 5u8) | (c6 << 6u8)
            | (c7 << 7u8)) >> 7u8) & 1) as u32 == c7 as u32,
{
}

proof fn lemma_u32_bit_le1(v: u32, t: u32)
    by (bit_vector)
    ensures
        ((v >> t) & 1) as u8 <= 1,
        (((v >> t) & 1) as u8) as u32 == (v >> t) & 1,
{
}

proof fn lemma_coeff_bit_le1(vals: Seq<u32>, b: int, j: int)
    ensures
        coeff_bit(vals, b, j) <= 1,
{
    lemma_u32_bit_le1(vals[j / b], (j % b) as u32);
}

/// Reading bit j of a packed string gives bit j of the coefficient string.
pub proof fn lemma_pack_byte_bit(vals: Seq<u32>, b: int, j: int)
    requires
        0 < b <= 32,
        0 <= j,
        j / 8 < vals.len() * b / 8,
    ensures
        byte_bit(pack_bits_spec(vals, b), j) == coeff_bit(vals, b, j) as u32,
{
    let k = j / 8;
    let t = j % 8;
    let p = pack_bits_spec(vals, b);
    assert(p[k] == pack_byte(vals, b, k));
    lemma_coeff_bit_le1(vals, b, 8 * k);
    lemma_coeff_bit_le1(vals, b, 8 * k + 1);
    lemma_coeff_bit_le1(vals, b, 8 * k + 2);
    lemma_coeff_bit_le1(vals, b, 8 * k + 3);
    lemma_coeff_bit_le1(vals, b, 8 * k + 4);
    lemma_coeff_bit_le1(vals, b, 8 * k + 5);
    lemma_coeff_bit_le1(vals, b, 8 * k + 6);
    lemma_coeff_bit_le1(vals, b, 8 * k + 7);
    lemma_byte_bits(
        coeff_bit(vals, b, 8 * k),
        coeff_bit(vals, b, 8 * k + 1),
        coeff_bit(vals, b, 8 * k + 2),
        coeff_bit(vals, b, 8 * k + 3),
        coeff_bit(vals, b, 8 * k + 4),
        coeff_bit(vals, b, 8 * k + 5),
        coeff_bit(vals, b, 8 * k + 6),
        coeff_bit(vals, b, 8 * k + 7),
    );
    assert(j == 8 * k + t);
    if t == 0 {
        assert(coeff_bit(vals, b, j) == coeff_bit(vals, b, 8 * k));
    } else if t == 1 {
        assert(coeff_bit(vals, b, j) == coeff_bit(vals, b, 8 * k + 1));
    } else if t == 2 {
        assert(coeff_bit(vals, b, j) == coeff_bit(vals, b, 8 * k + 2));
    } else if t == 3 {
        assert(coeff_bit(vals, b, j) == coeff_bit(vals, b, 8 * k + 3));
    } else if t == 4 {
        assert(coeff_bit(vals, b, j) == coeff_bit(vals, b, 8 * k + 4));
    } else if t == 5 {
        assert(coeff_bit(vals, b, j) == coeff_bit(vals, b, 8 * k + 5));
    } else if t == 6 {
        assert(coeff_bit(vals, b, j) == coeff_bit(vals, b, 8 * k + 6));
    } else {
        assert(coeff_bit(vals, b, j) == coeff_bit(vals, b, 8 * k + 7));
    }
}

proof fn lemma_low_bits_step(v: u32, s: u32)
    by (bit_vector)
    requires
        s < 31,
    ensures
        (v & (((1u32 << s) - 1) as u32)) | (((v >> s) & 1) << s) == v & (((1u32 << (s + 1)) - 1) as u32),
{
}

proof fn lemma_low_bits_all(v: u32, b: u32)
    by (bit_vector)
    requires
        0 < b < 32,
        v < (1u32 << b),
    ensures
        v & (((1u32 << b) - 1) as u32) == v,
{
}

/// The low t bits of a coefficient, gathered from its packing, are v & (2^t - 1).
proof fn lemma_unpack_acc_of_pack(vals: Seq<u32>, b: int, i: int, t: nat)
    requires
        0 < b <= 31,
        0 <= i < vals.len(),
        t <= b,
        (vals.len() * b) % 8 == 0,
    ensures
        unpack_acc(pack_bits_spec(vals, b), b, i, t) == vals[i] & (((1u32 << (t as u32)) - 1) as u32),
    decreases t,
{
    let v = vals[i];
    if t == 0 {
        assert(v & (((1u32 << 0u32) - 1) as u32) == 0) by (bit_vector);
    } else {
        let s = (t - 1) as nat;
        lemma_unpack_acc_of_pack(vals, b, i, s);
        let j = b * i + s;
        assert(j / b == i && j % b == s) by {
            assert(j == i * b + s) by (nonlinear_arith)
                requires
                    j == b * i + s,
            ;
            vstd::arithmetic::div_mod::lemma_fundamental_div_mod_converse(j, b, i, s as int);
        }
        assert(0 <= j && j / 8 < vals.len() * b / 8) by (nonlinear_arith)
            requires
                j == b * i + s,
                0 <= i < vals.len(),
                s < b,
                0 < b,
                (vals.len() * b) % 8 == 0,
        {
            assert(j < vals.len() * b) by (nonlinear_arith)
                requires
                    j == b * i + s,
                    i + 1 <= vals.len(),
                    s < b,
                    0 < b,
            {
                assert(b * i + b <= b * vals.len());
            }
        }
        lemma_pack_byte_bit(vals, b, j);
        lemma_u32_bit_le1(v, s as u32);
        lemma_low_bits_step(v, s as u32);
    }
}

/// Unpacking a packing returns the coefficients, when each fits in `b` bits.
pub proof fn lemma_unpack_pack(vals: Seq<u32>, b: int)
    requires
        0 < b <= 31,
        (vals.len() * b) % 8 == 0,
        forall|i: int| 0 <= i < vals.len() ==> #[trigger] vals[i] < (1u32 << (b as u32)),
    ensures
        unpack_bits_spec(pack_bits_spec(vals, b), b, vals.len()) == vals,
{
    assert forall|i: int| 0 <= i < vals.len() implies #[trigger] unpack_bits_spec(
        pack_bits_spec(vals, b),
        b,
        vals.len(),
    )[i] == vals[i] by {
        lemma_unpack_acc_of_pack(vals, b, i, b as nat);
        lemma_low_bits_all(vals[i], b as u32);
    }
    assert(unpack_bits_spec(pack_bits_spec(vals, b), b, vals.len()) =~= vals);
}

/// Unpacking `n` coefficients only reads the first n * b / 8 bytes.
pub proof fn lemma_unpack_prefix(x: Seq<u8>, y: Seq<u8>, b: int, n: nat)
    requires
        0 < b,
        (n * b) % 8 == 0,
        n * b / 8 <= x.len(),
        n * b / 8 <= y.len(),
        forall|k: int| 0 <= k < n * b / 8 ==> x[k] == y[k],
    ensures
        unpack_bits_spec(x, b, n) == unpack_bits_spec(y, b, n),
{
    assert forall|i: int| 0 <= i < n implies #[trigger] unpack_bits_spec(x, b, n)[i]
        == unpack_bits_spec(y, b, n)[i] by {
        lemma_unpack_acc_prefix(x, y, b, n, i, b as nat);
    }
    assert(unpack_bits_spec(x, b, n) =~= unpack_bits_spec(y, b, n));
}

proof fn lemma_unpack_acc_prefix(x: Seq<u8>, y: Seq<u8>, b: int, n: nat, i: int, t: nat)
    requires
        0 < b,
        (n * b) % 8 == 0,
        0 <= i < n,
        t <= b,
        forall|k: int| 0 <= k < n * b / 8 ==> x[k] == y[k],
    ensures
        unpack_acc(x, b, i, t) == unpack_acc(y, b, i, t),
    decreases t,
{
    if t > 0 {
        lemma_unpack_acc_prefix(x, y, b, n, i, (t - 1) as nat);
        let j = b * i + t - 1;
        assert(0 <= j / 8 < n * b / 8) by (nonlinear_arith)
            requires
                j == b * i + t - 1,
                0 <= i < n,
                0 < t <= b,
                (n * b) % 8 == 0,
        {
            assert(j < n * b) by (nonlinear_arith)
                requires
                    j == b * i + t - 1,
                    i + 1 <= n,
                    t <= b,
                    0 < b,
            {
                assert(b * i + b <= b * n);
            }
        }
    }
}

} // verus!

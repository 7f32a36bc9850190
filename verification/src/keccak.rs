use vstd::prelude::*;

verus! {

/// Round constants of Keccak-f[1600].
pub const KECCAK_RC: [u64; 24] = [
    0x0000000000000001, 0x0000000000008082, 0x800000000000808a, 0x8000000080008000,
    0x000000000000808b, 0x0000000080000001, 0x8000000080008081, 0x8000000000008009,
    0x000000000000008a, 0x0000000000000088, 0x0000000080008009, 0x000000008000000a,
    0x000000008000808b, 0x800000000000008b, 0x8000000000008089, 0x8000000000008003,
    0x8000000000008002, 0x8000000000000080, 0x000000000000800a, 0x800000008000000a,
    0x8000000080008081, 0x8000000000008080, 0x0000000080000001, 0x8000000080008008,
];

/// Rotation offsets of the rho step, indexed by lane x + 5 * y.
pub const KECCAK_RHO: [u32; 25] = [
    0, 1, 62, 28, 27, 36, 44, 6, 55, 20, 3, 10, 43, 25, 39, 41, 45, 15, 21, 8, 18, 2, 61, 56, 14,
];

/// Rate in bytes of SHAKE128.
pub const SHAKE128_RATE: usize = 168;

/// Rate in bytes of SHAKE256.
pub const SHAKE256_RATE: usize = 136;

/// Rotation of a lane to the left by `n` bits (taken modulo 64).
pub open spec fn rotl_spec(x: u64, n: u32) -> u64 {
    let m = n % 64;
    if m == 0 {
        x
    } else {
        (x << m) | (x >> ((64 - m) as u32))
    }
}

/// Column parity of column `x` (theta step).
pub open spec fn column_spec(a: Seq<u64>, x: int) -> u64 {
    a[x] ^ a[x + 5] ^ a[x + 10] ^ a[x + 15] ^ a[x + 20]
}

/// The theta step of Keccak-f.
pub open spec fn theta_spec(a: Seq<u64>) -> Seq<u64> {
    Seq::new(
        25,
        |i: int|
            a[i] ^ (column_spec(a, (i % 5 + 4) % 5) ^ rotl_spec(
                column_spec(a, (i % 5 + 1) % 5),
                1,
            )),
    )
}

/// The rho and pi steps of Keccak-f: lane (y, 2x + 3y) receives lane (x, y) rotated.
pub open spec fn rho_pi_spec(a: Seq<u64>) -> Seq<u64> {
    Seq::new(
        25,
        |i: int|
            {
                let src = (i % 5 + 3 * (i / 5)) % 5 + 5 * (i % 5);
                rotl_spec(a[src], KECCAK_RHO[src])
            },
    )
}

/// The chi step of Keccak-f.
pub open spec fn chi_spec(b: Seq<u64>) -> Seq<u64> {
    Seq::new(
        25,
        |i: int|
            b[i] ^ (!b[(i % 5 + 1) % 5 + 5 * (i / 5)] & b[(i % 5 + 2) % 5 + 5 * (i / 5)]),
    )
}

/// One round of Keccak-f; iota adds the round constant to lane 0.
pub open spec fn round_spec(a: Seq<u64>, r: int) -> Seq<u64> {
    let c = chi_spec(rho_pi_spec(theta_spec(a)));
    c.update(0, c[0] ^ KECCAK_RC[r])
}

/// The first `n` rounds of Keccak-f.
pub open spec fn rounds_spec(a: Seq<u64>, n: nat) -> Seq<u64>
    decreases n,
{
    if n == 0 {
        a
    } else {
        round_spec(rounds_spec(a, (n - 1) as nat), n - 1)
    }
}

/// The permutation Keccak-f[1600] on 25 lanes.
pub open spec fn keccak_f_spec(a: Seq<u64>) -> Seq<u64> {
    rounds_spec(a, 24)
}

fn rotl(x: u64, n: u32) -> (r: u64)
    ensures
        r == rotl_spec(x, n),
{
    let m = n % 64;
    if m == 0 {
        x
    } else {
        (x << m) | (x >> (64 - m))
    }
}

fn theta(a: &Vec<u64>) -> (r: Vec<u64>)
    requires
        a.len() == 25,
    ensures
        r@ == theta_spec(a@),
{
    let mut c: Vec<u64> = Vec::new();
    let mut x: usize = 0;
    while x < 5
        invariant
            a.len() == 25,
            x <= 5,
            c.len() == x,
            forall|j: int| 0 <= j < x ==> #[trigger] c@[j] == column_spec(a@, j),
        decreases 5 - x,
    {
        c.push(a[x] ^ a[x + 5] ^ a[x + 10] ^ a[x + 15] ^ a[x + 20]);
        x += 1;
    }
    let mut r: Vec<u64> = Vec::new();
    let mut i: usize = 0;
    while i < 25
        invariant
            a.len() == 25,
            c.len() == 5,
            forall|j: int| 0 <= j < 5 ==> #[trigger] c@[j] == column_spec(a@, j),
            i <= 25,
            r.len() == i,
            forall|j: int| 0 <= j < i ==> #[trigger] r@[j] == theta_spec(a@)[j],
        decreases 25 - i,
    {
        let d = c[(i % 5 + 4) % 5] ^ rotl(c[(i % 5 + 1) % 5], 1);
        r.push(a[i] ^ d);
        i += 1;
    }
    assert(r@ =~= theta_spec(a@));
    r
}

fn rho_pi(a: &Vec<u64>) -> (r: Vec<u64>)
    requires
        a.len() == 25,
    ensures
        r@ == rho_pi_spec(a@),
{
    let mut r: Vec<u64> = Vec::new();
    let mut i: usize = 0;
    while i < 25
        invariant
            a.len() == 25,
            i <= 25,
            r.len() == i,
            forall|j: int| 0 <= j < i ==> #[trigger] r@[j] == rho_pi_spec(a@)[j],
        decreases 25 - i,
    {
        let src = (i % 5 + 3 * (i / 5)) % 5 + 5 * (i % 5);
        r.push(rotl(a[src], KECCAK_RHO[src]));
        i += 1;
    }
    assert(r@ =~= rho_pi_spec(a@));
    r
}

fn chi(b: &Vec<u64>) -> (r: Vec<u64>)
    requires
        b.len() == 25,
    ensures
        r@ == chi_spec(b@),
{
    let mut r: Vec<u64> = Vec::new();
    let mut i: usize = 0;
    while i < 25
        invariant
            b.len() == 25,
            i <= 25,
            r.len() == i,
            forall|j: int| 0 <= j < i ==> #[trigger] r@[j] == chi_spec(b@)[j],
        decreases 25 - i,
    {
        let row = 5 * (i / 5);
        r.push(b[i] ^ (!b[(i % 5 + 1) % 5 + row] & b[(i % 5 + 2) % 5 + row]));
        i += 1;
    }
    assert(r@ =~= chi_spec(b@));
    r
}

fn keccak_round(a: &Vec<u64>, r: usize) -> (c: Vec<u64>)
    requires
        a.len() == 25,
        r < 24,
    ensures
        c@ == round_spec(a@, r as int),
        c.len() == 25,
{
    let t = theta(a);
    let p = rho_pi(&t);
    let mut c = chi(&p);
    let c0 = c[0] ^ KECCAK_RC[r];
    c[0] = c0;
    c
}

/// The permutation Keccak-f[1600], in place.
pub fn keccak_f(st: &mut Vec<u64>)
    requires
        old(st).len() == 25,
    ensures
        final(st)@ == keccak_f_spec(old(st)@),
        final(st).len() == 25,
{
    let ghost a0 = st@;
    let mut r: usize = 0;
    while r < 24
        invariant
            r <= 24,
            st.len() == 25,
            st@ == rounds_spec(a0, r as nat),
        decreases 24 - r,
    {
        let c = keccak_round(st, r);
        *st = c;
        r += 1;
    }
}

/// Little-endian 64-bit word from the eight bytes at `p`.
pub open spec fn load64_spec(b: Seq<u8>, p: int) -> u64 {
    (b[p] as u64) | ((b[p + 1] as u64) << 8u64) | ((b[p + 2] as u64) << 16u64) | ((b[p + 3] as u64)
        << 24u64) | ((b[p + 4] as u64) << 32u64) | ((b[p + 5] as u64) << 40u64) | ((b[p + 6] as u64)
        << 48u64) | ((b[p + 7] as u64) << 56u64)
}

fn load64(b: &Vec<u8>, p: usize) -> (r: u64)
    requires
        p + 8 <= b.len(),
    ensures
        r == load64_spec(b@, p as int),
{
    (b[p] as u64) | ((b[p + 1] as u64) << 8u64) | ((b[p + 2] as u64) << 16u64) | ((b[p + 3] as u64)
        << 24u64) | ((b[p + 4] as u64) << 32u64) | ((b[p + 5] as u64) << 40u64) | ((b[p + 6] as u64)
        << 48u64) | ((b[p + 7] as u64) << 56u64)
}

/// The two sponge rates used here.
pub open spec fn is_rate(rate: int) -> bool {
    rate == 168 || rate == 136
}

/// XOR of one rate-sized block, read from `bytes` at offset `off`, into the state.
pub open spec fn xor_block_spec(s: Seq<u64>, bytes: Seq<u8>, off: int, rate: int) -> Seq<u64> {
    Seq::new(
        25,
        |i: int|
            if i < rate / 8 {
                s[i] ^ load64_spec(bytes, off + 8 * i)
            } else {
                s[i]
            },
    )
}

/// Length of the padded input: the least multiple of the rate above the input length.
pub open spec fn padded_len(len: int, rate: int) -> int {
    (len / rate + 1) * rate
}

/// SHAKE padding (domain bits 1111, then pad10*1) of `input` to a multiple of the rate.
pub open spec fn pad_spec(input: Seq<u8>, rate: int) -> Seq<u8> {
    let plen = padded_len(input.len() as int, rate);
    Seq::new(
        plen as nat,
        |i: int|
            if i < input.len() {
                input[i]
            } else {
                (if i == input.len() {
                    0x1Fu8
                } else {
                    0u8
                }) | (if i == plen - 1 {
                    0x80u8
                } else {
                    0u8
                })
            },
    )
}

/// Absorbing the blocks of `padded` from offset `off` on into the state `s`.
pub open spec fn absorb_from(s: Seq<u64>, padded: Seq<u8>, off: int, rate: int) -> Seq<u64>
    decreases padded.len() - off,
{
    if rate <= 0 || off < 0 || off + rate > padded.len() {
        s
    } else {
        absorb_from(keccak_f_spec(xor_block_spec(s, padded, off, rate)), padded, off + rate, rate)
    }
}

/// The all-zero state.
pub open spec fn zero_state() -> Seq<u64> {
    Seq::new(25, |i: int| 0u64)
}

/// The sponge state after absorbing `input` with the given rate.
pub open spec fn absorb_spec(input: Seq<u8>, rate: int) -> Seq<u64> {
    absorb_from(zero_state(), pad_spec(input, rate), 0, rate)
}

/// The first `rate` bytes of the state, lanes in little-endian order.
pub open spec fn state_bytes(s: Seq<u64>, rate: int) -> Seq<u8> {
    Seq::new(rate as nat, |i: int| (s[i / 8] >> ((8 * (i % 8)) as u64)) as u8)
}

/// `n` output blocks squeezed from state `s`, permuting between blocks.
pub open spec fn squeeze_from(s: Seq<u64>, rate: int, n: nat) -> Seq<u8>
    decreases n,
{
    if n == 0 {
        Seq::empty()
    } else {
        state_bytes(s, rate) + squeeze_from(keccak_f_spec(s), rate, (n - 1) as nat)
    }
}

/// The first `n` blocks of the output stream of SHAKE with the given rate on `input`.
pub open spec fn shake_blocks(input: Seq<u8>, rate: int, n: nat) -> Seq<u8> {
    squeeze_from(absorb_spec(input, rate), rate, n)
}

/// The first `outlen` bytes of SHAKE (rate 168: SHAKE128; rate 136: SHAKE256) on `input`.
pub open spec fn shake_spec(input: Seq<u8>, rate: int, outlen: nat) -> Seq<u8> {
    shake_blocks(input, rate, (outlen / (rate as nat) + 1) as nat).take(outlen as int)
}

fn pad(input: &Vec<u8>, rate: usize) -> (p: Vec<u8>)
    requires
        is_rate(rate as int),
        input.len() + 2 * rate <= usize::MAX,
    ensures
        p@ == pad_spec(input@, rate as int),
{
    let len = input.len();
    let plen = (len / rate + 1) * rate;
    let mut p: Vec<u8> = Vec::new();
    let mut i: usize = 0;
    while i < plen
        invariant
            is_rate(rate as int),
            len == input.len(),
            plen == padded_len(len as int, rate as int),
            i <= plen,
            p.len() == i,
            forall|j: int| 0 <= j < i ==> #[trigger] p@[j] == pad_spec(input@, rate as int)[j],
        decreases plen - i,
    {
        if i < len {
            p.push(input[i]);
        } else {
            let b = (if i == len {
                0x1Fu8
            } else {
                0u8
            }) | (if i == plen - 1 {
                0x80u8
            } else {
                0u8
            });
            p.push(b);
        }
        i += 1;
    }
    assert(p@ =~= pad_spec(input@, rate as int));
    p
}

fn xor_block(st: &mut Vec<u64>, bytes: &Vec<u8>, off: usize, rate: usize)
    requires
        old(st).len() == 25,
        is_rate(rate as int),
        off + rate <= bytes.len(),
    ensures
        final(st)@ == xor_block_spec(old(st)@, bytes@, off as int, rate as int),
{
    let ghost s0 = st@;
    let mut i: usize = 0;
    while i < 25
        invariant
            is_rate(rate as int),
            off + rate <= bytes.len(),
            s0.len() == 25,
            st.len() == 25,
            i <= 25,
            forall|j: int|
                0 <= j < i ==> #[trigger] st@[j] == xor_block_spec(s0, bytes@, off as int, rate as int)[j],
            forall|j: int| i <= j < 25 ==> #[trigger] st@[j] == s0[j],
        decreases 25 - i,
    {
        if i < rate / 8 {
            let v = st[i] ^ load64(bytes, off + 8 * i);
            st[i] = v;
        }
        i += 1;
    }
    assert(st@ =~= xor_block_spec(s0, bytes@, off as int, rate as int));
}

/// Absorbs `input` (padded) into a fresh sponge state.
pub fn absorb(input: &Vec<u8>, rate: usize) -> (st: Vec<u64>)
    requires
        is_rate(rate as int),
        input.len() + 2 * rate <= usize::MAX,
    ensures
        st@ == absorb_spec(input@, rate as int),
        st.len() == 25,
{
    let p = pad(input, rate);
    assert(p.len() <= input.len() + rate) by (nonlinear_arith)
        requires
            is_rate(rate as int),
            p.len() == padded_len(input.len() as int, rate as int),
    ;
    let mut st: Vec<u64> = vec![0u64; 25];
    assert(st@ =~= zero_state());
    let mut off: usize = 0;
    while off + rate <= p.len()
        invariant
            is_rate(rate as int),
            p@ == pad_spec(input@, rate as int),
            p.len() <= input.len() + rate,
            input.len() + 2 * rate <= usize::MAX,
            st.len() == 25,
            off <= p.len(),
            absorb_from(st@, p@, off as int, rate as int) == absorb_spec(input@, rate as int),
        decreases p.len() - off,
    {
        xor_block(&mut st, &p, off, rate);
        keccak_f(&mut st);
        off = off + rate;
    }
    st
}

/// Appends one block of output (the first `rate` state bytes) to `out`, then permutes.
pub fn squeeze_block(st: &mut Vec<u64>, rate: usize, out: &mut Vec<u8>)
    requires
        old(st).len() == 25,
        is_rate(rate as int),
    ensures
        final(st).len() == 25,
        final(st)@ == keccak_f_spec(old(st)@),
        final(out)@ == old(out)@ + state_bytes(old(st)@, rate as int),
{
    let ghost o0 = out@;
    let mut i: usize = 0;
    while i < rate
        invariant
            is_rate(rate as int),
            st.len() == 25,
            i <= rate,
            out@ == o0 + state_bytes(st@, rate as int).take(i as int),
        decreases rate - i,
    {
        let sh: u64 = (8 * (i % 8)) as u64;
        out.push((st[i / 8] >> sh) as u8);
        assert(o0 + state_bytes(st@, rate as int).take(i + 1) =~= (o0 + state_bytes(
            st@,
            rate as int,
        ).take(i as int)).push(state_bytes(st@, rate as int)[i as int]));
        i += 1;
    }
    assert(state_bytes(st@, rate as int).take(rate as int) =~= state_bytes(st@, rate as int));
    assert(out@ =~= o0 + state_bytes(st@, rate as int));
    keccak_f(st);
}

/// The first `nblocks` output blocks of SHAKE on `input`.
pub fn shake_stream(input: &Vec<u8>, rate: usize, nblocks: usize) -> (out: Vec<u8>)
    requires
        is_rate(rate as int),
        input.len() + 2 * rate <= usize::MAX,
    ensures
        out@ == shake_blocks(input@, rate as int, nblocks as nat),
{
    let mut st = absorb(input, rate);
    let mut out: Vec<u8> = Vec::new();
    let mut k: usize = 0;
    while k < nblocks
        invariant
            is_rate(rate as int),
            st.len() == 25,
            k <= nblocks,
            out@ + squeeze_from(st@, rate as int, (nblocks - k) as nat) == shake_blocks(
                input@,
                rate as int,
                nblocks as nat,
            ),
        decreases nblocks - k,
    {
        let ghost s0 = st@;
        let ghost o0 = out@;
        squeeze_block(&mut st, rate, &mut out);
        assert(squeeze_from(s0, rate as int, (nblocks - k) as nat) == state_bytes(s0, rate as int)
            + squeeze_from(st@, rate as int, (nblocks - k - 1) as nat));
        assert(out@ + squeeze_from(st@, rate as int, (nblocks - k - 1) as nat) =~= o0
            + squeeze_from(s0, rate as int, (nblocks - k) as nat));
        k += 1;
    }
    assert(out@ =~= out@ + squeeze_from(st@, rate as int, 0));
    out
}

/// SHAKE (rate 168: SHAKE128; rate 136: SHAKE256) of `input`, `outlen` bytes long.
pub fn shake(input: &Vec<u8>, rate: usize, outlen: usize) -> (out: Vec<u8>)
    requires
        is_rate(rate as int),
        input.len() + 2 * rate <= usize::MAX,
        outlen <= 0x1_0000_0000,
    ensures
        out@ == shake_spec(input@, rate as int, outlen as nat),
        out.len() == outlen,
{
    let nblocks = outlen / rate + 1;
    let mut out = shake_stream(input, rate, nblocks);
    proof {
        lemma_squeeze_len(absorb_spec(input@, rate as int), rate as int, nblocks as nat);
        assert(nblocks * rate >= outlen) by (nonlinear_arith)
            requires
                nblocks == outlen / rate + 1,
                rate > 0,
        ;
    }
    out.truncate(outlen);
    out
}

/// The squeezed stream has `n` full blocks.
pub proof fn lemma_squeeze_len(s: Seq<u64>, rate: int, n: nat)
    requires
        rate >= 0,
    ensures
        squeeze_from(s, rate, n).len() == n * rate,
    decreases n,
{
    if n > 0 {
        let m = (n - 1) as nat;
        lemma_squeeze_len(keccak_f_spec(s), rate, m);
        assert(n * rate == rate + m * rate) by (nonlinear_arith)
            requires
                n == m + 1,
        ;
        assert(state_bytes(s, rate).len() == rate);
        assert(squeeze_from(s, rate, n) == state_bytes(s, rate) + squeeze_from(
            keccak_f_spec(s),
            rate,
            m,
        ));
    } else {
        assert(n * rate == 0) by (nonlinear_arith)
            requires
                n == 0,
        ;
    }
}

} // verus!

verus! {

/// SHAKE returns exactly the requested number of bytes.
pub proof fn lemma_shake_len(input: Seq<u8>, rate: int, outlen: nat)
    requires
        is_rate(rate),
    ensures
        shake_spec(input, rate, outlen).len() == outlen,
{
    let n = (outlen / (rate as nat) + 1) as nat;
    lemma_squeeze_len(absorb_spec(input, rate), rate, n);
    assert(n * rate >= outlen) by (nonlinear_arith)
        requires
            n == outlen / (rate as nat) + 1,
            rate > 0,
    ;
}

} // verus!

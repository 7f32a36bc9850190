use vstd::prelude::*;

verus! {

/// Appends the bytes of `src` to `out`.
pub fn append_bytes(out: &mut Vec<u8>, src: &[u8])
    ensures
        final(out)@ == old(out)@ + src@,
{
    let ghost o0 = out@;
    let mut i: usize = 0;
    while i < src.len()
        invariant
            i <= src@.len(),
            out@ == o0 + src@.take(i as int),
        decreases src@.len() - i,
    {
        out.push(src[i]);
        assert(o0 + src@.take(i + 1) =~= (o0 + src@.take(i as int)).push(src@[i as int]));
        i += 1;
    }
    assert(src@.take(src@.len() as int) =~= src@);
}

/// The bytes `src[from..to]` as a new vector.
pub fn sub_bytes(src: &[u8], from: usize, to: usize) -> (out: Vec<u8>)
    requires
        from <= to <= src@.len(),
    ensures
        out@ == src@.subrange(from as int, to as int),
{
    let mut out: Vec<u8> = Vec::new();
    let mut i: usize = from;
    while i < to
        invariant
            from <= i <= to <= src@.len(),
            out@ == src@.subrange(from as int, i as int),
        decreases to - i,
    {
        out.push(src[i]);
        assert(src@.subrange(from as int, i + 1) =~= src@.subrange(from as int, i as int).push(
            src@[i as int],
        ));
        i += 1;
    }
    out
}

/// Overwrites `dst[off..off + src.len()]` with the bytes of `src`.
pub fn write_bytes(dst: &mut [u8], off: usize, src: &Vec<u8>)
    requires
        off + src@.len() <= old(dst)@.len(),
    ensures
        final(dst)@ == old(dst)@.subrange(0, off as int) + src@ + old(dst)@.subrange(
            off + src@.len(),
            old(dst)@.len() as int,
        ),
{
    let ghost d0 = dst@;
    let dlen = dst.len();
    let mut i: usize = 0;
    while i < src.len()
        invariant
            dlen == d0.len(),
            off + src@.len() <= d0.len(),
            dst@.len() == d0.len(),
            i <= src@.len(),
            forall|j: int| 0 <= j < off ==> #[trigger] dst@[j] == d0[j],
            forall|j: int| 0 <= j < i ==> #[trigger] dst@[off + j] == src@[j],
            forall|j: int| off + i <= j < d0.len() ==> #[trigger] dst@[j] == d0[j],
        decreases src@.len() - i,
    {
        dst[off + i] = src[i];
        i += 1;
    }
    let ghost rhs = d0.subrange(0, off as int) + src@ + d0.subrange(
        off + src@.len(),
        d0.len() as int,
    );
    assert forall|k: int| 0 <= k < dst@.len() implies dst@[k] == rhs[k] by {
        if off <= k < off + src@.len() {
            assert(dst@[off + (k - off)] == src@[k - off]);
        }
    }
    assert(dst@ =~= d0.subrange(0, off as int) + src@ + d0.subrange(
        off + src@.len(),
        d0.len() as int,
    ));
}

/// Whether two byte strings are equal.
pub fn bytes_eq(a: &Vec<u8>, b: &Vec<u8>) -> (r: bool)
    ensures
        r == (a@ == b@),
{
    if a.len() != b.len() {
        return false;
    }
    let mut i: usize = 0;
    while i < a.len()
        invariant
            a@.len() == b@.len(),
            i <= a@.len(),
            forall|j: int| 0 <= j < i ==> a@[j] == b@[j],
        decreases a@.len() - i,
    {
        if a[i] != b[i] {
            return false;
        }
        i += 1;
    }
    assert(a@ =~= b@);
    true
}

/// The two bytes of `n`, least significant first.
pub open spec fn le16(n: u16) -> Seq<u8> {
    seq![(n % 256) as u8, (n / 256) as u8]
}

/// Appends the two bytes of `n`, least significant first.
pub fn push_le16(out: &mut Vec<u8>, n: u16)
    ensures
        final(out)@ == old(out)@ + le16(n),
{
    out.push((n % 256) as u8);
    out.push((n / 256) as u8);
    assert(final(out)@ =~= old(out)@ + le16(n));
}

} // verus!

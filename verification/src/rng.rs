use vstd::prelude::*;
use rand::RngCore;
use crate::bytes::write_bytes;

verus! {

/// Fills `buf` with bytes from the operating system's random source through
/// `rand::rngs::OsRng::try_fill_bytes`, and returns whether that source answered.
/// Nothing is claimed of the bytes written, only that the length stays.
#[verifier::external_body]
fn fill_random(buf: &mut Vec<u8>) -> (ok: bool)
    ensures
        final(buf)@.len() == old(buf)@.len(),
{
    rand::rngs::OsRng.try_fill_bytes(buf.as_mut_slice()).is_ok()
}

/// Writes `len` random bytes to the start of `out`; returns false, writing
/// nothing, when the system's random source is unavailable.
pub fn random_bytes(out: &mut [u8], len: usize) -> (ok: bool)
    requires
        len <= old(out)@.len(),
    ensures
        final(out)@.len() == old(out)@.len(),
        final(out)@.subrange(len as int, old(out)@.len() as int) == old(out)@.subrange(
            len as int,
            old(out)@.len() as int,
        ),
        !ok ==> final(out)@ == old(out)@,
{
    let mut buf: Vec<u8> = vec![0u8; len];
    if !fill_random(&mut buf) {
        return false;
    }
    let ghost o0 = out@;
    write_bytes(out, 0, &buf);
    assert(out@.subrange(len as int, o0.len() as int) =~= o0.subrange(len as int, o0.len() as int));
    true
}

} // verus!

use vstd::prelude::*;
use vstd::utf8::{decode_utf8, valid_utf8};

verus! {

/// Relies on String::from_utf8: succeeds exactly on valid UTF-8 and
/// yields the characters that the bytes encode.
#[verifier::external_body]
pub(crate) fn string_from_utf8(b: Vec<u8>) -> (r: Option<String>)
    ensures
        r is Some <==> valid_utf8(b@),
        r matches Some(s) ==> s@ == decode_utf8(b@),
{
    String::from_utf8(b).ok()
}


/// The four bytes of `x`, most significant first.
pub open spec fn be_bytes(x: u32) -> Seq<u8> {
    seq![(x >> 24u32) as u8, (x >> 16u32) as u8, (x >> 8u32) as u8, x as u8]
}

/// The integer that the first four bytes of `b` spell, most significant first.
pub open spec fn be_value(b: Seq<u8>) -> u32
    recommends
        b.len() >= 4,
{
    ((b[0] as u32) << 24u32) | ((b[1] as u32) << 16u32) | ((b[2] as u32) << 8u32) | (b[3] as u32)
}

/// Reading back the bytes of `x` gives `x`.
pub proof fn lemma_be_value_of_bytes(x: u32)
    ensures
        be_value(be_bytes(x)) == x,
{
    let a = (x >> 24u32) as u8;
    let b = (x >> 16u32) as u8;
    let c = (x >> 8u32) as u8;
    let d = x as u8;
    assert(((a as u32) << 24u32) | ((b as u32) << 16u32) | ((c as u32) << 8u32) | (d as u32) == x)
        by (bit_vector)
        requires
            a == (x >> 24u32) as u8,
            b == (x >> 16u32) as u8,
            c == (x >> 8u32) as u8,
            d == x as u8,
    ;
}

/// Appends `x` in big-endian order.
pub fn push_u32_be(out: &mut Vec<u8>, x: u32)
    ensures
        final(out)@ == old(out)@ + be_bytes(x),
{
    out.push((x >> 24) as u8);
    out.push((x >> 16) as u8);
    out.push((x >> 8) as u8);
    out.push(x as u8);
    assert(final(out)@ =~= old(out)@ + be_bytes(x));
}

/// Reads the big-endian integer at `b[at..at + 4]`.
pub fn read_u32_be(b: &[u8], at: usize) -> (r: u32)
    requires
        at + 4 <= b@.len(),
    ensures
        r == be_value(b@.subrange(at as int, at + 4)),
{
    ((b[at] as u32) << 24) | ((b[at + 1] as u32) << 16) | ((b[at + 2] as u32) << 8) | (b[at
        + 3] as u32)
}

/// Appends every byte of `src`.
pub fn push_all(out: &mut Vec<u8>, src: &[u8])
    ensures
        final(out)@ == old(out)@ + src@,
{
    let mut i: usize = 0;
    while i < src.len()
        invariant
            i <= src@.len(),
            out@ == old(out)@ + src@.subrange(0, i as int),
        decreases src@.len() - i,
    {
        out.push(src[i]);
        i = i + 1;
        assert(out@ =~= old(out)@ + src@.subrange(0, i as int));
    }
    assert(src@.subrange(0, i as int) =~= src@);
}

/// A copy of `b[lo..hi]`.
pub fn copy_range(b: &[u8], lo: usize, hi: usize) -> (r: Vec<u8>)
    requires
        lo <= hi <= b@.len(),
    ensures
        r@ == b@.subrange(lo as int, hi as int),
{
    let mut r: Vec<u8> = Vec::new();
    let mut i: usize = lo;
    while i < hi
        invariant
            lo <= i <= hi <= b@.len(),
            r@ == b@.subrange(lo as int, i as int),
        decreases hi - i,
    {
        r.push(b[i]);
        i = i + 1;
        assert(r@ =~= b@.subrange(lo as int, i as int));
    }
    r
}

} // verus!

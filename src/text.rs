use vstd::prelude::*;
use vstd::string::StringSliceAdditionalSpecFns;
use vstd::utf8::{
    encode_scalar, encode_utf8, has_width_1_encoding, has_width_2_encoding, has_width_3_encoding,
    is_continuation_byte, is_scalar, char_is_scalar,
};

verus! {

/// How many bytes of `b` start a character, that is, are not UTF-8
/// continuation bytes.
pub open spec fn char_starts(b: Seq<u8>) -> nat
    decreases b.len(),
{
    if b.len() == 0 {
        0
    } else {
        (if is_continuation_byte(b[0]) {
            0nat
        } else {
            1nat
        }) + char_starts(b.drop_first())
    }
}

proof fn lemma_char_starts_concat(a: Seq<u8>, b: Seq<u8>)
    ensures
        char_starts(a + b) == char_starts(a) + char_starts(b),
    decreases a.len(),
{
    if a.len() == 0 {
        assert(a + b =~= b);
    } else {
        lemma_char_starts_concat(a.drop_first(), b);
        assert((a + b).drop_first() =~= a.drop_first() + b);
    }
}

proof fn lemma_no_starts(b: Seq<u8>)
    requires
        forall|i: int| 0 <= i < b.len() ==> is_continuation_byte(#[trigger] b[i]),
    ensures
        char_starts(b) == 0,
    decreases b.len(),
{
    if b.len() > 0 {
        let r = b.drop_first();
        assert forall|i: int| 0 <= i < r.len() implies is_continuation_byte(#[trigger] r[i]) by {
            assert(r[i] == b[i + 1]);
        }
        lemma_no_starts(r);
    }
}

proof fn lemma_one_start(b: Seq<u8>)
    requires
        b.len() >= 1,
        !is_continuation_byte(b[0]),
        forall|i: int| 1 <= i < b.len() ==> is_continuation_byte(#[trigger] b[i]),
    ensures
        char_starts(b) == 1,
{
    let r = b.drop_first();
    assert forall|i: int| 0 <= i < r.len() implies is_continuation_byte(#[trigger] r[i]) by {
        assert(r[i] == b[i + 1]);
    }
    lemma_no_starts(r);
}

proof fn lemma_char_starts_scalar(c: u32)
    requires
        is_scalar(c),
    ensures
        char_starts(encode_scalar(c)) == 1,
{
    let e = encode_scalar(c);
    if has_width_1_encoding(c) {
        assert((c & 0x7F) as u8 <= 0x7f) by (bit_vector);
    } else if has_width_2_encoding(c) {
        assert((0xC0 | ((c >> 6) & 0x1F) as u8) >= 0xc0) by (bit_vector);
        assert(0x80 <= (0x80 | (c & 0x3F) as u8) <= 0xbf) by (bit_vector);
    } else if has_width_3_encoding(c) {
        assert((0xE0 | ((c >> 12) & 0x0F) as u8) >= 0xc0) by (bit_vector);
        assert(0x80 <= (0x80 | ((c >> 6) & 0x3F) as u8) <= 0xbf) by (bit_vector);
        assert(0x80 <= (0x80 | (c & 0x3F) as u8) <= 0xbf) by (bit_vector);
    } else {
        assert((0xF0 | ((c >> 18) & 0x7) as u8) >= 0xc0) by (bit_vector);
        assert(0x80 <= (0x80 | ((c >> 12) & 0x3F) as u8) <= 0xbf) by (bit_vector);
        assert(0x80 <= (0x80 | ((c >> 6) & 0x3F) as u8) <= 0xbf) by (bit_vector);
        assert(0x80 <= (0x80 | (c & 0x3F) as u8) <= 0xbf) by (bit_vector);
    }
    lemma_one_start(e);
}

/// Each character of a text starts exactly one byte of its UTF-8 encoding.
pub proof fn lemma_char_starts_encode(cs: Seq<char>)
    ensures
        char_starts(encode_utf8(cs)) == cs.len(),
    decreases cs.len(),
{
    if cs.len() > 0 {
        char_is_scalar(cs[0]);
        lemma_char_starts_scalar(cs[0] as u32);
        lemma_char_starts_encode(cs.drop_first());
        lemma_char_starts_concat(encode_scalar(cs[0] as u32), encode_utf8(cs.drop_first()));
    }
}

/// The number of characters of `s`.
pub fn char_count(s: &str) -> (r: usize)
    ensures
        r as int == s@.len(),
{
    let b = s.as_bytes();
    let mut n: usize = 0;
    let mut i: usize = 0;
    while i < b.len()
        invariant
            i <= b@.len(),
            n == char_starts(b@.take(i as int)),
            n <= i,
        decreases b@.len() - i,
    {
        proof {
            lemma_char_starts_concat(b@.take(i as int), seq![b@[i as int]]);
            assert(b@.take(i as int) + seq![b@[i as int]] =~= b@.take(i + 1));
            assert(seq![b@[i as int]].drop_first() =~= Seq::<u8>::empty());
            assert(char_starts(Seq::<u8>::empty()) == 0);
            assert(char_starts(seq![b@[i as int]]) == if is_continuation_byte(b@[i as int]) {
                0nat
            } else {
                1nat
            });
        }
        if !(0x80 <= b[i] && b[i] <= 0xbf) {
            n = n + 1;
        }
        i = i + 1;
    }
    proof {
        assert(b@.take(i as int) =~= b@);
        lemma_char_starts_encode(s@);
    }
    n
}

} // verus!

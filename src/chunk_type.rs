use vstd::prelude::*;
use vstd::string::StringSliceAdditionalSpecFns;
use vstd::utf8::{decode_utf8, valid_utf8};

use crate::bytes::{push_all, string_from_utf8};
use crate::text::char_count;

verus! {

/// Why a string is not a chunk type code.
#[derive(Debug, Clone, Copy, PartialEq, Eq, Structural)]
pub enum ChunkTypeError {
    /// The string is not exactly four bytes long.
    InvalidLength,
    /// A character is not an ASCII letter.
    InvalidCharacters,
}

/// An ASCII letter, `A`..=`Z` or `a`..=`z`.
pub open spec fn is_ascii_letter(b: u8) -> bool {
    (65 <= b && b <= 90) || (97 <= b && b <= 122)
}

/// Every byte is an ASCII letter.
pub open spec fn all_letters(s: Seq<u8>) -> bool {
    forall|i: int| 0 <= i < s.len() ==> is_ascii_letter(#[trigger] s[i])
}

/// An ASCII letter, as a character.
pub open spec fn is_letter_char(c: char) -> bool {
    ('A' <= c && c <= 'Z') || ('a' <= c && c <= 'z')
}

/// Every character is an ASCII letter.
pub open spec fn all_letter_chars(s: Seq<char>) -> bool {
    forall|i: int| 0 <= i < s.len() ==> is_letter_char(#[trigger] s[i])
}

/// The case bit (bit 5) of a byte is clear: upper case for a letter.
pub open spec fn case_bit_clear(b: u8) -> bool {
    b & 0x20u8 == 0
}

/// A four byte chunk type code. Each byte's case carries one property.
#[derive(Debug, PartialEq, Eq)]
pub struct ChunkType {
    pub data: [u8; 4],
}

impl View for ChunkType {
    type V = Seq<u8>;

    open spec fn view(&self) -> Seq<u8> {
        self.data@
    }
}

fn is_letter(b: u8) -> (r: bool)
    ensures
        r == is_ascii_letter(b),
{
    (65 <= b && b <= 90) || (97 <= b && b <= 122)
}

impl ChunkType {
    /// Takes four raw bytes as they are; no check on what they hold.
    pub fn try_from(value: [u8; 4]) -> (r: Result<ChunkType, ChunkTypeError>)
        ensures
            r matches Ok(t) && t@ == value@,
    {
        Ok(ChunkType { data: value })
    }

    /// Reads a type code from text: four characters, each an ASCII letter,
    /// kept with their case.
    pub fn from_str(s: &str) -> (r: Result<ChunkType, ChunkTypeError>)
        ensures
            s@.len() != 4 ==> r == Err::<ChunkType, _>(ChunkTypeError::InvalidLength),
            s@.len() == 4 && !all_letter_chars(s@) ==> r == Err::<ChunkType, _>(
                ChunkTypeError::InvalidCharacters,
            ),
            r is Ok <==> s@.len() == 4 && all_letter_chars(s@),
            r matches Ok(t) ==> t@ == s.spec_bytes() && t@ == s@.map_values(|c: char| c as u8),
    {
        if char_count(s) != 4 {
            return Err(ChunkTypeError::InvalidLength);
        }
        if !s.is_ascii() {
            proof {
                let j = choose|j: int| 0 <= j < s@.len() && !('\0' <= #[trigger] s@[j] <= '\u{7f}');
                assert(!is_letter_char(s@[j]));
            }
            return Err(ChunkTypeError::InvalidCharacters);
        }
        let b = s.as_bytes();
        proof {
            broadcast use vstd::string::is_ascii_spec_bytes;

            assert(b@ =~= Seq::new(s@.len(), |i| s@.index(i) as u8));
            assert forall|j: int| 0 <= j < 4 implies (#[trigger] is_ascii_letter(b@[j])
                <==> is_letter_char(s@[j])) by {
                assert('\0' <= s@[j] <= '\u{7f}');
                assert(b@[j] == s@[j] as u8);
            }
        }
        let mut i: usize = 0;
        while i < 4
            invariant
                b@ == s.spec_bytes(),
                b@.len() == 4,
                s@.len() == 4,
                i <= 4,
                forall|j: int| 0 <= j < 4 ==> (#[trigger] is_ascii_letter(b@[j]) <==> is_letter_char(
                    s@[j],
                )),
                forall|j: int| 0 <= j < i ==> is_letter_char(#[trigger] s@[j]),
            decreases 4 - i,
        {
            if !is_letter(b[i]) {
                assert(!is_letter_char(s@[i as int]));
                return Err(ChunkTypeError::InvalidCharacters);
            }
            assert(is_letter_char(s@[i as int]));
            i = i + 1;
        }
        let data: [u8; 4] = [b[0], b[1], b[2], b[3]];
        assert(data@ =~= b@);
        assert(b@ =~= s@.map_values(|c: char| c as u8));
        Ok(ChunkType { data })
    }

    /// The code as text; the bytes must be valid UTF-8, as four letters are.
    pub fn to_string(&self) -> (r: String)
        requires
            valid_utf8(self@),
        ensures
            r@ == decode_utf8(self@),
    {
        let mut v: Vec<u8> = Vec::new();
        push_all(&mut v, self.data.as_slice());
        match string_from_utf8(v) {
            Some(s) => s,
            None => {
                assert(false);
                String::new()
            },
        }
    }

    /// The four bytes of the code.
    pub fn bytes(&self) -> (r: [u8; 4])
        ensures
            r@ == self@,
    {
        self.data
    }

    /// Third byte upper case: the bit that the format reserves is set right.
    pub fn is_reserved_bit_valid(&self) -> (r: bool)
        ensures
            r == case_bit_clear(self@[2]),
    {
        self.data[2] & 0x20 == 0
    }

    /// First byte upper case: a decoder must understand the chunk.
    pub fn is_critical(&self) -> (r: bool)
        ensures
            r == case_bit_clear(self@[0]),
    {
        self.data[0] & 0x20 == 0
    }

    /// Second byte upper case: a publicly registered chunk type.
    pub fn is_public(&self) -> (r: bool)
        ensures
            r == case_bit_clear(self@[1]),
    {
        self.data[1] & 0x20 == 0
    }

    /// Structural validity; reads the same bit as `is_reserved_bit_valid`.
    pub fn is_valid(&self) -> (r: bool)
        ensures
            r == case_bit_clear(self@[2]),
    {
        self.is_reserved_bit_valid()
    }

    /// Fourth byte lower case: editors may copy the chunk unchanged.
    pub fn is_safe_to_copy(&self) -> (r: bool)
        ensures
            r == !case_bit_clear(self@[3]),
    {
        self.data[3] & 0x20 != 0
    }
}

} // verus!

use vstd::prelude::*;
use vstd::utf8::{decode_utf8, valid_utf8};

use crate::bytes::{
    be_bytes, be_value, copy_range, lemma_be_value_of_bytes, push_all, push_u32_be, read_u32_be,
    string_from_utf8,
};
use crate::chunk_type::{all_letters, is_ascii_letter, ChunkType};

verus! {

/// The CRC-32 (IEEE polynomial, as in zlib and PNG) of a byte sequence.
pub uninterp spec fn crc32_ieee(b: Seq<u8>) -> u32;

/// Relies on crc::crc32::checksum_ieee: the IEEE CRC-32 of the bytes.
#[verifier::external_body]
fn checksum_ieee(b: &[u8]) -> (r: u32)
    ensures
        r == crc32_ieee(b@),
{
    crc::crc32::checksum_ieee(b)
}

/// Why bytes do not start with a chunk, or a payload is not text.
#[derive(Debug, Clone, Copy, PartialEq, Eq, Structural)]
pub enum ChunkError {
    /// Fewer than four bytes for the length field.
    TruncatedLength,
    /// Fewer than four bytes for the type code.
    TruncatedType,
    /// The type code holds a byte that is not an ASCII letter.
    InvalidTypeCode,
    /// Fewer bytes than the length field announces for the payload.
    TruncatedPayload,
    /// Fewer than four bytes for the CRC.
    TruncatedCrc,
    /// The stored CRC is not the CRC of type code and payload.
    CrcMismatch,
    /// The payload is not valid UTF-8.
    InvalidUtf8,
}

/// What a chunk holds: its four fields, the type code as its bytes.
pub struct ChunkView {
    pub length: u32,
    pub chunk_type: Seq<u8>,
    pub data: Seq<u8>,
    pub crc: u32,
}

impl ChunkView {
    /// The length field counts the payload and the CRC covers type code and payload.
    pub open spec fn wf(self) -> bool {
        &&& self.chunk_type.len() == 4
        &&& self.length as int == self.data.len()
        &&& self.crc == crc32_ieee(self.chunk_type + self.data)
    }

    /// How many bytes the chunk takes on the wire.
    pub open spec fn wire_len(self) -> int {
        12 + self.length
    }
}

/// The chunk on the wire: length, type code, payload, CRC.
pub open spec fn chunk_bytes(c: ChunkView) -> Seq<u8> {
    be_bytes(c.length) + c.chunk_type + c.data + be_bytes(c.crc)
}

/// The chunk that `new` makes of a type code and a payload.
pub open spec fn new_view(chunk_type: Seq<u8>, data: Seq<u8>) -> ChunkView {
    ChunkView {
        length: data.len() as u32,
        chunk_type,
        data,
        crc: crc32_ieee(chunk_type + data),
    }
}

/// The chunk at the front of `b`, or why there is none. Bytes after it are
/// not looked at.
#[verifier::opaque]
pub open spec fn parse_chunk(b: Seq<u8>) -> Result<ChunkView, ChunkError> {
    if b.len() < 4 {
        Err(ChunkError::TruncatedLength)
    } else if b.len() < 8 {
        Err(ChunkError::TruncatedType)
    } else if !all_letters(b.subrange(4, 8)) {
        Err(ChunkError::InvalidTypeCode)
    } else {
        let len = be_value(b) as int;
        if b.len() < 8 + len {
            Err(ChunkError::TruncatedPayload)
        } else if b.len() < 12 + len {
            Err(ChunkError::TruncatedCrc)
        } else {
            let crc = be_value(b.subrange(8 + len, 12 + len));
            if crc != crc32_ieee(b.subrange(4, 8 + len)) {
                Err(ChunkError::CrcMismatch)
            } else {
                Ok(
                    ChunkView {
                        length: be_value(b),
                        chunk_type: b.subrange(4, 8),
                        data: b.subrange(8, 8 + len),
                        crc,
                    },
                )
            }
        }
    }
}

/// A chunk that parses fits in the bytes it was parsed from.
pub proof fn lemma_parse_chunk_size(b: Seq<u8>)
    ensures
        parse_chunk(b) matches Ok(c) ==> c.wire_len() <= b.len() && c.length as int == c.data.len(),
{
    reveal(parse_chunk);
}

/// A well-formed chunk whose type code is four letters parses back from
/// its bytes, whatever follows them.
pub proof fn lemma_parse_chunk_bytes(c: ChunkView, rest: Seq<u8>)
    requires
        c.wf(),
        all_letters(c.chunk_type),
    ensures
        parse_chunk(chunk_bytes(c) + rest) == Ok::<ChunkView, ChunkError>(c),
{
    reveal(parse_chunk);
    let b = chunk_bytes(c) + rest;
    let len = c.length as int;
    assert(b.subrange(0, 4) =~= be_bytes(c.length));
    assert(be_value(b) == be_value(b.subrange(0, 4)));
    lemma_be_value_of_bytes(c.length);
    assert(b.subrange(4, 8) =~= c.chunk_type);
    assert(b.subrange(8, 8 + len) =~= c.data);
    assert(b.subrange(4, 8 + len) =~= c.chunk_type + c.data);
    assert(b.subrange(8 + len, 12 + len) =~= be_bytes(c.crc));
    lemma_be_value_of_bytes(c.crc);
}

/// A changed byte in a chunk's payload, or a type code byte changed to
/// another letter, makes parsing fail with `CrcMismatch` whenever the CRC of
/// the changed type code and payload is not the stored one.
pub proof fn lemma_changed_byte_detected(c: ChunkView, i: int, v: u8)
    requires
        c.wf(),
        all_letters(c.chunk_type),
        4 <= i < 8 + c.length,
        i < 8 ==> is_ascii_letter(v),
        crc32_ieee(chunk_bytes(c).update(i, v).subrange(4, 8 + c.length)) != c.crc,
    ensures
        parse_chunk(chunk_bytes(c).update(i, v)) == Err::<ChunkView, ChunkError>(
            ChunkError::CrcMismatch,
        ),
{
    reveal(parse_chunk);
    let b = chunk_bytes(c);
    let b2 = b.update(i, v);
    let len = c.length as int;
    assert(b2.subrange(0, 4) =~= be_bytes(c.length));
    assert(be_value(b2) == be_value(b2.subrange(0, 4)));
    lemma_be_value_of_bytes(c.length);
    assert forall|j: int| 0 <= j < 4 implies is_ascii_letter(#[trigger] b2.subrange(4, 8)[j]) by {
        if j + 4 != i {
            assert(b2.subrange(4, 8)[j] == c.chunk_type[j]);
        }
    }
    assert(b2.subrange(8 + len, 12 + len) =~= be_bytes(c.crc));
    lemma_be_value_of_bytes(c.crc);
}

/// Round trip: parsing the bytes of the chunk made of a four-letter type
/// code and a payload gives that chunk back, field for field.
pub proof fn lemma_round_trip(chunk_type: Seq<u8>, data: Seq<u8>)
    requires
        chunk_type.len() == 4,
        all_letters(chunk_type),
        data.len() <= u32::MAX,
    ensures
        parse_chunk(chunk_bytes(new_view(chunk_type, data))) == Ok::<ChunkView, ChunkError>(
            new_view(chunk_type, data),
        ),
{
    let c = new_view(chunk_type, data);
    lemma_parse_chunk_bytes(c, Seq::empty());
    assert(chunk_bytes(c) + Seq::empty() =~= chunk_bytes(c));
}

/// One length-prefixed, typed, checksummed record of a PNG file.
pub struct Chunk {
    length: u32,
    chunk_type: ChunkType,
    chunk_data: Vec<u8>,
    crc: u32,
}

impl View for Chunk {
    type V = ChunkView;

    closed spec fn view(&self) -> ChunkView {
        ChunkView {
            length: self.length,
            chunk_type: self.chunk_type@,
            data: self.chunk_data@,
            crc: self.crc,
        }
    }
}

impl Chunk {
    #[verifier::type_invariant]
    spec fn inv(&self) -> bool {
        self@.wf()
    }

    /// Parses the chunk at the front of `value`, checking its CRC.
    pub fn try_from(value: &[u8]) -> (r: Result<Chunk, ChunkError>)
        ensures
            r is Ok <==> parse_chunk(value@) is Ok,
            r matches Ok(c) ==> parse_chunk(value@) == Ok::<ChunkView, ChunkError>(c@),
            r matches Err(e) ==> parse_chunk(value@) == Err::<ChunkView, ChunkError>(e),
    {
        reveal(parse_chunk);
        let n = value.len();
        if n < 4 {
            return Err(ChunkError::TruncatedLength);
        }
        if n < 8 {
            return Err(ChunkError::TruncatedType);
        }
        let type_bytes: [u8; 4] = [value[4], value[5], value[6], value[7]];
        assert(type_bytes@ =~= value@.subrange(4, 8));
        let mut i: usize = 0;
        while i < 4
            invariant
                n == value@.len(),
                n >= 8,
                type_bytes@ == value@.subrange(4, 8),
                i <= 4,
                forall|j: int| 0 <= j < i ==> is_ascii_letter(#[trigger] type_bytes@[j]),
            decreases 4 - i,
        {
            let c = type_bytes[i];
            if !((65 <= c && c <= 90) || (97 <= c && c <= 122)) {
                assert(!is_ascii_letter(value@.subrange(4, 8)[i as int]));
                reveal(parse_chunk);
                return Err(ChunkError::InvalidTypeCode);
            }
            i = i + 1;
        }
        let length = read_u32_be(value, 0);
        assert(value@.subrange(0, 4) =~= value@.take(4));
        assert(be_value(value@.subrange(0, 4)) == be_value(value@));
        let len = length as usize;
        if n - 8 < len {
            return Err(ChunkError::TruncatedPayload);
        }
        if n - 8 - len < 4 {
            return Err(ChunkError::TruncatedCrc);
        }
        let stored = read_u32_be(value, 8 + len);
        let covered = copy_range(value, 4, 8 + len);
        let computed = checksum_ieee(covered.as_slice());
        if stored != computed {
            return Err(ChunkError::CrcMismatch);
        }
        let chunk_data = copy_range(value, 8, 8 + len);
        let chunk_type = ChunkType { data: type_bytes };
        assert(value@.subrange(4, 8 + len as int) =~= chunk_type@ + chunk_data@);
        Ok(Chunk { length, chunk_type, chunk_data, crc: stored })
    }

    /// A chunk of the given type and payload; length and CRC are computed.
    pub fn new(chunk_type: ChunkType, chunk_data: Vec<u8>) -> (r: Chunk)
        requires
            chunk_data@.len() <= u32::MAX,
        ensures
            r@ == new_view(chunk_type@, chunk_data@),
    {
        let length = chunk_data.len() as u32;
        let mut covered: Vec<u8> = Vec::new();
        let tb = chunk_type.bytes();
        push_all(&mut covered, tb.as_slice());
        push_all(&mut covered, chunk_data.as_slice());
        let crc = checksum_ieee(covered.as_slice());
        Chunk { length, chunk_type, chunk_data, crc }
    }

    /// The number of payload bytes.
    pub fn length(&self) -> (r: u32)
        ensures
            r == self@.length,
            r as int == self@.data.len(),
    {
        proof {
            use_type_invariant(self);
        }
        self.length
    }

    /// The type code.
    pub fn chunk_type(&self) -> (r: &ChunkType)
        ensures
            r@ == self@.chunk_type,
    {
        &self.chunk_type
    }

    /// The payload.
    pub fn data(&self) -> (r: &[u8])
        ensures
            r@ == self@.data,
    {
        self.chunk_data.as_slice()
    }

    /// The payload read as UTF-8 text.
    pub fn data_as_string(&self) -> (r: Result<String, ChunkError>)
        ensures
            r is Ok <==> valid_utf8(self@.data),
            r matches Ok(s) ==> s@ == decode_utf8(self@.data),
            r matches Err(e) ==> e == ChunkError::InvalidUtf8,
    {
        match string_from_utf8(self.chunk_data.clone()) {
            Some(s) => Ok(s),
            None => Err(ChunkError::InvalidUtf8),
        }
    }

    /// The stored CRC.
    pub fn crc(&self) -> (r: u32)
        ensures
            r == self@.crc,
            r == crc32_ieee(self@.chunk_type + self@.data),
    {
        proof {
            use_type_invariant(self);
        }
        self.crc
    }

    /// The chunk on the wire.
    pub fn as_bytes(&self) -> (r: Vec<u8>)
        ensures
            r@ == chunk_bytes(self@),
            self@.wf(),
    {
        proof {
            use_type_invariant(self);
        }
        let mut out: Vec<u8> = Vec::new();
        push_u32_be(&mut out, self.length);
        let tb = self.chunk_type.bytes();
        push_all(&mut out, tb.as_slice());
        push_all(&mut out, self.chunk_data.as_slice());
        push_u32_be(&mut out, self.crc);
        assert(out@ =~= chunk_bytes(self@));
        out
    }
}

} // verus!

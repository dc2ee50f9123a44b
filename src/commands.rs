use vstd::prelude::*;
use vstd::string::StringSliceAdditionalSpecFns;
use vstd::utf8::{decode_utf8, encode_utf8, valid_utf8};

use crate::bytes::copy_range;
use crate::chunk::{new_view, Chunk, ChunkError, ChunkView};
use crate::chunk_type::{all_letter_chars, ChunkType, ChunkTypeError};
use crate::png::{
    first_of_type, lemma_png_round_trip, no_chunk_of_type, parsable, parse_png, png_bytes, Png,
    PngError,
};

verus! {

/// Why a command on the contents of a PNG file failed.
#[derive(Debug, Clone, Copy, PartialEq, Eq, Structural)]
pub enum CommandError {
    /// The file does not parse, or has no chunk of the type asked for.
    Png(PngError),
    /// The chunk type given is not four ASCII letters.
    ChunkType(ChunkTypeError),
    /// The chunk found does not hold text.
    Chunk(ChunkError),
    /// The message does not fit in one chunk.
    MessageTooLong,
}

/// Why text is not a chunk type code, if it is not one.
pub open spec fn type_text_error(t: Seq<char>) -> Option<ChunkTypeError> {
    if t.len() != 4 {
        Some(ChunkTypeError::InvalidLength)
    } else if !all_letter_chars(t) {
        Some(ChunkTypeError::InvalidCharacters)
    } else {
        None
    }
}

/// The file `b` with a chunk of type `t` holding `msg` added at the end.
pub open spec fn encode_spec(b: Seq<u8>, msg: Seq<u8>, t: Seq<char>) -> Result<Seq<u8>, CommandError> {
    match parse_png(b) {
        Err(e) => Err(CommandError::Png(e)),
        Ok(cs) => match type_text_error(t) {
            Some(e) => Err(CommandError::ChunkType(e)),
            None => if msg.len() > u32::MAX {
                Err(CommandError::MessageTooLong)
            } else {
                Ok(png_bytes(cs.push(new_view(encode_utf8(t), msg))))
            },
        },
    }
}

/// The text held by the first chunk of type `t` in the file `b`.
pub open spec fn decode_spec(b: Seq<u8>, t: Seq<u8>) -> Result<Seq<char>, CommandError> {
    match parse_png(b) {
        Err(e) => Err(CommandError::Png(e)),
        Ok(cs) => if no_chunk_of_type(cs, t) {
            Err(CommandError::Png(PngError::ChunkNotFound))
        } else if !valid_utf8(cs[first_of_type(cs, t)].data) {
            Err(CommandError::Chunk(ChunkError::InvalidUtf8))
        } else {
            Ok(decode_utf8(cs[first_of_type(cs, t)].data))
        },
    }
}

/// The file `b` without its first chunk of type `t`.
pub open spec fn remove_spec(b: Seq<u8>, t: Seq<u8>) -> Result<Seq<u8>, CommandError> {
    match parse_png(b) {
        Err(e) => Err(CommandError::Png(e)),
        Ok(cs) => if no_chunk_of_type(cs, t) {
            Err(CommandError::Png(PngError::ChunkNotFound))
        } else {
            Ok(png_bytes(cs.remove(first_of_type(cs, t))))
        },
    }
}

/// Encoding onto the bytes of a file whose chunks parse back gives the bytes
/// of that file with the new chunk appended after all the others.
pub proof fn lemma_encode_appends(cs: Seq<ChunkView>, msg: Seq<u8>, t: Seq<char>)
    requires
        forall|i: int| 0 <= i < cs.len() ==> parsable(#[trigger] cs[i]),
        type_text_error(t) is None,
        msg.len() <= u32::MAX,
    ensures
        encode_spec(png_bytes(cs), msg, t) == Ok::<Seq<u8>, CommandError>(
            png_bytes(cs.push(new_view(encode_utf8(t), msg))),
        ),
{
    lemma_png_round_trip(cs);
}

/// Hides `message` in a new chunk of type `chunk_type` at the end of the
/// file `png`, and returns the new file.
pub fn encode(png: &[u8], message: &str, chunk_type: &str) -> (r: Result<Vec<u8>, CommandError>)
    ensures
        r is Ok <==> encode_spec(png@, message.spec_bytes(), chunk_type@) is Ok,
        r matches Ok(v) ==> encode_spec(png@, message.spec_bytes(), chunk_type@)
            == Ok::<Seq<u8>, CommandError>(v@),
        r matches Err(e) ==> encode_spec(png@, message.spec_bytes(), chunk_type@)
            == Err::<Seq<u8>, CommandError>(e),
{
    let mut file = match Png::try_from(png) {
        Ok(p) => p,
        Err(e) => return Err(CommandError::Png(e)),
    };
    let t = match ChunkType::from_str(chunk_type) {
        Ok(t) => t,
        Err(e) => return Err(CommandError::ChunkType(e)),
    };
    let m = message.as_bytes();
    if m.len() > 0xffff_ffff {
        return Err(CommandError::MessageTooLong);
    }
    let data = copy_range(m, 0, m.len());
    assert(data@ =~= m@);
    let chunk = Chunk::new(t, data);
    file.append_chunk(chunk);
    Ok(file.as_bytes())
}

/// The message held by the first chunk of type `chunk_type` in the file `png`.
pub fn decode(png: &[u8], chunk_type: &str) -> (r: Result<String, CommandError>)
    ensures
        r is Ok <==> decode_spec(png@, chunk_type.spec_bytes()) is Ok,
        r matches Ok(s) ==> decode_spec(png@, chunk_type.spec_bytes()) == Ok::<
            Seq<char>,
            CommandError,
        >(s@),
        r matches Err(e) ==> decode_spec(png@, chunk_type.spec_bytes()) == Err::<
            Seq<char>,
            CommandError,
        >(e),
{
    let file = match Png::try_from(png) {
        Ok(p) => p,
        Err(e) => return Err(CommandError::Png(e)),
    };
    match file.chunk_by_type(chunk_type) {
        None => Err(CommandError::Png(PngError::ChunkNotFound)),
        Some(c) => match c.data_as_string() {
            Ok(s) => Ok(s),
            Err(e) => Err(CommandError::Chunk(e)),
        },
    }
}

/// The file `png` without its first chunk of type `chunk_type`.
pub fn remove(png: &[u8], chunk_type: &str) -> (r: Result<Vec<u8>, CommandError>)
    ensures
        r is Ok <==> remove_spec(png@, chunk_type.spec_bytes()) is Ok,
        r matches Ok(v) ==> remove_spec(png@, chunk_type.spec_bytes()) == Ok::<
            Seq<u8>,
            CommandError,
        >(v@),
        r matches Err(e) ==> remove_spec(png@, chunk_type.spec_bytes()) == Err::<
            Seq<u8>,
            CommandError,
        >(e),
{
    let mut file = match Png::try_from(png) {
        Ok(p) => p,
        Err(e) => return Err(CommandError::Png(e)),
    };
    match file.remove_chunk(chunk_type) {
        Ok(()) => Ok(file.as_bytes()),
        Err(e) => Err(CommandError::Png(e)),
    }
}

} // verus!

use vstd::prelude::*;
use vstd::string::StringSliceAdditionalSpecFns;

use crate::chunk::{chunk_bytes, lemma_parse_chunk_bytes, lemma_parse_chunk_size, parse_chunk, Chunk, ChunkError, ChunkView};
use crate::chunk_type::{all_letters, ChunkType};
use crate::bytes::push_all;

verus! {

/// Why bytes are not a PNG file, or a chunk is not there.
#[derive(Debug, Clone, Copy, PartialEq, Eq, Structural)]
pub enum PngError {
    /// The first eight bytes are not the PNG signature.
    InvalidSignature,
    /// A chunk does not parse.
    Chunk(ChunkError),
    /// No chunk has the type asked for.
    ChunkNotFound,
}

/// The eight bytes that open every PNG file.
pub open spec fn signature() -> Seq<u8> {
    seq![137u8, 80u8, 78u8, 71u8, 13u8, 10u8, 26u8, 10u8]
}

/// The chunks on the wire, one after the other.
pub open spec fn chunks_bytes(cs: Seq<ChunkView>) -> Seq<u8>
    decreases cs.len(),
{
    if cs.len() == 0 {
        Seq::empty()
    } else {
        chunk_bytes(cs[0]) + chunks_bytes(cs.drop_first())
    }
}

/// A whole PNG file: the signature, then the chunks.
pub open spec fn png_bytes(cs: Seq<ChunkView>) -> Seq<u8> {
    signature() + chunks_bytes(cs)
}

/// The chunks that fill `b` exactly, or the first chunk error.
pub open spec fn parse_chunks(b: Seq<u8>) -> Result<Seq<ChunkView>, ChunkError>
    decreases b.len(),
    via parse_chunks_decreases
{
    if b.len() == 0 {
        Ok(Seq::empty())
    } else {
        match parse_chunk(b) {
            Err(e) => Err(e),
            Ok(c) => match parse_chunks(b.skip(c.wire_len())) {
                Ok(rest) => Ok(seq![c] + rest),
                Err(e) => Err(e),
            },
        }
    }
}

#[via_fn]
proof fn parse_chunks_decreases(b: Seq<u8>) {
    lemma_parse_chunk_size(b);
}

/// What parsing a whole PNG file gives.
pub open spec fn parse_png(b: Seq<u8>) -> Result<Seq<ChunkView>, PngError> {
    if b.len() < 8 || b.take(8) != signature() {
        Err(PngError::InvalidSignature)
    } else {
        match parse_chunks(b.skip(8)) {
            Ok(cs) => Ok(cs),
            Err(e) => Err(PngError::Chunk(e)),
        }
    }
}

/// The index of the first chunk of type `t`, or `cs.len()` if none has it.
pub open spec fn first_of_type(cs: Seq<ChunkView>, t: Seq<u8>) -> int
    decreases cs.len(),
{
    if cs.len() == 0 {
        0
    } else if cs[0].chunk_type == t {
        0
    } else {
        1 + first_of_type(cs.drop_first(), t)
    }
}

/// No chunk has type `t`.
pub open spec fn no_chunk_of_type(cs: Seq<ChunkView>, t: Seq<u8>) -> bool {
    forall|i: int| 0 <= i < cs.len() ==> (#[trigger] cs[i]).chunk_type != t
}

/// `first_of_type` is the least index whose chunk has the type.
pub proof fn lemma_first_of_type(cs: Seq<ChunkView>, t: Seq<u8>)
    ensures
        0 <= first_of_type(cs, t) <= cs.len(),
        forall|j: int| 0 <= j < first_of_type(cs, t) ==> (#[trigger] cs[j]).chunk_type != t,
        first_of_type(cs, t) < cs.len() ==> cs[first_of_type(cs, t)].chunk_type == t,
        first_of_type(cs, t) == cs.len() <==> no_chunk_of_type(cs, t),
    decreases cs.len(),
{
    if cs.len() > 0 && cs[0].chunk_type != t {
        let rest = cs.drop_first();
        lemma_first_of_type(rest, t);
        assert forall|j: int| 0 <= j < first_of_type(cs, t) implies (#[trigger] cs[j]).chunk_type
            != t by {
            if j > 0 {
                assert(cs[j] == rest[j - 1]);
            }
        }
        if no_chunk_of_type(cs, t) {
            assert forall|i: int| 0 <= i < rest.len() implies (#[trigger] rest[i]).chunk_type
                != t by {
                assert(rest[i] == cs[i + 1]);
            }
        }
        if no_chunk_of_type(rest, t) {
            assert forall|i: int| 0 <= i < cs.len() implies (#[trigger] cs[i]).chunk_type != t by {
                if i > 0 {
                    assert(cs[i] == rest[i - 1]);
                }
            }
        }
    }
}

/// Appending a chunk appends its bytes.
pub proof fn lemma_chunks_bytes_push(cs: Seq<ChunkView>, c: ChunkView)
    ensures
        chunks_bytes(cs.push(c)) == chunks_bytes(cs) + chunk_bytes(c),
    decreases cs.len(),
{
    if cs.len() == 0 {
        assert(cs.push(c).drop_first() =~= Seq::<ChunkView>::empty());
        assert(chunks_bytes(cs.push(c).drop_first()) == Seq::<u8>::empty());
        assert(cs.push(c)[0] == c);
        assert(chunks_bytes(cs.push(c)) =~= chunks_bytes(cs) + chunk_bytes(c));
    } else {
        lemma_chunks_bytes_push(cs.drop_first(), c);
        assert(cs.push(c).drop_first() =~= cs.drop_first().push(c));
        assert(cs.push(c)[0] == cs[0]);
        assert(chunk_bytes(cs[0]) + (chunks_bytes(cs.drop_first()) + chunk_bytes(c)) =~= (
        chunk_bytes(cs[0]) + chunks_bytes(cs.drop_first())) + chunk_bytes(c));
        assert(chunks_bytes(cs.push(c)) =~= chunks_bytes(cs) + chunk_bytes(c));
    }
}

/// A chunk that parsing can give back: well formed, with a four-letter
/// type code.
pub open spec fn parsable(c: ChunkView) -> bool {
    c.wf() && all_letters(c.chunk_type)
}

/// The bytes of well-formed chunks with letter type codes parse back to
/// those chunks.
pub proof fn lemma_parse_chunks_bytes(cs: Seq<ChunkView>)
    requires
        forall|i: int| 0 <= i < cs.len() ==> parsable(#[trigger] cs[i]),
    ensures
        parse_chunks(chunks_bytes(cs)) == Ok::<Seq<ChunkView>, ChunkError>(cs),
    decreases cs.len(),
{
    if cs.len() == 0 {
        assert(chunks_bytes(cs) =~= Seq::<u8>::empty());
        assert(cs =~= Seq::<ChunkView>::empty());
    } else {
        let c = cs[0];
        let rest = cs.drop_first();
        assert(parsable(cs[0]));
        assert forall|i: int| 0 <= i < rest.len() implies parsable(#[trigger] rest[i]) by {
            assert(rest[i] == cs[i + 1]);
        }
        lemma_parse_chunks_bytes(rest);
        let b = chunks_bytes(cs);
        assert(b == chunk_bytes(c) + chunks_bytes(rest));
        lemma_parse_chunk_bytes(c, chunks_bytes(rest));
        assert(chunk_bytes(c).len() == c.wire_len());
        assert(b.skip(c.wire_len()) =~= chunks_bytes(rest));
        assert(b.len() > 0);
        assert(parse_chunk(b) == Ok::<ChunkView, ChunkError>(c));
        assert(parse_chunks(b.skip(c.wire_len())) == Ok::<Seq<ChunkView>, ChunkError>(rest));
        assert(seq![c] + rest =~= cs);
        assert(parse_chunks(b) == Ok::<Seq<ChunkView>, ChunkError>(seq![c] + rest));
    }
}

/// Serializing a file and parsing the bytes gives back the same chunks, in
/// the same order, behind the same signature.
pub proof fn lemma_png_round_trip(cs: Seq<ChunkView>)
    requires
        forall|i: int| 0 <= i < cs.len() ==> parsable(#[trigger] cs[i]),
    ensures
        parse_png(png_bytes(cs)) == Ok::<Seq<ChunkView>, PngError>(cs),
{
    lemma_parse_chunks_bytes(cs);
    let b = png_bytes(cs);
    assert(b.take(8) =~= signature());
    assert(b.skip(8) =~= chunks_bytes(cs));
}

/// Removing the first chunk of a type keeps the others in order, and an
/// append then goes after them: from `[a, b, c]`, removing the type of `b`
/// (which `a` does not have) leaves `[a, c]`, and appending `d` gives
/// `[a, c, d]`.
pub proof fn lemma_remove_then_append(
    a: ChunkView,
    b: ChunkView,
    c: ChunkView,
    d: ChunkView,
    t: Seq<u8>,
)
    requires
        a.chunk_type != t,
        b.chunk_type == t,
    ensures
        seq![a, b, c].remove(first_of_type(seq![a, b, c], t)) == seq![a, c],
        seq![a, b, c].remove(first_of_type(seq![a, b, c], t)).push(d) == seq![a, c, d],
{
    let cs = seq![a, b, c];
    assert(cs.drop_first() =~= seq![b, c]);
    assert(first_of_type(seq![b, c], t) == 0);
    assert(first_of_type(cs, t) == 1);
    assert(cs.remove(1) =~= seq![a, c]);
    assert(seq![a, c].push(d) =~= seq![a, c, d]);
}

/// A PNG file: the signature and an ordered sequence of chunks.
pub struct Png {
    chunks: Vec<Chunk>,
}

impl View for Png {
    type V = Seq<ChunkView>;

    closed spec fn view(&self) -> Seq<ChunkView> {
        self.chunks@.map_values(|c: Chunk| c@)
    }
}

/// Whether the type code's bytes are `b`.
fn type_is(t: &ChunkType, b: &[u8]) -> (r: bool)
    ensures
        r == (t@ == b@),
{
    if b.len() != 4 {
        return false;
    }
    let r = t.data[0] == b[0] && t.data[1] == b[1] && t.data[2] == b[2] && t.data[3] == b[3];
    if r {
        assert(t@ =~= b@);
    }
    r
}

impl Png {
    /// A file holding the given chunks, in order.
    pub fn from_chunks(chunks: Vec<Chunk>) -> (r: Png)
        ensures
            r@ == chunks@.map_values(|c: Chunk| c@),
    {
        Png { chunks }
    }

    /// Finds where the first chunk of type `t` is, or `len` when none has it.
    fn position_of(&self, t: &[u8]) -> (r: usize)
        ensures
            r as int == first_of_type(self@, t@),
    {
        proof {
            lemma_first_of_type(self@, t@);
        }
        let mut i: usize = 0;
        while i < self.chunks.len()
            invariant
                i <= self.chunks@.len(),
                i <= first_of_type(self@, t@),
                0 <= first_of_type(self@, t@) <= self@.len(),
                forall|j: int| 0 <= j < first_of_type(self@, t@) ==> (#[trigger] self@[j]).chunk_type
                    != t@,
                first_of_type(self@, t@) < self@.len() ==> self@[first_of_type(self@, t@)].chunk_type
                    == t@,
            decreases self.chunks@.len() - i,
        {
            assert(self@[i as int] == self.chunks@[i as int]@);
            if type_is(self.chunks[i].chunk_type(), t) {
                return i;
            }
            i = i + 1;
        }
        i
    }

    /// Parses a whole PNG file: the signature, then chunks until the bytes
    /// run out. The first chunk that does not parse fails the whole file.
    pub fn try_from(bytes: &[u8]) -> (r: Result<Png, PngError>)
        ensures
            r is Ok <==> parse_png(bytes@) is Ok,
            r matches Ok(p) ==> parse_png(bytes@) == Ok::<Seq<ChunkView>, PngError>(p@),
            r matches Err(e) ==> parse_png(bytes@) == Err::<Seq<ChunkView>, PngError>(e),
            bytes@.len() < 8 || bytes@.take(8) != signature() ==> r matches Err(
                PngError::InvalidSignature,
            ),
    {
        let sig: [u8; 8] = [137, 80, 78, 71, 13, 10, 26, 10];
        assert(sig@ =~= signature());
        if bytes.len() < 8 {
            return Err(PngError::InvalidSignature);
        }
        let mut k: usize = 0;
        while k < 8
            invariant
                bytes@.len() >= 8,
                sig@ == signature(),
                k <= 8,
                forall|j: int| 0 <= j < k ==> bytes@[j] == sig@[j],
            decreases 8 - k,
        {
            if bytes[k] != sig[k] {
                assert(bytes@.take(8)[k as int] != signature()[k as int]);
                return Err(PngError::InvalidSignature);
            }
            k = k + 1;
        }
        assert(bytes@.take(8) =~= signature());
        let mut chunks: Vec<Chunk> = Vec::new();
        let mut pos: usize = 8;
        while pos < bytes.len()
            invariant
                8 <= pos <= bytes@.len(),
                bytes@.take(8) == signature(),
                parse_chunks(bytes@.skip(8)) == match parse_chunks(bytes@.skip(pos as int)) {
                    Ok(rest) => Ok(chunks@.map_values(|c: Chunk| c@) + rest),
                    Err(e) => Err(e),
                },
            decreases bytes@.len() - pos,
        {
            let rest = vstd::slice::slice_subrange(bytes, pos, bytes.len());
            assert(rest@ =~= bytes@.skip(pos as int));
            match Chunk::try_from(rest) {
                Err(e) => {
                    return Err(PngError::Chunk(e));
                },
                Ok(c) => {
                    let ghost cv = c@;
                    proof {
                        lemma_parse_chunk_size(rest@);
                    }
                    let step = 12 + c.length() as usize;
                    proof {
                        let old_view = chunks@.map_values(|c: Chunk| c@);
                        assert(bytes@.skip(pos as int).skip(cv.wire_len()) =~= bytes@.skip(
                            pos + step,
                        ));
                        assert(old_view.push(cv) =~= chunks@.push(c).map_values(|c: Chunk| c@));
                        match parse_chunks(bytes@.skip(pos + step)) {
                            Ok(tail) => {
                                assert(old_view + (seq![cv] + tail) =~= old_view.push(cv) + tail);
                            },
                            Err(_) => {},
                        }
                    }
                    chunks.push(c);
                    pos = pos + step;
                },
            }
        }
        assert(bytes@.skip(pos as int) =~= Seq::<u8>::empty());
        assert(chunks@.map_values(|c: Chunk| c@) + Seq::<ChunkView>::empty() =~= chunks@.map_values(
            |c: Chunk| c@,
        ));
        Ok(Png { chunks })
    }

    /// The signature.
    pub fn header(&self) -> (r: [u8; 8])
        ensures
            r@ == signature(),
    {
        let r: [u8; 8] = [137, 80, 78, 71, 13, 10, 26, 10];
        assert(r@ =~= signature());
        r
    }

    /// The chunks, in order.
    pub fn chunks(&self) -> (r: &[Chunk])
        ensures
            r@.map_values(|c: Chunk| c@) == self@,
    {
        self.chunks.as_slice()
    }

    /// Adds a chunk at the end.
    pub fn append_chunk(&mut self, chunk: Chunk)
        ensures
            final(self)@ == old(self)@.push(chunk@),
    {
        let ghost c = chunk@;
        self.chunks.push(chunk);
        assert(self@ =~= old(self)@.push(c));
    }

    /// Removes the first chunk whose type code is the bytes of `chunk_type`;
    /// the others keep their order. Fails, changing nothing, when no chunk
    /// has that type.
    pub fn remove_chunk(&mut self, chunk_type: &str) -> (r: Result<(), PngError>)
        ensures
            r is Err <==> no_chunk_of_type(old(self)@, chunk_type.spec_bytes()),
            r matches Err(e) ==> e == PngError::ChunkNotFound && final(self)@ == old(self)@,
            r is Ok ==> final(self)@ == old(self)@.remove(
                first_of_type(old(self)@, chunk_type.spec_bytes()),
            ),
    {
        let t = chunk_type.as_bytes();
        proof {
            lemma_first_of_type(self@, t@);
        }
        let i = self.position_of(t);
        if i == self.chunks.len() {
            return Err(PngError::ChunkNotFound);
        }
        self.chunks.remove(i);
        assert(self@ =~= old(self)@.remove(i as int));
        Ok(())
    }

    /// The first chunk whose type code is the bytes of `chunk_type`.
    pub fn chunk_by_type(&self, chunk_type: &str) -> (r: Option<&Chunk>)
        ensures
            r is None <==> no_chunk_of_type(self@, chunk_type.spec_bytes()),
            r matches Some(c) ==> c@ == self@[first_of_type(self@, chunk_type.spec_bytes())],
    {
        let t = chunk_type.as_bytes();
        proof {
            lemma_first_of_type(self@, t@);
        }
        let i = self.position_of(t);
        if i == self.chunks.len() {
            None
        } else {
            Some(&self.chunks[i])
        }
    }

    /// The whole file on the wire: the signature, then each chunk in order.
    pub fn as_bytes(&self) -> (r: Vec<u8>)
        ensures
            r@ == png_bytes(self@),
    {
        let mut out: Vec<u8> = Vec::new();
        let sig = self.header();
        push_all(&mut out, sig.as_slice());
        let mut i: usize = 0;
        while i < self.chunks.len()
            invariant
                i <= self.chunks@.len(),
                out@ == signature() + chunks_bytes(self@.take(i as int)),
            decreases self.chunks@.len() - i,
        {
            let b = self.chunks[i].as_bytes();
            proof {
                lemma_chunks_bytes_push(self@.take(i as int), self@[i as int]);
                assert(self@.take(i as int).push(self@[i as int]) =~= self@.take(i + 1));
            }
            push_all(&mut out, b.as_slice());
            i = i + 1;
            assert(out@ =~= signature() + chunks_bytes(self@.take(i as int)));
        }
        assert(self@.take(i as int) =~= self@);
        out
    }
}

} // verus!

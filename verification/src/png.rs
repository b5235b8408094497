//! A PNG file as a sequence of chunks behind the eight-byte signature.

use crate::chunk::{
    append, declared_length, decode_chunks, lemma_chunk_round_trip, lemma_decode_step,
    lemma_frame_at_head, Chunk, ChunkView, FRAME_LEN,
};
use vstd::prelude::*;
use vstd::slice::slice_subrange;
use vstd::std_specs::convert::TryFromSpecImpl;
use vstd::string::StringSliceAdditionalSpecFns;

verus! {

/// The eight bytes that every PNG file starts with.
pub const STANDARD_HEADER: [u8; 8] = [137, 80, 78, 71, 13, 10, 26, 10];

/// Why bytes are not a PNG file, or why a PNG file could not be changed.
#[derive(Debug, Clone, Copy, PartialEq, Eq, Structural)]
pub enum PngError {
    /// The bytes do not start with the PNG signature.
    InvalidSignature,
    /// The file holds no chunk of the type asked for.
    ChunkNotFound,
}

/// The PNG signature.
pub open spec fn signature() -> Seq<u8> {
    seq![137u8, 80, 78, 71, 13, 10, 26, 10]
}

/// The type code `IEND` of the chunk that ends a PNG file.
pub open spec fn end_code() -> Seq<u8> {
    seq![73u8, 69, 78, 68]
}

/// The frames of `chunks`, one after the other.
pub open spec fn encode_chunks(chunks: Seq<ChunkView>) -> Seq<u8>
    decreases chunks.len(),
{
    if chunks.len() == 0 {
        Seq::empty()
    } else {
        chunks[0].encode() + encode_chunks(chunks.drop_first())
    }
}

/// The bytes of the file that holds `chunks`: the signature, then the frames.
pub open spec fn encode_png(chunks: Seq<ChunkView>) -> Seq<u8> {
    signature() + encode_chunks(chunks)
}

/// The chunks of the file `bytes`, or `InvalidSignature` where the bytes do
/// not start with the signature.
pub open spec fn decode_png(bytes: Seq<u8>) -> Result<Seq<ChunkView>, PngError> {
    if bytes.len() >= 8 && bytes.subrange(0, 8) == signature() {
        Ok(decode_chunks(bytes.subrange(8, bytes.len() as int)))
    } else {
        Err(PngError::InvalidSignature)
    }
}

/// Whether every chunk of `chunks` is well formed.
pub open spec fn all_wf(chunks: Seq<ChunkView>) -> bool {
    forall|i: int| 0 <= i < chunks.len() ==> (#[trigger] chunks[i]).wf()
}

/// Whether some chunk of `chunks` has the type code `code`.
pub open spec fn has_type(chunks: Seq<ChunkView>, code: Seq<u8>) -> bool {
    exists|i: int| 0 <= i < chunks.len() && (#[trigger] chunks[i]).chunk_type == code
}

/// Whether the chunk at `i` is the first of `chunks` with the type code
/// `code`.
pub open spec fn is_first_of_type(chunks: Seq<ChunkView>, code: Seq<u8>, i: int) -> bool {
    &&& 0 <= i < chunks.len()
    &&& chunks[i].chunk_type == code
    &&& forall|j: int| 0 <= j < i ==> (#[trigger] chunks[j]).chunk_type != code
}

/// The index of the first chunk of `chunks` with the type code `code`, if
/// there is one.
pub open spec fn first_of_type(chunks: Seq<ChunkView>, code: Seq<u8>) -> Option<int>
    decreases chunks.len(),
{
    if chunks.len() == 0 {
        None
    } else if chunks[0].chunk_type == code {
        Some(0)
    } else {
        match first_of_type(chunks.drop_first(), code) {
            Some(i) => Some(i + 1),
            None => None,
        }
    }
}

/// Where a new chunk goes: before the last chunk if that is an `IEND` chunk,
/// and else behind all chunks.
pub open spec fn insertion_point(chunks: Seq<ChunkView>) -> int {
    if chunks.len() > 0 && chunks.last().chunk_type == end_code() {
        chunks.len() - 1
    } else {
        chunks.len() as int
    }
}

/// `chunks` with `chunk` added at the insertion point.
pub open spec fn appended(chunks: Seq<ChunkView>, chunk: ChunkView) -> Seq<ChunkView> {
    chunks.insert(insertion_point(chunks), chunk)
}

/// The chunks of a PNG file, in their order. All of them are well formed.
#[derive(Debug)]
pub struct Png {
    chunks: Vec<Chunk>,
}

impl View for Png {
    type V = Seq<ChunkView>;

    closed spec fn view(&self) -> Seq<ChunkView> {
        self.chunks.deep_view()
    }
}

/// Tells whether `chunk` has the type code `code`.
fn has_code(chunk: &Chunk, code: &[u8]) -> (same: bool)
    ensures
        same == (chunk@.chunk_type == code@),
{
    let own = chunk.chunk_type().bytes();
    if code.len() != 4 {
        return false;
    }
    let same = own[0] == code[0] && own[1] == code[1] && own[2] == code[2] && own[3] == code[3];
    assert(same == (own@ =~= code@));
    same
}

impl Png {
    /// Whether every chunk is well formed. Every value that executable code
    /// holds is.
    #[verifier::type_invariant]
    pub open spec fn wf(self) -> bool {
        all_wf(self@)
    }

    /// Decodes a PNG file.
    ///
    /// The bytes have to start with the signature, or the answer is
    /// `InvalidSignature`. What follows is read as a run of frames, as
    /// `decode_chunks` says: a frame that is cut short or does not decode
    /// ends the run and is not reported.
    pub fn try_from(bytes: &[u8]) -> (r: Result<Png, PngError>)
        ensures
            decode_png(bytes@) matches Err(e) ==> r == Err::<Png, PngError>(e),
            decode_png(bytes@) matches Ok(chunks) ==> r is Ok && r->Ok_0@ == chunks
                && r->Ok_0.wf(),
    {
        let len = bytes.len();
        if len < 8 {
            return Err(PngError::InvalidSignature);
        }
        let mut i: usize = 0;
        while i < 8
            invariant
                i <= 8 <= len == bytes@.len(),
                forall|j: int| 0 <= j < i ==> bytes@[j] == #[trigger] signature()[j],
            decreases 8 - i,
        {
            if bytes[i] != STANDARD_HEADER[i] {
                assert(bytes@.subrange(0, 8)[i as int] != signature()[i as int]);
                return Err(PngError::InvalidSignature);
            }
            i += 1;
        }
        assert(bytes@.subrange(0, 8) =~= signature());
        let chunks = Chunk::try_from_sequence(slice_subrange(bytes, 8, len)).unwrap();
        Ok(Png { chunks })
    }

    /// The signature that the file starts with.
    pub fn header(&self) -> (header: &[u8; 8])
        ensures
            header@ == signature(),
    {
        assert(STANDARD_HEADER@ =~= signature());
        &STANDARD_HEADER
    }

    /// The chunks, in their order.
    pub fn chunks(&self) -> (chunks: &[Chunk])
        ensures
            chunks@.len() == self@.len(),
            forall|i: int| 0 <= i < chunks@.len() ==> (#[trigger] chunks@[i])@ == self@[i],
    {
        self.chunks.as_slice()
    }

    /// Adds a chunk at the insertion point: before the last chunk if that is
    /// an `IEND` chunk, and else behind all chunks. The chunks that were
    /// there keep their order.
    pub fn append_chunk(&mut self, chunk: Chunk)
        ensures
            final(self)@ == appended(old(self)@, chunk@),
            final(self).wf(),
    {
        proof {
            use_type_invariant(&chunk);
            use_type_invariant(&*self);
        }
        let n = self.chunks.len();
        let end: [u8; 4] = [73, 69, 78, 68];
        assert(end@ =~= end_code());
        let at = if n > 0 && has_code(&self.chunks[n - 1], end.as_slice()) {
            n - 1
        } else {
            n
        };
        let mut chunks: Vec<Chunk> = Vec::new();
        std::mem::swap(&mut self.chunks, &mut chunks);
        chunks.insert(at, chunk);
        assert(chunks.deep_view() =~= old(self)@.insert(at as int, chunk@));
        self.chunks = chunks;
    }

    /// The index of the first chunk with the type code `code`, if there is
    /// one.
    fn position(&self, code: &[u8]) -> (found: Option<usize>)
        ensures
            found matches Some(i) ==> first_of_type(self@, code@) == Some(i as int) && i
                < self.chunks@.len(),
            found is None ==> first_of_type(self@, code@) is None,
    {
        let n = self.chunks.len();
        let mut i: usize = 0;
        while i < n
            invariant
                i <= n == self.chunks@.len(),
                forall|j: int| 0 <= j < i ==> (#[trigger] self@[j]).chunk_type != code@,
            decreases n - i,
        {
            if has_code(&self.chunks[i], code) {
                proof {
                    assert(is_first_of_type(self@, code@, i as int));
                    lemma_first_of_type(self@, code@);
                }
                return Some(i);
            }
            i += 1;
        }
        proof {
            assert(!has_type(self@, code@));
            lemma_first_of_type(self@, code@);
        }
        None
    }

    /// Removes the first chunk whose type code is spelled by `chunk_type`.
    ///
    /// Where there is none the answer is `ChunkNotFound` and nothing
    /// changes. The other chunks keep their order.
    pub fn remove_chunk(&mut self, chunk_type: &str) -> (r: Result<(), PngError>)
        ensures
            match first_of_type(old(self)@, chunk_type.spec_bytes()) {
                Some(i) => r is Ok && final(self)@ == old(self)@.remove(i),
                None => r == Err::<(), PngError>(PngError::ChunkNotFound) && final(self)@ == old(
                    self,
                )@,
            },
            !has_type(old(self)@, chunk_type.spec_bytes()) ==> r is Err && final(self)@ == old(
                self,
            )@,
            final(self).wf(),
    {
        proof {
            use_type_invariant(&*self);
            lemma_first_of_type(self@, chunk_type.spec_bytes());
        }
        match self.position(chunk_type.as_bytes()) {
            Some(i) => {
                let mut chunks: Vec<Chunk> = Vec::new();
                std::mem::swap(&mut self.chunks, &mut chunks);
                chunks.remove(i);
                assert(chunks.deep_view() =~= old(self)@.remove(i as int));
                self.chunks = chunks;
                Ok(())
            },
            None => Err(PngError::ChunkNotFound),
        }
    }

    /// The first chunk whose type code is spelled by `chunk_type`, if there
    /// is one.
    pub fn chunk_by_type(&self, chunk_type: &str) -> (found: Option<&Chunk>)
        ensures
            match first_of_type(self@, chunk_type.spec_bytes()) {
                Some(i) => found is Some && found->Some_0@ == self@[i] && self@[i].wf(),
                None => found is None,
            },
            !has_type(self@, chunk_type.spec_bytes()) ==> found is None,
    {
        proof {
            use_type_invariant(self);
            lemma_first_of_type(self@, chunk_type.spec_bytes());
        }
        match self.position(chunk_type.as_bytes()) {
            Some(i) => Some(&self.chunks[i]),
            None => None,
        }
    }

    /// The bytes of the file: the signature, then the frame of each chunk in
    /// order.
    ///
    /// Decoding the bytes gives the same chunks back.
    pub fn as_bytes(&self) -> (bytes: Vec<u8>)
        ensures
            bytes@ == encode_png(self@),
            decode_png(bytes@) == Ok::<Seq<ChunkView>, PngError>(self@),
    {
        proof {
            use_type_invariant(self);
            lemma_png_round_trip(self@);
        }
        let mut bytes: Vec<u8> = Vec::new();
        append(&mut bytes, STANDARD_HEADER.as_slice());
        assert(bytes@ =~= signature() + encode_chunks(self@.take(0))) by {
            assert(self@.take(0) =~= Seq::empty());
        }
        let n = self.chunks.len();
        let mut i: usize = 0;
        while i < n
            invariant
                i <= n == self.chunks@.len() == self@.len(),
                bytes@ == signature() + encode_chunks(self@.take(i as int)),
            decreases n - i,
        {
            let frame = self.chunks[i].as_bytes();
            let ghost done = self@.take(i as int);
            let ghost chunk = self@[i as int];
            assert(frame@ == chunk.encode());
            append(&mut bytes, frame.as_slice());
            assert(bytes@ == signature() + encode_chunks(self@.take(i + 1))) by {
                lemma_encode_push(done, chunk);
                assert(done.push(chunk) =~= self@.take(i + 1));
                assert(bytes@ =~= signature() + (encode_chunks(done) + chunk.encode()));
            }
            i += 1;
        }
        assert(self@.take(n as int) =~= self@);
        bytes
    }
}

impl TryFrom<&[u8]> for Png {
    type Error = PngError;

    /// Decodes a PNG file, as [`Png::try_from`] does: the answer is what
    /// `decode_png` says of the bytes.
    fn try_from(bytes: &[u8]) -> (r: Result<Png, PngError>)
        ensures
            decode_png(bytes@) matches Err(e) ==> r == Err::<Png, PngError>(e),
            decode_png(bytes@) matches Ok(chunks) ==> r is Ok && r->Ok_0@ == chunks
                && r->Ok_0.wf(),
    {
        Png::try_from(bytes)
    }
}

impl TryFromSpecImpl<&[u8]> for Png {
    open spec fn obeys_try_from_spec() -> bool {
        false
    }

    open spec fn try_from_spec(bytes: &[u8]) -> Result<Png, PngError> {
        arbitrary()
    }
}

/// The frames of a sequence with one more chunk at its end are the frames of
/// the sequence, then the frame of that chunk.
pub proof fn lemma_encode_push(chunks: Seq<ChunkView>, chunk: ChunkView)
    ensures
        encode_chunks(chunks.push(chunk)) == encode_chunks(chunks) + chunk.encode(),
    decreases chunks.len(),
{
    if chunks.len() == 0 {
        assert(chunks.push(chunk).drop_first() =~= Seq::empty());
        assert(encode_chunks(chunks.push(chunk).drop_first()) =~= Seq::empty());
        assert(encode_chunks(chunks) =~= Seq::empty());
        assert(encode_chunks(chunks.push(chunk)) =~= chunk.encode());
    } else {
        assert(chunks.push(chunk).drop_first() =~= chunks.drop_first().push(chunk));
        lemma_encode_push(chunks.drop_first(), chunk);
        assert(encode_chunks(chunks.push(chunk)) =~= encode_chunks(chunks) + chunk.encode());
    }
}

/// Decoding the frames of well-formed chunks gives the chunks back, in their
/// order.
#[verifier::spinoff_prover]
pub proof fn lemma_chunks_round_trip(chunks: Seq<ChunkView>)
    requires
        all_wf(chunks),
    ensures
        decode_chunks(encode_chunks(chunks)) == chunks,
    decreases chunks.len(),
{
    let bytes = encode_chunks(chunks);
    if chunks.len() == 0 {
        assert(decode_chunks(bytes) =~= chunks);
    } else {
        let first = chunks[0];
        let rest = chunks.drop_first();
        assert(first.wf());
        assert(all_wf(rest)) by {
            assert forall|i: int| 0 <= i < rest.len() implies (#[trigger] rest[i]).wf() by {
                assert(chunks[i + 1].wf());
            }
        }
        lemma_chunk_round_trip(first);
        lemma_frame_at_head(first, encode_chunks(rest));
        lemma_chunks_round_trip(rest);
        assert(seq![first] + rest =~= chunks);
    }
}

/// Bytes that start what follows the first `n` bytes of a run start the run
/// when they are put behind those `n` bytes.
proof fn lemma_prefix_behind_head(bytes: Seq<u8>, n: int, rest: Seq<u8>)
    requires
        0 <= n <= bytes.len(),
        rest.is_prefix_of(bytes.subrange(n, bytes.len() as int)),
    ensures
        (bytes.subrange(0, n) + rest).is_prefix_of(bytes),
{
    let tail = bytes.subrange(n, bytes.len() as int);
    let whole = bytes.subrange(0, n) + rest;
    assert(rest =~= tail.subrange(0, rest.len() as int));
    assert forall|i: int| 0 <= i < whole.len() implies whole[i] == bytes[i] by {
        if i >= n {
            assert(whole[i] == rest[i - n]);
            assert(rest[i - n] == tail.subrange(0, rest.len() as int)[i - n]);
        }
    }
    assert(whole =~= bytes.subrange(0, whole.len() as int));
}

/// The frames of the chunks that a run of frames decodes to are the bytes at
/// the head of the run, byte for byte.
pub proof fn lemma_encode_decoded(bytes: Seq<u8>)
    ensures
        encode_chunks(decode_chunks(bytes)).len() <= bytes.len(),
        encode_chunks(decode_chunks(bytes)) == bytes.subrange(
            0,
            encode_chunks(decode_chunks(bytes)).len() as int,
        ),
{
    lemma_encoded_starts_run(bytes);
}

/// The frames of the chunks that a run of frames decodes to start the run.
proof fn lemma_encoded_starts_run(bytes: Seq<u8>)
    ensures
        encode_chunks(decode_chunks(bytes)).is_prefix_of(bytes),
    decreases bytes.len(),
{
    let chunks = decode_chunks(bytes);
    if chunks.len() == 0 {
        assert(encode_chunks(chunks) =~= bytes.subrange(0, 0));
    } else {
        lemma_decode_step(bytes);
        let n = FRAME_LEN + declared_length(bytes);
        let tail = bytes.subrange(n as int, bytes.len() as int);
        let rest = encode_chunks(decode_chunks(tail));
        lemma_encoded_starts_run(tail);
        assert(chunks.drop_first() =~= decode_chunks(tail));
        assert(encode_chunks(chunks) == bytes.subrange(0, n as int) + rest);
        lemma_prefix_behind_head(bytes, n as int, rest);
    }
}

/// Encoding a file of well-formed chunks and decoding the bytes gives the
/// same chunks in the same order, behind the same signature.
pub proof fn lemma_png_round_trip(chunks: Seq<ChunkView>)
    requires
        all_wf(chunks),
    ensures
        encode_png(chunks).subrange(0, 8) == signature(),
        decode_png(encode_png(chunks)) == Ok::<Seq<ChunkView>, PngError>(chunks),
{
    let bytes = encode_png(chunks);
    assert(bytes.subrange(0, 8) =~= signature());
    assert(bytes.subrange(8, bytes.len() as int) =~= encode_chunks(chunks));
    lemma_chunks_round_trip(chunks);
}

/// What `first_of_type` finds is the first chunk of the type, and it finds
/// none exactly where no chunk has the type.
pub proof fn lemma_first_of_type(chunks: Seq<ChunkView>, code: Seq<u8>)
    ensures
        first_of_type(chunks, code) matches Some(i) ==> is_first_of_type(chunks, code, i),
        first_of_type(chunks, code) is None <==> !has_type(chunks, code),
        forall|i: int| is_first_of_type(chunks, code, i) ==> first_of_type(chunks, code) == Some(i),
    decreases chunks.len(),
{
    if chunks.len() == 0 {
    } else if chunks[0].chunk_type == code {
        assert forall|i: int| is_first_of_type(chunks, code, i) implies i == 0 by {
            if i > 0 {
                assert(chunks[0].chunk_type != code);
            }
        }
    } else {
        let rest = chunks.drop_first();
        lemma_first_of_type(rest, code);
        assert forall|i: int| is_first_of_type(chunks, code, i) implies first_of_type(
            chunks,
            code,
        ) == Some(i) by {
            assert(i > 0);
            assert(rest[i - 1] == chunks[i]);
            assert forall|j: int| 0 <= j < i - 1 implies (#[trigger] rest[j]).chunk_type
                != code by {
                assert(rest[j] == chunks[j + 1]);
            }
            assert(is_first_of_type(rest, code, i - 1));
        }
        if first_of_type(rest, code) is Some {
            let k = first_of_type(rest, code)->Some_0;
            assert(rest[k] == chunks[k + 1]);
            assert forall|j: int| 0 <= j < k + 1 implies (#[trigger] chunks[j]).chunk_type
                != code by {
                if j > 0 {
                    assert(rest[j - 1] == chunks[j]);
                }
            }
            assert(is_first_of_type(chunks, code, k + 1));
        } else {
            assert forall|j: int| 0 <= j < chunks.len() implies (#[trigger] chunks[j]).chunk_type
                != code by {
                if j > 0 {
                    assert(rest[j - 1] == chunks[j]);
                }
            }
        }
    }
}

/// Adding a chunk whose type no chunk of the file has, and then removing the
/// first chunk of that type, gives the chunks that were there, in their
/// order.
pub proof fn lemma_append_then_remove(chunks: Seq<ChunkView>, chunk: ChunkView)
    requires
        !has_type(chunks, chunk.chunk_type),
    ensures
        first_of_type(appended(chunks, chunk), chunk.chunk_type) == Some(insertion_point(chunks)),
        appended(chunks, chunk).remove(insertion_point(chunks)) == chunks,
{
    let at = insertion_point(chunks);
    let after = appended(chunks, chunk);
    assert forall|j: int| 0 <= j < at implies (#[trigger] after[j]).chunk_type
        != chunk.chunk_type by {
        assert(after[j] == chunks[j]);
    }
    assert(is_first_of_type(after, chunk.chunk_type, at));
    lemma_first_of_type(after, chunk.chunk_type);
    assert(after.remove(at) =~= chunks);
}

} // verus!

//! One chunk of a PNG file: a length, a type code, the data and a checksum.
//!
//! On the wire a chunk is a frame of `12 + n` bytes: the length `n` of the
//! data in four bytes, the four bytes of the type code, the `n` bytes of data
//! and, in four bytes, the CRC-32 of type code and data. The two numbers are
//! written most significant byte first.

use crate::be32::{
    be_bytes, be_value, lemma_be_value_bounds, lemma_bytes_of_value, lemma_value_of_bytes,
    read_be, to_be_bytes,
};
use crate::chunk_type::{is_type_code, ChunkType};
use crate::text::{decimal, decimal_string, text_of, TextError};
use crc::{Crc, CRC_32_ISO_HDLC};
use vstd::prelude::*;
use vstd::slice::*;
use vstd::std_specs::convert::TryFromSpecImpl;
use vstd::string::StringExecFns;
use vstd::utf8::*;

verus! {

/// The number of framing bytes around the data of a chunk.
pub const FRAME_LEN: usize = 12;

/// Why a frame is not a chunk.
#[derive(Debug, Clone, Copy, PartialEq, Eq, Structural)]
pub enum ChunkError {
    /// The checksum of type code and data, given first, is not the one that
    /// the frame carries, given second.
    InvalidCrc(u32, u32),
    /// The length that the frame declares, given first, is not the number of
    /// data bytes that it has, given second.
    InvalidChunkDatLength(u32, u32),
    /// The type code holds a byte that is not an ASCII letter.
    InvalidChunkType,
}

impl ChunkError {
    /// What the error says, in words.
    pub open spec fn message(self) -> Seq<char> {
        match self {
            ChunkError::InvalidCrc(expected, found) => {
                "Invalid CRC when constructing chunk. Expected "@ + decimal(expected as nat)
                    + " but found "@ + decimal(found as nat)
            },
            ChunkError::InvalidChunkDatLength(expected, found) => {
                "Invalid chunk data length when constructing chunk. Expected "@ + decimal(
                    expected as nat,
                ) + " but found "@ + decimal(found as nat)
            },
            ChunkError::InvalidChunkType => "Invalid chunk type"@,
        }
    }

    /// What the error says, in words.
    pub fn to_string(&self) -> (text: String)
        ensures
            text@ == self.message(),
    {
        match self {
            ChunkError::InvalidCrc(expected, found) => {
                let mut text = String::from_str("Invalid CRC when constructing chunk. Expected ");
                text.append(decimal_string(*expected as u64).as_str());
                text.append(" but found ");
                text.append(decimal_string(*found as u64).as_str());
                text
            },
            ChunkError::InvalidChunkDatLength(expected, found) => {
                let mut text = String::from_str(
                    "Invalid chunk data length when constructing chunk. Expected ",
                );
                text.append(decimal_string(*expected as u64).as_str());
                text.append(" but found ");
                text.append(decimal_string(*found as u64).as_str());
                text
            },
            ChunkError::InvalidChunkType => String::from_str("Invalid chunk type"),
        }
    }
}

/// The CRC-32/ISO-HDLC checksum of `bytes`, as the `crc` crate computes it.
pub uninterp spec fn crc32_iso_hdlc(bytes: Seq<u8>) -> u32;

/// `crc::Crc::<u32>::checksum`, on a `Crc` made by `crc::Crc::<u32>::new`
/// for the algorithm `crc::CRC_32_ISO_HDLC`. The result depends on the bytes
/// alone; the contract only gives it its name.
#[verifier::external_body]
fn checksum(bytes: &[u8]) -> (sum: u32)
    ensures
        sum == crc32_iso_hdlc(bytes@),
{
    Crc::<u32>::new(&CRC_32_ISO_HDLC).checksum(bytes)
}

/// Appends the bytes of `part` to `out`.
pub(crate) fn append(out: &mut Vec<u8>, part: &[u8])
    ensures
        final(out)@ == old(out)@ + part@,
{
    out.extend_from_slice(part);
    assert(out@ =~= old(out)@ + part@);
}

/// What a chunk is: the values of its four fields.
pub struct ChunkView {
    /// The length that the chunk declares for its data.
    pub length: u32,
    /// The four bytes of the type code.
    pub chunk_type: Seq<u8>,
    /// The data.
    pub data: Seq<u8>,
    /// The checksum that the chunk carries.
    pub crc: u32,
}

impl ChunkView {
    /// The chunk made of a type code and data: the length and the checksum
    /// are computed from them.
    pub open spec fn build(chunk_type: Seq<u8>, data: Seq<u8>) -> ChunkView {
        ChunkView {
            length: data.len() as u32,
            chunk_type,
            data,
            crc: crc32_iso_hdlc(chunk_type + data),
        }
    }

    /// Whether the fields agree: the type code is four letters, the length is
    /// that of the data, and the checksum is that of type code and data.
    pub open spec fn wf(self) -> bool {
        &&& is_type_code(self.chunk_type)
        &&& self.length == self.data.len()
        &&& self.crc == crc32_iso_hdlc(self.chunk_type + self.data)
    }

    /// The frame of the chunk.
    pub open spec fn encode(self) -> Seq<u8> {
        be_bytes(self.length) + self.chunk_type + self.data + be_bytes(self.crc)
    }
}

/// The length that a frame declares in its first four bytes; 0 where it has
/// fewer than four.
pub open spec fn declared_length(frame: Seq<u8>) -> u32 {
    if frame.len() >= 4 {
        be_value(frame.subrange(0, 4)) as u32
    } else {
        0
    }
}

/// The number of data bytes that a frame has beside its twelve framing
/// bytes: 0 where it is shorter than those, and no more than `u32::MAX`.
pub open spec fn actual_length(frame: Seq<u8>) -> u32 {
    if frame.len() < FRAME_LEN {
        0
    } else if frame.len() - FRAME_LEN > u32::MAX {
        u32::MAX
    } else {
        (frame.len() - FRAME_LEN) as u32
    }
}

/// The part of a frame that the checksum covers: type code and data.
pub open spec fn checked_part(frame: Seq<u8>) -> Seq<u8> {
    if frame.len() >= FRAME_LEN {
        frame.subrange(4, frame.len() - 4)
    } else {
        Seq::empty()
    }
}

/// The checksum that a frame of at least twelve bytes carries at its end.
pub open spec fn stored_crc(frame: Seq<u8>) -> u32 {
    be_value(frame.subrange(frame.len() - 4, frame.len() as int)) as u32
}

/// What a frame decodes to when `sum` is the checksum of its checked part.
///
/// The length is judged first, then the checksum, then the type code, so a
/// frame with a wrong length is reported as such whatever else is wrong.
pub open spec fn decode_with(frame: Seq<u8>, sum: u32) -> Result<ChunkView, ChunkError> {
    if frame.len() < FRAME_LEN || declared_length(frame) != frame.len() - FRAME_LEN {
        Err(ChunkError::InvalidChunkDatLength(declared_length(frame), actual_length(frame)))
    } else if sum != stored_crc(frame) {
        Err(ChunkError::InvalidCrc(sum, stored_crc(frame)))
    } else if !is_type_code(frame.subrange(4, 8)) {
        Err(ChunkError::InvalidChunkType)
    } else {
        Ok(
            ChunkView {
                length: declared_length(frame),
                chunk_type: frame.subrange(4, 8),
                data: frame.subrange(8, frame.len() - 4),
                crc: stored_crc(frame),
            },
        )
    }
}

/// What a frame decodes to.
pub open spec fn decode_chunk(frame: Seq<u8>) -> Result<ChunkView, ChunkError> {
    decode_with(frame, crc32_iso_hdlc(checked_part(frame)))
}

/// The chunks that a run of frames decodes to, in their order.
///
/// The run is read frame by frame, each as long as its first four bytes
/// declare. It ends where no bytes are left. It also ends, without an error,
/// at the first frame that is cut short or does not decode: what follows such
/// a frame is left out.
pub open spec fn decode_chunks(bytes: Seq<u8>) -> Seq<ChunkView>
    decreases bytes.len(),
{
    let n = FRAME_LEN + declared_length(bytes);
    if bytes.len() < FRAME_LEN || bytes.len() < n {
        Seq::empty()
    } else {
        match decode_chunk(bytes.subrange(0, n)) {
            Ok(chunk) => seq![chunk] + decode_chunks(bytes.subrange(n, bytes.len() as int)),
            Err(_) => Seq::empty(),
        }
    }
}

/// A chunk whose fields agree with each other.
///
/// Its view is a [`ChunkView`] that is well formed.
#[derive(Debug)]
pub struct Chunk {
    length: u32,
    chunk_type: ChunkType,
    chunk_data: Vec<u8>,
    crc: u32,
}

impl View for Chunk {
    type V = ChunkView;

    closed spec fn view(&self) -> ChunkView {
        ChunkView {
            length: self.length,
            chunk_type: self.chunk_type@,
            data: self.chunk_data@,
            crc: self.crc,
        }
    }
}

impl DeepView for Chunk {
    type V = ChunkView;

    open spec fn deep_view(&self) -> ChunkView {
        self@
    }
}

impl Chunk {
    /// Whether the fields agree. Every value that executable code holds is
    /// well formed.
    #[verifier::type_invariant]
    pub open spec fn wf(self) -> bool {
        self@.wf()
    }

    /// The CRC-32/ISO-HDLC checksum of a type code followed by data.
    pub fn create_crc(chunk_type: &ChunkType, chunk_data: &Vec<u8>) -> (crc: u32)
        ensures
            crc == crc32_iso_hdlc(chunk_type@ + chunk_data@),
    {
        let code = chunk_type.bytes();
        let mut checked: Vec<u8> = Vec::new();
        append(&mut checked, code.as_slice());
        append(&mut checked, chunk_data.as_slice());
        assert(checked@ =~= chunk_type@ + chunk_data@);
        checksum(checked.as_slice())
    }

    /// The chunk with the given type code and data. Its length is that of
    /// the data and its checksum is computed here.
    pub fn new(chunk_type: ChunkType, chunk_data: Vec<u8>) -> (chunk: Chunk)
        requires
            chunk_data@.len() <= u32::MAX,
        ensures
            chunk@ == ChunkView::build(chunk_type@, chunk_data@),
            chunk@.wf(),
    {
        proof {
            use_type_invariant(chunk_type);
        }
        let crc = Chunk::create_crc(&chunk_type, &chunk_data);
        Chunk { length: chunk_data.len() as u32, chunk_type, chunk_data, crc }
    }

    /// The length of the data, in bytes.
    pub fn length(&self) -> (length: u32)
        ensures
            length == self@.length,
            length == self@.data.len(),
    {
        proof {
            use_type_invariant(self);
        }
        self.length
    }

    /// The checksum of type code and data.
    pub fn crc(&self) -> (crc: u32)
        ensures
            crc == self@.crc,
            crc == crc32_iso_hdlc(self@.chunk_type + self@.data),
    {
        proof {
            use_type_invariant(self);
        }
        self.crc
    }

    /// The type code.
    pub fn chunk_type(&self) -> (chunk_type: &ChunkType)
        ensures
            chunk_type@ == self@.chunk_type,
            chunk_type.wf(),
    {
        proof {
            use_type_invariant(self);
        }
        &self.chunk_type
    }

    /// The data.
    pub fn data(&self) -> (data: &[u8])
        ensures
            data@ == self@.data,
    {
        self.chunk_data.as_slice()
    }

    /// The data read as UTF-8 text, or `InvalidUtf8` where the data is not
    /// valid UTF-8.
    pub fn data_as_string(&self) -> (r: Result<String, TextError>)
        ensures
            valid_utf8(self@.data) ==> r is Ok && r->Ok_0@ == decode_utf8(self@.data),
            !valid_utf8(self@.data) ==> r == Err::<String, TextError>(TextError::InvalidUtf8),
    {
        text_of(self.chunk_data.clone())
    }

    /// The text of the data, which has to be valid UTF-8.
    pub fn to_string(&self) -> (text: String)
        requires
            valid_utf8(self@.data),
        ensures
            text@ == decode_utf8(self@.data),
    {
        self.data_as_string().unwrap()
    }

    /// The frame of the chunk: length, type code, data and checksum.
    ///
    /// Decoding the frame gives the chunk back.
    pub fn as_bytes(&self) -> (frame: Vec<u8>)
        ensures
            frame@ == self@.encode(),
            decode_chunk(frame@) == Ok::<ChunkView, ChunkError>(self@),
    {
        proof {
            use_type_invariant(self);
            lemma_chunk_round_trip(self@);
        }
        let length = to_be_bytes(self.length);
        let code = self.chunk_type.bytes();
        let crc = to_be_bytes(self.crc);
        let mut frame: Vec<u8> = Vec::new();
        append(&mut frame, length.as_slice());
        append(&mut frame, code.as_slice());
        append(&mut frame, self.chunk_data.as_slice());
        append(&mut frame, crc.as_slice());
        assert(frame@ =~= self@.encode());
        frame
    }

    /// Decodes a run of frames that follow each other without a gap.
    ///
    /// The answer is always `Ok`, with the chunks of `decode_chunks`: a frame
    /// that is cut short or does not decode ends the run and is not reported.
    pub fn try_from_sequence(bytes: &[u8]) -> (r: Result<Vec<Chunk>, ChunkError>)
        ensures
            r is Ok,
            r->Ok_0.deep_view() == decode_chunks(bytes@),
            forall|i: int| 0 <= i < r->Ok_0@.len() ==> (#[trigger] r->Ok_0@[i])@.wf(),
    {
        let len = bytes.len();
        let mut chunks: Vec<Chunk> = Vec::new();
        let mut pos: usize = 0;
        assert(bytes@.subrange(0, len as int) =~= bytes@);
        assert(chunks.deep_view() =~= Seq::empty());
        loop
            invariant
                len == bytes@.len(),
                pos <= len,
                decode_chunks(bytes@) == chunks.deep_view() + decode_chunks(
                    bytes@.subrange(pos as int, len as int),
                ),
                forall|i: int| 0 <= i < chunks@.len() ==> (#[trigger] chunks@[i])@.wf(),
            ensures
                chunks.deep_view() == decode_chunks(bytes@),
                forall|i: int| 0 <= i < chunks@.len() ==> (#[trigger] chunks@[i])@.wf(),
            decreases len - pos,
        {
            let ghost rest = bytes@.subrange(pos as int, len as int);
            if len - pos < FRAME_LEN {
                break ;
            }
            let declared = read_be(bytes, pos);
            assert(rest.subrange(0, 4) =~= bytes@.subrange(pos as int, pos + 4));
            if len - pos - FRAME_LEN < declared as usize {
                break ;
            }
            let n = FRAME_LEN + declared as usize;
            let frame = slice_subrange(bytes, pos, pos + n);
            assert(frame@ =~= rest.subrange(0, n as int));
            assert(bytes@.subrange(pos + n, len as int) =~= rest.subrange(
                n as int,
                rest.len() as int,
            ));
            match Chunk::try_from(frame) {
                Ok(chunk) => {
                    let ghost before = chunks.deep_view();
                    chunks.push(chunk);
                    assert(chunks.deep_view() =~= before + seq![chunk@]);
                    pos = pos + n;
                },
                Err(_) => {
                    break ;
                },
            }
        }
        Ok(chunks)
    }

    /// Judges a frame, given the checksum `sum` of its checked part.
    ///
    /// The answer is `Ok` exactly where `decode_with` yields a chunk, and
    /// otherwise the error that `decode_with` yields.
    pub fn validate(frame: &[u8], sum: u32) -> (r: Result<(), ChunkError>)
        ensures
            r is Ok <==> decode_with(frame@, sum) is Ok,
            r matches Err(e) ==> decode_with(frame@, sum) == Err::<ChunkView, ChunkError>(e),
    {
        let n = frame.len();
        let declared: u32 = if n >= 4 {
            read_be(frame, 0)
        } else {
            0
        };
        if n < FRAME_LEN {
            return Err(ChunkError::InvalidChunkDatLength(declared, 0));
        }
        let room = n - FRAME_LEN;
        if room > u32::MAX as usize {
            return Err(ChunkError::InvalidChunkDatLength(declared, u32::MAX));
        }
        if declared as usize != room {
            return Err(ChunkError::InvalidChunkDatLength(declared, room as u32));
        }
        let stored = read_be(frame, n - 4);
        if sum != stored {
            return Err(ChunkError::InvalidCrc(sum, stored));
        }
        let code: [u8; 4] = [frame[4], frame[5], frame[6], frame[7]];
        assert(code@ =~= frame@.subrange(4, 8));
        if !ChunkType::is_valid_source(&code) {
            return Err(ChunkError::InvalidChunkType);
        }
        Ok(())
    }

    /// Decodes a frame that holds exactly one chunk.
    ///
    /// The answer is what `decode_chunk` says of the frame: the chunk, or
    /// the first thing that is wrong with the frame.
    pub fn try_from(frame: &[u8]) -> (r: Result<Chunk, ChunkError>)
        ensures
            r matches Ok(chunk) ==> decode_chunk(frame@) == Ok::<ChunkView, ChunkError>(chunk@)
                && chunk@.wf(),
            r matches Err(e) ==> decode_chunk(frame@) == Err::<ChunkView, ChunkError>(e),
    {
        let n = frame.len();
        let sum = if n >= FRAME_LEN {
            checksum(slice_subrange(frame, 4, n - 4))
        } else {
            0
        };
        match Chunk::validate(frame, sum) {
            Err(e) => Err(e),
            Ok(()) => {
                let code: [u8; 4] = [frame[4], frame[5], frame[6], frame[7]];
                assert(code@ =~= frame@.subrange(4, 8));
                let chunk_type = ChunkType::try_from(code).unwrap();
                let chunk_data = slice_to_vec(slice_subrange(frame, 8, n - 4));
                assert(chunk_type@ + chunk_data@ =~= checked_part(frame@));
                Ok(Chunk { length: (n - FRAME_LEN) as u32, chunk_type, chunk_data, crc: sum })
            },
        }
    }
}

impl TryFrom<&Vec<u8>> for Chunk {
    type Error = ChunkError;

    /// Decodes a frame that holds exactly one chunk, as [`Chunk::try_from`]
    /// does: the answer is what `decode_chunk` says of the frame.
    fn try_from(frame: &Vec<u8>) -> (r: Result<Chunk, ChunkError>)
        ensures
            r matches Ok(chunk) ==> decode_chunk(frame@) == Ok::<ChunkView, ChunkError>(chunk@)
                && chunk@.wf(),
            r matches Err(e) ==> decode_chunk(frame@) == Err::<ChunkView, ChunkError>(e),
    {
        Chunk::try_from(frame.as_slice())
    }
}

impl TryFromSpecImpl<&Vec<u8>> for Chunk {
    open spec fn obeys_try_from_spec() -> bool {
        false
    }

    open spec fn try_from_spec(frame: &Vec<u8>) -> Result<Chunk, ChunkError> {
        arbitrary()
    }
}

/// A frame whose first four bytes declare another length than that of the
/// data is rejected for its length, whatever its type code and checksum are.
pub proof fn lemma_wrong_length_rejected(chunk: ChunkView, declared: u32)
    requires
        chunk.chunk_type.len() == 4,
        chunk.data.len() <= u32::MAX,
        declared != chunk.data.len(),
    ensures
        decode_chunk(
            (ChunkView {
                length: declared,
                chunk_type: chunk.chunk_type,
                data: chunk.data,
                crc: chunk.crc,
            }).encode(),
        ) == Err::<ChunkView, ChunkError>(
            ChunkError::InvalidChunkDatLength(declared, chunk.data.len() as u32),
        ),
{
    let frame = (ChunkView {
        length: declared,
        chunk_type: chunk.chunk_type,
        data: chunk.data,
        crc: chunk.crc,
    }).encode();
    lemma_value_of_bytes(declared);
    lemma_value_of_bytes(chunk.crc);
    assert(frame.subrange(0, 4) =~= be_bytes(declared));
    assert(frame.len() == FRAME_LEN + chunk.data.len());
}

/// A frame is rejected for its length exactly where it is shorter than the
/// twelve framing bytes or declares another length than it has room for.
pub proof fn lemma_length_errors(frame: Seq<u8>)
    ensures
        (frame.len() < FRAME_LEN || declared_length(frame) != frame.len() - FRAME_LEN)
            <==> decode_chunk(frame) == Err::<ChunkView, ChunkError>(
            ChunkError::InvalidChunkDatLength(declared_length(frame), actual_length(frame)),
        ),
{
}

/// Where type code or data of a well-formed chunk are replaced by bytes of
/// the same lengths with another checksum, and length and checksum fields
/// are left as they were, the frame is rejected for its checksum.
pub proof fn lemma_changed_checksum_rejected(chunk: ChunkView, chunk_type: Seq<u8>, data: Seq<u8>)
    requires
        chunk.wf(),
        chunk_type.len() == 4,
        data.len() == chunk.data.len(),
        crc32_iso_hdlc(chunk_type + data) != chunk.crc,
    ensures
        decode_chunk(
            (ChunkView { length: chunk.length, chunk_type, data, crc: chunk.crc }).encode(),
        ) == Err::<ChunkView, ChunkError>(
            ChunkError::InvalidCrc(crc32_iso_hdlc(chunk_type + data), chunk.crc),
        ),
{
    let frame = (ChunkView { length: chunk.length, chunk_type, data, crc: chunk.crc }).encode();
    lemma_value_of_bytes(chunk.length);
    lemma_value_of_bytes(chunk.crc);
    assert(frame.subrange(0, 4) =~= be_bytes(chunk.length));
    assert(frame.subrange(frame.len() - 4, frame.len() as int) =~= be_bytes(chunk.crc));
    assert(checked_part(frame) =~= chunk_type + data);
}

/// A chunk that a frame decodes to is well formed.
pub proof fn lemma_decoded_chunk_wf(frame: Seq<u8>)
    ensures
        decode_chunk(frame) matches Ok(chunk) ==> chunk.wf() && chunk.encode() == frame,
{
    if decode_chunk(frame) is Ok {
        let chunk = decode_chunk(frame)->Ok_0;
        assert(chunk.chunk_type + chunk.data =~= checked_part(frame));
        lemma_bytes_of_value(frame.subrange(0, 4));
        lemma_bytes_of_value(frame.subrange(frame.len() - 4, frame.len() as int));
        lemma_be_value_bounds(frame.subrange(0, 4));
        lemma_be_value_bounds(frame.subrange(frame.len() - 4, frame.len() as int));
        assert(chunk.encode() =~= frame);
    }
}

/// A run that decodes to some chunks starts with the frame of the first of
/// them, and what follows that frame decodes to the others.
pub proof fn lemma_decode_step(bytes: Seq<u8>)
    requires
        decode_chunks(bytes).len() > 0,
    ensures
        ({
            let n = FRAME_LEN + declared_length(bytes);
            let first = decode_chunks(bytes)[0];
            &&& n <= bytes.len()
            &&& first.wf()
            &&& first.encode() == bytes.subrange(0, n)
            &&& decode_chunks(bytes) == seq![first] + decode_chunks(
                bytes.subrange(n, bytes.len() as int),
            )
        }),
{
    let n = FRAME_LEN + declared_length(bytes);
    lemma_decoded_chunk_wf(bytes.subrange(0, n as int));
}

/// The chunks that a run of frames decodes to are well formed.
pub proof fn lemma_decoded_chunks_wf(bytes: Seq<u8>)
    ensures
        forall|i: int|
            0 <= i < decode_chunks(bytes).len() ==> (#[trigger] decode_chunks(bytes)[i]).wf(),
    decreases bytes.len(),
{
    let n = FRAME_LEN + declared_length(bytes);
    if bytes.len() < FRAME_LEN || bytes.len() < n {
    } else {
        let rest = decode_chunks(bytes.subrange(n as int, bytes.len() as int));
        lemma_decoded_chunk_wf(bytes.subrange(0, n as int));
        lemma_decoded_chunks_wf(bytes.subrange(n as int, bytes.len() as int));
        if decode_chunk(bytes.subrange(0, n as int)) is Ok {
            let first = decode_chunk(bytes.subrange(0, n as int))->Ok_0;
            assert(decode_chunks(bytes) == seq![first] + rest);
            assert forall|i: int| 0 <= i < decode_chunks(bytes).len() implies (
            #[trigger] decode_chunks(bytes)[i]).wf() by {
                if i > 0 {
                    assert(decode_chunks(bytes)[i] == rest[i - 1]);
                }
            }
        }
    }
}

/// A frame at the head of a run declares the length of its chunk and takes
/// twelve bytes more than that.
pub proof fn lemma_frame_at_head(chunk: ChunkView, rest: Seq<u8>)
    requires
        chunk.chunk_type.len() == 4,
        chunk.length == chunk.data.len(),
    ensures
        chunk.encode().len() == FRAME_LEN + chunk.length,
        declared_length(chunk.encode() + rest) == chunk.length,
        (chunk.encode() + rest).subrange(0, FRAME_LEN + chunk.length) == chunk.encode(),
        (chunk.encode() + rest).subrange(
            FRAME_LEN + chunk.length,
            (chunk.encode() + rest).len() as int,
        ) == rest,
{
    let frame = chunk.encode();
    let run = frame + rest;
    lemma_value_of_bytes(chunk.length);
    lemma_value_of_bytes(chunk.crc);
    assert(run.subrange(0, 4) =~= be_bytes(chunk.length));
    assert(run.subrange(0, FRAME_LEN + chunk.length) =~= frame);
    assert(run.subrange(FRAME_LEN + chunk.length, run.len() as int) =~= rest);
}

/// Encoding a well-formed chunk and decoding the frame gives the chunk back,
/// with the same type code, data, length and checksum.
pub proof fn lemma_chunk_round_trip(chunk: ChunkView)
    requires
        chunk.wf(),
    ensures
        chunk.encode().len() == FRAME_LEN + chunk.data.len(),
        decode_chunk(chunk.encode()) == Ok::<ChunkView, ChunkError>(chunk),
{
    let frame = chunk.encode();
    lemma_value_of_bytes(chunk.length);
    lemma_value_of_bytes(chunk.crc);
    assert(frame.subrange(0, 4) =~= be_bytes(chunk.length));
    assert(frame.subrange(frame.len() - 4, frame.len() as int) =~= be_bytes(chunk.crc));
    assert(frame.subrange(4, 8) =~= chunk.chunk_type);
    assert(frame.subrange(8, frame.len() - 4) =~= chunk.data);
    assert(checked_part(frame) =~= chunk.chunk_type + chunk.data);
}

} // verus!

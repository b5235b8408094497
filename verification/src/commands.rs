//! The four commands, as changes to a PNG file that was read and as answers
//! about it. Reading and writing the file is left to the caller.

use crate::args::{DecodeArgs, EncodeArgs, RemoveArgs};
use crate::chunk::{Chunk, ChunkView};
use crate::chunk_type::{parse_code, ChunkType, ChunkTypeError};
use crate::png::{
    all_wf, appended, decode_png, encode_png, first_of_type, has_type, insertion_point,
    lemma_append_then_remove, lemma_png_round_trip, Png, PngError,
};
use crate::text::trimmed;
use vstd::prelude::*;
use vstd::slice::slice_to_vec;
use vstd::utf8::*;

verus! {

/// The message that `decode` yields: the text of the first chunk of `chunks`
/// with the type `chunk_type`, where there is one and its data is text.
pub open spec fn message_of(chunks: Seq<ChunkView>, chunk_type: Seq<char>) -> Option<Seq<char>> {
    match first_of_type(chunks, encode_utf8(chunk_type)) {
        None => None,
        Some(i) => if valid_utf8(chunks[i].data) {
            Some(decode_utf8(chunks[i].data))
        } else {
            None
        },
    }
}

/// Whether a chunk with the data `data` is listed: the data is text, and
/// something is left of the text without the white space around it.
pub open spec fn is_listed(data: Seq<u8>) -> bool {
    valid_utf8(data) && trimmed(decode_utf8(data)).len() > 0
}

/// What is listed of `chunks`: type code and text of each chunk that is
/// listed, in the order of the chunks.
pub open spec fn listing(chunks: Seq<ChunkView>) -> Seq<(Seq<u8>, Seq<char>)>
    decreases chunks.len(),
{
    if chunks.len() == 0 {
        Seq::empty()
    } else {
        let before = listing(chunks.drop_last());
        let chunk = chunks.last();
        if is_listed(chunk.data) {
            before.push((chunk.chunk_type, decode_utf8(chunk.data)))
        } else {
            before
        }
    }
}

/// Hides a message in a PNG file.
///
/// A chunk of the type `args.chunk_type` that holds `args.message` is added
/// at the insertion point. Where `args.chunk_type` is no chunk type, the
/// answer says why and the file is left as it was.
pub fn encode(args: &EncodeArgs, png: &mut Png) -> (r: Result<(), ChunkTypeError>)
    requires
        encode_utf8(args.message@).len() <= u32::MAX,
    ensures
        match parse_code(args.chunk_type@) {
            Ok(code) => r is Ok && final(png)@ == appended(
                old(png)@,
                ChunkView::build(code, encode_utf8(args.message@)),
            ),
            Err(e) => r == Err::<(), ChunkTypeError>(e) && final(png)@ == old(png)@,
        },
        final(png).wf(),
{
    proof {
        use_type_invariant(&*png);
    }
    let chunk_type = match ChunkType::from_str(args.chunk_type.as_str()) {
        Ok(chunk_type) => chunk_type,
        Err(e) => {
            return Err(e);
        },
    };
    let chunk = Chunk::new(chunk_type, slice_to_vec(args.message.as_str().as_bytes()));
    png.append_chunk(chunk);
    Ok(())
}

/// Reads the message hidden in a PNG file.
///
/// The answer is the text of the first chunk of the type `args.chunk_type`.
/// There is none where no chunk has the type, and where the data of that
/// chunk is not UTF-8.
pub fn decode(args: &DecodeArgs, png: &Png) -> (message: Option<String>)
    ensures
        match message_of(png@, args.chunk_type@) {
            Some(text) => message is Some && message->Some_0@ == text,
            None => message is None,
        },
{
    match png.chunk_by_type(args.chunk_type.as_str()) {
        None => None,
        Some(chunk) => match chunk.data_as_string() {
            Ok(text) => Some(text),
            Err(_) => None,
        },
    }
}

/// Takes the first chunk of the type `args.chunk_type` out of a PNG file.
///
/// Where no chunk has the type, the answer is `ChunkNotFound` and the file
/// is left as it was.
pub fn remove(args: &RemoveArgs, png: &mut Png) -> (r: Result<(), PngError>)
    ensures
        match first_of_type(old(png)@, encode_utf8(args.chunk_type@)) {
            Some(i) => r is Ok && final(png)@ == old(png)@.remove(i),
            None => r == Err::<(), PngError>(PngError::ChunkNotFound) && final(png)@ == old(png)@,
        },
        !has_type(old(png)@, encode_utf8(args.chunk_type@)) ==> r is Err && final(png)@ == old(
            png,
        )@,
        final(png).wf(),
{
    png.remove_chunk(args.chunk_type.as_str())
}

/// Tells whether a text is listed, given what is left of it without the
/// white space around it.
pub fn shown(trimmed: &str) -> (shown: bool)
    ensures
        shown == (trimmed@.len() > 0),
{
    !trimmed.is_empty()
}

/// Lists the chunks of a PNG file that hold text.
///
/// The answer holds, in the order of the chunks, the type and the text of
/// each chunk whose data is UTF-8 and more than white space.
pub fn print_chunks(png: &Png) -> (lines: Vec<(ChunkType, String)>)
    ensures
        lines@.len() == listing(png@).len(),
        forall|i: int|
            0 <= i < lines@.len() ==> (#[trigger] lines@[i]).0@ == listing(png@)[i].0
                && lines@[i].1@ == listing(png@)[i].1,
{
    let chunks = png.chunks();
    let n = chunks.len();
    let mut lines: Vec<(ChunkType, String)> = Vec::new();
    let mut i: usize = 0;
    assert(png@.take(0) =~= Seq::empty());
    while i < n
        invariant
            i <= n == chunks@.len() == png@.len(),
            forall|j: int| 0 <= j < n ==> (#[trigger] chunks@[j])@ == png@[j],
            lines@.len() == listing(png@.take(i as int)).len(),
            forall|j: int|
                0 <= j < lines@.len() ==> (#[trigger] lines@[j]).0@ == listing(
                    png@.take(i as int),
                )[j].0 && lines@[j].1@ == listing(png@.take(i as int))[j].1,
        decreases n - i,
    {
        let chunk = &chunks[i];
        assert(png@.take(i + 1).drop_last() =~= png@.take(i as int));
        assert(png@.take(i + 1).last() == chunk@);
        if let Ok(text) = chunk.data_as_string() {
            if shown(text.as_str().trim()) {
                lines.push((*chunk.chunk_type(), text));
            }
        }
        i += 1;
    }
    assert(png@.take(n as int) =~= png@);
    lines
}

/// What `encode` hides in a file that held no chunk of the type, `decode`
/// reads back, also from the file that was written and read again.
pub proof fn lemma_message_round_trip(
    chunks: Seq<ChunkView>,
    chunk_type: Seq<char>,
    message: Seq<char>,
)
    requires
        all_wf(chunks),
        parse_code(chunk_type) is Ok,
        !has_type(chunks, parse_code(chunk_type)->Ok_0),
        encode_utf8(message).len() <= u32::MAX,
    ensures
        ({
            let chunk = ChunkView::build(parse_code(chunk_type)->Ok_0, encode_utf8(message));
            let after = appended(chunks, chunk);
            &&& decode_png(encode_png(after)) == Ok::<Seq<ChunkView>, PngError>(after)
            &&& message_of(after, chunk_type) == Some(message)
        }),
{
    let code = parse_code(chunk_type)->Ok_0;
    let chunk = ChunkView::build(code, encode_utf8(message));
    let after = appended(chunks, chunk);
    let at = insertion_point(chunks);
    assert(chunk.wf());
    assert(all_wf(after)) by {
        assert forall|i: int| 0 <= i < after.len() implies (#[trigger] after[i]).wf() by {
            if i < at {
                assert(after[i] == chunks[i]);
            } else if i > at {
                assert(after[i] == chunks[i - 1]);
            }
        }
    }
    lemma_png_round_trip(after);
    lemma_append_then_remove(chunks, chunk);
    assert(after[at] == chunk);
    encode_utf8_valid_utf8(message);
    encode_utf8_decode_utf8(message);
}

} // verus!

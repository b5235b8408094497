//! Reading, editing and writing the chunk structure of PNG files.
//!
//! A PNG file is a signature of eight bytes followed by chunks. Each chunk
//! has a type code of four letters, data, and a checksum over both. This
//! library decodes a file into its chunks, finds, adds and removes chunks,
//! and encodes the chunks again, byte for byte. It is used to hide a message
//! in a chunk of a type of one's own choosing, and to find it again.
//!
//! - [`chunk_type`]: the type code and the properties that it carries.
//! - [`chunk`]: one chunk, its frame of bytes, and runs of frames.
//! - [`png`]: the chunks of a file behind the signature.
//! - [`commands`]: hiding, reading, removing and listing messages.
//! - [`args`]: what each command is asked to do.
//! - [`be32`] and [`text`]: numbers and text as bytes.
//!
//! Every function states what it returns over the views of its arguments:
//! the bytes of a type code, the four fields of a chunk, the sequence of the
//! chunks of a file. The checksum is computed by the `crc` crate; what it is
//! on given bytes is not stated here, only that it depends on the bytes alone.

pub mod args;
pub mod be32;
pub mod chunk;
pub mod chunk_type;
pub mod commands;
pub mod png;
pub mod text;

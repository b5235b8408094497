//! What a command is asked to do: the arguments of each command, as plain
//! values.

use std::path::PathBuf;
use vstd::prelude::*;

verus! {

/// A path in the file system. Nothing is known of what it holds.
#[verifier::external_type_specification]
#[verifier::external_body]
pub struct ExPathBuf(PathBuf);

/// A request: one command with its arguments.
#[derive(Debug)]
pub struct Cli {
    /// The command.
    pub command: Commands,
}

/// The four commands.
#[derive(Debug)]
pub enum Commands {
    /// Hide a message in a file.
    Encode(EncodeArgs),
    /// Read the message hidden in a file.
    Decode(DecodeArgs),
    /// Take a chunk out of a file.
    Remove(RemoveArgs),
    /// List the chunks of a file that hold text.
    Print(PrintArgs),
}

/// The arguments of `encode`.
#[derive(Debug)]
pub struct EncodeArgs {
    /// The file to read.
    pub file_path: PathBuf,
    /// The type of the chunk that will hold the message.
    pub chunk_type: String,
    /// The message.
    pub message: String,
    /// The file to write, where it is another than the one read.
    pub output: Option<PathBuf>,
}

/// The arguments of `decode`.
#[derive(Debug)]
pub struct DecodeArgs {
    /// The file to read.
    pub file_path: PathBuf,
    /// The type of the chunk that holds the message.
    pub chunk_type: String,
}

/// The arguments of `remove`.
#[derive(Debug)]
pub struct RemoveArgs {
    /// The file to read and to write.
    pub file_path: PathBuf,
    /// The type of the chunk to take out.
    pub chunk_type: String,
}

/// The arguments of `print`.
#[derive(Debug)]
pub struct PrintArgs {
    /// The file to read.
    pub file_path: PathBuf,
}

impl EncodeArgs {
    /// The file that `encode` writes: `output` where it is given, and else
    /// the file that was read.
    pub fn target(&self) -> (path: &PathBuf)
        ensures
            *path == match self.output {
                Some(output) => output,
                None => self.file_path,
            },
    {
        match &self.output {
            Some(output) => output,
            None => &self.file_path,
        }
    }
}

} // verus!

use vstd::prelude::*;

verus! {

/// Why an operation of this library refused its input.
#[derive(Debug, Clone, Copy, PartialEq, Eq, Structural)]
pub enum PngError {
    /// A chunk type given as text is not exactly four bytes long.
    InvalidChunkTypeLength,
    /// A chunk type given as text holds a character that is not an ASCII letter.
    InvalidChunkTypeCharacter,
    /// The input ended before a complete header or chunk could be read.
    UnexpectedEof,
    /// The CRC stored in a chunk differs from the CRC of its type and data.
    CrcMismatch,
    /// The input does not start with the PNG signature.
    InvalidHeader,
    /// No chunk of the requested type is present.
    ChunkNotFound,
    /// Chunk data that was to be read as text is not valid UTF-8.
    InvalidUtf8,
    /// The chunk type chosen to carry a message is not safe to copy.
    NotSafeToCopy,
}

} // verus!

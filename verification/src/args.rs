use vstd::prelude::*;

verus! {

/// The command chosen on the command line.
pub enum PngCli {
    /// Encode a secret message into a PNG file.
    Encode(EncodeArgs),
    /// Decode a hidden message from a PNG file.
    Decode(DecodeArgs),
    /// Remove a hidden message from a PNG file.
    Remove(DecodeArgs),
    /// Print the chunks of a PNG file.
    Print(PrintArg),
}

/// What `encode` needs: the file, the four-letter chunk type, the message and
/// where to write the result (the input file when absent).
pub struct EncodeArgs {
    pub filepath: String,
    pub chunk_type: String,
    pub message: String,
    pub out_filepath: Option<String>,
}

/// What `decode` and `remove` need: the file and the four-letter chunk type.
pub struct DecodeArgs {
    pub filepath: String,
    pub chunk_type: String,
}

/// What `print` needs: the file.
pub struct PrintArg {
    pub filepath: String,
}

} // verus!

use vstd::prelude::*;

verus! {

/// Everything that can go wrong while reading or editing a PNG stream.
#[derive(Debug, Clone, Copy, PartialEq, Eq, Structural)]
pub enum PngError {
    /// A chunk type is not four ASCII letters.
    ChunkTypeError,
    /// A chunk record is too short, declares a length it does not have, or
    /// carries a checksum that does not match its contents.
    ChunkError,
    /// A payload asked for as text is not valid UTF-8.
    FormatError,
    /// No chunk of the type to be removed is present.
    ChunkRemoveError,
    /// The buffer does not begin with the PNG signature.
    CreatePngError,
    /// Reading or writing a file failed. The library itself never reports
    /// this; it is here so that callers doing I/O can use one error type.
    IOError,
}

} // verus!

//! The failures that encoding and decoding can report.

use vstd::prelude::*;

verus! {

/// Why an encode or decode call was abandoned.
#[derive(Debug, Clone, Copy, PartialEq, Eq, Structural)]
pub enum BhiError {
    /// The input file could not be opened or decoded.
    SourceUnreadable,
    /// The output could not be created or written.
    DestinationUnwritable,
    /// The bytes are not a valid compressed frame stream.
    CorruptFrame,
    /// The text holds no `:` to end the header.
    MissingHeader,
    /// The header is not two unsigned numbers around one `x`.
    MalformedDimensions,
    /// A pixel token in front of the terminator is not three 8-bit numbers.
    MalformedPixel,
    /// The number of pixels differs from width times height.
    SizeMismatch,
    /// A coordinate addresses a pixel that the sequence does not hold.
    IndexOutOfRange { column: u32, row: u32, index: u64 },
    /// The requested format is not one of the supported ones.
    UnsupportedFormat,
}

} // verus!

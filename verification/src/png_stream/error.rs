//! Why a PNG could not be read.

use vstd::prelude::*;

use crate::png_stream::format::ColorType;

verus! {

/// How the inflater left a compressed stream.
#[derive(Debug, Clone, Copy, PartialEq, Eq, Structural)]
pub enum InflateStatus {
    /// The stream ended before its end marker, and no more input was promised.
    CannotMakeProgress,
    /// The output window has an impossible size or position.
    BadParam,
    /// The checksum after the stream does not match its content.
    Adler32Mismatch,
    /// The stream is malformed.
    Failed,
    /// The end of the stream was reached.
    Done,
    /// All input was taken and more is needed.
    NeedsMoreInput,
    /// The output window is full and output is pending.
    HasMoreOutput,
}

/// Why a PNG could not be read.
#[derive(Debug, Clone, Copy, PartialEq, Eq, Structural)]
pub enum PngError {
    /// The data ended in the middle of a field.
    UnexpectedEnd,
    /// The data does not begin with the PNG signature.
    NotPng,
    /// The header chunk does not have its fixed length.
    MalformedIhdr,
    /// The header names an unknown colour type.
    UnsupportedColorType(u8),
    /// The image is interlaced.
    Interlaced,
    /// The bit depth is not supported for the colour type.
    UnsupportedDepth(u8, ColorType),
    /// The image has no pixels.
    EmptyImage,
    /// Image data comes before any header chunk.
    MissingIhdr,
    /// An indexed image has no palette.
    MissingPalette,
    /// The end chunk comes before any image data.
    NoImageData,
    /// A scanline does not fit in memory.
    TooWide,
    /// The compressed stream is unusable.
    Corrupt(InflateStatus),
    /// A scanline names an unknown filter.
    UnknownFilter(u8),
    /// The compressed stream held only so many of the scanlines.
    EndedAfter(u32, u32),
}

} // verus!

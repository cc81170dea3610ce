//! Error taxonomy of the codec.
//!
//! Every failure is fatal to the call that reports it: no partial blueprint
//! is ever handed out alongside an error.

use vstd::prelude::*;

verus! {

/// The envelope or the block framing is malformed.
#[derive(Debug, Clone, Copy, PartialEq, Eq)]
pub enum FormatError {
    /// The text does not begin with the `VCB+` marker.
    MissingPrefix,
    /// What follows the marker is not standard padded base64.
    InvalidBase64,
    /// The item that starts at `offset` of the body runs past its end.
    Truncated { offset: usize },
    /// The block at `offset` carries a tag that names no block kind.
    UnknownTag { offset: usize, tag: u32 },
    /// The block at `offset` declares a size below its own 12-byte preamble.
    SizeTooSmall { offset: usize, size: u32 },
    /// A length does not fit the 4-byte field that has to carry it.
    ValueTooLarge,
    /// The stored checksum differs from the one computed over the body.
    ChecksumMismatch,
}

/// A payload could not be turned into cells or text, or the reverse.
#[derive(Debug, Clone, Copy, PartialEq, Eq)]
pub enum CodecError {
    /// The compressed stream of the block at `offset` is corrupt or cut short.
    DecompressionFailed { offset: usize, tag: u32 },
    /// The decompressed layer of the block at `offset` is not a whole number of cells.
    MisalignedBuffer { offset: usize, tag: u32 },
    /// The decompressed text of the block at `offset` is not UTF-8.
    InvalidUtf8 { offset: usize, tag: u32 },
    /// The compressor reported a failure.
    CompressionFailed,
}

/// The stream is well framed but does not describe a blueprint.
#[derive(Debug, Clone, Copy, PartialEq, Eq)]
pub enum DomainError {
    /// No logic layer is present.
    MissingLogicLayer,
    /// A layer's cell count or shape disagrees with the grid dimensions.
    ShapeMismatch,
}

/// Any failure of decoding or encoding.
#[derive(Debug, Clone, Copy, PartialEq, Eq)]
pub enum Error {
    Format(FormatError),
    Codec(CodecError),
    Domain(DomainError),
}

} // verus!

//! Zstandard compression of block payloads.

use vstd::prelude::*;

verus! {

/// The error of the compressor, handed through without a look inside.
#[verifier::external_type_specification]
#[verifier::external_body]
pub struct ExIoError(std::io::Error);

/// The level handed to the compressor; zero selects its default.
pub const COMPRESSION_LEVEL: i32 = 0;

/// What a Zstandard stream decompresses to, if it is a well-formed stream.
pub uninterp spec fn zstd_decoded(stream: Seq<u8>) -> Option<Seq<u8>>;

/// `zstd::decode_all` on an in-memory stream: the decompressed bytes of
/// all its frames, or an error where the stream is corrupt or ends early.
/// What comes back is taken to depend on the stream alone; a decoder that
/// cannot get the memory it needs is not accounted for.
#[verifier::external_body]
fn zstd_decode_all(stream: &[u8]) -> (r: Result<Vec<u8>, std::io::Error>)
    ensures
        r matches Ok(data) ==> zstd_decoded(stream@) == Some(data@),
        r is Err ==> zstd_decoded(stream@) is None,
{
    zstd::decode_all(stream)
}

/// The Zstandard stream that the compressor makes of some data at a level,
/// if it makes one.
pub uninterp spec fn zstd_encoded(data: Seq<u8>, level: i32) -> Option<Seq<u8>>;

/// `zstd::encode_all` on an in-memory buffer: the compressed stream, or an
/// error where the compressor reports one. Every call sets up a compressor
/// of its own, feeds it the whole buffer and finishes the frame, so that
/// what comes back is taken to depend on the data and the level alone; a
/// compressor that cannot get the memory it needs is not accounted for.
/// Decompressing a stream that it returns gives the data back.
#[verifier::external_body]
fn zstd_encode_all(data: &[u8], level: i32) -> (r: Result<Vec<u8>, std::io::Error>)
    ensures
        r matches Ok(stream) ==> zstd_encoded(data@, level) == Some(stream@),
        r is Err ==> zstd_encoded(data@, level) is None,
        r matches Ok(stream) ==> zstd_decoded(stream@) == Some(data@),
{
    zstd::encode_all(data, level)
}

/// Decompresses one payload.
pub fn decompress(stream: &[u8]) -> (r: Option<Vec<u8>>)
    ensures
        r is Some <==> zstd_decoded(stream@) is Some,
        r matches Some(data) ==> zstd_decoded(stream@) == Some(data@),
{
    match zstd_decode_all(stream) {
        Ok(data) => Some(data),
        Err(_) => None,
    }
}

/// Compresses one payload at [`COMPRESSION_LEVEL`]: the stream that the
/// compressor makes of it, which decompresses to the payload again.
/// Nothing comes back exactly where the compressor reports a failure.
pub fn compress(data: &[u8]) -> (r: Option<Vec<u8>>)
    ensures
        r is Some <==> zstd_encoded(data@, COMPRESSION_LEVEL) is Some,
        r matches Some(stream) ==> zstd_encoded(data@, COMPRESSION_LEVEL) == Some(stream@),
        r matches Some(stream) ==> zstd_decoded(stream@) == Some(data@),
{
    match zstd_encode_all(data, COMPRESSION_LEVEL) {
        Ok(stream) => Some(stream),
        Err(_) => None,
    }
}

} // verus!

//! The header checksum: the first six bytes of the SHA-1 digest of the
//! base64 text of everything that follows the checksum field.

use vstd::prelude::*;
use vstd::utf8::encode_utf8;
use crate::envelope::{base64_encode, base64_encoded, max_body_len};

verus! {

/// The number of digest bytes that the header keeps.
pub const CHECKSUM_LEN: usize = 6;

/// Where the checksum field ends in the body.
pub const CHECKSUM_END: usize = 9;

/// The SHA-1 digest of some bytes.
pub uninterp spec fn sha1_digest(data: Seq<u8>) -> Seq<u8>;

/// `sha1_smol::Sha1::from`, then `digest` and `bytes`: the twenty bytes of
/// the SHA-1 digest of the data.
#[verifier::external_body]
fn sha1(data: &[u8]) -> (digest: [u8; 20])
    ensures
        digest@ == sha1_digest(data@),
{
    sha1_smol::Sha1::from(data).digest().bytes()
}

/// The checksum of the bytes that follow the checksum field.
pub open spec fn checksum_of(tail: Seq<u8>) -> Seq<u8> {
    sha1_digest(encode_utf8(base64_encoded(tail))).take(CHECKSUM_LEN as int)
}

/// Whether the checksum stored in a body is the checksum of the rest of it.
pub open spec fn checksum_holds(body: Seq<u8>) -> bool
    recommends
        body.len() >= CHECKSUM_END,
{
    body.subrange(CHECKSUM_END - CHECKSUM_LEN, CHECKSUM_END as int) == checksum_of(
        body.skip(CHECKSUM_END as int),
    )
}

/// Keeps the first six bytes of a digest.
pub fn truncate_digest(digest: &[u8; 20]) -> (checksum: [u8; 6])
    ensures
        checksum@ == digest@.take(CHECKSUM_LEN as int),
{
    let checksum = [digest[0], digest[1], digest[2], digest[3], digest[4], digest[5]];
    assert(checksum@ =~= digest@.take(CHECKSUM_LEN as int));
    checksum
}

/// Computes the checksum of the bytes that follow the checksum field. They
/// must be few enough for the length of their base64 text to fit a `usize`.
pub fn compute_checksum(tail: &[u8]) -> (checksum: [u8; 6])
    requires
        tail@.len() <= max_body_len(),
    ensures
        checksum@ == checksum_of(tail@),
{
    let text = base64_encode(tail);
    let digest = sha1(text.as_str().as_bytes());
    truncate_digest(&digest)
}

/// Whether two checksums are the same.
pub fn same_checksum(a: &[u8; 6], b: &[u8; 6]) -> (same: bool)
    ensures
        same == (a@ == b@),
{
    let same = a[0] == b[0] && a[1] == b[1] && a[2] == b[2] && a[3] == b[3] && a[4] == b[4] && a[5]
        == b[5];
    assert(same == (a@ =~= b@));
    same
}

} // verus!

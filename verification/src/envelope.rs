//! The text envelope: the `VCB+` marker followed by the base64 of the body.

use base64::Engine;
use vstd::prelude::*;
use vstd::slice::slice_subrange;
use vstd::string::StringExecFns;
use vstd::utf8::{char_is_scalar, char_u32_cast, encode_utf8, is_ascii_chars};
use crate::error::FormatError;

verus! {

/// The error of the base64 engine, handed through without a look inside.
#[verifier::external_type_specification]
#[verifier::external_body]
pub struct ExDecodeError(base64::DecodeError);

/// What a standard, padded base64 text decodes to, if it is well formed.
/// The text is given by its bytes.
pub uninterp spec fn base64_decoded(text: Seq<u8>) -> Option<Seq<u8>>;

/// The standard, padded base64 text of some bytes.
pub uninterp spec fn base64_encoded(bytes: Seq<u8>) -> Seq<char>;

/// `Engine::decode` of `base64::engine::general_purpose::STANDARD`: the
/// decoded bytes, or an error where the input is not canonical padded
/// base64. The engine decodes into a buffer of three bytes for every four of
/// the input, rounded up, so the result is no longer than that.
#[verifier::external_body]
fn base64_decode(text: &[u8]) -> (r: Result<Vec<u8>, base64::DecodeError>)
    ensures
        r matches Ok(bytes) ==> base64_decoded(text@) == Some(bytes@),
        r matches Ok(bytes) ==> bytes@.len() <= (text@.len() + 3) / 4 * 3,
        r is Err ==> base64_decoded(text@) is None,
{
    base64::engine::general_purpose::STANDARD.decode(text)
}

/// `Engine::encode` of `base64::engine::general_purpose::STANDARD`. The
/// text it returns decodes to the bytes it was made from. The engine panics
/// where the length of the text would not fit a `usize`; the input is kept
/// short of that.
#[verifier::external_body]
pub(crate) fn base64_encode(bytes: &[u8]) -> (text: String)
    requires
        bytes@.len() <= usize::MAX / 4 * 3,
    ensures
        text@ == base64_encoded(bytes@),
        base64_decoded(encode_utf8(text@)) == Some(bytes@),
{
    base64::engine::general_purpose::STANDARD.encode(bytes)
}

/// The marker that opens every blueprint text.
pub open spec fn prefix() -> Seq<char> {
    seq!['V', 'C', 'B', '+']
}

/// The marker is the text `VCB+`.
pub proof fn lemma_prefix_is_marker()
    ensures
        prefix() == "VCB+"@,
{
    reveal_strlit("VCB+");
    assert(prefix() =~= "VCB+"@);
}

/// Whether a text opens with the marker.
pub open spec fn has_prefix(text: Seq<char>) -> bool {
    text.len() >= 4 && text.take(4) == prefix()
}

/// The body that a blueprint text carries: the text must open with the
/// marker, and what follows it must be base64.
pub open spec fn envelope_body(text: Seq<char>) -> Result<Seq<u8>, FormatError> {
    if !has_prefix(text) {
        Err(FormatError::MissingPrefix)
    } else {
        match base64_decoded(encode_utf8(text.skip(4))) {
            Some(body) => Ok(body),
            None => Err(FormatError::InvalidBase64),
        }
    }
}

/// The longest body whose base64 text still has a length that fits `usize`.
pub open spec fn max_body_len() -> nat {
    (usize::MAX / 4 * 3) as nat
}

/// The bytes of a result, or its error.
pub open spec fn bytes_result_view<E>(r: Result<Vec<u8>, E>) -> Result<Seq<u8>, E> {
    match r {
        Ok(bytes) => Ok(bytes@),
        Err(e) => Err(e),
    }
}

/// The characters of a result, or its error.
pub open spec fn text_result_view<E>(r: Result<String, E>) -> Result<Seq<char>, E> {
    match r {
        Ok(text) => Ok(text@),
        Err(e) => Err(e),
    }
}

/// An ASCII character is encoded as itself and alone; any other character
/// begins with a byte above the ASCII range.
proof fn lemma_encode_utf8_head(s: Seq<char>)
    requires
        s.len() > 0,
    ensures
        encode_utf8(s).len() > 0,
        (s[0] as u32) < 0x80 ==> encode_utf8(s)[0] == s[0] as u32 && encode_utf8(s).skip(1)
            == encode_utf8(s.skip(1)),
        (s[0] as u32) >= 0x80 ==> encode_utf8(s)[0] >= 0x80,
{
    let c = s[0] as u32;
    char_is_scalar(s[0]);
    assert(s.drop_first() =~= s.skip(1));
    if c < 0x80 {
        assert((c & 0x7F) as u8 == c) by (bit_vector)
            requires
                c < 0x80,
        ;
        assert(encode_utf8(s).skip(1) =~= encode_utf8(s.skip(1)));
    } else {
        let x = ((c >> 6) & 0x1F) as u8;
        let y = ((c >> 12) & 0x0F) as u8;
        let z = ((c >> 18) & 0x7) as u8;
        assert(0xC0u8 | x >= 0x80) by (bit_vector);
        assert(0xE0u8 | y >= 0x80) by (bit_vector);
        assert(0xF0u8 | z >= 0x80) by (bit_vector);
    }
}

/// A text opens with an ASCII word exactly when its UTF-8 bytes open with
/// the bytes of that word, and then the bytes after the word are those of
/// the text after it.
proof fn lemma_ascii_prefix(text: Seq<char>, word: Seq<char>)
    requires
        is_ascii_chars(word),
    ensures
        (text.len() >= word.len() && text.take(word.len() as int) == word) <==> (encode_utf8(
            text,
        ).len() >= word.len() && forall|i: int|
            0 <= i < word.len() ==> encode_utf8(text)[i] == word[i] as u32),
        (text.len() >= word.len() && text.take(word.len() as int) == word) ==> encode_utf8(
            text,
        ).skip(word.len() as int) == encode_utf8(text.skip(word.len() as int)),
    decreases word.len(),
{
    let bytes = encode_utf8(text);
    let n = word.len() as int;
    if n == 0 {
        assert(text.take(0) =~= word);
        assert(bytes.skip(0) =~= bytes);
        assert(text.skip(0) =~= text);
    } else if text.len() == 0 {
    } else {
        lemma_encode_utf8_head(text);
        let rest = text.skip(1);
        let tail = word.skip(1);
        assert(word[0] as u32 <= 0x7F);
        lemma_ascii_prefix(rest, tail);
        let rest_bytes = encode_utf8(rest);
        if text.len() >= n && text.take(n) == word {
            assert(text[0] == text.take(n)[0]);
            assert(rest.take(n - 1) =~= tail);
            assert forall|i: int| 0 <= i < n implies bytes[i] == word[i] as u32 by {
                if i > 0 {
                    assert(bytes[i] == bytes.skip(1)[i - 1]);
                    assert(word[i] == tail[i - 1]);
                }
            }
            assert(bytes.skip(n) =~= bytes.skip(1).skip(n - 1));
            assert(text.skip(n) =~= rest.skip(n - 1));
        }
        if bytes.len() >= n && forall|i: int| 0 <= i < n ==> bytes[i] == word[i] as u32 {
            assert(bytes[0] == word[0] as u32);
            assert((text[0] as u32) < 0x80);
            assert(text[0] == word[0]) by {
                char_u32_cast(text[0], text[0] as u32);
                char_u32_cast(word[0], word[0] as u32);
            }
            assert forall|i: int| 0 <= i < n - 1 implies rest_bytes[i] == tail[i] as u32 by {
                assert(rest_bytes[i] == bytes[i + 1]);
                assert(tail[i] == word[i + 1]);
            }
            assert(rest.take(n - 1) == tail);
            assert(text.take(n) =~= seq![text[0]] + rest.take(n - 1));
            assert(word =~= seq![word[0]] + tail);
        }
    }
}

/// Strips the marker and decodes the base64 that follows it.
pub fn decode_envelope(text: &str) -> (r: Result<Vec<u8>, FormatError>)
    ensures
        bytes_result_view(r) == envelope_body(text@),
        r matches Ok(body) ==> body@.len() <= max_body_len(),
{
    let bytes = text.as_bytes();
    proof {
        assert(is_ascii_chars(prefix()));
        lemma_ascii_prefix(text@, prefix());
    }
    // The marker in ASCII: 'V', 'C', 'B', '+'.
    if bytes.len() < 4 || bytes[0] != 0x56 || bytes[1] != 0x43 || bytes[2] != 0x42 || bytes[3]
        != 0x2B {
        return Err(FormatError::MissingPrefix);
    }
    let payload = slice_subrange(bytes, 4, bytes.len());
    assert(payload@ =~= bytes@.skip(4));
    match base64_decode(payload) {
        Ok(body) => Ok(body),
        Err(_) => Err(FormatError::InvalidBase64),
    }
}

/// Encodes a body as base64 behind the marker. The body must be short
/// enough for the length of its text to fit a `usize`.
pub fn encode_envelope(body: &[u8]) -> (text: String)
    requires
        body@.len() <= max_body_len(),
    ensures
        text@ == prefix() + base64_encoded(body@),
        envelope_body(text@) == Ok::<Seq<u8>, FormatError>(body@),
{
    let encoded = base64_encode(body);
    let text = String::from_str("VCB+").concat(encoded.as_str());
    proof {
        lemma_prefix_is_marker();
        assert(text@.take(4) =~= prefix());
        assert(text@.skip(4) =~= encoded@);
    }
    text
}

} // verus!

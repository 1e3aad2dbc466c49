//! SHA-256 digests and their textual forms.

use crate::text::{chars_of, digit_to_char, join2, only_lower_hex, string_of, strip_prefix};
use crate::text;
use sha2::Digest;
use vstd::prelude::*;

verus! {

/// The streaming SHA-256 hasher of the `sha2` crate.
#[verifier::external_type_specification]
#[verifier::external_body]
pub struct ExSha256(sha2::Sha256);

/// The bytes that a hasher has taken so far.
pub uninterp spec fn hasher_input(hasher: sha2::Sha256) -> Seq<u8>;

/// The SHA-256 digest of some bytes.
pub uninterp spec fn sha256(data: Seq<u8>) -> Seq<u8>;

/// `sha2::Sha256::new` gives a hasher that has taken no bytes.
#[verifier::external_body]
pub(crate) fn hasher_new() -> (hasher: sha2::Sha256)
    ensures
        hasher_input(hasher) == Seq::<u8>::empty(),
{
    sha2::Sha256::new()
}

/// `Digest::update` puts the bytes behind those the hasher has taken already.
#[verifier::external_body]
pub(crate) fn hasher_update(hasher: &mut sha2::Sha256, bytes: &[u8])
    ensures
        hasher_input(*final(hasher)) == hasher_input(*old(hasher)) + bytes@,
{
    hasher.update(bytes)
}

/// `Sha256::clone` gives a hasher that has taken the same bytes.
#[verifier::external_body]
pub(crate) fn hasher_clone(hasher: &sha2::Sha256) -> (copy: sha2::Sha256)
    ensures
        hasher_input(copy) == hasher_input(*hasher),
{
    hasher.clone()
}

/// `Digest::finalize`, on a clone of the hasher, gives the digest of the bytes
/// that the hasher has taken; which digest that is, is left to the name.
#[verifier::external_body]
pub(crate) fn hasher_digest(hasher: &sha2::Sha256) -> (digest: [u8; 32])
    ensures
        digest@ == sha256(hasher_input(*hasher)),
{
    hasher.clone().finalize().into()
}

/// `sha2::Sha256::digest` gives the digest of the bytes in one call.
#[verifier::external_body]
pub(crate) fn sha256_digest(bytes: &[u8]) -> (digest: [u8; 32])
    ensures
        digest@ == sha256(bytes@),
{
    sha2::Sha256::digest(bytes).into()
}

/// What a digest begins with where a text names its algorithm.
pub const SHA256_PREFIX: &'static str = "sha256:";

/// Each byte as two lower-case hexadecimal digits, the high one first.
pub open spec fn hex_encode(bytes: Seq<u8>) -> Seq<char> {
    Seq::new(
        2 * bytes.len(),
        |i: int|
            if i % 2 == 0 {
                text::digit_char(bytes[i / 2] as nat / 16)
            } else {
                text::digit_char(bytes[i / 2] as nat % 16)
            },
    )
}

/// The bytes that pairs of hexadecimal digits stand for.
pub open spec fn hex_decode(text: Seq<char>) -> Seq<u8> {
    Seq::new(
        text.len() / 2,
        |i: int| (text::digit_value(text[2 * i]) * 16 + text::digit_value(text[2 * i + 1])) as u8,
    )
}

/// A digest as the runtime writes it: sixty-four lower-case hexadecimal digits.
pub open spec fn is_digest_text(text: Seq<char>) -> bool {
    text.len() == 64 && text::all_lower_hex(text)
}

/// The digest of some bytes in lower-case hexadecimal notation.
pub open spec fn digest_text(data: Seq<u8>) -> Seq<char> {
    hex_encode(sha256(data))
}

/// Writes each byte as two lower-case hexadecimal digits.
pub fn encode_sha256(digest: &[u8]) -> (encoded: String)
    ensures
        encoded@ == hex_encode(digest@),
{
    let mut encoded = String::new();
    let mut i: usize = 0;
    while i < digest.len()
        invariant
            i <= digest.len(),
            encoded@ == hex_encode(digest@.take(i as int)),
        decreases digest.len() - i,
    {
        let byte = digest[i];
        encoded.push(digit_to_char(byte / 16));
        encoded.push(digit_to_char(byte % 16));
        assert(encoded@ =~= hex_encode(digest@.take(i + 1)));
        i = i + 1;
    }
    assert(digest@.take(i as int) == digest@);
    encoded
}

/// The digest of some bytes, as text.
pub fn sha256_hex(bytes: &[u8]) -> (text: String)
    ensures
        text@ == digest_text(bytes@),
{
    let digest = sha256_digest(bytes);
    encode_sha256(&digest)
}

/// The digest of what a hasher has taken, as text.
pub fn finish_sha256(hasher: sha2::Sha256) -> (text: String)
    ensures
        text@ == digest_text(hasher_input(hasher)),
{
    let digest = hasher_digest(&hasher);
    encode_sha256(&digest)
}

/// The digest of some bytes, as text with the name of the algorithm before it.
pub fn prefixed_sha256_hex(bytes: &[u8]) -> (text: String)
    ensures
        text@ == SHA256_PREFIX@ + digest_text(bytes@),
{
    let digest = sha256_hex(bytes);
    join2(SHA256_PREFIX, digest.as_str())
}

/// What stands behind the name of the algorithm, where a text begins with it.
pub fn strip_sha256_prefix(value: &str) -> (digest: Option<String>)
    ensures
        match digest {
            Some(digest) => text::without_prefix(value@, SHA256_PREFIX@) == Some(digest@),
            None => text::without_prefix(value@, SHA256_PREFIX@) is None,
        },
{
    let chars = chars_of(value);
    match strip_prefix(&chars, SHA256_PREFIX) {
        Some(rest) => Some(string_of(&rest)),
        None => None,
    }
}

/// The value of one hexadecimal digit.
fn digit_of(c: char) -> (value: u8)
    requires
        text::is_lower_hex(c),
    ensures
        value == text::digit_value(c),
        value < 16,
{
    if '0' <= c && c <= '9' {
        ((c as u32) - 48) as u8
    } else {
        ((c as u32) - 87) as u8
    }
}

/// The thirty-two bytes of a digest text, or nothing where the text is not one.
pub fn decode_lowercase_sha256_hex(value: &str) -> (digest: Option<[u8; 32]>)
    ensures
        digest is Some <==> is_digest_text(value@),
        digest matches Some(digest) ==> digest@ == hex_decode(value@),
{
    let chars = chars_of(value);
    if chars.len() != 64 || !only_lower_hex(&chars) {
        return None;
    }
    let mut digest: [u8; 32] = [0u8; 32];
    let mut i: usize = 0;
    while i < 32
        invariant
            i <= 32,
            chars@ == value@,
            is_digest_text(value@),
            forall|j: int| 0 <= j < i ==> #[trigger] digest@[j] == hex_decode(value@)[j],
        decreases 32 - i,
    {
        assert(text::is_lower_hex(chars@[2 * i]) && text::is_lower_hex(chars@[2 * i + 1]));
        let high = digit_of(chars[2 * i]);
        let low = digit_of(chars[2 * i + 1]);
        digest[i] = high * 16 + low;
        i = i + 1;
    }
    assert(digest@ =~= hex_decode(value@));
    Some(digest)
}

/// Whether a text is a digest in lower-case hexadecimal notation.
pub fn is_lowercase_sha256_hex(value: &str) -> (is: bool)
    ensures
        is == is_digest_text(value@),
{
    decode_lowercase_sha256_hex(value).is_some()
}

/// Decoding gives back the bytes that were encoded.
pub proof fn law_hex_round_trip(bytes: Seq<u8>)
    ensures
        hex_decode(hex_encode(bytes)) == bytes,
        text::all_lower_hex(hex_encode(bytes)),
{
    let text = hex_encode(bytes);
    assert forall|i: int| 0 <= i < text.len() implies text::is_lower_hex(#[trigger] text[i]) by {
        let byte = bytes[i / 2] as nat;
        assert(byte / 16 < 16 && byte % 16 < 16);
    }
    assert forall|i: int| 0 <= i < bytes.len() implies hex_decode(text)[i] == bytes[i] by {
        let byte = bytes[i] as nat;
        assert((2 * i) / 2 == i && (2 * i + 1) / 2 == i);
        assert(text[2 * i] == text::digit_char(byte / 16));
        assert(text[2 * i + 1] == text::digit_char(byte % 16));
        assert(text::digit_value(text::digit_char(byte / 16)) == byte / 16);
        assert(text::digit_value(text::digit_char(byte % 16)) == byte % 16);
    }
    assert(hex_decode(text) =~= bytes);
}

/// Encoding gives back the digest text that was decoded.
pub proof fn law_hex_text_round_trip(text: Seq<char>)
    requires
        is_digest_text(text),
    ensures
        hex_encode(hex_decode(text)) == text,
{
    let bytes = hex_decode(text);
    assert forall|i: int| 0 <= i < text.len() implies hex_encode(bytes)[i] == text[i] by {
        let k = i / 2;
        assert(text::is_lower_hex(text[2 * k]) && text::is_lower_hex(text[2 * k + 1]));
        let high = text::digit_value(text[2 * k]);
        let low = text::digit_value(text[2 * k + 1]);
        assert(bytes[k] == high * 16 + low);
        assert(text::digit_char(high) == text[2 * k]);
        assert(text::digit_char(low) == text[2 * k + 1]);
        assert(i == 2 * k || i == 2 * k + 1);
    }
    assert(hex_encode(bytes) =~= text);
}

} // verus!

//! Byte encodings: unpadded URL-safe base64 (from `base64`), SHA-256 (from
//! `sha2`) and lowercase hexadecimal.
use vstd::prelude::*;

verus! {

/// What `URL_SAFE_NO_PAD.encode` gives for `bytes`.
pub uninterp spec fn base64url_encoded(bytes: Seq<u8>) -> Seq<char>;

/// What `URL_SAFE_NO_PAD.decode` gives for `text`: `None` when it refuses it.
pub uninterp spec fn base64url_decoded(text: Seq<char>) -> Option<Seq<u8>>;

/// The SHA-256 digest of `bytes`.
pub uninterp spec fn sha256_of(bytes: Seq<u8>) -> Seq<u8>;

/// A character of the URL-safe base64 alphabet.
pub open spec fn is_base64url_char(c: char) -> bool {
    ('A' <= c && c <= 'Z') || ('a' <= c && c <= 'z') || ('0' <= c && c <= '9') || c == '-' || c == '_'
}

/// Calls `base64::engine::general_purpose::URL_SAFE_NO_PAD.encode`. Claims,
/// as the crate documents, that the text uses only the URL-safe alphabet,
/// that decoding it gives `bytes` back, and (as `encoded_len` without padding
/// computes it) that it has four characters per three bytes, rounded up.
#[verifier::external_body]
pub(crate) fn base64url_encode(bytes: &[u8]) -> (s: String)
    ensures
        s@ == base64url_encoded(bytes@),
        base64url_decoded(s@) == Some(bytes@),
        s@.len() == (4 * bytes@.len() + 2) / 3,
        forall|i: int| 0 <= i < s@.len() ==> is_base64url_char(#[trigger] s@[i]),
{
    base64::Engine::encode(&base64::engine::general_purpose::URL_SAFE_NO_PAD, bytes)
}

/// Calls `base64::engine::general_purpose::URL_SAFE_NO_PAD.decode`; the
/// outcome is named `base64url_decoded`.
#[verifier::external_body]
pub(crate) fn base64url_decode(text: &str) -> (r: Option<Vec<u8>>)
    ensures
        match r {
            Some(b) => base64url_decoded(text@) == Some(b@),
            None => base64url_decoded(text@) is None,
        },
{
    base64::Engine::decode(&base64::engine::general_purpose::URL_SAFE_NO_PAD, text).ok()
}

/// Calls `sha2::Sha256::digest`: 32 bytes, named `sha256_of`.
#[verifier::external_body]
pub(crate) fn sha256(bytes: &[u8]) -> (d: Vec<u8>)
    ensures
        d@ == sha256_of(bytes@),
        d@.len() == 32,
{
    <sha2::Sha256 as sha2::Digest>::digest(bytes).to_vec()
}

/// The lowercase hexadecimal digit of `n < 16`.
pub open spec fn hex_digit(n: int) -> char {
    if n < 10 {
        (48 + n) as char
    } else {
        (87 + n) as char
    }
}

/// Two lowercase hexadecimal digits per byte, most significant first.
pub open spec fn hex_lower(bytes: Seq<u8>) -> Seq<char>
    decreases bytes.len(),
{
    if bytes.len() == 0 {
        Seq::<char>::empty()
    } else {
        let b = bytes.last() as int;
        hex_lower(bytes.drop_last()) + seq![hex_digit(b / 16), hex_digit(b % 16)]
    }
}

fn hex_char(n: u8) -> (c: char)
    requires
        n < 16,
    ensures
        c == hex_digit(n as int),
{
    if n < 10 {
        (48 + n) as char
    } else {
        (87 + n) as char
    }
}

/// `bytes` in lowercase hexadecimal.
pub fn to_hex(bytes: &[u8]) -> (s: String)
    ensures
        s@ == hex_lower(bytes@),
{
    let mut s = String::new();
    let mut i: usize = 0;
    while i < bytes.len()
        invariant
            i <= bytes@.len(),
            s@ == hex_lower(bytes@.take(i as int)),
        decreases bytes@.len() - i,
    {
        let b = bytes[i];
        crate::text::push_char(&mut s, hex_char(b / 16));
        crate::text::push_char(&mut s, hex_char(b % 16));
        proof {
            assert(bytes@.take(i + 1).drop_last() =~= bytes@.take(i as int));
            assert(bytes@.take(i + 1).last() == b);
            assert(s@ =~= hex_lower(bytes@.take(i + 1)));
        }
        i = i + 1;
    }
    proof {
        assert(bytes@.take(i as int) =~= bytes@);
    }
    s
}

/// The stored fingerprint of a secret: SHA-256 of its UTF-8 bytes, in hex.
pub open spec fn digest_spec(value: Seq<char>) -> Seq<char> {
    hex_lower(sha256_of(vstd::utf8::encode_utf8(value)))
}

/// The lowercase hexadecimal SHA-256 digest of `value`'s UTF-8 bytes.
pub fn digest(value: &str) -> (s: String)
    ensures
        s@ == digest_spec(value@),
{
    let d = sha256(value.as_bytes());
    to_hex(d.as_slice())
}

} // verus!

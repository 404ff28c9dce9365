//! Secret keys from settings: the demo-cookie signing key and the contact
//! encryption key, as text or as stored bytes.
use vstd::prelude::*;
use crate::codec::{base64url_decode, base64url_decoded};

verus! {

/// What `base64::engine::general_purpose::STANDARD.decode` gives for `text`:
/// `None` when it refuses it.
pub uninterp spec fn base64_standard_decoded(text: Seq<char>) -> Option<Seq<u8>>;

/// Calls `STANDARD.decode` (padded standard base64); the outcome is named
/// `base64_standard_decoded`.
#[verifier::external_body]
fn base64_standard_decode(text: &str) -> (r: Option<Vec<u8>>)
    ensures
        match r {
            Some(b) => base64_standard_decoded(text@) == Some(b@),
            None => base64_standard_decoded(text@) is None,
        },
{
    base64::Engine::decode(&base64::engine::general_purpose::STANDARD, text).ok()
}

/// Why a key setting was refused.
#[derive(Clone, Copy, Debug, PartialEq, Eq, Structural)]
pub enum KeyError {
    NotBase64,
    TooShort,
}

impl KeyError {
    /// The explanation of the refusal, for a cookie-signing key.
    pub fn message(&self) -> (m: &'static str)
        ensures
            m@ == (match *self {
                KeyError::NotBase64 => "COOKIE_SIGNING_KEY must be base64"@,
                KeyError::TooShort => "COOKIE_SIGNING_KEY must decode to at least 32 bytes"@,
            }),
    {
        match self {
            KeyError::NotBase64 => "COOKIE_SIGNING_KEY must be base64",
            KeyError::TooShort => "COOKIE_SIGNING_KEY must decode to at least 32 bytes",
        }
    }
}

/// The cookie-signing key that setting `text` holds: standard base64 of at
/// least 32 bytes.
pub fn cookie_key_from_setting(text: &str) -> (r: Result<Vec<u8>, KeyError>)
    ensures
        match base64_standard_decoded(text@) {
            None => r == Err::<Vec<u8>, KeyError>(KeyError::NotBase64),
            Some(b) => if b.len() >= 32 {
                r matches Ok(k) && k@ == b
            } else {
                r == Err::<Vec<u8>, KeyError>(KeyError::TooShort)
            },
        },
{
    let key = match base64_standard_decode(text) {
        Some(k) => k,
        None => return Err(KeyError::NotBase64),
    };
    if key.len() < 32 {
        return Err(KeyError::TooShort);
    }
    Ok(key)
}

/// Whether a stored cookie-signing key is long enough: at least 32 bytes.
pub fn stored_cookie_key_ok(key: &[u8]) -> (b: bool)
    ensures
        b == (key@.len() >= 32),
{
    key.len() >= 32
}

/// The contact key that setting `text` holds: unpadded URL-safe base64.
pub fn contact_key_from_setting(text: &str) -> (r: Option<Vec<u8>>)
    ensures
        match r {
            Some(k) => base64url_decoded(text@) == Some(k@),
            None => base64url_decoded(text@) is None,
        },
{
    base64url_decode(text)
}

} // verus!

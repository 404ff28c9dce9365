//! Contact-field encryption with XChaCha20-Poly1305 (from `chacha20poly1305`).
//! A sealed value reads `v1.<nonce>.<ciphertext>`, both parts in unpadded
//! URL-safe base64.
use vstd::prelude::*;
use vstd::utf8::{decode_utf8, encode_utf8, valid_utf8};
use crate::codec::{base64url_decode, base64url_decoded, base64url_encode, base64url_encoded, is_base64url_char};
use crate::text::{free_of, split_char, split_on, lemma_split_free, lemma_split_append_piece};

verus! {

/// What XChaCha20-Poly1305 encryption under `key` and `nonce` gives for
/// `plaintext` (no associated data); `None` when it refuses.
pub uninterp spec fn xchacha_sealed(key: Seq<u8>, nonce: Seq<u8>, plaintext: Seq<u8>) -> Option<Seq<u8>>;

/// What XChaCha20-Poly1305 decryption under `key` and `nonce` gives for
/// `ciphertext` (no associated data); `None` when authentication fails.
pub uninterp spec fn xchacha_opened(key: Seq<u8>, nonce: Seq<u8>, ciphertext: Seq<u8>) -> Option<Seq<u8>>;

/// Plaintexts shorter than this (in bytes) are always accepted for encryption.
pub open spec fn seal_limit() -> int {
    274877906880int
}

/// Calls `OsRng.fill_bytes` (the `rand_core` re-exported by
/// `chacha20poly1305::aead`) on 24 bytes. The bytes are random: only their
/// number is claimed.
#[verifier::external_body]
fn random_nonce() -> (n: Vec<u8>)
    ensures
        n@.len() == 24,
{
    let mut nonce = [0u8; 24];
    chacha20poly1305::aead::rand_core::RngCore::fill_bytes(&mut chacha20poly1305::aead::OsRng, &mut nonce);
    nonce.to_vec()
}

/// Calls `Aead::encrypt` of `XChaCha20Poly1305` built from `key`. The result is
/// named `xchacha_sealed`; as the AEAD contract documents, decryption under the
/// same key and nonce gives the plaintext back, the ciphertext is the
/// plaintext's length plus the 16-byte tag, and the crate's source refuses
/// exactly the plaintexts of `seal_limit()` bytes or more.
#[verifier::external_body]
fn xchacha_seal(key: &[u8], nonce: &[u8], plaintext: &[u8]) -> (c: Option<Vec<u8>>)
    requires
        key@.len() == 32,
        nonce@.len() == 24,
    ensures
        match c {
            Some(c) => xchacha_sealed(key@, nonce@, plaintext@) == Some(c@)
                && xchacha_opened(key@, nonce@, c@) == Some(plaintext@)
                && c@.len() == plaintext@.len() + 16,
            None => xchacha_sealed(key@, nonce@, plaintext@) is None,
        },
        c is Some <==> plaintext@.len() < seal_limit(),
{
    let cipher = <chacha20poly1305::XChaCha20Poly1305 as chacha20poly1305::KeyInit>::new_from_slice(key).ok()?;
    chacha20poly1305::aead::Aead::encrypt(&cipher, chacha20poly1305::XNonce::from_slice(nonce), plaintext).ok()
}

/// Calls `Aead::decrypt` of `XChaCha20Poly1305` built from `key`; the result is
/// named `xchacha_opened`.
#[verifier::external_body]
fn xchacha_open(key: &[u8], nonce: &[u8], ciphertext: &[u8]) -> (p: Option<Vec<u8>>)
    requires
        key@.len() == 32,
        nonce@.len() == 24,
    ensures
        match p {
            Some(p) => xchacha_opened(key@, nonce@, ciphertext@) == Some(p@),
            None => xchacha_opened(key@, nonce@, ciphertext@) is None,
        },
{
    let cipher = <chacha20poly1305::XChaCha20Poly1305 as chacha20poly1305::KeyInit>::new_from_slice(key).ok()?;
    chacha20poly1305::aead::Aead::decrypt(&cipher, chacha20poly1305::XNonce::from_slice(nonce), ciphertext).ok()
}

/// Calls `String::from_utf8`: the text that `bytes` encode, when they are
/// valid UTF-8.
#[verifier::external_body]
fn utf8_text(bytes: Vec<u8>) -> (r: Option<String>)
    ensures
        match r {
            Some(s) => valid_utf8(bytes@) && s@ == decode_utf8(bytes@),
            None => !valid_utf8(bytes@),
        },
{
    String::from_utf8(bytes).ok()
}

/// UTF-8 takes at least one byte per character.
proof fn lemma_utf8_no_shorter(chars: Seq<char>)
    ensures
        encode_utf8(chars).len() >= chars.len(),
    decreases chars.len(),
{
    if chars.len() > 0 {
        lemma_utf8_no_shorter(chars.drop_first());
    }
}

/// Why a contact value could not be sealed or opened.
#[derive(Debug, PartialEq, Eq, Structural)]
pub enum CipherError {
    InvalidKeyLength,
    EncryptionFailed,
    NotEncrypted,
    MissingNonce,
    MissingCiphertext,
    InvalidEncoding,
    InvalidNonce,
    DecryptionFailed,
    NotUtf8,
}

pub open spec fn cipher_error_text(e: CipherError) -> Seq<char> {
    match e {
        CipherError::InvalidKeyLength => "contact encryption key must be 32 bytes"@,
        CipherError::EncryptionFailed => "contact encryption failed"@,
        CipherError::NotEncrypted => "contact value is not encrypted"@,
        CipherError::MissingNonce => "missing nonce"@,
        CipherError::MissingCiphertext => "missing ciphertext"@,
        CipherError::InvalidEncoding => "contact value is not base64url"@,
        CipherError::InvalidNonce => "invalid contact nonce"@,
        CipherError::DecryptionFailed => "contact decryption failed"@,
        CipherError::NotUtf8 => "contact plaintext is not UTF-8"@,
    }
}

impl CipherError {
    /// The explanation of the failure.
    pub fn message(&self) -> (m: &'static str)
        ensures
            m@ == cipher_error_text(*self),
    {
        match self {
            CipherError::InvalidKeyLength => "contact encryption key must be 32 bytes",
            CipherError::EncryptionFailed => "contact encryption failed",
            CipherError::NotEncrypted => "contact value is not encrypted",
            CipherError::MissingNonce => "missing nonce",
            CipherError::MissingCiphertext => "missing ciphertext",
            CipherError::InvalidEncoding => "contact value is not base64url",
            CipherError::InvalidNonce => "invalid contact nonce",
            CipherError::DecryptionFailed => "contact decryption failed",
            CipherError::NotUtf8 => "contact plaintext is not UTF-8",
        }
    }
}

/// The stored form of ciphertext `c` sealed under nonce `n`.
pub open spec fn sealed_text(n: Seq<u8>, c: Seq<u8>) -> Seq<char> {
    "v1."@ + base64url_encoded(n) + "."@ + base64url_encoded(c)
}

/// What opening the stored value `value` under `key` gives.
pub open spec fn open_spec(key: Seq<u8>, value: Seq<char>) -> Result<Seq<char>, CipherError> {
    let parts = split_char(value, '.');
    if parts[0] != "v1"@ {
        Err(CipherError::NotEncrypted)
    } else if parts.len() < 2 {
        Err(CipherError::MissingNonce)
    } else {
        match base64url_decoded(parts[1]) {
            None => Err(CipherError::InvalidEncoding),
            Some(nonce) => if parts.len() < 3 {
                Err(CipherError::MissingCiphertext)
            } else {
                match base64url_decoded(parts[2]) {
                    None => Err(CipherError::InvalidEncoding),
                    Some(ciphertext) => if nonce.len() != 24 {
                        Err(CipherError::InvalidNonce)
                    } else {
                        match xchacha_opened(key, nonce, ciphertext) {
                            None => Err(CipherError::DecryptionFailed),
                            Some(plain) => if valid_utf8(plain) {
                                Ok(decode_utf8(plain))
                            } else {
                                Err(CipherError::NotUtf8)
                            },
                        }
                    },
                }
            },
        }
    }
}

/// The cipher that seals guardian contacts and calendar feed addresses.
pub struct ContactCipher {
    key: Vec<u8>,
}

impl Clone for ContactCipher {
    fn clone(&self) -> (c: ContactCipher)
        ensures
            c.key() == self.key(),
    {
        proof {
            use_type_invariant(self);
        }
        ContactCipher { key: self.key.clone() }
    }
}

impl ContactCipher {
    #[verifier::type_invariant]
    spec fn key_is_32_bytes(&self) -> bool {
        self.key@.len() == 32
    }

    /// The 32-byte key.
    pub closed spec fn key(&self) -> Seq<u8> {
        self.key@
    }

    /// A cipher over `key`, which must be 32 bytes long.
    pub fn from_key(key: &[u8]) -> (r: Result<ContactCipher, CipherError>)
        ensures
            match r {
                Ok(c) => key@.len() == 32 && c.key() == key@,
                Err(e) => key@.len() != 32 && e == CipherError::InvalidKeyLength,
            },
    {
        if key.len() != 32 {
            return Err(CipherError::InvalidKeyLength);
        }
        let mut k: Vec<u8> = Vec::new();
        let mut i: usize = 0;
        while i < key.len()
            invariant
                i <= key@.len(),
                k@ == key@.take(i as int),
            decreases key@.len() - i,
        {
            k.push(key[i]);
            proof {
                assert(key@.take(i + 1) =~= key@.take(i as int).push(key@[i as int]));
            }
            i = i + 1;
        }
        proof {
            assert(key@.take(i as int) =~= key@);
        }
        Ok(ContactCipher { key: k })
    }

    /// Seals `value` under a fresh random nonce. Whatever the nonce, the stored
    /// form opens back to `value`; only a plaintext of `seal_limit()` bytes or
    /// more is refused.
    pub fn encrypt(&self, value: &str) -> (r: Result<String, CipherError>)
        ensures
            match r {
                Ok(s) => (exists|n: Seq<u8>| n.len() == 24 && #[trigger] xchacha_sealed(self.key(), n, encode_utf8(value@)) is Some
                    && s@ == sealed_text(n, xchacha_sealed(self.key(), n, encode_utf8(value@))->0))
                    && open_spec(self.key(), s@) == Ok::<Seq<char>, CipherError>(value@)
                    && encode_utf8(value@).len() < seal_limit()
                    && s@.len() > value@.len() && s@ != value@,
                Err(e) => e == CipherError::EncryptionFailed && encode_utf8(value@).len() >= seal_limit(),
            },
    {
        proof {
            use_type_invariant(self);
        }
        let nonce = random_nonce();
        let plain = value.as_bytes();
        let sealed = match xchacha_seal(self.key.as_slice(), nonce.as_slice(), plain) {
            Some(c) => c,
            None => return Err(CipherError::EncryptionFailed),
        };
        let encoded_nonce = base64url_encode(nonce.as_slice());
        let encoded_ct = base64url_encode(sealed.as_slice());
        let mut out = "v1.".to_owned();
        out.append(encoded_nonce.as_str());
        out.append(".");
        out.append(encoded_ct.as_str());
        proof {
            reveal_strlit("v1.");
            reveal_strlit(".");
            reveal_strlit("v1");
            lemma_sealed_text_opens(self.key(), nonce@, sealed@, value@);
            lemma_utf8_no_shorter(value@);
            assert(out@.len() == 3 + encoded_nonce@.len() + 1 + encoded_ct@.len());
        }
        Ok(out)
    }

    /// Opens a stored contact value.
    pub fn decrypt(&self, value: &str) -> (r: Result<String, CipherError>)
        ensures
            match r {
                Ok(s) => open_spec(self.key(), value@) == Ok::<Seq<char>, CipherError>(s@),
                Err(e) => open_spec(self.key(), value@) == Err::<Seq<char>, CipherError>(e),
            },
    {
        proof {
            use_type_invariant(self);
            crate::text::lemma_split_nonempty(value@, '.');
            reveal_strlit("v1");
        }
        let parts = split_on(value, '.');
        if !(parts[0] == "v1".to_owned()) {
            return Err(CipherError::NotEncrypted);
        }
        if parts.len() < 2 {
            return Err(CipherError::MissingNonce);
        }
        let nonce = match base64url_decode(parts[1].as_str()) {
            Some(n) => n,
            None => return Err(CipherError::InvalidEncoding),
        };
        if parts.len() < 3 {
            return Err(CipherError::MissingCiphertext);
        }
        let ciphertext = match base64url_decode(parts[2].as_str()) {
            Some(c) => c,
            None => return Err(CipherError::InvalidEncoding),
        };
        if nonce.len() != 24 {
            return Err(CipherError::InvalidNonce);
        }
        let plain = match xchacha_open(self.key.as_slice(), nonce.as_slice(), ciphertext.as_slice()) {
            Some(p) => p,
            None => return Err(CipherError::DecryptionFailed),
        };
        match utf8_text(plain) {
            Some(s) => Ok(s),
            None => Err(CipherError::NotUtf8),
        }
    }
}

/// A value sealed under nonce `n` opens back to its plaintext.
proof fn lemma_sealed_text_opens(key: Seq<u8>, n: Seq<u8>, c: Seq<u8>, value: Seq<char>)
    requires
        n.len() == 24,
        xchacha_opened(key, n, c) == Some(encode_utf8(value)),
        base64url_decoded(base64url_encoded(n)) == Some(n),
        base64url_decoded(base64url_encoded(c)) == Some(c),
        forall|i: int| 0 <= i < base64url_encoded(n).len() ==> is_base64url_char(#[trigger] base64url_encoded(n)[i]),
        forall|i: int| 0 <= i < base64url_encoded(c).len() ==> is_base64url_char(#[trigger] base64url_encoded(c)[i]),
    ensures
        open_spec(key, sealed_text(n, c)) == Ok::<Seq<char>, CipherError>(value),
{
    reveal_strlit("v1.");
    reveal_strlit(".");
    reveal_strlit("v1");
    let en = base64url_encoded(n);
    let ec = base64url_encoded(c);
    assert(free_of(en, '.')) by {
        assert forall|i: int| 0 <= i < en.len() implies en[i] != '.' by {
            assert(is_base64url_char(en[i]));
        }
    }
    assert(free_of(ec, '.')) by {
        assert forall|i: int| 0 <= i < ec.len() implies ec[i] != '.' by {
            assert(is_base64url_char(ec[i]));
        }
    }
    let v1 = "v1"@;
    assert(free_of(v1, '.'));
    lemma_split_free(v1, '.');
    lemma_split_append_piece(v1, en, '.');
    lemma_split_append_piece(v1 + seq!['.'] + en, ec, '.');
    assert(sealed_text(n, c) =~= v1 + seq!['.'] + en + seq!['.'] + ec);
    let parts = split_char(sealed_text(n, c), '.');
    assert(parts =~= seq![v1, en, ec]);
    vstd::utf8::encode_utf8_valid_utf8(value);
    vstd::utf8::encode_utf8_decode_utf8(value);
}

} // verus!

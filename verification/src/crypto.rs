//! Secret protection at rest. With a key configured, subscriber secrets
//! are stored as "enc:v1:<b64 nonce>:<b64 ciphertext>" (AES-256-GCM,
//! URL-safe base64 without padding); without one they are stored as
//! they are. Values without the "enc:v1:" prefix always read back as
//! they are, so secrets stored before a key was adopted keep working.
use vstd::prelude::*;

use vstd::utf8::{decode_utf8, encode_utf8, valid_utf8};
use crate::text::{is_prefix, owned, parse_key_hex, key_hex_spec, push_all, split_once, split_once_spec, first_index, first_from, lemma_first_from, strip_prefix};

verus! {

/// The URL-safe base64 alphabet.
pub open spec fn b64_char(c: char) -> bool {
    ('A' <= c <= 'Z') || ('a' <= c <= 'z') || ('0' <= c <= '9') || c == '-' || c == '_'
}

/// URL-safe base64 without padding of some bytes.
pub uninterp spec fn b64_encoded(bytes: Seq<u8>) -> Seq<char>;

/// Decoding URL-safe base64 without padding (`None` for invalid input).
pub uninterp spec fn b64_decoded(s: Seq<char>) -> Option<Seq<u8>>;

/// `URL_SAFE_NO_PAD.encode(bytes)`: characters of the URL-safe alphabet
/// only, and decoding them gives the bytes back.
#[verifier::external_body]
pub(crate) fn b64_encode(bytes: &[u8]) -> (r: String)
    ensures
        r@ == b64_encoded(bytes@),
        b64_decoded(r@) == Some(bytes@),
        forall|i: int| 0 <= i < r@.len() ==> b64_char(#[trigger] r@[i]),
{
    base64::Engine::encode(&base64::engine::general_purpose::URL_SAFE_NO_PAD, bytes)
}

/// `URL_SAFE_NO_PAD.decode(s).ok()`. The encoding of some bytes decodes
/// to those bytes; the empty text decodes to no bytes; a text holding a
/// character outside the URL-safe alphabet (padding '=' included) is
/// refused.
#[verifier::external_body]
pub(crate) fn b64_decode(s: &str) -> (r: Option<Vec<u8>>)
    ensures
        match r {
            Some(v) => b64_decoded(s@) == Some(v@),
            None => b64_decoded(s@) is None,
        },
        forall|x: Seq<u8>| s@ == #[trigger] b64_encoded(x) ==> r is Some && r->0@ == x,
        s@.len() == 0 ==> r is Some && r->0@.len() == 0,
        (exists|i: int| 0 <= i < s@.len() && !b64_char(#[trigger] s@[i])) ==> r is None,
{
    base64::Engine::decode(&base64::engine::general_purpose::URL_SAFE_NO_PAD, s).ok()
}

/// AES-256-GCM encryption of some bytes.
pub uninterp spec fn aes_sealed(key: Seq<u8>, nonce: Seq<u8>, plaintext: Seq<u8>) -> Seq<u8>;

/// AES-256-GCM decryption (`None` when authentication fails).
pub uninterp spec fn aes_opened(key: Seq<u8>, nonce: Seq<u8>, ciphertext: Seq<u8>) -> Option<Seq<u8>>;

/// The largest plaintext AES-GCM encrypts, in bytes.
pub const AES_GCM_P_MAX: u64 = 68_719_476_736;

/// `Aes256Gcm::new(key).encrypt(nonce, plaintext)`. It fails only on
/// plaintexts over `AES_GCM_P_MAX` bytes, which `requires` rules out;
/// decrypting the result with the same key and nonce gives the plaintext
/// back.
#[verifier::external_body]
fn aes_seal(key: &[u8; 32], nonce: &[u8; 12], plaintext: &[u8]) -> (r: Vec<u8>)
    requires
        plaintext@.len() <= AES_GCM_P_MAX,
    ensures
        r@ == aes_sealed(key@, nonce@, plaintext@),
        aes_opened(key@, nonce@, r@) == Some(plaintext@),
{
    let cipher = <aes_gcm::Aes256Gcm as aes_gcm::aead::KeyInit>::new(key.into());
    aes_gcm::aead::Aead::encrypt(&cipher, aes_gcm::Nonce::from_slice(nonce), plaintext).expect(
        "plaintext within the AES-GCM length limit",
    )
}

/// `Aes256Gcm::new(key).decrypt(nonce, ciphertext).ok()`.
#[verifier::external_body]
fn aes_open(key: &[u8; 32], nonce: &[u8], ciphertext: &[u8]) -> (r: Option<Vec<u8>>)
    requires
        nonce@.len() == 12,
    ensures
        match r {
            Some(v) => aes_opened(key@, nonce@, ciphertext@) == Some(v@),
            None => aes_opened(key@, nonce@, ciphertext@) is None,
        },
{
    let cipher = <aes_gcm::Aes256Gcm as aes_gcm::aead::KeyInit>::new(key.into());
    aes_gcm::aead::Aead::decrypt(&cipher, aes_gcm::Nonce::from_slice(nonce), ciphertext).ok()
}

/// `String::from_utf8(bytes).ok()`: the text the bytes encode, when they
/// are valid UTF-8.
#[verifier::external_body]
pub(crate) fn utf8_decode(bytes: Vec<u8>) -> (r: Option<String>)
    ensures
        r is Some <==> valid_utf8(bytes@),
        r matches Some(s) ==> s@ == decode_utf8(bytes@),
{
    String::from_utf8(bytes).ok()
}

/// Twelve random bytes (`rand::random()`), a fresh nonce.
#[verifier::external_body]
fn random_nonce() -> (r: [u8; 12]) {
    rand::random()
}

/// The stored form of an encrypted secret.
pub open spec fn sealed_form(nonce: Seq<u8>, ciphertext: Seq<u8>) -> Seq<char> {
    "enc:v1:"@ + b64_encoded(nonce) + seq![':'] + b64_encoded(ciphertext)
}

/// What reading a stored secret gives.
pub open spec fn decrypt_spec(key: Option<Seq<u8>>, stored: Seq<char>) -> Option<Seq<char>> {
    if !is_prefix("enc:v1:"@, stored) {
        Some(stored)
    } else {
        match key {
            None => None,
            Some(k) => match split_once_spec(stored.skip(7), ':') {
                None => None,
                Some((n64, c64)) => match b64_decoded(n64) {
                    None => None,
                    Some(n) => if n.len() != 12 {
                        None
                    } else {
                        match b64_decoded(c64) {
                            None => None,
                            Some(ct) => match aes_opened(k, n, ct) {
                                None => None,
                                Some(b) => if valid_utf8(b) {
                                    Some(decode_utf8(b))
                                } else {
                                    None
                                },
                            },
                        }
                    },
                },
            },
        }
    }
}

/// A stored value without the "enc:v1:" prefix (a secret kept before
/// encryption was configured) reads back as itself, with or without a key.
pub proof fn lemma_legacy_plaintext(key: Option<Seq<u8>>, stored: Seq<char>)
    requires
        !is_prefix("enc:v1:"@, stored),
    ensures
        decrypt_spec(key, stored) == Some(stored),
{
}

/// The at-rest protection of subscriber secrets.
pub struct SecretCrypto {
    key: Option<[u8; 32]>,
}

impl SecretCrypto {
    /// The key's bytes, if one is configured.
    pub closed spec fn key_bytes(&self) -> Option<Seq<u8>> {
        match self.key {
            Some(k) => Some(k@),
            None => None,
        }
    }

    /// Built from an explicit key.
    pub fn new(key: Option<[u8; 32]>) -> (r: Self)
        ensures
            r.key_bytes() == match key {
                Some(k) => Some(k@),
                None => None,
            },
    {
        SecretCrypto { key }
    }

    /// Built from the configured key text: 64 hex characters are the key;
    /// anything else (or nothing) leaves encryption off.
    pub fn from_key_hex(hex: Option<&str>) -> (r: Self)
        ensures
            r.key_bytes() == match hex {
                Some(h) => key_hex_spec(h@),
                None => None,
            },
    {
        let key = match hex {
            Some(h) => parse_key_hex(h),
            None => None,
        };
        SecretCrypto { key }
    }

    pub fn enabled(&self) -> (r: bool)
        ensures
            r == self.key_bytes() is Some,
    {
        self.key.is_some()
    }

    /// The stored form of a secret: encrypted under a fresh random nonce
    /// when a key is configured, else the secret itself. Reading it back
    /// gives the secret (without a key, for secrets that do not start with
    /// "enc:v1:").
    pub fn encrypt(&self, plaintext: &str) -> (r: String)
        requires
            encode_utf8(plaintext@).len() <= AES_GCM_P_MAX,
        ensures
            self.key_bytes() is None ==> r@ == plaintext@,
            self.key_bytes() matches Some(k) ==> exists|n: Seq<u8>|
                n.len() == 12 && r@ == #[trigger] sealed_form(n, aes_sealed(k, n, encode_utf8(plaintext@))),
            self.key_bytes() is Some ==> decrypt_spec(self.key_bytes(), r@) == Some(plaintext@),
            self.key_bytes() is None && !is_prefix("enc:v1:"@, plaintext@) ==> decrypt_spec(
                self.key_bytes(),
                r@,
            ) == Some(plaintext@),
    {
        let key = match self.key {
            Some(k) => k,
            None => {
                return owned(plaintext);
            },
        };
        let nonce = random_nonce();
        let ct = aes_seal(&key, &nonce, plaintext.as_bytes());
        let n64 = b64_encode(nonce.as_slice());
        let c64 = b64_encode(ct.as_slice());
        let mut out = owned("enc:v1:");
        push_all(&mut out, n64.as_str());
        out.push(':');
        push_all(&mut out, c64.as_str());
        proof {
            reveal_strlit("enc:v1:");
            let s = out@;
            assert(s == sealed_form(nonce@, aes_sealed(key@, nonce@, encode_utf8(plaintext@))));
            vstd::utf8::encode_utf8_valid_utf8(plaintext@);
            vstd::utf8::encode_utf8_decode_utf8(plaintext@);
            assert(s.subrange(0, 7) =~= "enc:v1:"@);
            let rest = s.skip(7);
            assert(rest =~= n64@ + seq![':'] + c64@);
            lemma_first_from(rest, ':', 0);
            assert(rest[n64@.len() as int] == ':');
            assert(forall|i: int| 0 <= i < n64@.len() ==> rest[i] == n64@[i] && rest[i] != ':');
            assert(first_index(rest, ':') == Some(n64@.len() as int));
            assert(rest.subrange(0, n64@.len() as int) =~= n64@);
            assert(rest.subrange(n64@.len() as int + 1, rest.len() as int) =~= c64@);
        }
        out
    }

    /// Reads a stored secret: values without the "enc:v1:" prefix as they
    /// are; encrypted ones decrypted (None without a key, or when they do
    /// not decode, authenticate or form UTF-8).
    pub fn decrypt(&self, stored: &str) -> (r: Option<String>)
        ensures
            match r {
                Some(s) => decrypt_spec(self.key_bytes(), stored@) == Some(s@),
                None => decrypt_spec(self.key_bytes(), stored@) is None,
            },
    {
        let stripped = match strip_prefix(stored, "enc:v1:") {
            Some(s) => s,
            None => {
                return Some(owned(stored));
            },
        };
        proof {
            reveal_strlit("enc:v1:");
        }
        let key = match self.key {
            Some(k) => k,
            None => {
                return None;
            },
        };
        let (nonce_b64, ct_b64) = match split_once(stripped.as_str(), ':') {
            Some(p) => p,
            None => {
                return None;
            },
        };
        let nonce = match b64_decode(nonce_b64.as_str()) {
            Some(n) => n,
            None => {
                return None;
            },
        };
        if nonce.len() != 12 {
            return None;
        }
        let ct = match b64_decode(ct_b64.as_str()) {
            Some(c) => c,
            None => {
                return None;
            },
        };
        let plain = match aes_open(&key, nonce.as_slice(), ct.as_slice()) {
            Some(p) => p,
            None => {
                return None;
            },
        };
        utf8_decode(plain)
    }
}

} // verus!

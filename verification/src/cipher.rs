//! The record cipher: sealing one value under a data key and opening it
//! again.
//!
//! The cipher itself is Fernet.  A [`CipherHandle`] keeps the key text that
//! Fernet accepted; every seal and open goes through Fernet with that text.

use fernet::Fernet;
use vstd::prelude::*;
use vstd::slice::slice_subrange;

use crate::codec::{be_bytes, decode_value, decoded, encode_value, lemma_encode_decode};
use crate::error::EnvelopeError;

verus! {

/// The number of bytes of key material that make one data key.
pub const KEY_LEN: usize = 32;

/// The number of characters of the key text of one data key.
pub const KEY_TEXT_LEN: usize = 44;

/// The text that `base64::encode_config` gives for these bytes under the
/// configuration `URL_SAFE`.
pub uninterp spec fn base64_url_safe(bytes: Seq<u8>) -> Seq<char>;

/// Whether `Fernet::new` accepts this key text.
pub uninterp spec fn fernet_key_accepted(key: Seq<char>) -> bool;

/// The plaintext that `Fernet::decrypt` hands out for this token under this
/// key text on the calls on which it accepts the token; `None` where it
/// accepts on none.
pub uninterp spec fn fernet_plaintext(key: Seq<char>, token: Seq<char>) -> Option<Seq<u8>>;

/// `base64::encode_config` with `URL_SAFE`: the padded URL-safe text of the
/// bytes, which depends on the bytes alone.  It has four characters for
/// every three bytes, the last group padded.  The call panics where the
/// length of the text does not fit the machine; a key is far from that.
#[verifier::external_body]
fn url_safe_text(bytes: &[u8]) -> (r: String)
    requires
        bytes@.len() <= KEY_LEN,
    ensures
        r@ == base64_url_safe(bytes@),
        r@.len() == (bytes@.len() + 2) / 3 * 4,
{
    base64::encode_config(bytes, base64::URL_SAFE)
}

/// `Fernet::new`, asked only whether it takes the key text.  It takes a
/// text or refuses it by the text alone.
#[verifier::external_body]
fn key_accepted(key: &str) -> (r: bool)
    ensures
        r == fernet_key_accepted(key@),
{
    Fernet::new(key).is_some()
}

/// `Fernet::encrypt` under the cipher that `Fernet::new` makes of the key
/// text.  There is a token exactly when the key text is accepted.  The token
/// changes from call to call, with the clock and a random vector; whatever
/// it is, it holds the data under that key.  The call panics where the
/// system has no clock or no random source.
#[verifier::external_body]
fn seal(key: &str, data: &[u8]) -> (r: Option<String>)
    ensures
        r.is_some() == fernet_key_accepted(key@),
        r matches Some(token) ==> fernet_plaintext(key@, token@) == Some(data@),
{
    match Fernet::new(key) {
        Some(cipher) => Some(cipher.encrypt(data)),
        None => None,
    }
}

/// `Fernet::decrypt` under the cipher that `Fernet::new` makes of the key
/// text.  Bytes come back only under an accepted key, and then they are the
/// plaintext of the token under that key.  Nothing is promised of a
/// refusal: besides a malformed or forged token, a token stamped more than
/// a minute ahead of the clock is refused too.  The call panics where the
/// system has no clock.
#[verifier::external_body]
fn open(key: &str, token: &str) -> (r: Option<Vec<u8>>)
    ensures
        r matches Some(plain) ==> fernet_key_accepted(key@) && fernet_plaintext(key@, token@)
            == Some(plain@),
{
    match Fernet::new(key) {
        Some(cipher) => cipher.decrypt(token).ok(),
        None => None,
    }
}

/// The key text made of the first 32 bytes of key material.
pub open spec fn key_text_of(material: Seq<u8>) -> Seq<char>
    recommends
        material.len() >= KEY_LEN,
{
    base64_url_safe(material.subrange(0, KEY_LEN as int))
}

/// What reading makes of an opened token: the decryption error where the
/// cipher handed out nothing, else the decoding of the plaintext.
pub open spec fn value_of_opened(opened: Option<Seq<u8>>) -> Result<u32, EnvelopeError> {
    match opened {
        Some(plain) => decoded(plain),
        None => Err(EnvelopeError::Decryption),
    }
}

/// The value that a token holds under a key text, as far as the cipher and
/// the four-byte encoding define one.
pub open spec fn sealed_value(key: Seq<char>, token: Seq<char>) -> Result<u32, EnvelopeError> {
    value_of_opened(fernet_plaintext(key, token))
}

/// Encodes the first 32 bytes of key material as the URL-safe text from
/// which a cipher is made.  Shorter material is refused.
pub fn key_text_from_material(material: &[u8]) -> (r: Result<String, EnvelopeError>)
    ensures
        material@.len() < KEY_LEN ==> r == Err::<String, EnvelopeError>(
            EnvelopeError::KeyMaterialTooShort,
        ),
        material@.len() >= KEY_LEN ==> r is Ok && r->Ok_0@ == key_text_of(material@)
            && r->Ok_0@.len() == KEY_TEXT_LEN,
{
    if material.len() < KEY_LEN {
        return Err(EnvelopeError::KeyMaterialTooShort);
    }
    Ok(url_safe_text(slice_subrange(material, 0, KEY_LEN)))
}

/// Reads the value out of what the cipher handed back for a token.
pub fn read_opened(opened: Option<Vec<u8>>) -> (r: Result<u32, EnvelopeError>)
    ensures
        r == value_of_opened(
            match opened {
                Some(plain) => Some(plain@),
                None => None,
            },
        ),
{
    match opened {
        Some(plain) => decode_value(plain),
        None => Err(EnvelopeError::Decryption),
    }
}

/// A cipher ready for use: a key text that Fernet accepts.
pub struct CipherHandle {
    key: String,
}

impl View for CipherHandle {
    type V = Seq<char>;

    /// The key text of the handle.
    closed spec fn view(&self) -> Seq<char> {
        self.key@
    }
}

impl CipherHandle {
    #[verifier::type_invariant]
    spec fn key_is_accepted(self) -> bool {
        fernet_key_accepted(self.key@)
    }

    /// Makes a cipher from a key text, if Fernet accepts the text.
    pub fn new(key_text: &str) -> (r: Option<CipherHandle>)
        ensures
            r.is_some() == fernet_key_accepted(key_text@),
            r matches Some(handle) ==> handle@ == key_text@,
    {
        if key_accepted(key_text) {
            Some(CipherHandle { key: key_text.to_owned() })
        } else {
            None
        }
    }

    /// Makes a cipher from the first 32 bytes of key material.
    pub fn from_key_material(material: &[u8]) -> (r: Result<CipherHandle, EnvelopeError>)
        ensures
            match r {
                Ok(handle) => material@.len() >= KEY_LEN && handle@ == key_text_of(material@),
                Err(e) => e == (if material@.len() < KEY_LEN {
                    EnvelopeError::KeyMaterialTooShort
                } else {
                    EnvelopeError::KeyRejected
                }),
            },
            r is Ok <==> material@.len() >= KEY_LEN && fernet_key_accepted(
                key_text_of(material@),
            ),
    {
        match key_text_from_material(material) {
            Ok(text) => match CipherHandle::new(text.as_str()) {
                Some(handle) => Ok(handle),
                None => Err(EnvelopeError::KeyRejected),
            },
            Err(e) => Err(e),
        }
    }

    /// Seals a value: its four big-endian bytes, encrypted and
    /// authenticated under the key of this handle.  The token differs from
    /// call to call; each one holds the value.
    pub fn encrypt(&self, value: u32) -> (token: String)
        ensures
            fernet_plaintext(self@, token@) == Some(be_bytes(value)),
            sealed_value(self@, token@) == Ok::<u32, EnvelopeError>(value),
    {
        proof {
            use_type_invariant(self);
        }
        let plain = encode_value(value);
        match seal(self.key.as_str(), plain.as_slice()) {
            Some(token) => token,
            None => vstd::pervasive::unreached(),
        }
    }

    /// Opens a token: the bytes that the cipher hands out for it under
    /// the key of this handle, or nothing where it refuses the token.
    /// Whatever comes back is the plaintext of the token under that key.
    pub fn open_token(&self, token: &str) -> (r: Option<Vec<u8>>)
        ensures
            r matches Some(plain) ==> fernet_plaintext(self@, token@) == Some(plain@),
    {
        open(self.key.as_str(), token)
    }

    /// Opens a token and reads the value in it.  A value comes back only
    /// where the token holds exactly its four bytes under the key of this
    /// handle; a token that holds nothing under that key is refused with
    /// `Decryption`, one that holds another number of bytes with
    /// `PlaintextLength`.
    pub fn decrypt(&self, token: &str) -> (r: Result<u32, EnvelopeError>)
        ensures
            match r {
                Ok(value) => fernet_plaintext(self@, token@) == Some(be_bytes(value)),
                Err(e) => e == EnvelopeError::Decryption || (e == EnvelopeError::PlaintextLength
                    && sealed_value(self@, token@) == Err::<u32, EnvelopeError>(
                    EnvelopeError::PlaintextLength,
                )),
            },
            r is Ok ==> r == sealed_value(self@, token@),
            fernet_plaintext(self@, token@) is None ==> r == Err::<u32, EnvelopeError>(
                EnvelopeError::Decryption,
            ),
    {
        let opened = self.open_token(token);
        proof {
            if opened is Some && opened->Some_0@.len() == 4 {
                lemma_encode_decode(opened->Some_0@);
            }
        }
        read_opened(opened)
    }
}

/// Round trip: a token that holds the four bytes of `value` under a key
/// reads back as `value` under that key, for every 32-bit value.
pub proof fn lemma_round_trip(key: Seq<char>, token: Seq<char>, value: u32)
    requires
        fernet_plaintext(key, token) == Some(be_bytes(value)),
    ensures
        sealed_value(key, token) == Ok::<u32, EnvelopeError>(value),
{
}

/// No wrong integer: whenever a token reads as a value under a key, the
/// token holds exactly the four bytes of that value under that key; a token
/// that holds nothing reads as the decryption error.
pub proof fn lemma_no_wrong_value(key: Seq<char>, token: Seq<char>)
    ensures
        sealed_value(key, token) matches Ok(value) ==> fernet_plaintext(key, token) == Some(
            be_bytes(value),
        ),
        fernet_plaintext(key, token) is None ==> sealed_value(key, token) == Err::<
            u32,
            EnvelopeError,
        >(EnvelopeError::Decryption),
{
    if let Some(plain) = fernet_plaintext(key, token) {
        if plain.len() == 4 {
            lemma_encode_decode(plain);
        }
    }
}

} // verus!

//! The single-slot key cache.
//!
//! Unwrapping a data key costs a call to the key service.  The cache keeps
//! the cipher of the wrapped key seen last, under a 64-bit digest of the
//! wrapped bytes, so that consecutive records under one key cost one call.
//! The slot is replaced whenever another digest arrives; nothing is evicted
//! by age or size.

use vstd::prelude::*;

use crate::cipher::{fernet_key_accepted, key_text_of, CipherHandle, KEY_LEN};
use crate::error::EnvelopeError;

verus! {

/// The value of `fasthash::metro::hash64` on these bytes, for the variant
/// of the hash that the crate was built with.
pub uninterp spec fn metro_hash64(bytes: Seq<u8>) -> u64;

/// `fasthash::metro::hash64`: the unseeded 64-bit MetroHash of the bytes,
/// which depends on the bytes alone.
#[verifier::external_body]
fn metro_digest(bytes: &[u8]) -> (d: u64)
    ensures
        d == metro_hash64(bytes@),
{
    fasthash::metro::hash64(bytes)
}

/// What the cache holds: the digest seen last and the key text of the
/// cipher made for it, if one was made yet.
pub struct CacheState {
    /// The digest of the wrapped key installed last; 0 before the first.
    pub digest: u64,
    /// The key text of the cipher in the slot.
    pub key: Option<Seq<char>>,
}

impl CacheState {
    /// The cache before any key was installed.
    pub open spec fn empty() -> CacheState {
        CacheState { digest: 0, key: None }
    }

    /// Whether the cache answers for a wrapped key without a call to the
    /// key service: a cipher is there, and it was installed under the
    /// digest of these bytes.
    pub open spec fn serves(self, wrapped_key: Seq<u8>) -> bool {
        self.key is Some && self.digest == metro_hash64(wrapped_key)
    }

    /// The cache after the key material for a wrapped key was installed.
    pub open spec fn holding(wrapped_key: Seq<u8>, material: Seq<u8>) -> CacheState {
        CacheState { digest: metro_hash64(wrapped_key), key: Some(key_text_of(material)) }
    }
}

/// Whether key material makes a cipher: it has the 32 bytes of a key, and
/// the cipher accepts their text.
pub open spec fn material_usable(material: Seq<u8>) -> bool {
    material.len() >= KEY_LEN && fernet_key_accepted(key_text_of(material))
}

/// The fast, non-cryptographic digest by which wrapped keys are told apart.
pub fn digest(wrapped_key: &[u8]) -> (d: u64)
    ensures
        d == metro_hash64(wrapped_key@),
{
    metro_digest(wrapped_key)
}

/// One slot: the digest of the wrapped key seen last, and its cipher.
pub struct KeyCache {
    last_digest: u64,
    cipher: Option<CipherHandle>,
}

impl View for KeyCache {
    type V = CacheState;

    closed spec fn view(&self) -> CacheState {
        CacheState {
            digest: self.last_digest,
            key: match self.cipher {
                Some(handle) => Some(handle@),
                None => None,
            },
        }
    }
}

impl KeyCache {
    /// An empty cache.
    pub fn new() -> (cache: KeyCache)
        ensures
            cache@ == CacheState::empty(),
    {
        KeyCache { last_digest: 0, cipher: None }
    }

    /// The cipher for a wrapped key, if the cache has it: the cached
    /// handle when the digest of the bytes is the one seen last and a
    /// cipher is there.  `None` means that the key service has to unwrap
    /// the key, and [`KeyCache::install`] takes what it returns.
    pub fn resolve_cipher(&self, wrapped_key: &[u8]) -> (r: Option<&CipherHandle>)
        ensures
            r is Some <==> self@.serves(wrapped_key@),
            r matches Some(handle) ==> self@.key == Some(handle@),
    {
        if self.cipher.is_some() && metro_digest(wrapped_key) == self.last_digest {
            self.cipher.as_ref()
        } else {
            None
        }
    }

    /// The cipher in the slot, whatever key it was installed for.
    pub fn cipher(&self) -> (r: Option<&CipherHandle>)
        ensures
            match r {
                Some(handle) => self@.key == Some(handle@),
                None => self@.key is None,
            },
    {
        self.cipher.as_ref()
    }

    /// Takes in the key material that the key service unwrapped for a
    /// wrapped key: makes the cipher from its first 32 bytes and replaces
    /// the slot with it, under the digest of the wrapped bytes.  Material
    /// that makes no cipher leaves the cache as it was.
    pub fn install(&mut self, wrapped_key: &[u8], material: &[u8]) -> (r: Result<
        (),
        EnvelopeError,
    >)
        ensures
            r is Ok <==> material_usable(material@),
            r is Ok ==> final(self)@ == CacheState::holding(wrapped_key@, material@),
            r matches Err(e) ==> final(self)@ == old(self)@ && e == (if material@.len()
                < KEY_LEN {
                EnvelopeError::KeyMaterialTooShort
            } else {
                EnvelopeError::KeyRejected
            }),
    {
        match CipherHandle::from_key_material(material) {
            Ok(handle) => {
                self.last_digest = metro_digest(wrapped_key);
                self.cipher = Some(handle);
                Ok(())
            },
            Err(e) => Err(e),
        }
    }
}

} // verus!

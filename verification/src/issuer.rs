//! Issuing a data key: what is kept of the answer that the key service
//! gives to a request for a new 256-bit data key.

use vstd::prelude::*;

use crate::cipher::{
    fernet_key_accepted, key_text_from_material, key_text_of, CipherHandle, KEY_LEN, KEY_TEXT_LEN,
};
use crate::error::EnvelopeError;

verus! {

/// The answer of the key service to a request for a new data key.
pub struct DataKeyResponse {
    /// The data key, wrapped under the master key.
    pub ciphertext_blob: Option<Vec<u8>>,
    /// The data key in the clear.
    pub plaintext: Option<Vec<u8>>,
}

/// A freshly issued data key: the wrapped form, which is what is stored,
/// and the URL-safe text of the first 32 bytes of the key material, which
/// is what a cipher is made from and is never stored.  The text is one
/// that the cipher accepts.
pub struct IssuedKey {
    wrapped_key: Vec<u8>,
    key_text: String,
}

/// An issued key as plain values.
pub struct IssuedKeyView {
    /// The wrapped form of the key.
    pub wrapped_key: Seq<u8>,
    /// The key text.
    pub key_text: Seq<char>,
}

impl View for IssuedKey {
    type V = IssuedKeyView;

    closed spec fn view(&self) -> IssuedKeyView {
        IssuedKeyView { wrapped_key: self.wrapped_key@, key_text: self.key_text@ }
    }
}

impl IssuedKey {
    #[verifier::type_invariant]
    spec fn key_text_is_a_key(self) -> bool {
        fernet_key_accepted(self.key_text@) && self.key_text@.len() == KEY_TEXT_LEN
    }

    /// The wrapped form of the key.
    pub fn wrapped_key(&self) -> (r: &Vec<u8>)
        ensures
            r@ == self@.wrapped_key,
    {
        &self.wrapped_key
    }

    /// The key text: 44 characters that the cipher accepts.
    pub fn key_text(&self) -> (r: &str)
        ensures
            r@ == self@.key_text,
            r@.len() == KEY_TEXT_LEN,
            fernet_key_accepted(r@),
    {
        proof {
            use_type_invariant(self);
        }
        self.key_text.as_str()
    }

    /// The wrapped form and the key text, in this order.
    pub fn into_parts(self) -> (r: (Vec<u8>, String))
        ensures
            r.0@ == self@.wrapped_key,
            r.1@ == self@.key_text,
            r.1@.len() == KEY_TEXT_LEN,
            fernet_key_accepted(r.1@),
    {
        proof {
            use_type_invariant(&self);
        }
        (self.wrapped_key, self.key_text)
    }
}

/// What issuing makes of an answer: the parts of the key, or the reason
/// why there is none.
pub open spec fn issued(
    ciphertext_blob: Option<Seq<u8>>,
    plaintext: Option<Seq<u8>>,
) -> Result<IssuedKeyView, EnvelopeError> {
    match (ciphertext_blob, plaintext) {
        (Some(blob), Some(material)) => if material.len() < KEY_LEN {
            Err(EnvelopeError::KeyMaterialTooShort)
        } else if !fernet_key_accepted(key_text_of(material)) {
            Err(EnvelopeError::KeyRejected)
        } else {
            Ok(IssuedKeyView { wrapped_key: blob, key_text: key_text_of(material) })
        },
        _ => Err(EnvelopeError::IncompleteResponse),
    }
}

/// The bytes of an optional vector.
pub open spec fn bytes_of(v: Option<Vec<u8>>) -> Option<Seq<u8>> {
    match v {
        Some(bytes) => Some(bytes@),
        None => None,
    }
}

/// Takes a data key out of the answer of the key service: the wrapped
/// bytes unchanged, and the text of the first 32 bytes of key material.
/// Whatever the service sent beyond 32 bytes is not used.  The text is
/// tried on the cipher before it is handed out.
pub fn issue_data_key(response: DataKeyResponse) -> (r: Result<IssuedKey, EnvelopeError>)
    ensures
        match issued(bytes_of(response.ciphertext_blob), bytes_of(response.plaintext)) {
            Ok(parts) => r matches Ok(key) && key@ == parts,
            Err(e) => r matches Err(f) && f == e,
        },
        r matches Ok(key) ==> fernet_key_accepted(key@.key_text) && key@.key_text.len()
            == KEY_TEXT_LEN,
{
    let wrapped_key = match response.ciphertext_blob {
        Some(blob) => blob,
        None => {
            return Err(EnvelopeError::IncompleteResponse);
        },
    };
    let material = match response.plaintext {
        Some(material) => material,
        None => {
            return Err(EnvelopeError::IncompleteResponse);
        },
    };
    let key_text = match key_text_from_material(material.as_slice()) {
        Ok(key_text) => key_text,
        Err(e) => {
            return Err(e);
        },
    };
    if CipherHandle::new(key_text.as_str()).is_some() {
        Ok(IssuedKey { wrapped_key, key_text })
    } else {
        Err(EnvelopeError::KeyRejected)
    }
}

} // verus!

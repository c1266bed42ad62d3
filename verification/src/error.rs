use vstd::prelude::*;

verus! {

/// Why an operation of this crate gave no result.
#[derive(Clone, Copy, Debug, PartialEq, Eq, Structural)]
pub enum EnvelopeError {
    /// The answer of the key service lacks the wrapped key or the key
    /// material.
    IncompleteResponse,
    /// The key service handed back fewer than 32 bytes of key material.
    KeyMaterialTooShort,
    /// The record cipher does not accept the key text.
    KeyRejected,
    /// The token is malformed, was sealed under another key, or fails
    /// authentication.
    Decryption,
    /// The stored bytes of a token are not text.
    TokenNotText,
    /// The token opened, but to something other than four bytes.
    PlaintextLength,
    /// A wrapped key is already stored for the master key.
    DuplicateMasterKey,
    /// The key store has no reference id left to give.
    StoreFull,
    /// A record arrived before any data key was installed.
    NoCipher,
    /// The running sum left the range of a signed 64-bit integer.
    SumOverflow,
}

} // verus!

//! The ways an encryption or decryption can fail.

use vstd::prelude::*;

verus! {

/// Why a cipher operation stopped; every failure is final for that operation.
#[derive(Debug, Clone, Copy, PartialEq, Eq, Structural)]
pub enum CipherError {
    /// The master key has no bytes.
    EmptyKey,
    /// The ciphertext is shorter than a chaining value and a tag together.
    TruncatedInput,
    /// The authentication tag does not match: tampered data or a wrong key.
    IntegrityFailure,
    /// The decrypted data does not end in well-formed padding.
    InvalidPadding,
}

} // verus!

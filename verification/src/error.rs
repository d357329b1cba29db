//! The failures that the store reports.

use vstd::prelude::*;

verus! {

/// Why an operation of the store did not yield a result.
///
/// A wrong password and a corrupted file are not told apart: both show as
/// `IntegrityMismatch` or `DecryptionFailure`.
#[derive(Clone, Copy, Debug, PartialEq, Eq, Structural)]
pub enum VaultError {
    /// The password hashing function refused its inputs.
    KeyDerivationFailure,
    /// The blob is shorter than a nonce and an integrity tag.
    InvalidBlobLength,
    /// The stored integrity tag is not the tag of the stored nonce and ciphertext.
    IntegrityMismatch,
    /// The cipher rejected the ciphertext.
    DecryptionFailure,
    /// The cipher could not be given a nonce, or refused the plaintext.
    EncryptionFailure,
    /// The record set could not be written as bytes.
    SerializationFailure,
    /// The bytes are not the encoding of any record set.
    DeserializationFailure,
}

impl VaultError {
    /// A short description of the failure, for display.
    pub fn message(&self) -> (text: &'static str)
        ensures
            text@ == message_of(*self),
    {
        match self {
            VaultError::KeyDerivationFailure => "Key derivation failed",
            VaultError::InvalidBlobLength => "Invalid data length",
            VaultError::IntegrityMismatch => "HMAC mismatch",
            VaultError::DecryptionFailure => "Decryption failed",
            VaultError::EncryptionFailure => "Encryption failed",
            VaultError::SerializationFailure => "Vault serialization failed",
            VaultError::DeserializationFailure => "Vault deserialization failed",
        }
    }
}

/// The text that [`VaultError::message`] gives for each failure.
pub open spec fn message_of(e: VaultError) -> Seq<char> {
    match e {
        VaultError::KeyDerivationFailure => "Key derivation failed"@,
        VaultError::InvalidBlobLength => "Invalid data length"@,
        VaultError::IntegrityMismatch => "HMAC mismatch"@,
        VaultError::DecryptionFailure => "Decryption failed"@,
        VaultError::EncryptionFailure => "Encryption failed"@,
        VaultError::SerializationFailure => "Vault serialization failed"@,
        VaultError::DeserializationFailure => "Vault deserialization failed"@,
    }
}

} // verus!

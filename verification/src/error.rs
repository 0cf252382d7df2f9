//! Error taxonomy of the vault.
//!
//! Authentication failures of the AEAD layer are reported with the same
//! user-visible message as generic primitive failures, so that a caller
//! showing messages to a user never reveals *why* a decryption failed.

use vstd::prelude::*;

verus! {

/// Failure of an authenticator ceremony or of what it returned.
#[derive(Clone, Copy, Debug, PartialEq, Eq, Structural)]
pub enum AuthenticatorError {
    /// The user aborted or the ceremony timed out.
    Cancelled,
    /// The authenticator is already bound to this vault.
    AlreadyRegistered,
    /// The authenticator holds no credential of this vault.
    NotRegistered,
    /// The authenticator lacks a required capability.
    Unsupported,
    /// The ceremony returned a credential id outside the offered candidates.
    NoMatch,
}

/// Failure of a cryptographic primitive or of the envelope scheme.
#[derive(Clone, Copy, Debug, PartialEq, Eq, Structural)]
pub enum CryptoError {
    /// A primitive refused its input or failed internally.
    PrimitiveFailure,
    /// Authenticated decryption failed: ciphertext or associated data tampered.
    AadMismatch,
    /// No available keypair matches any recipient of the entry.
    NoEligibleRecipient,
}

/// Failure of a pure data-model operation.
#[derive(Clone, Copy, Debug, PartialEq, Eq, Structural)]
pub enum DataError {
    /// No keypair carries the given credential id.
    CredentialNotFound,
    /// An entry of that name already exists.
    NameCollision,
}

/// Any failure surfaced by the vault's operations.
#[derive(Clone, Copy, Debug, PartialEq, Eq, Structural)]
pub enum VaultError {
    Authenticator(AuthenticatorError),
    Crypto(CryptoError),
    Data(DataError),
    /// A serialized blob does not parse.
    Serialization,
}

impl VaultError {
    /// User-visible message. An authentication failure of the AEAD layer is
    /// worded exactly as a generic primitive failure: the two are never
    /// distinguished for a user, which would otherwise give a padding-oracle
    /// style hint about *why* a decryption failed.
    pub fn message(&self) -> (r: String)
        ensures
            self is Crypto && (self->Crypto_0 is AadMismatch || self->Crypto_0
                is PrimitiveFailure) ==> r@ == "decryption failed"@,
    {
        match self {
            VaultError::Authenticator(AuthenticatorError::Cancelled) => String::from_str(
                "the authenticator ceremony was cancelled",
            ),
            VaultError::Authenticator(AuthenticatorError::AlreadyRegistered) => String::from_str(
                "this authenticator is already registered",
            ),
            VaultError::Authenticator(AuthenticatorError::NotRegistered) => String::from_str(
                "this authenticator is not registered",
            ),
            VaultError::Authenticator(AuthenticatorError::Unsupported) => String::from_str(
                "this authenticator is not supported",
            ),
            VaultError::Authenticator(AuthenticatorError::NoMatch) => String::from_str(
                "the authenticator answered for an unknown credential",
            ),
            VaultError::Crypto(CryptoError::PrimitiveFailure) => String::from_str(
                "decryption failed",
            ),
            VaultError::Crypto(CryptoError::AadMismatch) => String::from_str("decryption failed"),
            VaultError::Crypto(CryptoError::NoEligibleRecipient) => String::from_str(
                "no registered authenticator can decrypt this entry",
            ),
            VaultError::Data(DataError::CredentialNotFound) => String::from_str(
                "credential not found",
            ),
            VaultError::Data(DataError::NameCollision) => String::from_str(
                "an entry of that name already exists",
            ),
            VaultError::Serialization => String::from_str("malformed serialized data"),
        }
    }
}

} // verus!

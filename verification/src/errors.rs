//! The error taxonomy of the authority: configuration failures are fatal at
//! startup, store failures are retryable, credential and token failures are
//! terminal for the attempt.

use vstd::prelude::*;

verus! {

/// A field of the process configuration, named by configuration errors.
#[derive(Clone, Copy, Debug, PartialEq, Eq, Structural)]
pub enum ConfigField {
    HttpAddress,
    PostgresUrl,
    PostgresMaxConnections,
    JwtPublicKey,
    JwtPrivateKey,
    MemoryCost,
    TimeCost,
    Parallelism,
    OutputLen,
}

/// A configuration failure, fatal to process startup: the first field that
/// was missing or could not be accepted.
#[derive(Clone, Copy, Debug, PartialEq, Eq, Structural)]
pub enum ConfigError {
    /// A required field was absent.
    Missing(ConfigField),
    /// A field was present but malformed or out of range.
    Invalid(ConfigField),
}

/// A password-verification failure: the stored hash could not be used.
/// A well-formed mismatch is not an error; it is `Ok(false)`.
#[derive(Clone, Copy, Debug, PartialEq, Eq, Structural)]
pub enum HashError {
    /// The stored hash string could not be parsed or re-computed against.
    MalformedStored,
    /// A fresh hash could not be produced (the system's randomness source
    /// failed, or the cost parameters were not accepted).
    HashingFailed,
}

/// A token issuance or verification failure.
#[derive(Clone, Copy, Debug, PartialEq, Eq, Structural)]
pub enum TokenError {
    /// The token is not a well-formed three-part compact encoding,
    /// or its header names another algorithm.
    Malformed,
    /// The signature does not verify under the configured public key.
    BadSignature,
    /// The token's expiry has passed.
    Expired,
    /// The key material handed to the authority is not a valid key.
    InvalidKey,
}

/// A store access failure: acquiring a lease or reaching the store failed.
/// Transient; callers may retry.
#[derive(Clone, Copy, Debug, PartialEq, Eq, Structural)]
pub enum PoolError {
    /// Every lease up to the configured ceiling is already outstanding.
    Exhausted,
    /// The store connection could not be established or used.
    ConnectFailed,
}

/// An authentication failure as the caller sees it.
#[derive(Clone, Copy, Debug, PartialEq, Eq, Structural)]
pub enum AuthError {
    /// Unknown principal or wrong password: deliberately one error for both.
    InvalidCredentials,
    /// The credential store could not be reached; retryable.
    StoreUnavailable,
}

} // verus!

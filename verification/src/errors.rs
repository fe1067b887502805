//! Error taxonomy of the gateway core, and its mapping to HTTP status codes.
//!
//! Every response uses a uniform envelope; the status code is derived from
//! the error class alone: validation failures map to 400, authentication
//! failures to 401, a forbidden re-setup attempt to 403, a missing resource
//! to 404, and store or unexpected failures to 500.

use vstd::prelude::*;

verus! {

/// Errors of the credential pool and the account store.
#[derive(PartialEq, Eq, Structural, Debug, Clone, Copy)]
pub enum PoolError {
    /// No eligible account exists in the pool.
    NoAccountAvailable,
    /// The request was malformed (for example, a reorder list that is not a
    /// permutation of the existing account ids).
    Validation,
    /// The named account does not exist.
    NotFound,
    /// The durable account store could not be read or written.
    Store,
}

/// Errors of the admin web-authentication flow.
#[derive(PartialEq, Eq, Structural, Debug, Clone, Copy)]
pub enum AuthError {
    /// A credential already exists; re-running setup is forbidden.
    AlreadyConfigured,
    /// The proposed password is shorter than the required minimum.
    PasswordTooShort,
    /// No credential exists yet, so a login cannot be checked.
    NotConfigured,
    /// The password did not match, with no further cause disclosed.
    InvalidCredential,
    /// The one-way hash of the password could not be computed.
    HashFailure,
}

/// HTTP status code for a pool error.
pub fn pool_error_status(e: PoolError) -> (code: u16)
    ensures
        code == match e {
            PoolError::NoAccountAvailable => 500u16,
            PoolError::Validation => 400u16,
            PoolError::NotFound => 404u16,
            PoolError::Store => 500u16,
        },
{
    match e {
        PoolError::NoAccountAvailable => 500,
        PoolError::Validation => 400,
        PoolError::NotFound => 404,
        PoolError::Store => 500,
    }
}

/// HTTP status code for a web-authentication error. The two login
/// failures share one visible status, so the reply never discloses
/// whether the credential was missing or the password wrong.
pub fn auth_error_status(e: AuthError) -> (code: u16)
    ensures
        code == match e {
            AuthError::AlreadyConfigured => 403u16,
            AuthError::PasswordTooShort => 400u16,
            AuthError::NotConfigured => 401u16,
            AuthError::InvalidCredential => 401u16,
            AuthError::HashFailure => 500u16,
        },
{
    match e {
        AuthError::AlreadyConfigured => 403,
        AuthError::PasswordTooShort => 400,
        AuthError::NotConfigured => 401,
        AuthError::InvalidCredential => 401,
        AuthError::HashFailure => 500,
    }
}

} // verus!

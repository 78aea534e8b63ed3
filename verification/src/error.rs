//! The failure taxonomy of the authentication core.
//!
//! Resolution failures travel as values; handlers decide visibility. The
//! user-visible rule: 401 for an absent or invalid identity, 403 for a
//! known identity lacking privilege, 500 for internal failures.

use vstd::prelude::*;

verus! {

/// A failure of the token codec itself: internal, never the client's fault.
#[derive(Clone, Copy, Debug, PartialEq, Eq, Structural)]
pub enum CtxError {
    JwtDecodeError,
    JwtEncodeError,
}

impl CtxError {
    /// Codec failures surface as internal errors.
    pub fn status_code(&self) -> (r: u16)
        ensures
            r == 500,
    {
        500
    }
}

/// An authentication failure attributable to the request.
#[derive(Clone, Copy, Debug, PartialEq, Eq, Structural)]
pub enum AuthError {
    /// No credential was presented where one is required.
    MissingCredentials,
    /// The presented credential or password does not prove an identity.
    InvalidCredentials,
    /// The credential failed the token codec.
    CtxError(CtxError),
    /// An internal failure unrelated to the credential.
    UnexpectedError,
    /// The identity is proven but the account is not active.
    InactiveUser,
}

impl AuthError {
    /// 401 when the identity is absent or unproven, 403 when it is proven
    /// but lacks standing, 500 for internal failures.
    pub fn status_code(&self) -> (r: u16)
        ensures
            r == match *self {
                AuthError::MissingCredentials => 401u16,
                AuthError::InvalidCredentials => 401u16,
                AuthError::CtxError(_) => 401u16,
                AuthError::UnexpectedError => 500u16,
                AuthError::InactiveUser => 403u16,
            },
    {
        match self {
            AuthError::MissingCredentials => 401,
            AuthError::InvalidCredentials => 401,
            AuthError::CtxError(_) => 401,
            AuthError::UnexpectedError => 500,
            AuthError::InactiveUser => 403,
        }
    }
}

/// The union of failures a handler can surface.
#[derive(Clone, Copy, Debug, PartialEq, Eq, Structural)]
pub enum GenericAuthError {
    GenericCtxError(CtxError),
    GenericAuthError(AuthError),
    GenericUnknownError,
}

impl GenericAuthError {
    /// Each member keeps its own status; unknown failures are internal.
    pub fn status_code(&self) -> (r: u16)
        ensures
            r == match *self {
                GenericAuthError::GenericCtxError(_) => 500u16,
                GenericAuthError::GenericAuthError(e) => match e {
                    AuthError::MissingCredentials => 401u16,
                    AuthError::InvalidCredentials => 401u16,
                    AuthError::CtxError(_) => 401u16,
                    AuthError::UnexpectedError => 500u16,
                    AuthError::InactiveUser => 403u16,
                },
                GenericAuthError::GenericUnknownError => 500u16,
            },
    {
        match self {
            GenericAuthError::GenericCtxError(e) => e.status_code(),
            GenericAuthError::GenericAuthError(e) => e.status_code(),
            GenericAuthError::GenericUnknownError => 500,
        }
    }
}

} // verus!

//! The error taxonomy: client-caused failures map to 401 responses with
//! messages safe to show, server-caused ones to 500.

use vstd::prelude::*;

verus! {

/// A username rejected by the registration policy.
#[derive(Clone, Copy, Debug, PartialEq, Eq, Structural)]
pub enum UsernameError {
    TooShort,
}

impl UsernameError {
    pub fn message(&self) -> (m: &'static str)
        ensures
            m@ == "Username is too short"@,
    {
        "Username is too short"
    }
}

/// A password rejected by the registration policy.
#[derive(Clone, Copy, Debug, PartialEq, Eq, Structural)]
pub enum PasswordError {
    TooShort,
}

impl PasswordError {
    pub fn message(&self) -> (m: &'static str)
        ensures
            m@ == "Password is too short"@,
    {
        "Password is too short"
    }
}

/// Why a presented token failed verification. Callers outside the logging
/// path treat every variant alike (an unauthenticated request).
#[derive(Clone, Copy, Debug, PartialEq, Eq, Structural)]
pub enum VerificationError {
    /// The signature does not match the token's header and payload under the
    /// current secret.
    BadSignature,
    /// The signature matches but the expiry has passed.
    Expired,
    /// The token is not in the shape this codec produces.
    Malformed,
}

/// The outcome of authenticating a request or a login attempt.
#[derive(Clone, Copy, Debug, PartialEq, Eq, Structural)]
pub enum AuthError {
    /// No token was presented on the request.
    MissingCredential,
    /// The signing secret is absent from the configuration: a server fault,
    /// surfaced as a 5xx, never blamed on the client.
    ServerMisconfigured,
    /// A token was presented but did not verify.
    InvalidToken,
    /// The token verified but its subject matches no stored user.
    UnknownSubject,
    /// Login with a username/password pair that matches no stored user; the
    /// unknown-username and wrong-password cases are indistinguishable.
    InvalidCredentials,
}

impl AuthError {
    /// The HTTP status this failure maps to: only a server misconfiguration
    /// is a 5xx; every client-caused failure is the same 401.
    pub open spec fn spec_status_code(self) -> u16 {
        match self {
            AuthError::ServerMisconfigured => 500,
            _ => 401,
        }
    }

    pub fn status_code(&self) -> (code: u16)
        ensures
            code == self.spec_status_code(),
    {
        match self {
            AuthError::ServerMisconfigured => 500,
            _ => 401,
        }
    }

    /// A message safe to show a client: it never carries a password, a hash
    /// or which of the indistinguishable causes applied.
    pub fn message(&self) -> (m: &'static str)
        ensures
            self is ServerMisconfigured ==> m@ == "internal server error"@,
            !(self is ServerMisconfigured) ==> m@ == "unauthenticated"@,
    {
        match self {
            AuthError::ServerMisconfigured => "internal server error",
            _ => "unauthenticated",
        }
    }
}

/// Which registration input was rejected.
#[derive(Clone, Copy, Debug, PartialEq, Eq, Structural)]
pub enum CredentialField {
    Username,
    Password,
}

/// Why a registration attempt failed.
#[derive(Clone, Copy, Debug, PartialEq, Eq, Structural)]
pub enum RegistrationError {
    /// A field fell short of the minimum-length policy; checked before the
    /// store is touched.
    InvalidInput(CredentialField),
    /// The store already holds the requested username.
    UsernameTaken,
}

/// An error as a route handler reports it: a status code and a message.
pub struct ErrorResponse {
    pub status_code: u16,
    pub message: String,
}

/// Wraps a detail message as a generic server-side failure.
pub fn internal_error(message: String) -> (r: ErrorResponse)
    ensures
        r.status_code == 500,
        r.message@ == message@,
{
    ErrorResponse { status_code: 500, message }
}

} // verus!

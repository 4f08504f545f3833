//! The data the service handles: validated credential newtypes, the stored
//! user's public face, and the identity a verified request resolves to.

use crate::errors::{PasswordError, UsernameError};
use vstd::prelude::*;
use vstd::string::StringSliceAdditionalSpecFns;
use vstd::string::StrSliceExecFns;

verus! {

/// The minimum length, in characters, the policy asks of a username and of
/// a password.
pub const MIN_CREDENTIAL_LEN: usize = 8;

/// A password that passed the minimum-length policy. Transient: it lives
/// only while a sign-up or login request is handled.
pub struct Password(String);

impl View for Password {
    type V = Seq<char>;

    closed spec fn view(&self) -> Seq<char> {
        self.0@
    }
}

impl Password {
    pub fn as_str(&self) -> (s: &str)
        ensures
            s@ == self@,
    {
        self.0.as_str()
    }

    /// Admits the value only when it meets the minimum-length policy,
    /// measured in characters.
    pub fn new(value: String) -> (r: Result<Self, PasswordError>)
        ensures
            match r {
                Ok(v) => value@.len() >= MIN_CREDENTIAL_LEN && v@ == value@,
                Err(e) => value@.len() < MIN_CREDENTIAL_LEN && e == PasswordError::TooShort,
            },
    {
        if value.as_str().unicode_len() < MIN_CREDENTIAL_LEN {
            Err(PasswordError::TooShort)
        } else {
            Ok(Password(value))
        }
    }
}

/// A username that passed the minimum-length policy.
pub struct Username(String);

impl View for Username {
    type V = Seq<char>;

    closed spec fn view(&self) -> Seq<char> {
        self.0@
    }
}

impl Username {
    pub fn as_str(&self) -> (s: &str)
        ensures
            s@ == self@,
    {
        self.0.as_str()
    }

    /// Admits the value only when it meets the minimum-length policy,
    /// measured in characters.
    pub fn new(value: String) -> (r: Result<Self, UsernameError>)
        ensures
            match r {
                Ok(v) => value@.len() >= MIN_CREDENTIAL_LEN && v@ == value@,
                Err(e) => value@.len() < MIN_CREDENTIAL_LEN && e == UsernameError::TooShort,
            },
    {
        if value.as_str().unicode_len() < MIN_CREDENTIAL_LEN {
            Err(UsernameError::TooShort)
        } else {
            Ok(Username(value))
        }
    }
}

/// A sign-up or login form, both fields already validated.
pub struct UserCredentialsForm {
    pub username: Username,
    pub password: Password,
}

/// A stored user as handlers see it: the stable identifier and the unique
/// username, never the password material.
#[derive(Debug, PartialEq, Eq)]
pub struct User {
    pub id: u64,
    pub username: String,
}

/// A user resolved from a verified request: constructed fresh per request by
/// the session authenticator and owned by that request alone.
pub struct AuthUser(pub User);

/// True when the two strings hold the same characters.
pub(crate) fn str_eq(a: &str, b: &str) -> (r: bool)
    ensures
        r == (a@ == b@),
{
    let r = crate::claims::bytes_eq(a.as_bytes(), b.as_bytes());
    proof {
        if a.spec_bytes() == b.spec_bytes() {
            vstd::utf8::encode_utf8_decode_utf8(a@);
            vstd::utf8::encode_utf8_decode_utf8(b@);
        }
    }
    r
}

} // verus!

//! The session authenticator: extraction, token verification and subject
//! resolution composed into one request-level decision. The steps run in a
//! fixed order — extraction first, then the secret, then the signature, the
//! store last — so a request without a credential never reaches the store.

use crate::claims::Claims;
use crate::errors::AuthError;
use crate::extract::{extract_token, spec_extract, TokenTransport};
use crate::models::AuthUser;
use crate::store::{StoredUser, UserStore};
use crate::token::{spec_verify, verify};
use vstd::prelude::*;
use vstd::string::StringSliceAdditionalSpecFns;

verus! {

/// What authenticating a request answers: the row of the verified subject,
/// or the first failure in the fixed order — no credential, no configured
/// secret, a token that does not verify, a subject no row carries.
pub open spec fn spec_authenticate(
    users: Seq<StoredUser>,
    strategy: TokenTransport,
    authorization: Option<&str>,
    cookie_token: Option<&str>,
    secret: Option<&str>,
    now: u64,
) -> Result<int, AuthError> {
    match spec_extract(strategy, authorization, cookie_token) {
        Option::None => Result::Err(AuthError::MissingCredential),
        Option::Some(t) => match secret {
            Option::None => Result::Err(AuthError::ServerMisconfigured),
            Option::Some(s) => match spec_verify(t, s.spec_bytes(), now) {
                Result::Err(_) => Result::Err(AuthError::InvalidToken),
                Result::Ok(c) => if c.sub < users.len() {
                    Result::Ok(c.sub as int)
                } else {
                    Result::Err(AuthError::UnknownSubject)
                },
            },
        },
    }
}

/// Authenticates a request from what it carried, the configured transport
/// and secret, and the clock, exactly as [`spec_authenticate`] lays it out.
pub fn authenticate(
    store: &UserStore,
    strategy: TokenTransport,
    authorization: Option<&str>,
    cookie_token: Option<&str>,
    secret: Option<&str>,
    now: u64,
) -> (r: Result<AuthUser, AuthError>)
    requires
        store.wf(),
    ensures
        match spec_authenticate(store@, strategy, authorization, cookie_token, secret, now) {
            Result::Ok(k) => r matches Ok(au) && 0 <= k < store@.len() && au.0.id == store@[k].id
                && au.0.username@ == store@[k].username@,
            Result::Err(e) => r == Result::<AuthUser, AuthError>::Err(e),
        },
{
    let token = match extract_token(strategy, authorization, cookie_token) {
        Some(t) => t,
        None => {
            return Err(AuthError::MissingCredential);
        },
    };
    let secret_str = match secret {
        Some(s) => s,
        None => {
            return Err(AuthError::ServerMisconfigured);
        },
    };
    let claims = match verify(token.as_str(), now, secret_str.as_bytes()) {
        Ok(c) => c,
        Err(_) => {
            return Err(AuthError::InvalidToken);
        },
    };
    match store.find_by_id(claims.sub) {
        Some(u) => Ok(AuthUser(u)),
        None => Err(AuthError::UnknownSubject),
    }
}

/// The session invariant: a request authenticates only when what it carried
/// is exactly a token this codec issued under the configured secret, its
/// expiry lies beyond the clock, and its subject is a stored row. Nothing
/// else is ever accepted.
pub proof fn lemma_accepted_token_is_issued(
    users: Seq<StoredUser>,
    strategy: TokenTransport,
    authorization: Option<&str>,
    cookie_token: Option<&str>,
    secret: Option<&str>,
    now: u64,
)
    requires
        spec_authenticate(users, strategy, authorization, cookie_token, secret, now) is Ok,
    ensures
        spec_extract(strategy, authorization, cookie_token) is Some,
        secret is Some,
        exists|c: Claims|
            {
                &&& spec_extract(strategy, authorization, cookie_token) == Some(
                    #[trigger] crate::token::spec_token(
                        c.sub,
                        c.iat,
                        c.exp,
                        secret.unwrap().spec_bytes(),
                    ),
                )
                &&& now < c.exp
                &&& (c.sub as int) < users.len()
                &&& spec_authenticate(users, strategy, authorization, cookie_token, secret, now)
                    == Result::<int, AuthError>::Ok(c.sub as int)
            },
{
    let t = spec_extract(strategy, authorization, cookie_token).unwrap();
    let s = secret.unwrap();
    let c = spec_verify(t, s.spec_bytes(), now).unwrap();
    crate::token::lemma_verify_accepts_only_issued(t, s.spec_bytes(), now, c);
    assert(spec_extract(strategy, authorization, cookie_token) == Some(
        crate::token::spec_token(c.sub, c.iat, c.exp, s.spec_bytes()),
    ));
}

/// A request without a credential is answered `MissingCredential` whatever
/// the store holds: two stores, however different, give the same answer, so
/// the store plays no part in that path.
pub proof fn lemma_missing_credential_ignores_store(
    s1: Seq<StoredUser>,
    s2: Seq<StoredUser>,
    strategy: TokenTransport,
    authorization: Option<&str>,
    cookie_token: Option<&str>,
    secret: Option<&str>,
    now: u64,
)
    requires
        spec_extract(strategy, authorization, cookie_token) is None,
    ensures
        spec_authenticate(s1, strategy, authorization, cookie_token, secret, now) == Result::<
            int,
            AuthError,
        >::Err(AuthError::MissingCredential),
        spec_authenticate(s1, strategy, authorization, cookie_token, secret, now)
            == spec_authenticate(s2, strategy, authorization, cookie_token, secret, now),
{
}

} // verus!

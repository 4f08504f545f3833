//! Registration and credential verification: the login-side rules over the
//! store. Registration validates before it touches the store and never
//! persists a plaintext password; login answers the same failure for an
//! unknown username as for a wrong password.

use crate::crypto::{fresh_salt, hs256_sig_of, hs256_sign};
use crate::errors::{AuthError, CredentialField, RegistrationError};
use crate::models::{User, MIN_CREDENTIAL_LEN};
use crate::store::{
    lemma_find_username_found, lemma_find_username_push, spec_find_username, StoredUser, UserStore,
};
use vstd::prelude::*;
use vstd::string::StrSliceExecFns;
use vstd::utf8::encode_utf8;

verus! {

/// Which row a username/password pair authenticates: the row holding the
/// username, when the keyed hash of the password under that row's salt is
/// the stored one; otherwise none — for the unknown-username and the
/// wrong-password case alike.
pub open spec fn spec_login_outcome(
    s: Seq<StoredUser>,
    username: Seq<char>,
    password: Seq<char>,
) -> Option<int> {
    match spec_find_username(s, username) {
        Option::None => Option::None,
        Option::Some(k) => if s[k].hash@ == hs256_sig_of(s[k].salt@, encode_utf8(password)) {
            Option::Some(k)
        } else {
            Option::None
        },
    }
}

/// Registers a user: both fields are held to the minimum-length policy
/// before the store is touched — a rejected input leaves the store exactly
/// as it was — and uniqueness of the username is the store's own constraint.
/// On success the new row keeps only a fresh sixteen-byte salt and the keyed
/// hash of the password under it, never the password.
pub fn register(store: &mut UserStore, username: &str, password: &str) -> (r: Result<
    u64,
    RegistrationError,
>)
    requires
        old(store).wf(),
    ensures
        final(store).wf(),
        username@.len() < MIN_CREDENTIAL_LEN ==> r == Result::<u64, RegistrationError>::Err(
            RegistrationError::InvalidInput(CredentialField::Username),
        ) && final(store)@ == old(store)@,
        username@.len() >= MIN_CREDENTIAL_LEN && password@.len() < MIN_CREDENTIAL_LEN ==> r
            == Result::<u64, RegistrationError>::Err(
            RegistrationError::InvalidInput(CredentialField::Password),
        ) && final(store)@ == old(store)@,
        username@.len() >= MIN_CREDENTIAL_LEN && password@.len() >= MIN_CREDENTIAL_LEN
            && spec_find_username(old(store)@, username@) is Some ==> r == Result::<
            u64,
            RegistrationError,
        >::Err(RegistrationError::UsernameTaken) && final(store)@ == old(store)@,
        username@.len() >= MIN_CREDENTIAL_LEN && password@.len() >= MIN_CREDENTIAL_LEN
            && spec_find_username(old(store)@, username@) is None ==> ({
            &&& r matches Ok(id) && id == old(store)@.len()
            &&& final(store)@.len() == old(store)@.len() + 1
            &&& final(store)@.subrange(0, old(store)@.len() as int) == old(store)@
            &&& final(store)@.last().id == old(store)@.len()
            &&& final(store)@.last().username@ == username@
            &&& final(store)@.last().salt@.len() == 16
            &&& final(store)@.last().hash@ == hs256_sig_of(
                final(store)@.last().salt@,
                encode_utf8(password@),
            )
        }),
{
    if username.unicode_len() < MIN_CREDENTIAL_LEN {
        return Err(RegistrationError::InvalidInput(CredentialField::Username));
    }
    if password.unicode_len() < MIN_CREDENTIAL_LEN {
        return Err(RegistrationError::InvalidInput(CredentialField::Password));
    }
    let salt = fresh_salt();
    let hash = hs256_sign(salt.as_slice(), password.as_bytes());
    match store.insert_user(username, salt, hash) {
        Ok(id) => Ok(id),
        Err(_) => Err(RegistrationError::UsernameTaken),
    }
}

/// Verifies a login attempt: the user comes back exactly when
/// [`spec_login_outcome`] names their row; every failure — username unknown
/// or password wrong — is the one `InvalidCredentials` value, so a caller
/// cannot tell which usernames exist.
pub fn verify_login(store: &UserStore, username: &str, password: &str) -> (r: Result<
    User,
    AuthError,
>)
    ensures
        match spec_login_outcome(store@, username@, password@) {
            Option::Some(k) => r matches Ok(u) && u.id == store@[k].id && u.username@
                == store@[k].username@,
            Option::None => r == Result::<User, AuthError>::Err(AuthError::InvalidCredentials),
        },
{
    match store.find_by_username(username) {
        None => Err(AuthError::InvalidCredentials),
        Some(row) => {
            proof {
                lemma_find_username_found(store@, username@);
            }
            let expected = hs256_sign(row.salt.as_slice(), password.as_bytes());
            if expected == row.hash {
                Ok(User { id: row.id, username: row.username.clone() })
            } else {
                Err(AuthError::InvalidCredentials)
            }
        },
    }
}

/// An unknown username and a wrong password fail the same way: both login
/// outcomes are empty, and `verify_login`'s contract sends every empty
/// outcome to the one `InvalidCredentials` value.
pub proof fn lemma_enumeration_resistance(
    s: Seq<StoredUser>,
    unknown_user: Seq<char>,
    p1: Seq<char>,
    known_user: Seq<char>,
    wrong_password: Seq<char>,
)
    requires
        spec_find_username(s, unknown_user) is None,
        spec_find_username(s, known_user) is Some,
        s[spec_find_username(s, known_user).unwrap()].hash@ != hs256_sig_of(
            s[spec_find_username(s, known_user).unwrap()].salt@,
            encode_utf8(wrong_password),
        ),
    ensures
        spec_login_outcome(s, unknown_user, p1) is None,
        spec_login_outcome(s, known_user, wrong_password) is None,
        spec_login_outcome(s, unknown_user, p1) == spec_login_outcome(
            s,
            known_user,
            wrong_password,
        ),
{
}

/// A user just registered logs in: after a row with a fresh username whose
/// hash is the keyed hash of `password` is appended, that username and
/// password authenticate as the new row.
pub proof fn lemma_fresh_user_logs_in(s: Seq<StoredUser>, u: StoredUser, password: Seq<char>)
    requires
        spec_find_username(s, u.username@) is None,
        u.hash@ == hs256_sig_of(u.salt@, encode_utf8(password)),
    ensures
        spec_login_outcome(s.push(u), u.username@, password) == Some(s.len() as int),
{
    lemma_find_username_push(s, u);
    assert(s.push(u)[s.len() as int] == u);
}

} // verus!

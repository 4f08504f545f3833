use session_auth::account::{register, verify_login};
use session_auth::errors::AuthError;
use session_auth::extract::{extract_token, TokenTransport};
use session_auth::session::authenticate;
use session_auth::store::UserStore;
use session_auth::token::{generate_token, TOKEN_TTL_SECONDS};

const SECRET: &str = "a-test-signing-secret";

#[test]
fn header_extraction_takes_the_value_after_the_scheme() {
    let auth = String::from("Token abc.def.ghi");
    let got = extract_token(TokenTransport::AuthorizationHeader, Some(&auth), None);
    assert_eq!(got.as_deref(), Some("abc.def.ghi"));
    let wrong_scheme = String::from("Bearer abc");
    assert!(extract_token(TokenTransport::AuthorizationHeader, Some(&wrong_scheme), None).is_none());
    assert!(extract_token(TokenTransport::AuthorizationHeader, None, Some("abc")).is_none());
}

#[test]
fn cookie_extraction_takes_the_cookie_verbatim() {
    let got = extract_token(TokenTransport::SessionCookie, None, Some("abc.def.ghi"));
    assert_eq!(got.as_deref(), Some("abc.def.ghi"));
    assert!(extract_token(TokenTransport::SessionCookie, Some("Token abc"), None).is_none());
}

#[test]
fn no_token_is_missing_credential_and_needs_no_store() {
    let empty = UserStore::new();
    let mut populated = UserStore::new();
    register(&mut populated, "someone-known", "their-password").unwrap();
    let before = populated.len();
    for store in [&empty, &populated] {
        let r = authenticate(
            store,
            TokenTransport::SessionCookie,
            None,
            None,
            Some(SECRET),
            1_000,
        );
        match r {
            Err(AuthError::MissingCredential) => {}
            other => panic!("expected MissingCredential, got {:?}", other.map(|au| au.0)),
        }
    }
    assert_eq!(populated.len(), before);
}

#[test]
fn absent_secret_is_a_server_fault() {
    let store = UserStore::new();
    let r = authenticate(
        &store,
        TokenTransport::SessionCookie,
        None,
        Some("abc.def.ghi"),
        None,
        1_000,
    );
    match r {
        Err(e) => {
            assert_eq!(e, AuthError::ServerMisconfigured);
            assert_eq!(e.status_code(), 500);
        }
        Ok(_) => panic!("expected ServerMisconfigured"),
    }
}

#[test]
fn end_to_end_register_login_profile_then_expiry() {
    // Sign-up, with a username long enough for the minimum-length policy.
    let mut store = UserStore::new();
    let user_id = register(&mut store, "alicewonder", "password1").unwrap();

    // Login with the same credentials and receive a token.
    let now: u64 = 1_700_000_000;
    let user = verify_login(&store, "alicewonder", "password1").unwrap();
    assert_eq!(user.id, user_id);
    let token = generate_token(&user, now, SECRET.as_bytes());

    // Profile with that token: the authenticated identity carries the name.
    let cookie = Some(token.as_str());
    let identity = authenticate(
        &store,
        TokenTransport::SessionCookie,
        None,
        cookie,
        Some(SECRET),
        now + 5,
    )
    .unwrap();
    assert_eq!(identity.0.username, "alicewonder");

    // After the TTL elapses the same token is refused, as an unauthenticated
    // (401) outcome.
    let late = authenticate(
        &store,
        TokenTransport::SessionCookie,
        None,
        cookie,
        Some(SECRET),
        now + TOKEN_TTL_SECONDS,
    );
    match late {
        Err(e) => {
            assert_eq!(e, AuthError::InvalidToken);
            assert_eq!(e.status_code(), 401);
        }
        Ok(_) => panic!("expected the expired token to be refused"),
    }
}

#[test]
fn token_for_unknown_subject_is_refused() {
    let mut issuing_store = UserStore::new();
    for (name, pw) in [("first-user", "password-one"), ("second-user", "password-two")] {
        register(&mut issuing_store, name, pw).unwrap();
    }
    let user = verify_login(&issuing_store, "second-user", "password-two").unwrap();
    let token = generate_token(&user, 1_000, SECRET.as_bytes());

    // A store that never held that subject refuses the (validly signed) token.
    let mut other_store = UserStore::new();
    register(&mut other_store, "lonely-user", "password-three").unwrap();
    let r = authenticate(
        &other_store,
        TokenTransport::SessionCookie,
        None,
        Some(token.as_str()),
        Some(SECRET),
        1_001,
    );
    match r {
        Err(e) => assert_eq!(e, AuthError::UnknownSubject),
        Ok(_) => panic!("expected UnknownSubject"),
    }
}

#[test]
fn token_under_another_secret_is_refused() {
    let mut store = UserStore::new();
    register(&mut store, "someone-known", "their-password").unwrap();
    let user = verify_login(&store, "someone-known", "their-password").unwrap();
    let token = generate_token(&user, 1_000, b"not-the-server-secret");
    let r = authenticate(
        &store,
        TokenTransport::SessionCookie,
        None,
        Some(token.as_str()),
        Some(SECRET),
        1_001,
    );
    match r {
        Err(e) => {
            assert_eq!(e, AuthError::InvalidToken);
            assert_eq!(e.status_code(), 401);
        }
        Ok(_) => panic!("expected InvalidToken"),
    }
}

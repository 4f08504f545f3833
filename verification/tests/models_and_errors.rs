use session_auth::errors::{
    internal_error, AuthError, PasswordError, UsernameError, VerificationError,
};
use session_auth::models::{Password, UserCredentialsForm, Username, MIN_CREDENTIAL_LEN};

#[test]
fn short_credentials_are_rejected_by_the_newtypes() {
    assert_eq!(MIN_CREDENTIAL_LEN, 8);
    assert!(matches!(Username::new(String::from("ab")), Err(UsernameError::TooShort)));
    assert!(matches!(Password::new(String::from("short")), Err(PasswordError::TooShort)));
    assert!(matches!(Username::new(String::from("1234567")), Err(UsernameError::TooShort)));
    assert!(matches!(Password::new(String::from("1234567")), Err(PasswordError::TooShort)));
}

#[test]
fn long_enough_credentials_pass_and_keep_their_text() {
    let u = Username::new(String::from("validuser")).unwrap();
    let p = Password::new(String::from("validpass123")).unwrap();
    assert_eq!(u.as_str(), "validuser");
    assert_eq!(p.as_str(), "validpass123");
    let form = UserCredentialsForm { username: u, password: p };
    assert_eq!(form.username.as_str(), "validuser");
    assert_eq!(form.password.as_str(), "validpass123");
}

#[test]
fn exactly_the_minimum_length_passes() {
    assert!(Username::new(String::from("12345678")).is_ok());
    assert!(Password::new(String::from("12345678")).is_ok());
}

#[test]
fn policy_error_messages() {
    assert_eq!(UsernameError::TooShort.message(), "Username is too short");
    assert_eq!(PasswordError::TooShort.message(), "Password is too short");
}

#[test]
fn only_the_server_fault_is_a_5xx() {
    assert_eq!(AuthError::ServerMisconfigured.status_code(), 500);
    assert_eq!(AuthError::ServerMisconfigured.message(), "internal server error");
    for client_error in [
        AuthError::MissingCredential,
        AuthError::InvalidToken,
        AuthError::UnknownSubject,
        AuthError::InvalidCredentials,
    ] {
        assert_eq!(client_error.status_code(), 401);
        assert_eq!(client_error.message(), "unauthenticated");
    }
}

#[test]
fn internal_error_wraps_a_detail_as_a_500() {
    let r = internal_error(String::from("pool timed out"));
    assert_eq!(r.status_code, 500);
    assert_eq!(r.message, "pool timed out");
}

#[test]
fn verification_errors_are_distinct() {
    assert_ne!(VerificationError::BadSignature, VerificationError::Expired);
    assert_ne!(VerificationError::BadSignature, VerificationError::Malformed);
    assert_ne!(VerificationError::Expired, VerificationError::Malformed);
}

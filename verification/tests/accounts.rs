use session_auth::account::{register, verify_login};
use session_auth::errors::{AuthError, CredentialField, RegistrationError};
use session_auth::store::{StoreError, UserStore};

#[test]
fn register_rejects_short_username_before_any_store_change() {
    let mut store = UserStore::new();
    let r = register(&mut store, "ab", "short");
    assert_eq!(r, Err(RegistrationError::InvalidInput(CredentialField::Username)));
    assert_eq!(store.len(), 0);
}

#[test]
fn register_rejects_short_password_before_any_store_change() {
    let mut store = UserStore::new();
    let r = register(&mut store, "validuser", "short");
    assert_eq!(r, Err(RegistrationError::InvalidInput(CredentialField::Password)));
    assert_eq!(store.len(), 0);
}

#[test]
fn register_twice_is_ok_then_username_taken() {
    let mut store = UserStore::new();
    let first = register(&mut store, "validuser", "validpass123");
    assert_eq!(first, Ok(0));
    let second = register(&mut store, "validuser", "validpass123");
    assert_eq!(second, Err(RegistrationError::UsernameTaken));
    assert_eq!(store.len(), 1);
}

#[test]
fn registered_user_logs_in() {
    let mut store = UserStore::new();
    let id = register(&mut store, "someone-known", "their-password").unwrap();
    let user = verify_login(&store, "someone-known", "their-password").unwrap();
    assert_eq!(user.id, id);
    assert_eq!(user.username, "someone-known");
}

#[test]
fn wrong_password_and_unknown_username_fail_alike() {
    let mut store = UserStore::new();
    register(&mut store, "someone-known", "their-password").unwrap();
    let wrong_password = verify_login(&store, "someone-known", "not-the-password");
    let unknown_username = verify_login(&store, "nobody-here", "their-password");
    assert_eq!(wrong_password, Err(AuthError::InvalidCredentials));
    assert_eq!(unknown_username, Err(AuthError::InvalidCredentials));
    assert_eq!(wrong_password, unknown_username);
}

#[test]
fn the_store_enforces_username_uniqueness_itself() {
    let mut store = UserStore::new();
    let first = store.insert_user("taken-name", vec![1, 2, 3], String::from("some-hash"));
    assert_eq!(first, Ok(0));
    let second = store.insert_user("taken-name", vec![4, 5, 6], String::from("other-hash"));
    assert_eq!(second, Err(StoreError::UniqueViolation));
    assert_eq!(store.len(), 1);
}

#[test]
fn identifiers_count_up_from_zero() {
    let mut store = UserStore::new();
    assert_eq!(register(&mut store, "first-user", "password-one").unwrap(), 0);
    assert_eq!(register(&mut store, "second-user", "password-two").unwrap(), 1);
    let found = store.find_by_id(1).unwrap();
    assert_eq!(found.username, "second-user");
    assert!(store.find_by_id(2).is_none());
}

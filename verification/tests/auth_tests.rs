use vael_core::auth::{AuthError, AuthPayload, AuthService, CredentialStore};

fn payload(email: &str, password: &str) -> AuthPayload {
    AuthPayload { email: email.to_string(), password: password.to_string() }
}

#[test]
fn register_then_login_round_trip() {
    let mut store = CredentialStore::new();
    assert!(store.register(&payload("a@x.com", "secret123")).is_ok());

    let ok = store.login(&payload("a@x.com", "secret123"));
    let token = ok.expect("login with the registered password succeeds").token;
    assert!(!token.is_empty());

    let bad = store.login(&payload("a@x.com", "wrong-password"));
    assert_eq!(bad.unwrap_err(), AuthError::InvalidCredentials);
}

#[test]
fn duplicate_email_is_refused() {
    let mut store = CredentialStore::new();
    assert!(store.register(&payload("a@x.com", "secret123")).is_ok());
    let second = store.register(&payload("a@x.com", "another-pass"));
    assert_eq!(second.unwrap_err(), AuthError::EmailTaken);
    // The first credential still wins.
    assert!(store.login(&payload("a@x.com", "secret123")).is_ok());
    assert!(store.login(&payload("a@x.com", "another-pass")).is_err());
}

#[test]
fn unknown_email_is_refused() {
    let store = CredentialStore::new();
    let r = store.login(&payload("nobody@x.com", "whatever"));
    assert_eq!(r.unwrap_err(), AuthError::InvalidCredentials);
}

#[test]
fn hashes_are_salted_and_verify_only_their_password() {
    let h1 = AuthService::hash_password("secret123").expect("hashing succeeds");
    let h2 = AuthService::hash_password("secret123").expect("hashing succeeds");
    // A fresh random salt every call: the hash is not the password and two
    // hashes of one password differ.
    assert_ne!(h1, "secret123");
    assert_ne!(h1, h2);
    assert!(AuthService::verify_password("secret123", &h1).unwrap());
    assert!(AuthService::verify_password("secret123", &h2).unwrap());
    assert!(!AuthService::verify_password("Secret123", &h1).unwrap());
}

#[test]
fn unreadable_hash_is_an_error_not_a_match() {
    let r = AuthService::verify_password("secret123", "not-a-phc-string");
    assert_eq!(r.unwrap_err(), AuthError::InvalidCredentials);
}

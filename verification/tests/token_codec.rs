use session_auth::claims::Claims;
use session_auth::errors::VerificationError;
use session_auth::token::{generate_token, issue, verify, TOKEN_TTL_SECONDS};

const SECRET: &[u8] = b"a-test-signing-secret";

#[test]
fn issued_token_is_a_signed_jwt() {
    let t = issue(42, 1_000, SECRET);
    // The header part is the well-known base64url of {"alg":"HS256","typ":"JWT"}.
    assert!(t.starts_with("eyJhbGciOiJIUzI1NiIsInR5cCI6IkpXVCJ9."));
    assert_eq!(t.split('.').count(), 3);
}

#[test]
fn issue_then_verify_returns_the_claims() {
    let t = issue(42, 1_000, SECRET);
    let claims = verify(&t, 1_001, SECRET).unwrap();
    assert_eq!(claims, Claims { sub: 42, iat: 1_000, exp: 1_000 + TOKEN_TTL_SECONDS });
}

#[test]
fn verify_just_before_expiry_ok_from_expiry_on_expired() {
    let t = issue(7, 50_000, SECRET);
    let exp = 50_000 + TOKEN_TTL_SECONDS;
    assert!(verify(&t, exp - 1, SECRET).is_ok());
    assert_eq!(verify(&t, exp, SECRET), Err(VerificationError::Expired));
    assert_eq!(verify(&t, exp + 12_345, SECRET), Err(VerificationError::Expired));
}

#[test]
fn other_secret_is_a_bad_signature() {
    let t = issue(42, 1_000, SECRET);
    let r = verify(&t, 1_001, b"a-different-secret");
    assert_eq!(r, Err(VerificationError::BadSignature));
}

#[test]
fn tampered_subject_is_a_bad_signature() {
    let t = issue(42, 1_000, SECRET);
    // Flip one character inside the payload part: the signature no longer
    // covers what the token says.
    let dot = t.find('.').unwrap();
    let mut chars: Vec<char> = t.chars().collect();
    let target = dot + 20;
    chars[target] = if chars[target] == 'A' { 'B' } else { 'A' };
    let tampered: String = chars.into_iter().collect();
    assert_eq!(verify(&tampered, 1_001, SECRET), Err(VerificationError::BadSignature));
}

#[test]
fn strings_without_token_shape_are_malformed() {
    assert_eq!(verify("", 0, SECRET), Err(VerificationError::Malformed));
    assert_eq!(verify("no-dots-here", 0, SECRET), Err(VerificationError::Malformed));
    assert_eq!(verify("only.one-dot", 0, SECRET), Err(VerificationError::Malformed));
}

#[test]
fn validly_signed_foreign_payload_is_malformed() {
    // Sign a header.payload pair this codec never produces: the signature
    // holds, the payload does not parse.
    let msg = "eyJhbGciOiJIUzI1NiIsInR5cCI6IkpXVCJ9.Zm9vYmFy";
    let key = jsonwebtoken::EncodingKey::from_secret(SECRET);
    let sig = jsonwebtoken::crypto::sign(msg.as_bytes(), &key, jsonwebtoken::Algorithm::HS256)
        .unwrap();
    let token = format!("{}.{}", msg, sig);
    assert_eq!(verify(&token, 0, SECRET), Err(VerificationError::Malformed));
    // The same pair under the wrong key stays a signature failure.
    let other = jsonwebtoken::EncodingKey::from_secret(b"a-different-secret");
    let bad_sig = jsonwebtoken::crypto::sign(msg.as_bytes(), &other, jsonwebtoken::Algorithm::HS256)
        .unwrap();
    let bad_token = format!("{}.{}", msg, bad_sig);
    assert_eq!(verify(&bad_token, 0, SECRET), Err(VerificationError::BadSignature));
}

#[test]
fn generate_token_issues_for_the_user_id() {
    let user = session_auth::models::User { id: 9, username: String::from("someone-known") };
    let t = generate_token(&user, 2_000, SECRET);
    assert_eq!(t, issue(9, 2_000, SECRET));
    let claims = verify(&t, 2_001, SECRET).unwrap();
    assert_eq!(claims.sub, 9);
}

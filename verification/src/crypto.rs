//! The trusted boundary: the outside calls the library's contracts rest on.
//! Everything here is believed, not proved; each item names the outside
//! function it relies on and says no more than that function's source shows.

use vstd::prelude::*;

verus! {

/// What `jsonwebtoken::crypto::sign` returns under HS256 for a key and a
/// message: the unpadded URL-safe base64 of the HMAC-SHA256 tag. A function
/// of its two arguments alone, the same in every process.
pub uninterp spec fn hs256_sig_of(secret: Seq<u8>, message: Seq<u8>) -> Seq<char>;

/// Relies on `jsonwebtoken::crypto::sign` with `Algorithm::HS256` and an
/// `EncodingKey::from_secret` key: it base64url-encodes the HMAC-SHA256 tag
/// of the message. The HMAC signer accepts keys and messages of any length,
/// so the call cannot fail on this path.
#[verifier::external_body]
pub(crate) fn hs256_sign(secret: &[u8], message: &[u8]) -> (sig: String)
    ensures
        sig@ == hs256_sig_of(secret@, message@),
{
    let key = jsonwebtoken::EncodingKey::from_secret(secret);
    jsonwebtoken::crypto::sign(message, &key, jsonwebtoken::Algorithm::HS256).unwrap()
}

/// Relies on `jsonwebtoken::crypto::verify` with `Algorithm::HS256` and a
/// `DecodingKey::from_secret` key: it recomputes the HMAC-SHA256 tag of the
/// message and compares it with the base64url-decoded signature. That decode
/// allows neither padding nor stray trailing bits, so it accepts exactly the
/// string `sign` returns; any decode failure comes back as an error, mapped
/// to false here.
#[verifier::external_body]
pub(crate) fn hs256_verify(signature: &str, message: &[u8], secret: &[u8]) -> (ok: bool)
    ensures
        ok <==> signature@ == hs256_sig_of(secret@, message@),
{
    let key = jsonwebtoken::DecodingKey::from_secret(secret);
    match jsonwebtoken::crypto::verify(signature, message, &key, jsonwebtoken::Algorithm::HS256) {
        Ok(b) => b,
        Err(_) => false,
    }
}

/// Relies on `uuid::Uuid::new_v4`: sixteen bytes drawn from the process's
/// random source. Nothing is assumed of the values, only of the count.
#[verifier::external_body]
pub(crate) fn fresh_salt() -> (salt: Vec<u8>)
    ensures
        salt@.len() == 16,
{
    uuid::Uuid::new_v4().into_bytes().to_vec()
}

/// Relies on `String::from_utf8`: bytes below 128 are valid UTF-8 and decode
/// to one character each, carrying the same code, so the call cannot fail on
/// such input.
#[verifier::external_body]
pub(crate) fn ascii_to_string(bytes: Vec<u8>) -> (s: String)
    requires
        forall|i: int| 0 <= i < bytes@.len() ==> bytes@[i] < 128,
    ensures
        s@.len() == bytes@.len(),
        forall|i: int| 0 <= i < bytes@.len() ==> s@[i] == bytes@[i] as char,
{
    String::from_utf8(bytes).unwrap()
}

} // verus!

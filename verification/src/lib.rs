//! Session authentication library: a signed bearer-token codec, a credential
//! extractor, an in-memory credential store, and the registration, login and
//! request-authentication rules built on them.

pub mod account;
pub mod base64url;
pub mod claims;
pub mod crypto;
pub mod digits;
pub mod errors;
pub mod extract;
pub mod models;
pub mod session;
pub mod store;
pub mod token;

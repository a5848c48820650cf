//! Signed, expiring session-token cryptography and the per-request
//! session-resolution pipeline built on it: a keyed signer, the
//! password-at-rest codec, the dot-separated token wire format, and the
//! pure decision functions of the resolve/require middleware.

pub mod b64;
pub mod ctx;
pub mod encrypt;
pub mod error;
pub mod iso;
pub mod pwd;
pub mod strutil;
pub mod token;
pub mod web;

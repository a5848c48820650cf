//! Password-at-rest codec: the versioned record `#01#<signature>` and
//! its validation by recomputation.  Validation never reports *why* a
//! record failed to match — any difference, scheme tag included, is one
//! `PwdNotMatching`.

use vstd::prelude::*;
use vstd::utf8::encode_utf8;
use crate::encrypt::{encrypt_into_b64u, sig_b64u, EncryptContent};
use crate::error::Error;
use crate::strutil::{ascii_to_string, bytes_eq, lemma_encode_utf8_append};

verus! {

/// UTF-8 bytes of the at-rest record for `content` salted with `salt`
/// under `key`: the scheme tag `#01#`, then the signature text.
pub open spec fn pwd_record(key: Seq<u8>, salt: Seq<char>, content: Seq<char>) -> Seq<u8> {
    seq![35u8, 48u8, 49u8, 35u8] + sig_b64u(key, salt, content)
}

/// True of a stored record that matches `content` salted with `salt`.
pub open spec fn pwd_matches(
    key: Seq<u8>,
    salt: Seq<char>,
    content: Seq<char>,
    stored: Seq<char>,
) -> bool {
    encode_utf8(stored) == pwd_record(key, salt, content)
}

/// Encrypts a password into its at-rest record `#01#<signature>`.
/// Always succeeds; the `Result` mirrors a signing primitive that could
/// fail to initialize.
pub fn encrypt_pwd(key: &[u8], to_enc: &EncryptContent) -> (r: Result<String, Error>)
    ensures
        r matches Ok(s) && pwd_matches(key@, to_enc.salt@, to_enc.content@, s@),
{
    let encrypted = match encrypt_into_b64u(key, to_enc) {
        Ok(s) => s,
        Err(e) => {
            return Err(e);
        },
    };
    let mut tag: Vec<u8> = Vec::new();
    tag.push(35);
    tag.push(48);
    tag.push(49);
    tag.push(35);
    proof {
        assert(tag@ =~= seq![35u8, 48u8, 49u8, 35u8]);
    }
    let mut out = ascii_to_string(tag);
    let ghost prefix = out@;
    out.append(encrypted.as_str());
    proof {
        lemma_encode_utf8_append(prefix, encrypted@);
    }
    Ok(out)
}

/// Validates a password against a stored record by recomputing the
/// record and comparing byte for byte.  Succeeds exactly when the record
/// is what `encrypt_pwd` produces for this key, salt, and content.
pub fn validate_pwd(key: &[u8], to_enc: &EncryptContent, pwd_ref: &str) -> (r: Result<(), Error>)
    ensures
        r matches Ok(u) <==> pwd_matches(key@, to_enc.salt@, to_enc.content@, pwd_ref@),
        r matches Err(e) ==> e == Error::PwdNotMatching,
{
    let pwd = match encrypt_pwd(key, to_enc) {
        Ok(p) => p,
        Err(_) => {
            return Err(Error::PwdNotMatching);
        },
    };
    if bytes_eq(pwd.as_str().as_bytes(), pwd_ref.as_bytes()) {
        Ok(())
    } else {
        Err(Error::PwdNotMatching)
    }
}

/// Law: the at-rest record is deterministic — two records matching the
/// same key, salt, and content are the same text.
pub proof fn lemma_pwd_record_deterministic(
    key: Seq<u8>,
    salt: Seq<char>,
    content: Seq<char>,
    s1: Seq<char>,
    s2: Seq<char>,
)
    requires
        pwd_matches(key, salt, content, s1),
        pwd_matches(key, salt, content, s2),
    ensures
        s1 == s2,
{
    vstd::utf8::encode_utf8_decode_utf8(s1);
    vstd::utf8::encode_utf8_decode_utf8(s2);
}

} // verus!

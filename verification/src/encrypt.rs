//! The keyed signer: HMAC-SHA-512 over content then per-subject salt,
//! rendered as URL-safe base64 text.  Deterministic and stateless; the
//! per-subject salt keeps signatures of two subjects incomparable even
//! for identical content.

use vstd::prelude::*;
use vstd::utf8::encode_utf8;
use hmac::Mac;
use crate::b64::{b64_encode, b64u_encode, is_b64_byte, lemma_b64_encode_alphabet,
    lemma_b64_byte_range};
use crate::error::Error;
use crate::strutil::ascii_to_string;

verus! {

/// Plaintext and per-subject salt handed to the signer.
#[derive(Clone, Debug)]
pub struct EncryptContent {
    pub content: String,
    pub salt: String,
}

/// HMAC-SHA-512 digest of `msg` under `key`.  A pure function of its two
/// arguments; its value has no short description, so it stays a name.
pub uninterp spec fn hmac_sha512_of(key: Seq<u8>, msg: Seq<u8>) -> Seq<u8>;

/// Relies on `hmac::Hmac<sha2::Sha512>`: `Mac::new_from_slice` accepts a
/// key of any length and never fails (its source returns `Ok`
/// unconditionally), the two `update` calls feed `part1` then `part2`,
/// and `finalize` yields the 64-byte digest, a function of the key and
/// the concatenated message alone.
#[verifier::external_body]
fn hmac_sha512_parts(key: &[u8], part1: &[u8], part2: &[u8]) -> (r: Vec<u8>)
    ensures
        r@ == hmac_sha512_of(key@, part1@ + part2@),
        r@.len() == 64,
{
    let mut mac = <hmac::Hmac<sha2::Sha512> as Mac>::new_from_slice(key).expect(
        "HMAC accepts keys of any length",
    );
    mac.update(part1);
    mac.update(part2);
    mac.finalize().into_bytes().to_vec()
}

/// Raw signature of `content` salted with `salt` under `key`.
pub open spec fn sig_bytes(key: Seq<u8>, salt: Seq<char>, content: Seq<char>) -> Seq<u8> {
    hmac_sha512_of(key, encode_utf8(content) + encode_utf8(salt))
}

/// UTF-8 bytes of the base64url text of that signature.
pub open spec fn sig_b64u(key: Seq<u8>, salt: Seq<char>, content: Seq<char>) -> Seq<u8> {
    b64_encode(sig_bytes(key, salt, content))
}

/// Signs `enc_content` under `key` and returns the URL-safe base64 text
/// of the digest.  Total: `Error::KeyFailHmac` is reserved for a signing
/// primitive that can fail to initialize, and HMAC cannot.
pub fn encrypt_into_b64u(key: &[u8], enc_content: &EncryptContent) -> (r: Result<String, Error>)
    ensures
        r matches Ok(s) && encode_utf8(s@) == sig_b64u(
            key@,
            enc_content.salt@,
            enc_content.content@,
        ),
{
    let digest = hmac_sha512_parts(
        key,
        enc_content.content.as_str().as_bytes(),
        enc_content.salt.as_str().as_bytes(),
    );
    let enc = b64u_encode(digest.as_slice());
    proof {
        lemma_b64_encode_alphabet(digest@);
        assert forall|i: int| 0 <= i < enc@.len() implies enc@[i] < 128 by {
            assert(is_b64_byte(enc@[i]));
            lemma_b64_byte_range(enc@[i]);
        }
    }
    Ok(ascii_to_string(enc))
}

/// Law: signing is deterministic — two signature texts of the same key,
/// salt, and content are the same text.
pub proof fn lemma_sign_deterministic(
    key: Seq<u8>,
    salt: Seq<char>,
    content: Seq<char>,
    s1: Seq<char>,
    s2: Seq<char>,
)
    requires
        encode_utf8(s1) == sig_b64u(key, salt, content),
        encode_utf8(s2) == sig_b64u(key, salt, content),
    ensures
        s1 == s2,
{
    vstd::utf8::encode_utf8_decode_utf8(s1);
    vstd::utf8::encode_utf8_decode_utf8(s2);
}

} // verus!

//! Session-token codec: the dot-separated wire format
//! `b64(identity).b64(expiry).signature`, token generation, parsing with
//! distinct failure modes, and signature validation.
//!
//! Parsing and signature checking are deliberately separate: a parse
//! failure (`TokenInvalidFormat`, `TokenCannotDecodeIdent`,
//! `TokenCannotDecodeExp`) is always distinguishable from a trust
//! failure (`TokenSignatureNotMatching`).  Expiry comparison against the
//! clock is not part of this codec; the session resolver owns it.

use vstd::prelude::*;
use vstd::string::StringExecFns;
use vstd::slice::slice_subrange;
use vstd::slice::slice_to_vec;
use vstd::utf8::decode_utf8;
use vstd::utf8::encode_utf8;
use vstd::utf8::encode_utf8_decode_utf8;
use vstd::utf8::encode_utf8_valid_utf8;
use vstd::utf8::valid_utf8;
use crate::b64::{b64_encode, b64_decode, b64u_encode, b64u_decode, all_b64_bytes, is_b64_byte,
    lemma_b64_encode_alphabet, lemma_b64_byte_range, lemma_b64_decode_encode};
use crate::encrypt::{EncryptContent, encrypt_into_b64u, sig_b64u, sig_bytes};
use crate::error::Error;
use crate::iso::{iso_wf, iso_secs, iso_upper_secs, format_iso_secs, lemma_dby_bounds};
use crate::strutil::{ascii_to_string, bytes_eq, push_all, string_from_utf8,
    lemma_encode_utf8_append};

verus! {

/// A session token: subject identity, expiry text, and signature text.
#[derive(Clone, Debug)]
pub struct Token {
    pub ident: String,
    pub exp: String,
    pub sign_b64u: String,
}

/// The content a token signature covers: `identity + "::" + expiry`.
pub open spec fn token_content(ident: Seq<char>, exp: Seq<char>) -> Seq<char> {
    ident + "::"@ + exp
}

/// UTF-8 bytes of the signature text a valid token carries.
pub open spec fn token_sig_b64u(
    key: Seq<u8>,
    salt: Seq<char>,
    ident: Seq<char>,
    exp: Seq<char>,
) -> Seq<u8> {
    sig_b64u(key, salt, token_content(ident, exp))
}

/// Wire bytes of a serialized token: two base64url segments and the
/// signature text, joined by `.` (46).
pub open spec fn token_wire(ident: Seq<char>, exp: Seq<char>, sig: Seq<char>) -> Seq<u8> {
    b64_encode(encode_utf8(ident)) + seq![46u8] + b64_encode(encode_utf8(exp)) + seq![46u8]
        + encode_utf8(sig)
}

/// Number of `.` bytes in `s`.
pub open spec fn dot_count(s: Seq<u8>) -> int
    decreases s.len(),
{
    if s.len() == 0 {
        0
    } else {
        dot_count(s.drop_last()) + if s.last() == 46 {
            1int
        } else {
            0int
        }
    }
}

/// Index of the first `.` byte; the length of `s` when there is none.
pub open spec fn first_dot(s: Seq<u8>) -> int
    decreases s.len(),
{
    if s.len() == 0 {
        0
    } else if s[0] == 46 {
        0
    } else {
        1 + first_dot(s.drop_first())
    }
}

pub proof fn lemma_dot_count_concat(a: Seq<u8>, b: Seq<u8>)
    ensures
        dot_count(a + b) == dot_count(a) + dot_count(b),
    decreases b.len(),
{
    if b.len() == 0 {
        assert(a + b =~= a);
    } else {
        lemma_dot_count_concat(a, b.drop_last());
        assert((a + b).drop_last() =~= a + b.drop_last());
        assert((a + b).last() == b.last());
    }
}

pub proof fn lemma_dot_count_none(s: Seq<u8>)
    requires
        forall|i: int| 0 <= i < s.len() ==> s[i] != 46,
    ensures
        dot_count(s) == 0,
    decreases s.len(),
{
    if s.len() > 0 {
        lemma_dot_count_none(s.drop_last());
    }
}

pub proof fn lemma_first_dot_at(s: Seq<u8>, i: int)
    requires
        0 <= i < s.len(),
        s[i] == 46,
        forall|j: int| 0 <= j < i ==> s[j] != 46,
    ensures
        first_dot(s) == i,
    decreases i,
{
    if i > 0 {
        lemma_first_dot_at(s.drop_first(), i - 1);
    }
}

/// What parsing wire bytes yields: the three decoded fields, or the
/// first applicable failure — segment count, then identity decoding,
/// then expiry decoding.
pub open spec fn token_parse(b: Seq<u8>) -> Result<(Seq<char>, Seq<char>, Seq<char>), Error> {
    if dot_count(b) != 2 {
        Err(Error::TokenInvalidFormat)
    } else {
        let i = first_dot(b);
        let rest = b.skip(i + 1);
        let j = first_dot(rest);
        let seg0 = b.take(i);
        let seg1 = rest.take(j);
        let seg2 = rest.skip(j + 1);
        match b64_decode(seg0) {
            None => Err(Error::TokenCannotDecodeIdent),
            Some(d0) => if !valid_utf8(d0) {
                Err(Error::TokenCannotDecodeIdent)
            } else {
                match b64_decode(seg1) {
                    None => Err(Error::TokenCannotDecodeExp),
                    Some(d1) => if !valid_utf8(d1) {
                        Err(Error::TokenCannotDecodeExp)
                    } else if !valid_utf8(seg2) {
                        Err(Error::TokenInvalidFormat)
                    } else {
                        Ok((decode_utf8(d0), decode_utf8(d1), decode_utf8(seg2)))
                    },
                }
            },
        }
    }
}

/// Parses cookie text into a token.  Accepts exactly what `token_parse`
/// accepts and returns its fields; signature correctness is *not*
/// checked here.
pub fn parse_token(s: &str) -> (r: Result<Token, Error>)
    ensures
        match r {
            Ok(t) => token_parse(encode_utf8(s@)) == Ok::<(Seq<char>, Seq<char>, Seq<char>), Error>(
                (t.ident@, t.exp@, t.sign_b64u@),
            ),
            Err(e) => token_parse(encode_utf8(s@)) == Err::<
                (Seq<char>, Seq<char>, Seq<char>),
                Error,
            >(e),
        },
{
    let b = s.as_bytes();
    let n = b.len();
    let mut count: usize = 0;
    let mut p1: usize = 0;
    let mut p2: usize = 0;
    let mut i: usize = 0;
    while i < n
        invariant
            i <= n,
            n == b@.len(),
            count <= i,
            count == dot_count(b@.take(i as int)),
            count >= 1 ==> p1 < i && b@[p1 as int] == 46 && (forall|j: int|
                0 <= j < p1 ==> b@[j] != 46),
            count >= 2 ==> p1 < p2 && p2 < i && b@[p2 as int] == 46 && (forall|j: int|
                p1 < j < p2 ==> b@[j] != 46),
            count == 0 ==> forall|j: int| 0 <= j < i ==> b@[j] != 46,
            count == 1 ==> forall|j: int| p1 < j < i ==> b@[j] != 46,
            count == 2 ==> forall|j: int| p2 < j < i ==> b@[j] != 46,
        decreases n - i,
    {
        let c = b[i];
        proof {
            assert(b@.take(i as int + 1).drop_last() =~= b@.take(i as int));
            assert(b@.take(i as int + 1).last() == b@[i as int]);
        }
        if c == 46 {
            if count == 0 {
                p1 = i;
            } else if count == 1 {
                p2 = i;
            }
            count = count + 1;
        }
        i = i + 1;
    }
    proof {
        assert(b@.take(n as int) =~= b@);
    }
    if count != 2 {
        return Err(Error::TokenInvalidFormat);
    }
    proof {
        lemma_first_dot_at(b@, p1 as int);
        let rest = b@.skip(p1 as int + 1);
        assert(rest[p2 as int - p1 - 1] == b@[p2 as int]);
        assert forall|j: int| 0 <= j < p2 as int - p1 - 1 implies rest[j] != 46 by {
            assert(rest[j] == b@[p1 as int + 1 + j]);
        }
        lemma_first_dot_at(rest, p2 as int - p1 - 1);
    }
    let seg0 = slice_subrange(b, 0, p1);
    let seg1 = slice_subrange(b, p1 + 1, p2);
    let seg2 = slice_subrange(b, p2 + 1, n);
    proof {
        let rest = b@.skip(p1 as int + 1);
        assert(seg0@ =~= b@.take(p1 as int));
        assert(seg1@ =~= rest.take(p2 as int - p1 - 1));
        assert(seg2@ =~= rest.skip(p2 as int - p1 - 1 + 1));
    }
    let d0 = match b64u_decode(seg0) {
        Some(v) => v,
        None => {
            return Err(Error::TokenCannotDecodeIdent);
        },
    };
    let ident = match string_from_utf8(d0) {
        Some(sx) => sx,
        None => {
            return Err(Error::TokenCannotDecodeIdent);
        },
    };
    let d1 = match b64u_decode(seg1) {
        Some(v) => v,
        None => {
            return Err(Error::TokenCannotDecodeExp);
        },
    };
    let exp = match string_from_utf8(d1) {
        Some(sx) => sx,
        None => {
            return Err(Error::TokenCannotDecodeExp);
        },
    };
    let sigv = slice_to_vec(seg2);
    let sign_b64u = match string_from_utf8(sigv) {
        Some(sx) => sx,
        None => {
            return Err(Error::TokenInvalidFormat);
        },
    };
    Ok(Token { ident, exp, sign_b64u })
}

/// Serializes a token to its cookie text.
pub fn token_to_string(t: &Token) -> (r: String)
    ensures
        encode_utf8(r@) == token_wire(t.ident@, t.exp@, t.sign_b64u@),
{
    let e0 = b64u_encode(t.ident.as_str().as_bytes());
    let e1 = b64u_encode(t.exp.as_str().as_bytes());
    let mut w: Vec<u8> = Vec::new();
    push_all(&mut w, e0.as_slice());
    w.push(46);
    push_all(&mut w, e1.as_slice());
    w.push(46);
    proof {
        lemma_b64_encode_alphabet(encode_utf8(t.ident@));
        lemma_b64_encode_alphabet(encode_utf8(t.exp@));
        assert(w@ =~= e0@ + seq![46u8] + e1@ + seq![46u8]);
        assert forall|i: int| 0 <= i < w@.len() implies w@[i] < 128 by {
            if i < e0@.len() {
                assert(w@[i] == e0@[i]);
                assert(is_b64_byte(e0@[i]));
                lemma_b64_byte_range(e0@[i]);
            } else if i == e0@.len() {
                assert(w@[i] == 46);
            } else if i < e0@.len() + 1 + e1@.len() {
                assert(w@[i] == e1@[i - e0@.len() - 1]);
                assert(is_b64_byte(e1@[i - e0@.len() - 1]));
                lemma_b64_byte_range(e1@[i - e0@.len() - 1]);
            } else {
                assert(w@[i] == 46);
            }
        }
    }
    let mut out = ascii_to_string(w);
    let ghost prefix = out@;
    out.append(t.sign_b64u.as_str());
    proof {
        lemma_encode_utf8_append(prefix, t.sign_b64u@);
        assert(encode_utf8(out@) =~= token_wire(t.ident@, t.exp@, t.sign_b64u@));
    }
    out
}

/// Builds the content a token signature covers.
fn token_sign_content(ident: &str, exp: &str) -> (r: String)
    ensures
        r@ == token_content(ident@, exp@),
{
    let mut c = String::from_str(ident);
    c.append("::");
    c.append(exp);
    c
}

/// Generates a token for `user`: expiry `now + duration`, signature over
/// `identity + "::" + expiry` salted with the subject's salt.  Always
/// succeeds; the `Result` mirrors a signing primitive that could fail.
pub fn generate_web_token(
    key: &[u8],
    user: &str,
    salt: &str,
    now_secs: u64,
    duration_secs: u64,
) -> (r: Result<Token, Error>)
    requires
        now_secs + duration_secs < iso_upper_secs(),
    ensures
        r matches Ok(t) && t.ident@ == user@ && iso_wf(encode_utf8(t.exp@)) && iso_secs(
            encode_utf8(t.exp@),
        ) == now_secs + duration_secs && encode_utf8(t.sign_b64u@) == token_sig_b64u(
            key@,
            salt@,
            user@,
            t.exp@,
        ) && all_b64_bytes(encode_utf8(t.sign_b64u@)),
{
    proof {
        lemma_dby_bounds(10000);
    }
    let exp = format_iso_secs(now_secs + duration_secs);
    let content = token_sign_content(user, exp.as_str());
    let enc = EncryptContent { content, salt: String::from_str(salt) };
    let sign_b64u = match encrypt_into_b64u(key, &enc) {
        Ok(v) => v,
        Err(e) => {
            return Err(e);
        },
    };
    proof {
        lemma_b64_encode_alphabet(sig_bytes(key@, salt@, token_content(user@, exp@)));
    }
    Ok(Token { ident: String::from_str(user), exp, sign_b64u })
}

/// Validates a token's signature: recomputes the expected signature for
/// the token's own identity and expiry under `key` and `salt` and
/// compares texts.  Succeeds exactly when they agree; expiry is not
/// examined here.
pub fn validate_web_token(origin_token: &Token, key: &[u8], salt: &str) -> (r: Result<(), Error>)
    ensures
        r matches Ok(u) <==> encode_utf8(origin_token.sign_b64u@) == token_sig_b64u(
            key@,
            salt@,
            origin_token.ident@,
            origin_token.exp@,
        ),
        r matches Err(e) ==> e == Error::TokenSignatureNotMatching,
{
    let content = token_sign_content(origin_token.ident.as_str(), origin_token.exp.as_str());
    let enc = EncryptContent { content, salt: String::from_str(salt) };
    let sig = match encrypt_into_b64u(key, &enc) {
        Ok(v) => v,
        Err(_) => {
            return Err(Error::TokenSignatureNotMatching);
        },
    };
    if bytes_eq(sig.as_str().as_bytes(), origin_token.sign_b64u.as_str().as_bytes()) {
        Ok(())
    } else {
        Err(Error::TokenSignatureNotMatching)
    }
}

/// Law: a wire text without exactly two dot separators is rejected as a
/// format error — never as a decode or signature failure.
pub proof fn lemma_wrong_segment_count_is_format_error(b: Seq<u8>)
    requires
        dot_count(b) != 2,
    ensures
        token_parse(b) == Err::<(Seq<char>, Seq<char>, Seq<char>), Error>(
            Error::TokenInvalidFormat,
        ),
{
}

/// Law: a token whose signature text is the one its identity and expiry
/// demand — every token `generate_web_token` returns — serializes and
/// parses back to exactly its three fields, and that signature equality
/// is precisely what `validate_web_token` accepts under the same key
/// and salt.
pub proof fn lemma_generated_token_roundtrip(
    key: Seq<u8>,
    salt: Seq<char>,
    ident: Seq<char>,
    exp: Seq<char>,
    sig: Seq<char>,
)
    requires
        encode_utf8(sig) == token_sig_b64u(key, salt, ident, exp),
    ensures
        token_parse(token_wire(ident, exp, sig)) == Ok::<(Seq<char>, Seq<char>, Seq<char>), Error>(
            (ident, exp, sig),
        ),
{
    lemma_b64_encode_alphabet(sig_bytes(key, salt, token_content(ident, exp)));
    lemma_token_roundtrip(ident, exp, sig);
}

/// Law: parsing a serialized token reproduces its three fields exactly,
/// whenever the signature text stays within the base64url alphabet — as
/// every generated token's does.
pub proof fn lemma_token_roundtrip(ident: Seq<char>, exp: Seq<char>, sig: Seq<char>)
    requires
        all_b64_bytes(encode_utf8(sig)),
    ensures
        token_parse(token_wire(ident, exp, sig)) == Ok::<(Seq<char>, Seq<char>, Seq<char>), Error>(
            (ident, exp, sig),
        ),
{
    let e0 = b64_encode(encode_utf8(ident));
    let e1 = b64_encode(encode_utf8(exp));
    let e2 = encode_utf8(sig);
    let w = token_wire(ident, exp, sig);
    lemma_b64_encode_alphabet(encode_utf8(ident));
    lemma_b64_encode_alphabet(encode_utf8(exp));
    assert forall|i: int| 0 <= i < e0.len() implies e0[i] != 46 by {
        assert(is_b64_byte(e0[i]));
        lemma_b64_byte_range(e0[i]);
    }
    assert forall|i: int| 0 <= i < e1.len() implies e1[i] != 46 by {
        assert(is_b64_byte(e1[i]));
        lemma_b64_byte_range(e1[i]);
    }
    assert forall|i: int| 0 <= i < e2.len() implies e2[i] != 46 by {
        assert(is_b64_byte(e2[i]));
        lemma_b64_byte_range(e2[i]);
    }
    lemma_dot_count_none(e0);
    lemma_dot_count_none(e1);
    lemma_dot_count_none(e2);
    assert(dot_count(seq![46u8]) == 1) by {
        assert(seq![46u8].drop_last() =~= Seq::<u8>::empty());
        assert(dot_count(Seq::<u8>::empty()) == 0);
    }
    lemma_dot_count_concat(e0, seq![46u8]);
    lemma_dot_count_concat(e0 + seq![46u8], e1);
    lemma_dot_count_concat(e0 + seq![46u8] + e1, seq![46u8]);
    lemma_dot_count_concat(e0 + seq![46u8] + e1 + seq![46u8], e2);
    assert(dot_count(w) == 2);
    assert(w[e0.len() as int] == 46);
    assert forall|j: int| 0 <= j < e0.len() implies w[j] != 46 by {
        assert(w[j] == e0[j]);
    }
    lemma_first_dot_at(w, e0.len() as int);
    let rest = w.skip(e0.len() as int + 1);
    assert(rest =~= e1 + seq![46u8] + e2);
    assert(rest[e1.len() as int] == 46);
    assert forall|j: int| 0 <= j < e1.len() implies rest[j] != 46 by {
        assert(rest[j] == e1[j]);
    }
    lemma_first_dot_at(rest, e1.len() as int);
    assert(w.take(e0.len() as int) =~= e0);
    assert(rest.take(e1.len() as int) =~= e1);
    assert(rest.skip(e1.len() as int + 1) =~= e2);
    lemma_b64_decode_encode(encode_utf8(ident));
    lemma_b64_decode_encode(encode_utf8(exp));
    encode_utf8_valid_utf8(ident);
    encode_utf8_valid_utf8(exp);
    encode_utf8_valid_utf8(sig);
    encode_utf8_decode_utf8(ident);
    encode_utf8_decode_utf8(exp);
    encode_utf8_decode_utf8(sig);
}

} // verus!

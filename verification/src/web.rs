//! The session-resolution pipeline and its admission stage, as pure decision
//! functions.  The surrounding server runs the I/O — cookie reads, the
//! store lookup, cookie writes — and feeds each outcome to the next
//! stage here; every decision between those suspension points is
//! verified.
//!
//! Resolution (per request): read cookie -> `ctx_resolve_token` ->
//! store lookup -> `ctx_resolve_user` -> `ctx_validate_token` ->
//! optional renewal (`renew_outcome`) -> `ctx_from_user`.  The middleware
//! attaches the outcome on every request (`should_clear_cookie` decides
//! the defensive cookie cleanup) and `require_ctx` / `ctx_from_extension`
//! later reject or admit the request.

use vstd::prelude::*;
use vstd::string::StringExecFns;
use vstd::utf8::encode_utf8;
use crate::ctx::Ctx;
use crate::error::Error as CryptError;
use crate::iso::{iso_secs, iso_wf, parse_iso_secs};
use crate::pwd::{pwd_matches, validate_pwd};
use crate::encrypt::EncryptContent;
use crate::token::{parse_token, token_parse, token_sig_b64u, validate_web_token, Token};

verus! {

/// Typed outcomes of a failed resolution.  `TokenNotInCookie` is the
/// benign anonymous state; the middleware must never treat it as an error
/// worth clearing cookies over.
#[derive(Clone, Debug)]
pub enum CtxExtError {
    TokenNotInCookie,
    TokenWrongFormat,
    UserNotFound,
    ModelAccessError(String),
    FailValidate,
    CannotSetTokenCookie,
    CtxNotInRequestExt,
    CtxCreateFail(String),
}

/// Boundary-collapsed request errors: every login or resolution failure
/// a route can surface.
#[derive(Clone, Debug)]
pub enum Error {
    LoginFailUsernameNotFound,
    LoginFailUserHasNoPwd { user_id: i64 },
    LoginFailPwdNotMatching { user_id: i64 },
    CtxExt(CtxExtError),
}

/// What the user store hands back for session resolution.
#[derive(Clone, Debug)]
pub struct UserForAuth {
    pub id: i64,
    pub username: String,
    pub token_salt: String,
}

/// What the user store hands back for login.
#[derive(Clone, Debug)]
pub struct UserForLogin {
    pub id: i64,
    pub username: String,
    pub pwd: Option<String>,
    pub pwd_salt: String,
    pub token_salt: String,
}

/// Resolution stage 1-2: the cookie's value, if any, parsed as a token.
/// No cookie is the benign `TokenNotInCookie`; malformed text collapses
/// to `TokenWrongFormat`.
pub fn ctx_resolve_token(cookie: Option<&str>) -> (r: Result<Token, CtxExtError>)
    ensures
        match cookie {
            None => r matches Err(e) && e == CtxExtError::TokenNotInCookie,
            Some(c) => match r {
                Ok(t) => token_parse(encode_utf8(c@)) == Ok::<
                    (Seq<char>, Seq<char>, Seq<char>),
                    crate::error::Error,
                >((t.ident@, t.exp@, t.sign_b64u@)),
                Err(e) => e == CtxExtError::TokenWrongFormat && token_parse(encode_utf8(c@)) is Err,
            },
        },
{
    let c = match cookie {
        Some(c) => c,
        None => {
            return Err(CtxExtError::TokenNotInCookie);
        },
    };
    match parse_token(c) {
        Ok(t) => Ok(t),
        Err(_) => Err(CtxExtError::TokenWrongFormat),
    }
}

/// Resolution stage 3: the store lookup's outcome.  A store failure
/// carries its detail; an unknown identity is `UserNotFound`.
pub fn ctx_resolve_user(lookup: Result<Option<UserForAuth>, String>) -> (r: Result<
    UserForAuth,
    CtxExtError,
>)
    ensures
        match lookup {
            Err(msg) => r matches Err(e) && e == CtxExtError::ModelAccessError(msg),
            Ok(None) => r matches Err(e) && e == CtxExtError::UserNotFound,
            Ok(Some(u)) => r matches Ok(u2) && u2 == u,
        },
{
    match lookup {
        Err(msg) => Err(CtxExtError::ModelAccessError(msg)),
        Ok(None) => Err(CtxExtError::UserNotFound),
        Ok(Some(u)) => Ok(u),
    }
}

/// The token's signature is the one its identity and expiry demand
/// under this key and salt.
pub open spec fn token_sig_ok(t: Token, key: Seq<u8>, salt: Seq<char>) -> bool {
    encode_utf8(t.sign_b64u@) == token_sig_b64u(key, salt, t.ident@, t.exp@)
}

/// The token's expiry text is well-formed and still in the future.
pub open spec fn token_exp_ok(t: Token, now_secs: int) -> bool {
    iso_wf(encode_utf8(t.exp@)) && iso_secs(encode_utf8(t.exp@)) > now_secs
}

/// Fewer than 30 seconds of lifetime remain: time to renew.
pub open spec fn token_needs_renew(t: Token, now_secs: int) -> bool {
    iso_secs(encode_utf8(t.exp@)) < now_secs + 30
}

/// The remaining lifetime of a token, or `TokenExpired` when its expiry
/// is not strictly in the future.  Kept distinct for diagnostics; the
/// resolver collapses it into `FailValidate`.
pub fn token_remaining_secs(exp_secs: u64, now_secs: u64) -> (r: Result<u64, CryptError>)
    ensures
        match r {
            Ok(rem) => exp_secs > now_secs && rem == exp_secs - now_secs,
            Err(e) => e == CryptError::TokenExpired && exp_secs <= now_secs,
        },
{
    if exp_secs <= now_secs {
        Err(CryptError::TokenExpired)
    } else {
        Ok(exp_secs - now_secs)
    }
}

/// Resolution stages 4-6: signature, expiry parse, and expiry check,
/// all collapsed to one `FailValidate`.  On success says whether the
/// sliding-expiration policy asks for a renewal.
pub fn ctx_validate_token(token: &Token, user: &UserForAuth, key: &[u8], now_secs: u64) -> (r:
    Result<bool, CtxExtError>)
    ensures
        match r {
            Ok(renew) => token_sig_ok(*token, key@, user.token_salt@) && token_exp_ok(
                *token,
                now_secs as int,
            ) && renew == token_needs_renew(*token, now_secs as int),
            Err(e) => e == CtxExtError::FailValidate && !(token_sig_ok(*token, key@, user.token_salt@)
                && token_exp_ok(*token, now_secs as int)),
        },
{
    match validate_web_token(token, key, user.token_salt.as_str()) {
        Ok(u) => u,
        Err(_) => {
            return Err(CtxExtError::FailValidate);
        },
    };
    let exp_secs = match parse_iso_secs(token.exp.as_str()) {
        Ok(v) => v,
        Err(_) => {
            return Err(CtxExtError::FailValidate);
        },
    };
    let remaining = match token_remaining_secs(exp_secs, now_secs) {
        Ok(rem) => rem,
        Err(_) => {
            return Err(CtxExtError::FailValidate);
        },
    };
    Ok(remaining < 30)
}

/// Resolution stage 7: the cookie-write outcome of a renewal.  The
/// write happens outside; a failed write is `CannotSetTokenCookie`.
pub fn renew_outcome(write_ok: bool) -> (r: Result<(), CtxExtError>)
    ensures
        write_ok ==> (r matches Ok(u)),
        !write_ok ==> (r matches Err(e) && e == CtxExtError::CannotSetTokenCookie),
{
    if write_ok {
        Ok(())
    } else {
        Err(CtxExtError::CannotSetTokenCookie)
    }
}

/// Resolution stage 8: the context for the authenticated subject.
pub fn ctx_from_user(user: &UserForAuth) -> (r: Result<Ctx, CtxExtError>)
    ensures
        match r {
            Ok(c) => user.id != 0 && c.user_id == user.id,
            Err(e) => user.id == 0 && e matches CtxExtError::CtxCreateFail(_),
        },
{
    match Ctx::new(user.id) {
        Ok(c) => Ok(c),
        Err(e) => Err(CtxExtError::CtxCreateFail(String::from_str(e.as_text()))),
    }
}

/// Resolve-phase cookie policy: clear the session cookie on any failure
/// other than benign absence, and never on success.
pub fn should_clear_cookie(res: &Result<Ctx, CtxExtError>) -> (r: bool)
    ensures
        r == (res is Err && !(res matches Err(CtxExtError::TokenNotInCookie))),
{
    match res {
        Err(CtxExtError::TokenNotInCookie) => false,
        Err(_) => true,
        Ok(_) => false,
    }
}

/// Require-phase: a route that demands authentication admits exactly a
/// resolved context and rejects every failure before its handler runs.
pub fn require_ctx(res: Result<Ctx, CtxExtError>) -> (r: Result<Ctx, Error>)
    ensures
        match res {
            Ok(c) => r matches Ok(c2) && c2 == c,
            Err(e) => r matches Err(we) && we == Error::CtxExt(e),
        },
{
    match res {
        Ok(c) => Ok(c),
        Err(e) => Err(Error::CtxExt(e)),
    }
}

/// The capability extractor: reads the outcome the resolve phase
/// attached.  A missing attachment is a wiring error
/// (`CtxNotInRequestExt`), distinct from any authentication failure.
pub fn ctx_from_extension(ext: Option<Result<Ctx, CtxExtError>>) -> (r: Result<Ctx, Error>)
    ensures
        match ext {
            None => r matches Err(we) && we == Error::CtxExt(CtxExtError::CtxNotInRequestExt),
            Some(res) => match res {
                Ok(c) => r matches Ok(c2) && c2 == c,
                Err(e) => r matches Err(we) && we == Error::CtxExt(e),
            },
        },
{
    match ext {
        None => Err(Error::CtxExt(CtxExtError::CtxNotInRequestExt)),
        Some(res) => require_ctx(res),
    }
}

/// Login decision: the stored record must exist and match the submitted
/// password; hands back the subject id for token and context creation.
pub fn login_check(user: Option<&UserForLogin>, pwd_clear: &str, pwd_key: &[u8]) -> (r: Result<
    i64,
    Error,
>)
    ensures
        match user {
            None => r matches Err(e) && e == Error::LoginFailUsernameNotFound,
            Some(u) => match u.pwd {
                None => r matches Err(e) && e == (Error::LoginFailUserHasNoPwd { user_id: u.id }),
                Some(p) => if pwd_matches(pwd_key@, u.pwd_salt@, pwd_clear@, p@) {
                    r matches Ok(id) && id == u.id
                } else {
                    r matches Err(e) && e == (Error::LoginFailPwdNotMatching { user_id: u.id })
                },
            },
        },
{
    let u = match user {
        Some(u) => u,
        None => {
            return Err(Error::LoginFailUsernameNotFound);
        },
    };
    let p = match &u.pwd {
        Some(p) => p,
        None => {
            return Err(Error::LoginFailUserHasNoPwd { user_id: u.id });
        },
    };
    let enc = EncryptContent {
        content: String::from_str(pwd_clear),
        salt: u.pwd_salt.clone(),
    };
    match validate_pwd(pwd_key, &enc, p.as_str()) {
        Ok(u2) => u2,
        Err(_) => {
            return Err(Error::LoginFailPwdNotMatching { user_id: u.id });
        },
    };
    Ok(u.id)
}

} // verus!

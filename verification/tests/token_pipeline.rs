use authcore::ctx::Ctx;
use authcore::error::Error;
use authcore::pwd::encrypt_pwd;
use authcore::encrypt::EncryptContent;
use authcore::token::{generate_web_token, parse_token, token_to_string, validate_web_token};
use authcore::web::{
    ctx_from_extension, ctx_from_user, ctx_resolve_token, ctx_resolve_user, ctx_validate_token,
    login_check, renew_outcome, require_ctx, should_clear_cookie, token_remaining_secs,
    CtxExtError, Error as WebError, UserForAuth, UserForLogin,
};

const KEY: &[u8] = b"token-signing-key";
const NOW: u64 = 1_700_000_000;

fn alice() -> UserForAuth {
    UserForAuth { id: 7, username: "alice".to_string(), token_salt: "s1".to_string() }
}

#[test]
fn token_round_trip() {
    let t = generate_web_token(KEY, "alice", "s1", NOW, 3600).unwrap();
    assert_eq!(t.ident, "alice");
    let s = token_to_string(&t);
    let t2 = parse_token(&s).unwrap();
    assert_eq!(t2.ident, t.ident);
    assert_eq!(t2.exp, t.exp);
    assert_eq!(t2.sign_b64u, t.sign_b64u);
    assert_eq!(validate_web_token(&t2, KEY, "s1"), Ok(()));
    assert_eq!(validate_web_token(&t2, KEY, "s2"), Err(Error::TokenSignatureNotMatching));
    assert_eq!(validate_web_token(&t2, b"other-key", "s1"), Err(Error::TokenSignatureNotMatching));
}

fn flip_char_at(s: &str, i: usize) -> String {
    let mut bytes = s.as_bytes().to_vec();
    bytes[i] = if bytes[i] == b'A' { b'B' } else { b'A' };
    String::from_utf8(bytes).unwrap()
}

#[test]
fn tampered_identity_segment_fails_validation() {
    let t = generate_web_token(KEY, "alice", "s1", NOW, 3600).unwrap();
    let s = token_to_string(&t);
    let tampered = flip_char_at(&s, 0);
    let t2 = parse_token(&tampered).expect("tampering keeps the format well-formed");
    assert_eq!(validate_web_token(&t2, KEY, "s1"), Err(Error::TokenSignatureNotMatching));
}

#[test]
fn tampered_expiry_segment_fails_validation() {
    let t = generate_web_token(KEY, "alice", "s1", NOW, 3600).unwrap();
    let s = token_to_string(&t);
    let dot = s.find('.').unwrap();
    let tampered = flip_char_at(&s, dot + 1);
    let t2 = parse_token(&tampered).expect("tampering keeps the format well-formed");
    assert_eq!(validate_web_token(&t2, KEY, "s1"), Err(Error::TokenSignatureNotMatching));
}

#[test]
fn truncated_signature_parses_but_fails_validation() {
    let t = generate_web_token(KEY, "alice", "s1", NOW, 3600).unwrap();
    let mut s = token_to_string(&t);
    s.pop();
    let t2 = parse_token(&s).expect("signature segment is opaque to the parser");
    assert_eq!(t2.ident, "alice");
    assert_eq!(validate_web_token(&t2, KEY, "s1"), Err(Error::TokenSignatureNotMatching));
}

#[test]
fn wrong_segment_counts_are_format_errors() {
    assert_eq!(parse_token("YWxpY2U.MjAyMw").map(|_| ()), Err(Error::TokenInvalidFormat));
    assert_eq!(parse_token("a.b.c.d").map(|_| ()), Err(Error::TokenInvalidFormat));
    assert_eq!(parse_token("").map(|_| ()), Err(Error::TokenInvalidFormat));
    assert_eq!(parse_token("no-dots-at-all").map(|_| ()), Err(Error::TokenInvalidFormat));
}

#[test]
fn undecodable_segments_are_decode_errors() {
    assert_eq!(parse_token("!!.YWxpY2U.sig").map(|_| ()), Err(Error::TokenCannotDecodeIdent));
    assert_eq!(parse_token("a.YWxpY2U.sig").map(|_| ()), Err(Error::TokenCannotDecodeIdent));
    assert_eq!(parse_token("YWxpY2U.!!.sig").map(|_| ()), Err(Error::TokenCannotDecodeExp));
    assert_eq!(parse_token("YWxpY2U.b.sig").map(|_| ()), Err(Error::TokenCannotDecodeExp));
}

#[test]
fn expiry_boundaries() {
    let user = alice();
    // expires one hour from "now": valid, no renewal
    let t = generate_web_token(KEY, "alice", "s1", NOW, 3600).unwrap();
    assert_eq!(ctx_validate_token(&t, &user, KEY, NOW).unwrap(), false);
    // one second past expiry: invalid
    let expired = generate_web_token(KEY, "alice", "s1", NOW - 3601, 3600).unwrap();
    assert!(matches!(
        ctx_validate_token(&expired, &user, KEY, NOW),
        Err(CtxExtError::FailValidate)
    ));
    // expiring exactly now counts as expired
    let edge = generate_web_token(KEY, "alice", "s1", NOW - 3600, 3600).unwrap();
    assert!(matches!(ctx_validate_token(&edge, &user, KEY, NOW), Err(CtxExtError::FailValidate)));
}

#[test]
fn renewal_threshold() {
    let user = alice();
    let t29 = generate_web_token(KEY, "alice", "s1", NOW - 3600 + 29, 3600).unwrap();
    assert_eq!(ctx_validate_token(&t29, &user, KEY, NOW).unwrap(), true);
    let t30 = generate_web_token(KEY, "alice", "s1", NOW - 3600 + 30, 3600).unwrap();
    assert_eq!(ctx_validate_token(&t30, &user, KEY, NOW).unwrap(), false);
    let t31 = generate_web_token(KEY, "alice", "s1", NOW - 3600 + 31, 3600).unwrap();
    assert_eq!(ctx_validate_token(&t31, &user, KEY, NOW).unwrap(), false);
}

#[test]
fn remaining_lifetime() {
    assert_eq!(token_remaining_secs(NOW + 45, NOW), Ok(45));
    assert_eq!(token_remaining_secs(NOW, NOW), Err(Error::TokenExpired));
    assert_eq!(token_remaining_secs(NOW - 1, NOW), Err(Error::TokenExpired));
}

#[test]
fn unparsable_expiry_collapses_to_fail_validate() {
    let user = alice();
    let mut t = generate_web_token(KEY, "alice", "s1", NOW, 3600).unwrap();
    t.exp = "not-a-timestamp".to_string();
    assert!(matches!(ctx_validate_token(&t, &user, KEY, NOW), Err(CtxExtError::FailValidate)));
}

#[test]
fn resolver_cookie_stage() {
    assert!(matches!(ctx_resolve_token(None), Err(CtxExtError::TokenNotInCookie)));
    assert!(matches!(ctx_resolve_token(Some("garbage")), Err(CtxExtError::TokenWrongFormat)));
    let t = generate_web_token(KEY, "alice", "s1", NOW, 3600).unwrap();
    let s = token_to_string(&t);
    let parsed = ctx_resolve_token(Some(&s)).unwrap();
    assert_eq!(parsed.ident, "alice");
}

#[test]
fn resolver_lookup_stage() {
    assert!(matches!(ctx_resolve_user(Ok(None)), Err(CtxExtError::UserNotFound)));
    let got = ctx_resolve_user(Err("db down".to_string()));
    assert!(matches!(got, Err(CtxExtError::ModelAccessError(ref m)) if m == "db down"));
    let u = ctx_resolve_user(Ok(Some(alice()))).unwrap();
    assert_eq!(u.id, 7);
}

#[test]
fn resolver_finish_stage() {
    assert!(matches!(renew_outcome(true), Ok(())));
    assert!(matches!(renew_outcome(false), Err(CtxExtError::CannotSetTokenCookie)));
    let c = ctx_from_user(&alice()).unwrap();
    assert_eq!(c.user_id(), 7);
    let root = UserForAuth { id: 0, username: "root".to_string(), token_salt: "s".to_string() };
    assert!(matches!(ctx_from_user(&root), Err(CtxExtError::CtxCreateFail(_))));
}

#[test]
fn admission_behavior() {
    // anonymous request: resolution attaches a benign failure ...
    let outcome: Result<Ctx, CtxExtError> = Err(CtxExtError::TokenNotInCookie);
    // ... the resolve phase does not clear the cookie and lets the
    // request through; an open route simply sees no resolved context.
    assert!(!should_clear_cookie(&outcome));
    // the same outcome at a route requiring authentication is rejected
    // before any handler could run.
    assert!(matches!(
        require_ctx(outcome),
        Err(WebError::CtxExt(CtxExtError::TokenNotInCookie))
    ));
    // an invalid token means defensive cookie cleanup
    let bad: Result<Ctx, CtxExtError> = Err(CtxExtError::FailValidate);
    assert!(should_clear_cookie(&bad));
    // a resolved context is admitted untouched
    let ok: Result<Ctx, CtxExtError> = Ok(Ctx::new(7).unwrap());
    assert!(!should_clear_cookie(&ok));
    assert_eq!(require_ctx(ok).unwrap().user_id(), 7);
}

#[test]
fn extractor_distinguishes_wiring_errors() {
    assert!(matches!(
        ctx_from_extension(None),
        Err(WebError::CtxExt(CtxExtError::CtxNotInRequestExt))
    ));
    assert!(matches!(
        ctx_from_extension(Some(Err(CtxExtError::UserNotFound))),
        Err(WebError::CtxExt(CtxExtError::UserNotFound))
    ));
    let c = ctx_from_extension(Some(Ok(Ctx::new(7).unwrap()))).unwrap();
    assert_eq!(c.user_id(), 7);
}

fn alice_login(pwd_key: &[u8]) -> UserForLogin {
    let rec = encrypt_pwd(
        pwd_key,
        &EncryptContent { content: "hunter2".to_string(), salt: "ps1".to_string() },
    )
    .unwrap();
    UserForLogin {
        id: 7,
        username: "alice".to_string(),
        pwd: Some(rec),
        pwd_salt: "ps1".to_string(),
        token_salt: "s1".to_string(),
    }
}

#[test]
fn login_flow() {
    let pwd_key = b"pwd-signing-key";
    let user = alice_login(pwd_key);
    assert_eq!(login_check(Some(&user), "hunter2", pwd_key).unwrap(), 7);
    assert!(matches!(
        login_check(Some(&user), "hunter3", pwd_key),
        Err(WebError::LoginFailPwdNotMatching { user_id: 7 })
    ));
    assert!(matches!(
        login_check(None, "hunter2", pwd_key),
        Err(WebError::LoginFailUsernameNotFound)
    ));
    let mut no_pwd = alice_login(pwd_key);
    no_pwd.pwd = None;
    assert!(matches!(
        login_check(Some(&no_pwd), "hunter2", pwd_key),
        Err(WebError::LoginFailUserHasNoPwd { user_id: 7 })
    ));
}

#[test]
fn login_then_request_end_to_end() {
    let pwd_key = b"pwd-signing-key";
    let user = alice_login(pwd_key);
    let user_id = login_check(Some(&user), "hunter2", pwd_key).unwrap();
    let token = generate_web_token(KEY, &user.username, &user.token_salt, NOW, 3600).unwrap();
    let cookie = token_to_string(&token);

    // next request carries the cookie
    let parsed = ctx_resolve_token(Some(&cookie)).unwrap();
    let auth_user = ctx_resolve_user(Ok(Some(alice()))).unwrap();
    let renew = ctx_validate_token(&parsed, &auth_user, KEY, NOW + 60).unwrap();
    assert!(!renew);
    let ctx = ctx_from_user(&auth_user).unwrap();
    assert_eq!(ctx.user_id(), user_id);
    let admitted = require_ctx(Ok(ctx)).unwrap();
    assert_eq!(admitted.user_id(), 7);
}

use authcore::encrypt::{encrypt_into_b64u, EncryptContent};
use authcore::error::Error;
use authcore::pwd::{encrypt_pwd, validate_pwd};

fn enc(content: &str, salt: &str) -> EncryptContent {
    EncryptContent { content: content.to_string(), salt: salt.to_string() }
}

#[test]
fn sign_is_deterministic() {
    let key = b"some-secret-key";
    let a = encrypt_into_b64u(key, &enc("hunter2", "s1")).unwrap();
    let b = encrypt_into_b64u(key, &enc("hunter2", "s1")).unwrap();
    assert_eq!(a, b);
}

#[test]
fn sign_depends_on_every_input() {
    let key = b"some-secret-key";
    let base = encrypt_into_b64u(key, &enc("hunter2", "s1")).unwrap();
    let other_key = encrypt_into_b64u(b"other-secret-key", &enc("hunter2", "s1")).unwrap();
    let other_salt = encrypt_into_b64u(key, &enc("hunter2", "s2")).unwrap();
    let other_content = encrypt_into_b64u(key, &enc("hunter3", "s1")).unwrap();
    assert_ne!(base, other_key);
    assert_ne!(base, other_salt);
    assert_ne!(base, other_content);
}

#[test]
fn sign_output_is_cookie_safe() {
    let key = b"some-secret-key";
    let sig = encrypt_into_b64u(key, &enc("payload", "salty")).unwrap();
    // 64 digest bytes -> 86 base64url characters, no padding, no dots
    assert_eq!(sig.len(), 86);
    assert!(sig.chars().all(|c| {
        c.is_ascii_alphanumeric() || c == '-' || c == '_'
    }));
}

#[test]
fn pwd_record_has_scheme_tag() {
    let key = b"pwd-key";
    let rec = encrypt_pwd(key, &enc("hunter2", "s1")).unwrap();
    assert!(rec.starts_with("#01#"));
}

#[test]
fn pwd_validate_round_trip() {
    let key = b"pwd-key";
    let rec = encrypt_pwd(key, &enc("hunter2", "s1")).unwrap();
    assert_eq!(validate_pwd(key, &enc("hunter2", "s1"), &rec), Ok(()));
    assert_eq!(validate_pwd(key, &enc("hunter3", "s1"), &rec), Err(Error::PwdNotMatching));
    assert_eq!(validate_pwd(key, &enc("hunter2", "s2"), &rec), Err(Error::PwdNotMatching));
    assert_eq!(validate_pwd(b"other-key", &enc("hunter2", "s1"), &rec), Err(Error::PwdNotMatching));
}

#[test]
fn pwd_validate_rejects_missing_or_wrong_tag() {
    let key = b"pwd-key";
    let rec = encrypt_pwd(key, &enc("hunter2", "s1")).unwrap();
    let untagged = rec.trim_start_matches("#01#").to_string();
    assert_eq!(validate_pwd(key, &enc("hunter2", "s1"), &untagged), Err(Error::PwdNotMatching));
    let retagged = format!("#02#{untagged}");
    assert_eq!(validate_pwd(key, &enc("hunter2", "s1"), &retagged), Err(Error::PwdNotMatching));
}

#[test]
fn error_text_names_variant() {
    assert_eq!(Error::PwdNotMatching.as_text(), "PwdNotMatching");
    assert_eq!(Error::TokenInvalidFormat.as_text(), "TokenInvalidFormat");
}

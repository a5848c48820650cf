use authcore::b64::{b64u_decode, b64u_encode};
use authcore::iso::{format_iso_secs, iso_upper_secs_x, parse_iso_secs};
use authcore::error::Error;

#[test]
fn b64_known_values() {
    assert_eq!(b64u_encode(b"hello"), b"aGVsbG8".to_vec());
    assert_eq!(b64u_encode(b"Man"), b"TWFu".to_vec());
    assert_eq!(b64u_encode(b"M"), b"TQ".to_vec());
    assert_eq!(b64u_encode(b""), Vec::<u8>::new());
    assert_eq!(b64u_encode(&[0u8]), b"AA".to_vec());
    assert_eq!(b64u_encode(&[251u8, 255u8]), b"-_8".to_vec());
}

#[test]
fn b64_round_trip() {
    let samples: Vec<Vec<u8>> = vec![
        b"".to_vec(),
        b"a".to_vec(),
        b"ab".to_vec(),
        b"abc".to_vec(),
        b"abcd".to_vec(),
        vec![0, 1, 2, 253, 254, 255],
        (0u8..=255).collect(),
    ];
    for s in samples {
        let enc = b64u_encode(&s);
        assert_eq!(b64u_decode(&enc), Some(s));
    }
}

#[test]
fn b64_rejects_bad_input() {
    assert_eq!(b64u_decode(b"a"), None);
    assert_eq!(b64u_decode(b"a!"), None);
    assert_eq!(b64u_decode(b"aGVsbG8!"), None);
    assert_eq!(b64u_decode(b"aG=s"), None);
    // non-canonical trailing bits: "TR" carries a nonzero remainder
    assert_eq!(b64u_decode(b"TR"), None);
    assert_eq!(b64u_decode(b"TQ"), Some(b"M".to_vec()));
}

#[test]
fn iso_epoch_and_known_dates() {
    assert_eq!(format_iso_secs(0), "1970-01-01T00:00:00Z");
    assert_eq!(format_iso_secs(1), "1970-01-01T00:00:01Z");
    assert_eq!(format_iso_secs(86400), "1970-01-02T00:00:00Z");
    assert_eq!(format_iso_secs(1672531200), "2023-01-01T00:00:00Z");
    // leap day
    assert_eq!(format_iso_secs(1709208000), "2024-02-29T12:00:00Z");
    // the last representable second
    assert_eq!(format_iso_secs(253402300799), "9999-12-31T23:59:59Z");
    assert_eq!(iso_upper_secs_x(), 253402300800);
}

#[test]
fn iso_parse_inverts_format() {
    for &secs in &[0u64, 1, 59, 86399, 86400, 951827696, 1672531200, 1709208000, 253402300799] {
        let text = format_iso_secs(secs);
        assert_eq!(parse_iso_secs(&text), Ok(secs));
    }
}

#[test]
fn iso_parse_rejects_malformed() {
    assert_eq!(parse_iso_secs(""), Err(Error::TokenExpNotIso));
    assert_eq!(parse_iso_secs("2023-01-01"), Err(Error::TokenExpNotIso));
    assert_eq!(parse_iso_secs("2023-01-01 00:00:00Z"), Err(Error::TokenExpNotIso));
    assert_eq!(parse_iso_secs("2023-01-01t00:00:00Z"), Err(Error::TokenExpNotIso));
    assert_eq!(parse_iso_secs("2023-01-01T00:00:00z"), Err(Error::TokenExpNotIso));
    assert_eq!(parse_iso_secs("2023-13-01T00:00:00Z"), Err(Error::TokenExpNotIso));
    assert_eq!(parse_iso_secs("2023-00-01T00:00:00Z"), Err(Error::TokenExpNotIso));
    assert_eq!(parse_iso_secs("2023-02-29T00:00:00Z"), Err(Error::TokenExpNotIso));
    assert_eq!(parse_iso_secs("2024-02-29T00:00:00Z"), Ok(1709164800));
    assert_eq!(parse_iso_secs("1969-12-31T23:59:59Z"), Err(Error::TokenExpNotIso));
    assert_eq!(parse_iso_secs("2023-01-01T24:00:00Z"), Err(Error::TokenExpNotIso));
    assert_eq!(parse_iso_secs("2023-01-01T00:60:00Z"), Err(Error::TokenExpNotIso));
    assert_eq!(parse_iso_secs("2023-01-32T00:00:00Z"), Err(Error::TokenExpNotIso));
    assert_eq!(parse_iso_secs("20230101T000000Z12345"), Err(Error::TokenExpNotIso));
}

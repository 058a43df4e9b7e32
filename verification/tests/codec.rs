use zita_auth::base64url::{b64_decode_exec, b64_encode};
use zita_auth::claims::{encode_claims, parse_claims_exec};
use zita_auth::decimal::{parse_u32, parse_u64, parse_usize, u64_to_dec};

#[test]
fn decimal_encoding_exact_values() {
    assert_eq!(u64_to_dec(0), b"0".to_vec());
    assert_eq!(u64_to_dec(7), b"7".to_vec());
    assert_eq!(u64_to_dec(12345), b"12345".to_vec());
    assert_eq!(u64_to_dec(1_700_003_600), b"1700003600".to_vec());
    assert_eq!(
        u64_to_dec(u64::MAX),
        b"18446744073709551615".to_vec()
    );
}

#[test]
fn decimal_parsing_exact_values() {
    assert_eq!(parse_u64(b"0"), Some(0));
    assert_eq!(parse_u64(b"12345"), Some(12345));
    assert_eq!(parse_u64(b"18446744073709551615"), Some(u64::MAX));
    assert_eq!(parse_u64(b""), None);
    assert_eq!(parse_u64(b"007"), None);
    assert_eq!(parse_u64(b"12a"), None);
    assert_eq!(parse_u64(b"-1"), None);
    assert_eq!(parse_u64(b"18446744073709551616"), None);
    assert_eq!(parse_u64(b"99999999999999999999"), None);
}

#[test]
fn narrow_decimal_parsing() {
    assert_eq!(parse_u32(b"4294967295"), Some(u32::MAX));
    assert_eq!(parse_u32(b"4294967296"), None);
    assert_eq!(parse_usize(b"64"), Some(64));
    assert_eq!(parse_usize(b"x"), None);
}

#[test]
fn base64url_encoding_exact_values() {
    assert_eq!(b64_encode(b""), b"".to_vec());
    assert_eq!(b64_encode(b"M"), b"TQ".to_vec());
    assert_eq!(b64_encode(b"Ma"), b"TWE".to_vec());
    assert_eq!(b64_encode(b"Man"), b"TWFu".to_vec());
    assert_eq!(b64_encode(b"Many"), b"TWFueQ".to_vec());
    assert_eq!(b64_encode(&[0xfb, 0xff, 0xfe]), b"-__-".to_vec());
}

#[test]
fn base64url_decoding_inverts_encoding() {
    let samples: Vec<&[u8]> = vec![b"", b"M", b"Ma", b"Man", b"Many", b"Manyy", &[0, 255, 7, 128]];
    for s in samples {
        let encoded = b64_encode(s);
        assert_eq!(b64_decode_exec(&encoded), Some(s.to_vec()));
    }
}

#[test]
fn base64url_rejects_non_canonical_input() {
    assert_eq!(b64_decode_exec(b"A"), None);
    assert_eq!(b64_decode_exec(b"A!"), None);
    assert_eq!(b64_decode_exec(b"TQ=="), None);
    // trailing bits set: canonical form of "M" is "TQ"
    assert_eq!(b64_decode_exec(b"TR"), None);
    assert_eq!(b64_decode_exec(b"TQ"), Some(b"M".to_vec()));
}

#[test]
fn claims_encoding_exact_text() {
    let json = encode_claims(b"alice", 5, 105);
    assert_eq!(json, b"{\"sub\":\"alice\",\"iat\":5,\"exp\":105}".to_vec());
}

#[test]
fn claims_encoding_escapes_exactly() {
    let json = encode_claims(b"a\"b\\c\n", 1, 2);
    assert_eq!(
        json,
        b"{\"sub\":\"a\\\"b\\\\c\\u000a\",\"iat\":1,\"exp\":2}".to_vec()
    );
}

#[test]
fn escaped_claims_parse_back() {
    let json = encode_claims("jos\u{e9}\t\"x\"".as_bytes(), 7, 8);
    let parsed = parse_claims_exec(&json).unwrap();
    assert_eq!(parsed.sub, "jos\u{e9}\t\"x\"".as_bytes().to_vec());
    assert_eq!(parsed.iat, 7);
    assert_eq!(parsed.exp, 8);
    // forms the encoder never emits are rejected: a stray escape, a raw
    // control byte, an uppercase or out-of-range hex escape
    assert!(parse_claims_exec(b"{\"sub\":\"a\\qb\",\"iat\":1,\"exp\":2}").is_none());
    assert!(parse_claims_exec(b"{\"sub\":\"a\x01b\",\"iat\":1,\"exp\":2}").is_none());
    assert!(parse_claims_exec(b"{\"sub\":\"\\u00FF\",\"iat\":1,\"exp\":2}").is_none());
    assert!(parse_claims_exec(b"{\"sub\":\"\\u0041\",\"iat\":1,\"exp\":2}").is_none());
}

#[test]
fn claims_parsing_inverts_encoding() {
    let json = encode_claims(b"bob-2", 1_700_000_000, 1_700_003_600);
    let parsed = parse_claims_exec(&json).unwrap();
    assert_eq!(parsed.sub, b"bob-2".to_vec());
    assert_eq!(parsed.iat, 1_700_000_000);
    assert_eq!(parsed.exp, 1_700_003_600);
}

#[test]
fn claims_parsing_rejects_other_shapes() {
    assert!(parse_claims_exec(b"").is_none());
    assert!(parse_claims_exec(b"{}").is_none());
    assert!(parse_claims_exec(b"{\"sub\":\"a\",\"iat\":1}").is_none());
    assert!(parse_claims_exec(b"{\"sub\":\"a\",\"iat\":01,\"exp\":2}").is_none());
    assert!(parse_claims_exec(b"{\"sub\":\"a\",\"iat\":1,\"exp\":2} ").is_none());
    assert!(parse_claims_exec(b"{\"iat\":1,\"exp\":2,\"sub\":\"a\"}").is_none());
    assert!(parse_claims_exec(b"{\"sub\":\"a\",\"iat\":1,\"exp\":2}").is_some());
}

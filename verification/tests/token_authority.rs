use ed25519_dalek::pkcs8::{EncodePrivateKey, EncodePublicKey};
use ed25519_dalek::SigningKey;
use zita_auth::errors::{ConfigError, ConfigField, TokenError};
use zita_auth::token::TokenAuthority;

fn pem_pair(seed: u8) -> (Vec<u8>, Vec<u8>) {
    let sk = SigningKey::from_bytes(&[seed; 32]);
    let private_pem = sk.to_pkcs8_pem(Default::default()).unwrap().to_string();
    let public_pem = sk.verifying_key().to_public_key_pem(Default::default()).unwrap();
    (public_pem.into_bytes(), private_pem.into_bytes())
}

fn authority(seed: u8) -> TokenAuthority {
    let (public_pem, private_pem) = pem_pair(seed);
    TokenAuthority::new(public_pem, private_pem).unwrap()
}

#[test]
fn issued_token_verifies_with_its_claims() {
    let auth = authority(7);
    let token = auth.issue(b"alice", 1_700_000_000, 3600).unwrap();
    let claims = auth.verify(&token, 1_700_000_000).unwrap();
    assert_eq!(claims.sub, b"alice".to_vec());
    assert_eq!(claims.iat, 1_700_000_000);
    assert_eq!(claims.exp, 1_700_003_600);
    // still valid at the very last second of its life
    let at_expiry = auth.verify(&token, 1_700_003_600).unwrap();
    assert_eq!(at_expiry.sub, b"alice".to_vec());
}

#[test]
fn token_has_the_compact_three_part_shape() {
    let auth = authority(7);
    let token = auth.issue(b"alice", 10, 20).unwrap();
    let text = String::from_utf8(token).unwrap();
    let parts: Vec<&str> = text.split('.').collect();
    assert_eq!(parts.len(), 3);
    // the fixed header names the one accepted algorithm
    assert_eq!(parts[0], "eyJhbGciOiJFZERTQSIsInR5cCI6IkpXVCJ9");
}

#[test]
fn expired_token_is_rejected_as_expired() {
    let auth = authority(7);
    let token = auth.issue(b"bob", 1000, 50).unwrap();
    assert_eq!(auth.verify(&token, 1051).unwrap_err(), TokenError::Expired);
    assert_eq!(auth.verify(&token, u64::MAX).unwrap_err(), TokenError::Expired);
}

#[test]
fn foreign_signature_is_rejected() {
    let signer = authority(1);
    let other = authority(2);
    let token = signer.issue(b"mallory", 1000, 1000).unwrap();
    // the other authority's public key does not match the signing key
    assert_eq!(other.verify(&token, 1000).unwrap_err(), TokenError::BadSignature);
}

#[test]
fn resigned_token_is_rejected() {
    let auth = authority(1);
    let other = authority(2);
    let token = auth.issue(b"carol", 1000, 1000).unwrap();
    let resigned = other.issue(b"carol", 1000, 1000).unwrap();
    assert_ne!(token, resigned);
    assert_eq!(auth.verify(&resigned, 1000).unwrap_err(), TokenError::BadSignature);
}

#[test]
fn tampered_claims_are_rejected() {
    let auth = authority(3);
    let token = auth.issue(b"dave", 1000, 1000).unwrap();
    let text = String::from_utf8(token).unwrap();
    let mut parts: Vec<String> = text.split('.').map(|s| s.to_string()).collect();
    let honest = auth.issue(b"eave", 1000, 1000).unwrap();
    let honest_text = String::from_utf8(honest).unwrap();
    let forged_payload: Vec<&str> = honest_text.split('.').collect();
    parts[1] = forged_payload[1].to_string();
    let forged = parts.join(".");
    assert_eq!(
        auth.verify(forged.as_bytes(), 1000).unwrap_err(),
        TokenError::BadSignature
    );
}

#[test]
fn malformed_tokens_are_rejected() {
    let auth = authority(4);
    assert_eq!(auth.verify(b"", 0).unwrap_err(), TokenError::Malformed);
    assert_eq!(auth.verify(b"nodots", 0).unwrap_err(), TokenError::Malformed);
    assert_eq!(auth.verify(b"one.dot", 0).unwrap_err(), TokenError::Malformed);
    assert_eq!(auth.verify(b"a.b.c", 0).unwrap_err(), TokenError::Malformed);
    let token = auth.issue(b"erin", 0, 10).unwrap();
    let text = String::from_utf8(token).unwrap();
    let parts: Vec<&str> = text.split('.').collect();
    // wrong header: an authority must reject any other algorithm
    let downgraded = format!("eyJhbGciOiJIUzI1NiJ9.{}.{}", parts[1], parts[2]);
    assert_eq!(
        auth.verify(downgraded.as_bytes(), 0).unwrap_err(),
        TokenError::Malformed
    );
    // claims that are not the fixed-shape object
    let bad_claims = format!("{}.e30.{}", parts[0], parts[2]);
    assert_eq!(
        auth.verify(bad_claims.as_bytes(), 0).unwrap_err(),
        TokenError::Malformed
    );
}

#[test]
fn every_subject_is_carried() {
    let auth = authority(5);
    let exotic: Vec<&[u8]> = vec![
        b"has\"quote",
        b"back\\slash",
        b"line\nbreak",
        "jos\u{e9}".as_bytes(),
        b"",
        b"\x00\x1f mix\"of\\every\tthing",
    ];
    for sub in exotic {
        let token = auth.issue(sub, 100, 50).unwrap();
        let claims = auth.verify(&token, 120).unwrap();
        assert_eq!(claims.sub, sub.to_vec());
        assert_eq!(claims.iat, 100);
        assert_eq!(claims.exp, 150);
    }
}

#[test]
fn short_public_key_material_is_rejected_at_construction() {
    // a well-formed "PUBLIC KEY" PEM naming the Ed25519 algorithm whose
    // embedded key material is four bytes: too short to verify anything,
    // so construction must turn it away rather than let verification choke
    let (_, private_pem) = pem_pair(12);
    let short_pub = b"-----BEGIN PUBLIC KEY-----\nMA4wBQYDK2VwAwUAqrvM3Q==\n-----END PUBLIC KEY-----\n".to_vec();
    assert_eq!(
        TokenAuthority::new(short_pub, private_pem).unwrap_err(),
        ConfigError::Invalid(ConfigField::JwtPublicKey)
    );
}

#[test]
fn bad_key_material_fails_construction() {
    let (public_pem, private_pem) = pem_pair(6);
    assert_eq!(
        TokenAuthority::new(b"not a pem".to_vec(), private_pem.clone()).unwrap_err(),
        ConfigError::Invalid(ConfigField::JwtPublicKey)
    );
    assert_eq!(
        TokenAuthority::new(public_pem.clone(), b"not a pem".to_vec()).unwrap_err(),
        ConfigError::Invalid(ConfigField::JwtPrivateKey)
    );
    // a public key is no private key
    assert_eq!(
        TokenAuthority::new(public_pem.clone(), public_pem.clone()).unwrap_err(),
        ConfigError::Invalid(ConfigField::JwtPrivateKey)
    );
    assert!(TokenAuthority::new(public_pem, private_pem).is_ok());
}

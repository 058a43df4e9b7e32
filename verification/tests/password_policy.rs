use zita_auth::errors::{ConfigError, ConfigField, HashError};
use zita_auth::password::{Hasher, HashingParams};

fn fast_hasher() -> Hasher {
    Hasher::new(HashingParams::new(8, 1, 1, None).unwrap())
}

#[test]
fn fresh_hash_verifies() {
    let hasher = fast_hasher();
    let stored = hasher.hash(b"correct horse battery staple").unwrap();
    assert_eq!(
        Hasher::verify(b"correct horse battery staple", &stored),
        Ok(true)
    );
}

#[test]
fn wrong_password_fails() {
    let hasher = fast_hasher();
    let stored = hasher.hash(b"right password").unwrap();
    assert_eq!(Hasher::verify(b"wrong password", &stored), Ok(false));
    assert_eq!(Hasher::verify(b"", &stored), Ok(false));
}

#[test]
fn hashing_is_salted() {
    let hasher = fast_hasher();
    let first = hasher.hash(b"same password").unwrap();
    let second = hasher.hash(b"same password").unwrap();
    assert_ne!(first, second);
    assert_eq!(Hasher::verify(b"same password", &first), Ok(true));
    assert_eq!(Hasher::verify(b"same password", &second), Ok(true));
}

#[test]
fn old_hashes_survive_parameter_change() {
    let old_policy = Hasher::new(HashingParams::new(8, 1, 1, None).unwrap());
    let stored = old_policy.hash(b"legacy password").unwrap();
    // the process is later re-configured with stronger parameters; the new
    // policy plays no part in verification, which reads the stored text
    let _new_policy = Hasher::new(HashingParams::new(64, 3, 2, Some(64)).unwrap());
    assert_eq!(Hasher::verify(b"legacy password", &stored), Ok(true));
    assert_eq!(Hasher::verify(b"other password", &stored), Ok(false));
}

#[test]
fn hash_embeds_its_own_parameters() {
    let hasher = Hasher::new(HashingParams::new(16, 2, 2, Some(48)).unwrap());
    let stored = hasher.hash(b"pw").unwrap();
    assert!(stored.contains("m=16,t=2,p=2"));
    assert_eq!(Hasher::verify(b"pw", &stored), Ok(true));
}

#[test]
fn malformed_stored_hash_is_an_error() {
    assert_eq!(
        Hasher::verify(b"anything", "not a hash at all"),
        Err(HashError::MalformedStored)
    );
    assert_eq!(
        Hasher::verify(b"anything", ""),
        Err(HashError::MalformedStored)
    );
}

#[test]
fn parameter_validation_names_the_field() {
    assert_eq!(
        HashingParams::new(8, 1, 0, None).unwrap_err(),
        ConfigError::Invalid(ConfigField::Parallelism)
    );
    assert_eq!(
        HashingParams::new(8, 1, 0x1000000, None).unwrap_err(),
        ConfigError::Invalid(ConfigField::Parallelism)
    );
    assert_eq!(
        HashingParams::new(8, 1, 2, None).unwrap_err(),
        ConfigError::Invalid(ConfigField::MemoryCost)
    );
    assert_eq!(
        HashingParams::new(8, 0, 1, None).unwrap_err(),
        ConfigError::Invalid(ConfigField::TimeCost)
    );
    assert_eq!(
        HashingParams::new(8, 1, 1, Some(9)).unwrap_err(),
        ConfigError::Invalid(ConfigField::OutputLen)
    );
    assert_eq!(
        HashingParams::new(8, 1, 1, Some(65)).unwrap_err(),
        ConfigError::Invalid(ConfigField::OutputLen)
    );
    assert!(HashingParams::new(8, 1, 1, Some(10)).is_ok());
    assert!(HashingParams::new(8, 1, 1, Some(64)).is_ok());
    assert!(HashingParams::new(16, 1, 2, None).is_ok());
}

#[test]
fn recommended_parameters_are_valid() {
    let p = HashingParams::recommended();
    assert_eq!(p.m_cost, 19456);
    assert_eq!(p.t_cost, 2);
    assert_eq!(p.p_cost, 1);
    assert_eq!(p.output_len, None);
}

use zita_auth::config::{Config, RawConfig};
use zita_auth::errors::{ConfigError, ConfigField};

fn full_raw() -> RawConfig {
    RawConfig {
        http_address: Some("127.0.0.1:8080".to_string()),
        postgres_url: Some("host=localhost user=app".to_string()),
        postgres_max_connections: Some(b"8".to_vec()),
        jwt_public_key: Some("pub pem text".to_string()),
        jwt_private_key: Some("priv pem text".to_string()),
        argon2_memory_cost: Some(b"64".to_vec()),
        argon2_time_cost: Some(b"3".to_vec()),
        argon2_paralellism_cost: Some(b"2".to_vec()),
        argon2_output_len: Some(b"32".to_vec()),
    }
}

fn minimal_raw() -> RawConfig {
    RawConfig {
        http_address: None,
        postgres_url: Some("host=localhost".to_string()),
        postgres_max_connections: None,
        jwt_public_key: Some("pub".to_string()),
        jwt_private_key: Some("priv".to_string()),
        argon2_memory_cost: None,
        argon2_time_cost: None,
        argon2_paralellism_cost: None,
        argon2_output_len: None,
    }
}

#[test]
fn full_configuration_is_kept() {
    let config = Config::from_raw(full_raw()).unwrap();
    assert_eq!(config.http_address, "127.0.0.1:8080");
    assert_eq!(config.postgres_url, "host=localhost user=app");
    assert_eq!(config.postgres_max_connections, 8);
    assert_eq!(config.jwt_public_key, "pub pem text");
    assert_eq!(config.jwt_private_key, "priv pem text");
    assert_eq!(config.argon2_memory_cost, Some(64));
    assert_eq!(config.argon2_time_cost, Some(3));
    assert_eq!(config.argon2_paralellism_cost, Some(2));
    assert_eq!(config.argon2_output_len, Some(32));
}

#[test]
fn absent_fields_take_their_defaults() {
    let config = Config::from_raw(minimal_raw()).unwrap();
    assert_eq!(config.http_address, "0.0.0.0:8989");
    assert_eq!(config.postgres_max_connections, 64);
    assert_eq!(config.argon2_memory_cost, None);
    let params = config.effective_params();
    assert_eq!(params.m_cost, 19456);
    assert_eq!(params.t_cost, 2);
    assert_eq!(params.p_cost, 1);
    assert_eq!(params.output_len, None);
}

#[test]
fn bind_address_shape_is_checked() {
    let mut raw = minimal_raw();
    raw.http_address = Some("no-port-here".to_string());
    assert_eq!(
        Config::from_raw(raw).unwrap_err(),
        ConfigError::Invalid(ConfigField::HttpAddress)
    );
    let mut raw = minimal_raw();
    raw.http_address = Some(":8080".to_string());
    assert_eq!(
        Config::from_raw(raw).unwrap_err(),
        ConfigError::Invalid(ConfigField::HttpAddress)
    );
    let mut raw = minimal_raw();
    raw.http_address = Some("10.0.0.1:65536".to_string());
    assert_eq!(
        Config::from_raw(raw).unwrap_err(),
        ConfigError::Invalid(ConfigField::HttpAddress)
    );
    // hostnames are no socket addresses: the store of the bind field is an
    // IP address, dotted quad or bracketed
    let mut raw = minimal_raw();
    raw.http_address = Some("localhost:8080".to_string());
    assert_eq!(
        Config::from_raw(raw).unwrap_err(),
        ConfigError::Invalid(ConfigField::HttpAddress)
    );
    let mut raw = minimal_raw();
    raw.http_address = Some("256.1.1.1:80".to_string());
    assert_eq!(
        Config::from_raw(raw).unwrap_err(),
        ConfigError::Invalid(ConfigField::HttpAddress)
    );
    let mut raw = minimal_raw();
    raw.http_address = Some("[::1]:8080".to_string());
    assert!(Config::from_raw(raw).is_ok());
    let mut raw = minimal_raw();
    raw.http_address = Some("10.0.0.1:65535".to_string());
    assert!(Config::from_raw(raw).is_ok());
}

#[test]
fn missing_required_fields_fail_in_order() {
    let mut raw = minimal_raw();
    raw.postgres_url = None;
    assert_eq!(
        Config::from_raw(raw).unwrap_err(),
        ConfigError::Missing(ConfigField::PostgresUrl)
    );
    let mut raw = minimal_raw();
    raw.jwt_public_key = None;
    assert_eq!(
        Config::from_raw(raw).unwrap_err(),
        ConfigError::Missing(ConfigField::JwtPublicKey)
    );
    let mut raw = minimal_raw();
    raw.jwt_private_key = None;
    assert_eq!(
        Config::from_raw(raw).unwrap_err(),
        ConfigError::Missing(ConfigField::JwtPrivateKey)
    );
}

#[test]
fn malformed_numbers_name_their_field() {
    let mut raw = minimal_raw();
    raw.postgres_max_connections = Some(b"many".to_vec());
    assert_eq!(
        Config::from_raw(raw).unwrap_err(),
        ConfigError::Invalid(ConfigField::PostgresMaxConnections)
    );
    let mut raw = minimal_raw();
    raw.argon2_memory_cost = Some(b"4294967296".to_vec());
    assert_eq!(
        Config::from_raw(raw).unwrap_err(),
        ConfigError::Invalid(ConfigField::MemoryCost)
    );
    let mut raw = minimal_raw();
    raw.argon2_time_cost = Some(b"3.5".to_vec());
    assert_eq!(
        Config::from_raw(raw).unwrap_err(),
        ConfigError::Invalid(ConfigField::TimeCost)
    );
    let mut raw = minimal_raw();
    raw.argon2_paralellism_cost = Some(b"".to_vec());
    assert_eq!(
        Config::from_raw(raw).unwrap_err(),
        ConfigError::Invalid(ConfigField::Parallelism)
    );
    let mut raw = minimal_raw();
    raw.argon2_output_len = Some(b"08".to_vec());
    assert_eq!(
        Config::from_raw(raw).unwrap_err(),
        ConfigError::Invalid(ConfigField::OutputLen)
    );
}

#[test]
fn invalid_cost_combination_fails_configuration() {
    // eight blocks of memory cannot feed two lanes
    let mut raw = minimal_raw();
    raw.argon2_memory_cost = Some(b"8".to_vec());
    raw.argon2_paralellism_cost = Some(b"2".to_vec());
    assert_eq!(
        Config::from_raw(raw).unwrap_err(),
        ConfigError::Invalid(ConfigField::MemoryCost)
    );
    // a zero time cost never hashes
    let mut raw = minimal_raw();
    raw.argon2_time_cost = Some(b"0".to_vec());
    assert_eq!(
        Config::from_raw(raw).unwrap_err(),
        ConfigError::Invalid(ConfigField::TimeCost)
    );
}

use ed25519_dalek::pkcs8::{EncodePrivateKey, EncodePublicKey};
use ed25519_dalek::SigningKey;
use zita_auth::auth::AuthService;
use zita_auth::config::{Config, RawConfig};
use zita_auth::errors::{AuthError, PoolError, TokenError};
use zita_auth::password::{Hasher, HashingParams};
use zita_auth::pool::LeasePool;
use zita_auth::token::TokenAuthority;

fn pem_pair(seed: u8) -> (String, String) {
    let sk = SigningKey::from_bytes(&[seed; 32]);
    let private_pem = sk.to_pkcs8_pem(Default::default()).unwrap().to_string();
    let public_pem = sk.verifying_key().to_public_key_pem(Default::default()).unwrap();
    (public_pem, private_pem)
}

fn make_service(seed: u8, ttl: u64) -> AuthService {
    let (public_pem, private_pem) = pem_pair(seed);
    let authority =
        TokenAuthority::new(public_pem.into_bytes(), private_pem.into_bytes()).unwrap();
    let hasher = Hasher::new(HashingParams::new(8, 1, 1, None).unwrap());
    AuthService { authority, hasher, token_ttl: ttl }
}

#[test]
fn login_mints_a_verifiable_token() {
    let service = make_service(9, 600);
    let stored = service.hasher.hash(b"open sesame").unwrap();
    let token = service
        .login(b"ali", b"open sesame", Ok(Some(&stored)), 5000)
        .unwrap();
    let claims = service.authenticate(&token, 5100).unwrap();
    assert_eq!(claims.sub, b"ali".to_vec());
    assert_eq!(claims.iat, 5000);
    assert_eq!(claims.exp, 5600);
}

#[test]
fn wrong_password_and_unknown_user_are_one_error() {
    let service = make_service(9, 600);
    let stored = service.hasher.hash(b"the real password").unwrap();
    let wrong = service.login(b"alice", b"wrong", Ok(Some(&stored)), 0);
    let unknown = service.login(b"nonexistent-user", b"anything", Ok(None), 0);
    assert_eq!(wrong, Err(AuthError::InvalidCredentials));
    assert_eq!(unknown, Err(AuthError::InvalidCredentials));
    assert_eq!(wrong, unknown);
}

#[test]
fn store_failure_is_retryable_not_a_verdict() {
    let service = make_service(9, 600);
    assert_eq!(
        service.login(b"alice", b"pw", Err(PoolError::Exhausted), 0),
        Err(AuthError::StoreUnavailable)
    );
    assert_eq!(
        service.login(b"alice", b"pw", Err(PoolError::ConnectFailed), 0),
        Err(AuthError::StoreUnavailable)
    );
}

#[test]
fn unusable_stored_hash_is_the_same_rejection() {
    let service = make_service(9, 600);
    assert_eq!(
        service.login(b"alice", b"pw", Ok(Some("garbage")), 0),
        Err(AuthError::InvalidCredentials)
    );
}

#[test]
fn authenticate_rejects_foreign_and_expired_tokens() {
    let service = make_service(9, 100);
    let foreign = make_service(10, 100);
    let stored = service.hasher.hash(b"pw").unwrap();
    let token = service.login(b"bob", b"pw", Ok(Some(&stored)), 1000).unwrap();
    assert!(service.authenticate(&token, 1100).is_ok());
    assert_eq!(
        service.authenticate(&token, 1101).unwrap_err(),
        TokenError::Expired
    );
    assert_eq!(
        foreign.authenticate(&token, 1000).unwrap_err(),
        TokenError::BadSignature
    );
}

#[test]
fn end_to_end_with_a_small_pool() {
    // configuration with a pool ceiling of two and a real key pair
    let (public_pem, private_pem) = pem_pair(11);
    let raw = RawConfig {
        http_address: None,
        postgres_url: Some("host=localhost user=app".to_string()),
        postgres_max_connections: Some(b"2".to_vec()),
        jwt_public_key: Some(public_pem),
        jwt_private_key: Some(private_pem),
        argon2_memory_cost: Some(b"8".to_vec()),
        argon2_time_cost: Some(b"1".to_vec()),
        argon2_paralellism_cost: Some(b"1".to_vec()),
        argon2_output_len: None,
    };
    let config = Config::from_raw(raw).unwrap();
    let service = AuthService::from_config(&config, 300).unwrap();
    let mut pool = LeasePool::new(config.postgres_max_connections);

    // the store lookup happens under a lease
    assert_eq!(pool.acquire(), Ok(()));
    let stored = service.hasher.hash(b"correct password").unwrap();
    let token = service
        .login(b"walter", b"correct password", Ok(Some(&stored)), 2000)
        .unwrap();
    pool.release();
    assert_eq!(pool.outstanding(), 0);

    // both leases taken: the third concurrent login would wait or fail
    assert_eq!(pool.acquire(), Ok(()));
    assert_eq!(pool.acquire(), Ok(()));
    assert_eq!(pool.acquire(), Err(PoolError::Exhausted));
    pool.release();
    pool.release();

    // the token authenticates immediately, without the store
    let claims = service.authenticate(&token, 2001).unwrap();
    assert_eq!(claims.sub, b"walter".to_vec());
    assert_eq!(claims.exp, 2300);

    // and expires once its lifetime has passed
    assert_eq!(
        service.authenticate(&token, 2301).unwrap_err(),
        TokenError::Expired
    );
}

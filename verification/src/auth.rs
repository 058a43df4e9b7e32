//! The authentication service: checks claimed credentials against the hash
//! the store holds and mints a token on success; verifies presented tokens
//! without touching the store.  Unknown principal and wrong password are one
//! indistinguishable failure.

use vstd::prelude::*;
use vstd::utf8::encode_utf8;
use crate::claims::{Claims, ClaimsSpec};
use crate::config::Config;
use crate::errors::{AuthError, ConfigError, ConfigField, PoolError, TokenError};
use crate::password::{Hasher, argon2_verify_res};
use crate::token::{TokenAuthority, token_of, spec_verify, ed_keypair, ed_priv_pem_ok,
    ed_pub_pem_ok};

verus! {

/// A syntactically well-formed stored hash that no password matches in
/// practice: verified against when the principal is unknown, so that the
/// unknown-principal path pays the same hashing cost as a mismatch.
pub const DECOY_HASH: &'static str = "$argon2id$v=19$m=19456,t=2,p=1$AAAAAAAAAAAAAAAAAAAAAA$AAAAAAAAAAAAAAAAAAAAAAAAAAAAAAAAAAAAAAAAAAA";

/// What a login attempt yields: a store failure is the retryable
/// `StoreUnavailable`; the freshly issued token comes exactly when a stored
/// hash was found and the password matches it; the one indistinguishable
/// rejection covers everything else.
pub open spec fn login_result(
    priv_pem: Seq<u8>,
    username: Seq<u8>,
    password: Seq<u8>,
    stored: Result<Option<Seq<char>>, PoolError>,
    now: u64,
    ttl: u64,
) -> Result<Seq<u8>, AuthError> {
    match stored {
        Err(_) => Err(AuthError::StoreUnavailable),
        Ok(None) => Err(AuthError::InvalidCredentials),
        Ok(Some(h)) => if argon2_verify_res(password, h) != Some(true) {
            Err(AuthError::InvalidCredentials)
        } else {
            Ok(token_of(priv_pem, username, now, (now + ttl) as u64))
        },
    }
}

/// Unknown principal and wrong password are one failure: whatever the
/// usernames and passwords, a mismatching attempt and an unknown-principal
/// attempt yield the identical error.
pub proof fn lemma_uniform_rejection(
    priv_pem: Seq<u8>,
    u1: Seq<u8>,
    u2: Seq<u8>,
    p1: Seq<u8>,
    p2: Seq<u8>,
    h: Seq<char>,
    now: u64,
    ttl: u64,
)
    requires
        argon2_verify_res(p1, h) != Some(true),
    ensures
        login_result(priv_pem, u1, p1, Ok(Some(h)), now, ttl) == login_result(
            priv_pem,
            u2,
            p2,
            Ok(None),
            now,
            ttl,
        ),
        login_result(priv_pem, u1, p1, Ok(Some(h)), now, ttl) == Err::<Seq<u8>, AuthError>(
            AuthError::InvalidCredentials,
        ),
{
}

/// The authentication service: the token authority, the hashing policy and
/// the token lifetime, built once and shared read-only.
pub struct AuthService {
    pub authority: TokenAuthority,
    pub hasher: Hasher,
    pub token_ttl: u64,
}

impl AuthService {
    /// The keys were accepted and the hashing parameters are valid.
    pub open spec fn wf(&self) -> bool {
        self.authority.wf() && self.hasher.wf()
    }

    /// Builds the service from a validated configuration; succeeds exactly
    /// when both key texts are accepted Ed25519 key material, and fails
    /// naming the first that is not.
    pub fn from_config(config: &Config, token_ttl: u64) -> (r: Result<AuthService, ConfigError>)
        requires
            config.hashing_ok(),
        ensures
            r is Ok <==> ed_pub_pem_ok(encode_utf8(config.jwt_public_key@)) && ed_priv_pem_ok(
                encode_utf8(config.jwt_private_key@),
            ),
            !ed_pub_pem_ok(encode_utf8(config.jwt_public_key@)) ==> r == Err::<
                AuthService,
                ConfigError,
            >(ConfigError::Invalid(ConfigField::JwtPublicKey)),
            ed_pub_pem_ok(encode_utf8(config.jwt_public_key@)) && !ed_priv_pem_ok(
                encode_utf8(config.jwt_private_key@),
            ) ==> r == Err::<AuthService, ConfigError>(
                ConfigError::Invalid(ConfigField::JwtPrivateKey),
            ),
            r is Ok ==> r->Ok_0.wf() && r->Ok_0.token_ttl == token_ttl,
            r is Ok ==> r->Ok_0.authority.spec_public_pem() == encode_utf8(config.jwt_public_key@)
                && r->Ok_0.authority.spec_private_pem() == encode_utf8(config.jwt_private_key@),
            r is Ok ==> r->Ok_0.hasher.params.m_cost == config.spec_m_cost()
                && r->Ok_0.hasher.params.t_cost == config.spec_t_cost()
                && r->Ok_0.hasher.params.p_cost == config.spec_p_cost()
                && r->Ok_0.hasher.params.output_len == config.argon2_output_len,
    {
        let public_pem = config.jwt_public_key.as_str().as_bytes_vec();
        let private_pem = config.jwt_private_key.as_str().as_bytes_vec();
        let authority = match TokenAuthority::new(public_pem, private_pem) {
            Ok(a) => a,
            Err(e) => {
                return Err(e);
            },
        };
        let hasher = Hasher::new(config.effective_params());
        Ok(AuthService { authority, hasher, token_ttl })
    }

    /// Handles a login attempt, given the outcome of the store lookup for
    /// the username: a store or lease failure, or the stored hash, `None`
    /// for an unknown principal.  A store failure is the retryable
    /// `StoreUnavailable`, never a credential verdict.  On a match the fresh
    /// token binds the username to `[now, now + token_ttl]`.  A mismatch, an
    /// unknown principal and an unusable stored hash are the one
    /// `InvalidCredentials`; the unknown-principal path verifies against a
    /// fixed decoy hash first, so both rejections pay the hashing cost.
    pub fn login(
        &self,
        username: &[u8],
        password: &[u8],
        stored: Result<Option<&str>, PoolError>,
        now: u64,
    ) -> (r: Result<Vec<u8>, AuthError>)
        requires
            self.wf(),
            now + self.token_ttl <= u64::MAX,
        ensures
            ({
                let res = login_result(
                    self.authority.spec_private_pem(),
                    username@,
                    password@,
                    match stored {
                        Ok(Some(h)) => Ok(Some(h@)),
                        Ok(None) => Ok(None),
                        Err(e) => Err(e),
                    },
                    now,
                    self.token_ttl,
                );
                match r {
                    Ok(t) => res == Ok::<Seq<u8>, AuthError>(t@),
                    Err(e) => res == Err::<Seq<u8>, AuthError>(e),
                }
            }),
    {
        match stored {
            Err(_) => Err(AuthError::StoreUnavailable),
            Ok(None) => {
                let _decoy = Hasher::verify(password, DECOY_HASH);
                Err(AuthError::InvalidCredentials)
            },
            Ok(Some(h)) => {
                let matched = match Hasher::verify(password, h) {
                    Ok(b) => b,
                    Err(_) => false,
                };
                if !matched {
                    return Err(AuthError::InvalidCredentials);
                }
                match self.authority.issue(username, now, self.token_ttl) {
                    Ok(t) => Ok(t),
                    Err(_) => {
                        proof {
                            assert(false);
                        }
                        Err(AuthError::InvalidCredentials)
                    },
                }
            },
        }
    }

    /// Verifies a presented bearer token at time `now`, without touching
    /// the store.  Delegates to the token authority: the result is exactly
    /// `spec_verify` under the configured public key, and every token the
    /// matching private key issued is accepted until its expiry passes and
    /// rejected as expired afterwards.
    pub fn authenticate(&self, token: &[u8], now: u64) -> (r: Result<Claims, TokenError>)
        ensures
            match r {
                Ok(c) => spec_verify(self.authority.spec_public_pem(), token@, now) == Ok::<
                    ClaimsSpec,
                    TokenError,
                >(c@),
                Err(e) => spec_verify(self.authority.spec_public_pem(), token@, now) == Err::<
                    ClaimsSpec,
                    TokenError,
                >(e),
            },
            forall|p: Seq<u8>, sub: Seq<u8>, iat: u64, exp: u64|
                ed_keypair(self.authority.spec_public_pem(), p)
                    && ed_priv_pem_ok(p) && token@ == #[trigger] token_of(p, sub, iat, exp)
                    ==> if now <= exp {
                    r is Ok && r->Ok_0@ == (ClaimsSpec { sub, iat, exp })
                } else {
                    r == Err::<Claims, TokenError>(TokenError::Expired)
                },
    {
        self.authority.verify(token, now)
    }
}

} // verus!

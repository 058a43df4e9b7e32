//! The password hashing policy: memory-hard salted hashing with configurable
//! cost, and verification against the parameters embedded in the stored
//! hash, never against the process's current defaults.

use vstd::prelude::*;
use crate::errors::{ConfigError, ConfigField, HashError};

verus! {

/// The outcome of argon2 verification of a password against a stored PHC
/// hash text: a definite answer, or nothing when the stored text cannot be
/// parsed or recomputed against.  A function of the two arguments alone: the
/// parameters and salt used are the ones embedded in the stored text.
pub uninterp spec fn argon2_verify_res(password: Seq<u8>, stored: Seq<char>) -> Option<bool>;

/// True of the cost parameter combinations that hashing accepts:
/// parallelism within lane limits, memory at least eight blocks per lane,
/// at least one iteration, and a digest length the PHC output layer can
/// carry (ten to sixty-four bytes) when one is given.  The digest bound is
/// tighter than the raw parameter range, so that a combination hashing
/// would reject fails at configuration time, never at hash time.
pub open spec fn params_ok(m_cost: u32, t_cost: u32, p_cost: u32, output_len: Option<usize>) -> bool {
    &&& 1 <= p_cost <= 0xFFFFFF
    &&& m_cost as int >= 8 * (p_cost as int)
    &&& t_cost >= 1
    &&& (output_len matches Some(l) ==> 10 <= l <= 64)
}

/// The hashing cost parameters: memory in KiB blocks, iterations, lanes, and
/// optional digest length in bytes.  Invalid combinations fail construction,
/// never hashing.
#[derive(Clone, Copy, Debug)]
pub struct HashingParams {
    pub m_cost: u32,
    pub t_cost: u32,
    pub p_cost: u32,
    pub output_len: Option<usize>,
}

impl HashingParams {
    /// The combination is one the algorithm accepts.
    pub open spec fn wf(&self) -> bool {
        params_ok(self.m_cost, self.t_cost, self.p_cost, self.output_len)
    }

    /// The algorithm's recommended parameters.
    pub fn recommended() -> (r: HashingParams)
        ensures
            r.wf(),
            r.m_cost == 19456 && r.t_cost == 2 && r.p_cost == 1 && r.output_len is None,
    {
        HashingParams { m_cost: 19456, t_cost: 2, p_cost: 1, output_len: None }
    }

    /// Validates a parameter combination; fails on the first field out of
    /// range, at configuration time rather than at hash time.
    pub fn new(m_cost: u32, t_cost: u32, p_cost: u32, output_len: Option<usize>) -> (r: Result<
        HashingParams,
        ConfigError,
    >)
        ensures
            r is Ok <==> params_ok(m_cost, t_cost, p_cost, output_len),
            r is Ok ==> r->Ok_0 == (HashingParams { m_cost, t_cost, p_cost, output_len }),
            !(1 <= p_cost <= 0xFFFFFF) ==> r == Err::<HashingParams, ConfigError>(
                ConfigError::Invalid(ConfigField::Parallelism),
            ),
            (1 <= p_cost <= 0xFFFFFF) && (m_cost as int) < 8 * (p_cost as int) ==> r == Err::<
                HashingParams,
                ConfigError,
            >(ConfigError::Invalid(ConfigField::MemoryCost)),
            (1 <= p_cost <= 0xFFFFFF) && m_cost as int >= 8 * (p_cost as int) && t_cost < 1 ==> r
                == Err::<HashingParams, ConfigError>(ConfigError::Invalid(ConfigField::TimeCost)),
            (1 <= p_cost <= 0xFFFFFF) && m_cost as int >= 8 * (p_cost as int) && t_cost >= 1 && !(
            output_len matches Some(l) ==> 10 <= l <= 64) ==> r == Err::<
                HashingParams,
                ConfigError,
            >(ConfigError::Invalid(ConfigField::OutputLen)),
    {
        if p_cost < 1 || p_cost > 0xFFFFFF {
            return Err(ConfigError::Invalid(ConfigField::Parallelism));
        }
        if m_cost / 8 < p_cost {
            proof {
                assert((m_cost as int) < 8 * (p_cost as int));
            }
            return Err(ConfigError::Invalid(ConfigField::MemoryCost));
        }
        assert(m_cost as int >= 8 * (p_cost as int));
        if t_cost < 1 {
            return Err(ConfigError::Invalid(ConfigField::TimeCost));
        }
        match output_len {
            Some(l) => {
                if l < 10 || l > 64 {
                    return Err(ConfigError::Invalid(ConfigField::OutputLen));
                }
            },
            None => {},
        }
        Ok(HashingParams { m_cost, t_cost, p_cost, output_len })
    }
}

/// Relies on `argon2::Argon2::hash_password_with_salt` with the default
/// algorithm and version, the given parameters and a fresh random 16-byte
/// salt from `argon2::password_hash::try_generate_salt`: the returned PHC
/// text embeds algorithm, version, parameters and salt, and
/// `verify_password` recomputes from exactly those, so a fresh hash of a
/// password verifies against that same password, whatever salt was drawn.
/// And the text recomputes against every password the algorithm takes (up
/// to 2^32 - 1 bytes), so verifying any such password against it is a
/// definite answer, never an error: a well-formed mismatch is `false`.
#[verifier::external_body]
fn argon2_hash_exec(
    password: &[u8],
    m_cost: u32,
    t_cost: u32,
    p_cost: u32,
    output_len: Option<usize>,
) -> (r: Result<String, HashError>)
    requires
        params_ok(m_cost, t_cost, p_cost, output_len),
    ensures
        r is Ok ==> argon2_verify_res(password@, r->Ok_0@) == Some(true),
        r is Ok ==> forall|pw: Seq<u8>|
            pw.len() <= 0xFFFFFFFF ==> #[trigger] argon2_verify_res(pw, r->Ok_0@) is Some,
        r is Err ==> r->Err_0 == HashError::HashingFailed,
{
    let params = match argon2::Params::new(m_cost, t_cost, p_cost, output_len) {
        Ok(p) => p,
        Err(_) => return Err(HashError::HashingFailed),
    };
    let hasher = argon2::Argon2::new(argon2::Algorithm::default(), argon2::Version::default(), params);
    let salt = match argon2::password_hash::try_generate_salt() {
        Ok(s) => s,
        Err(_) => return Err(HashError::HashingFailed),
    };
    match argon2::PasswordHasher::hash_password_with_salt(&hasher, password, &salt) {
        Ok(h) => Ok(h.to_string()),
        Err(_) => Err(HashError::HashingFailed),
    }
}

/// Relies on `argon2::Argon2::verify_password` on a parsed PHC text: the
/// outcome is recomputed from the algorithm, version, parameters and salt
/// embedded in the stored text and from the password — never from this
/// process's configured parameters — so it is a function of the two
/// arguments alone.  A mismatch is a definite `false`; only a stored text
/// that cannot be parsed or recomputed against is an error.
#[verifier::external_body]
fn argon2_verify_exec(password: &[u8], stored: &str) -> (r: Result<bool, HashError>)
    ensures
        r is Ok <==> argon2_verify_res(password@, stored@) is Some,
        r is Ok ==> Some(r->Ok_0) == argon2_verify_res(password@, stored@),
        r is Err ==> r->Err_0 == HashError::MalformedStored,
{
    match argon2::PasswordVerifier::<str>::verify_password(&argon2::Argon2::default(), password, stored) {
        Ok(()) => Ok(true),
        Err(argon2::password_hash::Error::PasswordInvalid) => Ok(false),
        Err(_) => Err(HashError::MalformedStored),
    }
}

/// What verification returns, over the named argon2 outcome.
pub open spec fn verify_result(password: Seq<u8>, stored: Seq<char>) -> Result<bool, HashError> {
    match argon2_verify_res(password, stored) {
        Some(b) => Ok(b),
        None => Err(HashError::MalformedStored),
    }
}

/// The hashing policy a process runs with: its configured cost parameters.
/// The parameters govern hashing only; verification reads the stored text.
#[derive(Clone, Copy, Debug)]
pub struct Hasher {
    pub params: HashingParams,
}

impl Hasher {
    /// The held parameters are a combination the algorithm accepts.
    pub open spec fn wf(&self) -> bool {
        self.params.wf()
    }

    /// A policy from validated parameters.
    pub fn new(params: HashingParams) -> (r: Hasher)
        ensures
            r.params == params,
    {
        Hasher { params }
    }

    /// Derives a fresh salted hash of `password` at the configured cost.
    /// The result embeds everything verification needs: it verifies against
    /// `password` whatever salt was drawn, and gives a definite answer —
    /// `false`, not an error — for every other password the algorithm takes.
    pub fn hash(&self, password: &[u8]) -> (r: Result<String, HashError>)
        requires
            self.wf(),
        ensures
            r is Ok ==> argon2_verify_res(password@, r->Ok_0@) == Some(true),
            r is Ok ==> forall|pw: Seq<u8>|
                pw.len() <= 0xFFFFFFFF ==> #[trigger] argon2_verify_res(pw, r->Ok_0@) is Some,
            r is Err ==> r->Err_0 == HashError::HashingFailed,
    {
        argon2_hash_exec(
            password,
            self.params.m_cost,
            self.params.t_cost,
            self.params.p_cost,
            self.params.output_len,
        )
    }

    /// Verifies `password` against a stored hash, using the parameters the
    /// stored text embeds.  No parameter of this process appears in the
    /// signature or the result: re-configuring the policy can never
    /// invalidate a hash stored earlier.
    pub fn verify(password: &[u8], stored: &str) -> (r: Result<bool, HashError>)
        ensures
            r == verify_result(password@, stored@),
    {
        argon2_verify_exec(password, stored)
    }
}

/// A fresh hash of a password verifies against that password: what `hash`
/// ensures of every hash it returns makes `verify` answer true.
pub proof fn lemma_hash_then_verify(password: Seq<u8>, stored: Seq<char>)
    requires
        argon2_verify_res(password, stored) == Some(true),
    ensures
        verify_result(password, stored) == Ok::<bool, HashError>(true),
{
}

} // verus!

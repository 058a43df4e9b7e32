//! The process configuration: built once at start from the raw environment
//! values, validated field by field, read-only thereafter.  Failure names
//! the first missing or malformed field and is fatal to startup.

use vstd::prelude::*;
use vstd::utf8::encode_utf8;
use vstd::slice::slice_subrange;
use crate::claims::find_byte;
use crate::decimal::{parse_dec, parse_dec_u32, parse_dec_usize, parse_u32, parse_u64, parse_usize,
    is_digit, dec_val, lemma_dec_val_step, lemma_dec_val_monotone};
use crate::errors::{ConfigError, ConfigField};
use crate::password::{HashingParams, params_ok};

verus! {

/// The raw environment values as the process read them, each present or
/// absent: textual fields as text, numeric fields as the bytes read.
pub struct RawConfig {
    pub http_address: Option<String>,
    pub postgres_url: Option<String>,
    pub postgres_max_connections: Option<Vec<u8>>,
    pub jwt_public_key: Option<String>,
    pub jwt_private_key: Option<String>,
    pub argon2_memory_cost: Option<Vec<u8>>,
    pub argon2_time_cost: Option<Vec<u8>>,
    pub argon2_paralellism_cost: Option<Vec<u8>>,
    pub argon2_output_len: Option<Vec<u8>>,
}

/// The position of the last colon in `s`, if any.
pub open spec fn last_colon(s: Seq<u8>) -> Option<int>
    decreases s.len(),
{
    if s.len() == 0 {
        None
    } else if s.last() == 0x3a {
        Some(s.len() - 1)
    } else {
        last_colon(s.drop_last())
    }
}

/// `last_colon` names the last occurrence and nothing else.
pub proof fn lemma_last_colon(s: Seq<u8>)
    ensures
        match last_colon(s) {
            Some(i) => 0 <= i < s.len() && s[i] == 0x3a && forall|k: int|
                i < k < s.len() ==> s[k] != 0x3a,
            None => forall|k: int| 0 <= k < s.len() ==> s[k] != 0x3a,
        },
    decreases s.len(),
{
    if s.len() == 0 {
    } else if s.last() == 0x3a {
    } else {
        lemma_last_colon(s.drop_last());
        let t = s.drop_last();
        assert(forall|k: int| 0 <= k < t.len() ==> t[k] == s[k]);
    }
}

/// True of one decimal octet of a dotted-quad address: canonical and at most
/// two hundred fifty-five.
pub open spec fn octet_ok(s: Seq<u8>) -> bool {
    match parse_dec(s) {
        Some(v) => v <= 255,
        None => false,
    }
}

/// True of a dotted-quad address: four octets joined by dots.
pub open spec fn ipv4_ok(h: Seq<u8>) -> bool {
    match find_byte(h, 0x2e) {
        None => false,
        Some(d1) => {
            let r1 = h.skip(d1 + 1);
            match find_byte(r1, 0x2e) {
                None => false,
                Some(d2) => {
                    let r2 = r1.skip(d2 + 1);
                    match find_byte(r2, 0x2e) {
                        None => false,
                        Some(d3) => octet_ok(h.take(d1)) && octet_ok(r1.take(d2)) && octet_ok(
                            r2.take(d3),
                        ) && octet_ok(r2.skip(d3 + 1)),
                    }
                },
            }
        },
    }
}

/// True of the hosts the loader accepts: a dotted-quad address, or a
/// bracketed one, whose inner text the networking layer validates.
pub open spec fn host_ok(h: Seq<u8>) -> bool {
    ipv4_ok(h) || (h.len() >= 3 && h[0] == 0x5b && h[h.len() - 1] == 0x5d)
}

/// True of the address texts the loader accepts: an acceptable host, a
/// colon, and a decimal port of value at most 65535 after the last colon.
pub open spec fn addr_ok(s: Seq<u8>) -> bool {
    match last_colon(s) {
        None => false,
        Some(i) => {
            let port = s.skip(i + 1);
            &&& host_ok(s.take(i))
            &&& port.len() >= 1
            &&& forall|k: int| 0 <= k < port.len() ==> is_digit(#[trigger] port[k])
            &&& dec_val(port) <= 65535
        },
    }
}

/// The first occurrence of `b` in `s` at or after `from`.
fn find_byte_at_exec(s: &[u8], from: usize, b: u8) -> (r: Option<usize>)
    requires
        from <= s@.len(),
    ensures
        match r {
            Some(j) => from <= j < s@.len() && s@[j as int] == b && forall|k: int|
                from <= k < j ==> s@[k] != b,
            None => forall|k: int| from <= k < s@.len() ==> s@[k] != b,
        },
{
    let n = s.len();
    let mut j: usize = from;
    while j < n
        invariant
            from <= j <= n,
            n == s@.len(),
            forall|k: int| from <= k < j ==> s@[k] != b,
        decreases n - j,
    {
        if s[j] == b {
            return Some(j);
        }
        j = j + 1;
    }
    None
}

/// One octet of a dotted-quad, taken from `h[from..to]`.
fn octet_ok_exec(h: &[u8], from: usize, to: usize) -> (r: bool)
    requires
        from <= to <= h@.len(),
    ensures
        r == octet_ok(h@.subrange(from as int, to as int)),
{
    match parse_u64(slice_subrange(h, from, to)) {
        Some(v) => v <= 255,
        None => false,
    }
}

/// Whether a host text has a shape the loader accepts.
fn host_ok_exec(h: &[u8]) -> (r: bool)
    ensures
        r == host_ok(h@),
{
    let n = h.len();
    if n >= 3 && h[0] == 0x5b && h[n - 1] == 0x5d {
        return true;
    }
    let d1 = match find_byte_at_exec(h, 0, 0x2e) {
        Some(j) => j,
        None => {
            proof {
                crate::claims::lemma_find_byte_at(h@, 0, 0x2e, None);
                assert(h@.skip(0) =~= h@);
            }
            return false;
        },
    };
    proof {
        crate::claims::lemma_find_byte_at(h@, 0, 0x2e, Some(d1 as int));
        assert(h@.skip(0) =~= h@);
    }
    let ghost r1 = h@.skip(d1 as int + 1);
    let d2 = match find_byte_at_exec(h, d1 + 1, 0x2e) {
        Some(j) => j,
        None => {
            proof {
                crate::claims::lemma_find_byte_at(h@, d1 as int + 1, 0x2e, None);
            }
            return false;
        },
    };
    proof {
        crate::claims::lemma_find_byte_at(h@, d1 as int + 1, 0x2e, Some(d2 as int));
        assert(find_byte(r1, 0x2e) == Some(d2 - (d1 + 1)));
    }
    let ghost r2 = r1.skip(d2 as int - (d1 as int + 1) + 1);
    assert(r2 =~= h@.skip(d2 as int + 1));
    let d3 = match find_byte_at_exec(h, d2 + 1, 0x2e) {
        Some(j) => j,
        None => {
            proof {
                crate::claims::lemma_find_byte_at(h@, d2 as int + 1, 0x2e, None);
            }
            return false;
        },
    };
    proof {
        crate::claims::lemma_find_byte_at(h@, d2 as int + 1, 0x2e, Some(d3 as int));
        assert(find_byte(r2, 0x2e) == Some(d3 - (d2 + 1)));
    }
    assert(h@.take(d1 as int) =~= h@.subrange(0, d1 as int));
    assert(r1.take(d2 - (d1 + 1)) =~= h@.subrange(d1 as int + 1, d2 as int));
    assert(r2.take(d3 - (d2 + 1)) =~= h@.subrange(d2 as int + 1, d3 as int));
    assert(r2.skip(d3 - (d2 + 1) + 1) =~= h@.subrange(d3 as int + 1, n as int));
    octet_ok_exec(h, 0, d1) && octet_ok_exec(h, d1 + 1, d2) && octet_ok_exec(h, d2 + 1, d3)
        && octet_ok_exec(h, d3 + 1, n)
}

/// The index of the last colon of `s`, scanning from the end.
fn rfind_colon(s: &[u8]) -> (r: Option<usize>)
    ensures
        match r {
            Some(i) => i < s@.len() && s@[i as int] == 0x3a && forall|k: int|
                i < k < s@.len() ==> s@[k] != 0x3a,
            None => forall|k: int| 0 <= k < s@.len() ==> s@[k] != 0x3a,
        },
{
    let n = s.len();
    let mut j: usize = n;
    while j > 0
        invariant
            0 <= j <= n,
            n == s@.len(),
            forall|k: int| j <= k < n ==> s@[k] != 0x3a,
        decreases j,
    {
        if s[j - 1] == 0x3a {
            return Some(j - 1);
        }
        j = j - 1;
    }
    None
}

/// Whether an address text has the shape the loader accepts.
pub fn addr_ok_exec(s: &[u8]) -> (r: bool)
    ensures
        r == addr_ok(s@),
{
    let n = s.len();
    let i = match rfind_colon(s) {
        Some(i) => i,
        None => {
            proof {
                lemma_last_colon(s@);
                if last_colon(s@) is Some {
                    assert(s@[last_colon(s@)->Some_0] == 0x3a);
                }
            }
            return false;
        },
    };
    proof {
        lemma_last_colon(s@);
        match last_colon(s@) {
            Some(c) => {
                if c < i as int {
                    assert(s@[i as int] != 0x3a);
                }
                if c > i as int {
                    assert(s@[c] != 0x3a);
                }
                assert(c == i as int);
            },
            None => {
                assert(s@[i as int] != 0x3a);
            },
        }
    }
    assert(last_colon(s@) == Some(i as int));
    if i + 1 >= n {
        return false;
    }
    let host_slice = slice_subrange(s, 0, i);
    assert(host_slice@ =~= s@.take(i as int));
    if !host_ok_exec(host_slice) {
        return false;
    }
    let ghost port = s@.skip(i as int + 1);
    let mut v: u32 = 0;
    let mut k: usize = i + 1;
    while k < n
        invariant
            i + 1 <= k <= n,
            n == s@.len(),
            i + 1 < n,
            last_colon(s@) == Some(i as int),
            port == s@.skip(i as int + 1),
            forall|m: int| 0 <= m < k - i - 1 ==> is_digit(#[trigger] port[m]),
            v == dec_val(port.take(k - i - 1)),
            v <= 65535,
        decreases n - k,
    {
        let b = s[k];
        assert(port[k - i - 1] == s@[k as int]);
        if b < 0x30 || b > 0x39 {
            return false;
        }
        proof {
            lemma_dec_val_step(port, k - i - 1);
        }
        v = v * 10 + ((b - 0x30) as u32);
        if v > 65535 {
            proof {
                if addr_ok(s@) {
                    assert(forall|m: int| 0 <= m < port.len() ==> is_digit(#[trigger] port[m]));
                    lemma_dec_val_monotone(port, k - i - 1 + 1, port.len() as int);
                    assert(port.take(port.len() as int) =~= port);
                }
            }
            return false;
        }
        k = k + 1;
    }
    proof {
        assert(port.take(port.len() as int) =~= port);
    }
    true
}

/// The configuration of the process.
#[derive(Debug)]
pub struct Config {
    /// The address/port couple to bind for the server.
    pub http_address: String,
    /// The connection descriptor of the credential store.
    pub postgres_url: String,
    /// The ceiling on concurrently outstanding store connections.
    pub postgres_max_connections: usize,
    /// The Ed25519 public key PEM for token verification.
    pub jwt_public_key: String,
    /// The Ed25519 private key PEM for token signing.
    pub jwt_private_key: String,
    /// The memory cost of fresh hashes, when overridden.
    pub argon2_memory_cost: Option<u32>,
    /// The time cost of fresh hashes, when overridden.
    pub argon2_time_cost: Option<u32>,
    /// The parallelism of fresh hashes, when overridden.
    pub argon2_paralellism_cost: Option<u32>,
    /// The digest length of fresh hashes, when overridden.
    pub argon2_output_len: Option<usize>,
}

/// Whether a given bind address is acceptable; an absent one takes the
/// default, which is.
pub open spec fn raw_http_ok(raw: RawConfig) -> bool {
    raw.http_address matches Some(a) ==> addr_ok(encode_utf8(a@))
}

/// Whether every required field is present and every given numeric field
/// parses as a canonical decimal in range.
pub open spec fn raw_fields_ok(raw: RawConfig) -> bool {
    &&& raw_http_ok(raw)
    &&& raw.postgres_url is Some
    &&& raw.jwt_public_key is Some
    &&& raw.jwt_private_key is Some
    &&& (raw.postgres_max_connections matches Some(b) ==> parse_dec_usize(b@) is Some)
    &&& (raw.argon2_memory_cost matches Some(b) ==> parse_dec_u32(b@) is Some)
    &&& (raw.argon2_time_cost matches Some(b) ==> parse_dec_u32(b@) is Some)
    &&& (raw.argon2_paralellism_cost matches Some(b) ==> parse_dec_u32(b@) is Some)
    &&& (raw.argon2_output_len matches Some(b) ==> parse_dec_usize(b@) is Some)
}

/// The memory cost the raw values call for: the parsed override or the
/// recommended default.  Meaningful once the field parses.
pub open spec fn raw_m_cost(raw: RawConfig) -> u32 {
    match raw.argon2_memory_cost {
        Some(b) => parse_dec_u32(b@)->Some_0,
        None => 19456,
    }
}

/// The time cost the raw values call for.
pub open spec fn raw_t_cost(raw: RawConfig) -> u32 {
    match raw.argon2_time_cost {
        Some(b) => parse_dec_u32(b@)->Some_0,
        None => 2,
    }
}

/// The parallelism the raw values call for.
pub open spec fn raw_p_cost(raw: RawConfig) -> u32 {
    match raw.argon2_paralellism_cost {
        Some(b) => parse_dec_u32(b@)->Some_0,
        None => 1,
    }
}

/// The digest length the raw values call for, when overridden.
pub open spec fn raw_output_len(raw: RawConfig) -> Option<usize> {
    match raw.argon2_output_len {
        Some(b) => parse_dec_usize(b@),
        None => None,
    }
}

/// Whether the effective cost combination the raw values call for is one
/// hashing accepts.
pub open spec fn raw_hashing_ok(raw: RawConfig) -> bool {
    params_ok(raw_m_cost(raw), raw_t_cost(raw), raw_p_cost(raw), raw_output_len(raw))
}

impl Config {
    /// The memory cost hashing runs with: the override, or the recommended
    /// default.
    pub open spec fn spec_m_cost(&self) -> u32 {
        match self.argon2_memory_cost {
            Some(v) => v,
            None => 19456,
        }
    }

    /// The time cost hashing runs with.
    pub open spec fn spec_t_cost(&self) -> u32 {
        match self.argon2_time_cost {
            Some(v) => v,
            None => 2,
        }
    }

    /// The parallelism hashing runs with.
    pub open spec fn spec_p_cost(&self) -> u32 {
        match self.argon2_paralellism_cost {
            Some(v) => v,
            None => 1,
        }
    }

    /// The effective cost combination is one hashing accepts.
    pub open spec fn hashing_ok(&self) -> bool {
        params_ok(self.spec_m_cost(), self.spec_t_cost(), self.spec_p_cost(), self.argon2_output_len)
    }

    /// The hashing parameters the process runs with: each override applied
    /// over the recommended default.
    pub fn effective_params(&self) -> (r: HashingParams)
        ensures
            r.m_cost == self.spec_m_cost(),
            r.t_cost == self.spec_t_cost(),
            r.p_cost == self.spec_p_cost(),
            r.output_len == self.argon2_output_len,
            self.hashing_ok() ==> r.wf(),
    {
        let m_cost = match self.argon2_memory_cost {
            Some(v) => v,
            None => 19456,
        };
        let t_cost = match self.argon2_time_cost {
            Some(v) => v,
            None => 2,
        };
        let p_cost = match self.argon2_paralellism_cost {
            Some(v) => v,
            None => 1,
        };
        HashingParams { m_cost, t_cost, p_cost, output_len: self.argon2_output_len }
    }

    /// Validates the raw environment values into a configuration, or names
    /// the first missing or malformed field, in the loader's order: bind
    /// address, store descriptor, the two key texts, pool ceiling, the four
    /// hashing overrides, then the effective cost combination.  Required:
    /// the store descriptor and the two key texts.  Defaults: the bind
    /// address and the pool ceiling of sixty-four; each hashing override is
    /// optional.
    pub fn from_raw(raw: RawConfig) -> (r: Result<Config, ConfigError>)
        ensures
            r is Ok <==> raw_fields_ok(raw) && raw_hashing_ok(raw),
            !raw_http_ok(raw) ==> r == Err::<Config, ConfigError>(
                ConfigError::Invalid(ConfigField::HttpAddress),
            ),
            raw_http_ok(raw) && raw.postgres_url is None ==> r == Err::<Config, ConfigError>(
                ConfigError::Missing(ConfigField::PostgresUrl),
            ),
            raw_http_ok(raw) && raw.postgres_url is Some && raw.jwt_public_key is None ==> r
                == Err::<Config, ConfigError>(ConfigError::Missing(ConfigField::JwtPublicKey)),
            raw_http_ok(raw) && raw.postgres_url is Some && raw.jwt_public_key is Some
                && raw.jwt_private_key is None ==> r == Err::<Config, ConfigError>(
                ConfigError::Missing(ConfigField::JwtPrivateKey),
            ),
            raw_http_ok(raw) && raw.postgres_url is Some && raw.jwt_public_key is Some
                && raw.jwt_private_key is Some && (raw.postgres_max_connections matches Some(b)
                && parse_dec_usize(b@) is None) ==> r == Err::<Config, ConfigError>(
                ConfigError::Invalid(ConfigField::PostgresMaxConnections),
            ),
            raw_http_ok(raw) && raw.postgres_url is Some && raw.jwt_public_key is Some
                && raw.jwt_private_key is Some && (raw.postgres_max_connections matches Some(b)
                ==> parse_dec_usize(b@) is Some) && (raw.argon2_memory_cost matches Some(b)
                && parse_dec_u32(b@) is None) ==> r == Err::<Config, ConfigError>(
                ConfigError::Invalid(ConfigField::MemoryCost),
            ),
            raw_http_ok(raw) && raw.postgres_url is Some && raw.jwt_public_key is Some
                && raw.jwt_private_key is Some && (raw.postgres_max_connections matches Some(b)
                ==> parse_dec_usize(b@) is Some) && (raw.argon2_memory_cost matches Some(b)
                ==> parse_dec_u32(b@) is Some) && (raw.argon2_time_cost matches Some(b)
                && parse_dec_u32(b@) is None) ==> r == Err::<Config, ConfigError>(
                ConfigError::Invalid(ConfigField::TimeCost),
            ),
            raw_http_ok(raw) && raw.postgres_url is Some && raw.jwt_public_key is Some
                && raw.jwt_private_key is Some && (raw.postgres_max_connections matches Some(b)
                ==> parse_dec_usize(b@) is Some) && (raw.argon2_memory_cost matches Some(b)
                ==> parse_dec_u32(b@) is Some) && (raw.argon2_time_cost matches Some(b)
                ==> parse_dec_u32(b@) is Some) && (raw.argon2_paralellism_cost matches Some(b)
                && parse_dec_u32(b@) is None) ==> r == Err::<Config, ConfigError>(
                ConfigError::Invalid(ConfigField::Parallelism),
            ),
            raw_http_ok(raw) && raw.postgres_url is Some && raw.jwt_public_key is Some
                && raw.jwt_private_key is Some && (raw.postgres_max_connections matches Some(b)
                ==> parse_dec_usize(b@) is Some) && (raw.argon2_memory_cost matches Some(b)
                ==> parse_dec_u32(b@) is Some) && (raw.argon2_time_cost matches Some(b)
                ==> parse_dec_u32(b@) is Some) && (raw.argon2_paralellism_cost matches Some(b)
                ==> parse_dec_u32(b@) is Some) && (raw.argon2_output_len matches Some(b)
                && parse_dec_usize(b@) is None) ==> r == Err::<Config, ConfigError>(
                ConfigError::Invalid(ConfigField::OutputLen),
            ),
            raw_fields_ok(raw) && !(1 <= raw_p_cost(raw) <= 0xFFFFFF) ==> r == Err::<
                Config,
                ConfigError,
            >(ConfigError::Invalid(ConfigField::Parallelism)),
            raw_fields_ok(raw) && (1 <= raw_p_cost(raw) <= 0xFFFFFF) && (raw_m_cost(raw) as int)
                < 8 * (raw_p_cost(raw) as int) ==> r == Err::<Config, ConfigError>(
                ConfigError::Invalid(ConfigField::MemoryCost),
            ),
            raw_fields_ok(raw) && (1 <= raw_p_cost(raw) <= 0xFFFFFF) && raw_m_cost(raw) as int >= 8
                * (raw_p_cost(raw) as int) && raw_t_cost(raw) < 1 ==> r == Err::<
                Config,
                ConfigError,
            >(ConfigError::Invalid(ConfigField::TimeCost)),
            raw_fields_ok(raw) && (1 <= raw_p_cost(raw) <= 0xFFFFFF) && raw_m_cost(raw) as int >= 8
                * (raw_p_cost(raw) as int) && raw_t_cost(raw) >= 1 && !(raw_output_len(raw)
                matches Some(l) ==> 10 <= l <= 64) ==> r == Err::<Config, ConfigError>(
                ConfigError::Invalid(ConfigField::OutputLen),
            ),
            r is Ok ==> r->Ok_0.postgres_url@ == raw.postgres_url->Some_0@,
            r is Ok ==> r->Ok_0.jwt_public_key@ == raw.jwt_public_key->Some_0@,
            r is Ok ==> r->Ok_0.jwt_private_key@ == raw.jwt_private_key->Some_0@,
            r is Ok ==> r->Ok_0.http_address@ == (match raw.http_address {
                Some(a) => a@,
                None => "0.0.0.0:8989"@,
            }),
            r is Ok ==> Some(r->Ok_0.postgres_max_connections) == (match raw
                .postgres_max_connections {
                Some(b) => parse_dec_usize(b@),
                None => Some(64usize),
            }),
            r is Ok ==> r->Ok_0.argon2_memory_cost == (match raw.argon2_memory_cost {
                Some(b) => parse_dec_u32(b@),
                None => None::<u32>,
            }),
            r is Ok ==> r->Ok_0.argon2_time_cost == (match raw.argon2_time_cost {
                Some(b) => parse_dec_u32(b@),
                None => None::<u32>,
            }),
            r is Ok ==> r->Ok_0.argon2_paralellism_cost == (match raw.argon2_paralellism_cost {
                Some(b) => parse_dec_u32(b@),
                None => None::<u32>,
            }),
            r is Ok ==> r->Ok_0.argon2_output_len == (match raw.argon2_output_len {
                Some(b) => parse_dec_usize(b@),
                None => None::<usize>,
            }),
            r is Ok ==> r->Ok_0.hashing_ok(),
    {
        let http_address = match raw.http_address {
            Some(a) => {
                let bytes = a.as_str().as_bytes_vec();
                if !addr_ok_exec(bytes.as_slice()) {
                    return Err(ConfigError::Invalid(ConfigField::HttpAddress));
                }
                a
            },
            None => "0.0.0.0:8989".to_owned(),
        };
        let postgres_url = match raw.postgres_url {
            Some(u) => u,
            None => {
                return Err(ConfigError::Missing(ConfigField::PostgresUrl));
            },
        };
        let jwt_public_key = match raw.jwt_public_key {
            Some(k) => k,
            None => {
                return Err(ConfigError::Missing(ConfigField::JwtPublicKey));
            },
        };
        let jwt_private_key = match raw.jwt_private_key {
            Some(k) => k,
            None => {
                return Err(ConfigError::Missing(ConfigField::JwtPrivateKey));
            },
        };
        let postgres_max_connections = match raw.postgres_max_connections {
            Some(b) => match parse_usize(b.as_slice()) {
                Some(v) => v,
                None => {
                    return Err(ConfigError::Invalid(ConfigField::PostgresMaxConnections));
                },
            },
            None => 64,
        };
        let argon2_memory_cost = match raw.argon2_memory_cost {
            Some(b) => match parse_u32(b.as_slice()) {
                Some(v) => Some(v),
                None => {
                    return Err(ConfigError::Invalid(ConfigField::MemoryCost));
                },
            },
            None => None,
        };
        let argon2_time_cost = match raw.argon2_time_cost {
            Some(b) => match parse_u32(b.as_slice()) {
                Some(v) => Some(v),
                None => {
                    return Err(ConfigError::Invalid(ConfigField::TimeCost));
                },
            },
            None => None,
        };
        let argon2_paralellism_cost = match raw.argon2_paralellism_cost {
            Some(b) => match parse_u32(b.as_slice()) {
                Some(v) => Some(v),
                None => {
                    return Err(ConfigError::Invalid(ConfigField::Parallelism));
                },
            },
            None => None,
        };
        let argon2_output_len = match raw.argon2_output_len {
            Some(b) => match parse_usize(b.as_slice()) {
                Some(v) => Some(v),
                None => {
                    return Err(ConfigError::Invalid(ConfigField::OutputLen));
                },
            },
            None => None,
        };
        let config = Config {
            http_address,
            postgres_url,
            postgres_max_connections,
            jwt_public_key,
            jwt_private_key,
            argon2_memory_cost,
            argon2_time_cost,
            argon2_paralellism_cost,
            argon2_output_len,
        };
        let params = config.effective_params();
        match HashingParams::new(params.m_cost, params.t_cost, params.p_cost, params.output_len) {
            Ok(_) => Ok(config),
            Err(e) => Err(e),
        }
    }
}

} // verus!

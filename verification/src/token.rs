//! The token authority: issues and verifies compact signed bearer tokens.
//! The encoding is the three-part header.claims.signature text; the Ed25519
//! signature itself is the one outside call, behind trusted wrappers.

use vstd::prelude::*;
use vstd::slice::slice_subrange;
use crate::base64url::{b64_of, b64_decode, b64_encode, b64_decode_exec, is_b64_byte,
    lemma_b64_of_alphabet, lemma_b64_round_trip};
use crate::claims::{Claims, ClaimsSpec, claims_json, parse_claims, parse_claims_exec,
    encode_claims, find_byte, lemma_find_byte, lemma_claims_round_trip};
use crate::errors::{ConfigError, ConfigField, TokenError};

verus! {

/// Whether `jsonwebtoken::EncodingKey::from_ed_pem` and the Ed25519 signer
/// accept this text as private key material.
pub uninterp spec fn ed_priv_pem_ok(pem: Seq<u8>) -> bool;

/// Whether `jsonwebtoken::DecodingKey::from_ed_pem` accepts this text as
/// public key material carrying at least the thirty-two key bytes that
/// Ed25519 verification reads.
pub uninterp spec fn ed_pub_pem_ok(pem: Seq<u8>) -> bool;

/// The base64url text of the Ed25519 signature of `msg` under the private
/// key in `priv_pem`; meaningful only where `ed_priv_pem_ok` holds.
pub uninterp spec fn ed_sig(priv_pem: Seq<u8>, msg: Seq<u8>) -> Seq<u8>;

/// Whether `jsonwebtoken::crypto::verify` accepts `sig` as the signature of
/// `msg` under the public key in `pub_pem`.
pub uninterp spec fn ed_verify_ok(pub_pem: Seq<u8>, msg: Seq<u8>, sig: Seq<u8>) -> bool;

/// That the two texts hold the halves of one Ed25519 key pair.
pub uninterp spec fn ed_keypair(pub_pem: Seq<u8>, priv_pem: Seq<u8>) -> bool;

/// Relies on `jsonwebtoken::DecodingKey::from_ed_pem` and
/// `DecodingKey::try_get_as_bytes`: whether the text parses as an Ed25519
/// public key, and whether it carries at least the thirty-two key bytes that
/// verification reads, are functions of the text alone.  The length is
/// checked here because `from_ed_pem` alone also accepts shorter key
/// material, on which verification cannot run.
#[verifier::external_body]
fn ed_pub_check(pem: &[u8]) -> (r: bool)
    ensures
        r == ed_pub_pem_ok(pem@),
{
    match jsonwebtoken::DecodingKey::from_ed_pem(pem) {
        Ok(key) => match key.try_get_as_bytes() {
            Ok(bytes) => bytes.len() >= 32,
            Err(_) => false,
        },
        Err(_) => false,
    }
}

/// Relies on `jsonwebtoken::EncodingKey::from_ed_pem` and
/// `jsonwebtoken::crypto::sign` with `Algorithm::EdDSA`: whether the private
/// key text is accepted is a function of the text alone, not of the message.
#[verifier::external_body]
fn ed_priv_check(pem: &[u8]) -> (r: bool)
    ensures
        r == ed_priv_pem_ok(pem@),
{
    match jsonwebtoken::EncodingKey::from_ed_pem(pem) {
        Ok(key) => jsonwebtoken::crypto::sign(b"", &key, jsonwebtoken::Algorithm::EdDSA).is_ok(),
        Err(_) => false,
    }
}

/// Relies on `jsonwebtoken::crypto::sign` with `Algorithm::EdDSA`: Ed25519
/// signing is deterministic, so the returned base64url signature text is a
/// function of key text and message alone; it fails exactly when the key
/// text is not accepted.  Determinism rests on the one crypto provider this
/// build holds (the process-wide provider is fixed, and only the RustCrypto
/// one exists here); a host that installed another provider first would take
/// the claim with it.
#[verifier::external_body]
fn ed_sign_exec(priv_pem: &[u8], msg: &[u8]) -> (r: Result<Vec<u8>, TokenError>)
    ensures
        r is Ok <==> ed_priv_pem_ok(priv_pem@),
        r is Ok ==> r->Ok_0@ == ed_sig(priv_pem@, msg@),
        r is Err ==> r->Err_0 == TokenError::InvalidKey,
{
    let key = match jsonwebtoken::EncodingKey::from_ed_pem(priv_pem) {
        Ok(k) => k,
        Err(_) => return Err(TokenError::InvalidKey),
    };
    match jsonwebtoken::crypto::sign(msg, &key, jsonwebtoken::Algorithm::EdDSA) {
        Ok(s) => Ok(s.into_bytes()),
        Err(_) => Err(TokenError::InvalidKey),
    }
}

/// Relies on `jsonwebtoken::crypto::verify` with `Algorithm::EdDSA`: the
/// outcome is a function of key text, message and signature text alone (a
/// signature or key that cannot be decoded does not verify), and a signature
/// that `crypto::sign` produced under the matching private key verifies.
/// A key whose material holds fewer than the thirty-two bytes verification
/// reads is turned away here, before `crypto::verify`, which would panic on
/// it; such a key verifies nothing.  Determinism rests on the one crypto
/// provider this build holds: a host that installed another provider first
/// would take the claim with it.
#[verifier::external_body]
fn ed_verify_exec(pub_pem: &[u8], msg: &[u8], sig: &[u8]) -> (r: bool)
    ensures
        r == ed_verify_ok(pub_pem@, msg@, sig@),
        forall|p: Seq<u8>|
            ed_keypair(pub_pem@, p) && ed_priv_pem_ok(p) && sig@ == ed_sig(p, msg@) ==> r,
{
    let key = match jsonwebtoken::DecodingKey::from_ed_pem(pub_pem) {
        Ok(k) => k,
        Err(_) => return false,
    };
    if !key.try_get_as_bytes().map(|b| b.len() >= 32).unwrap_or(false) {
        return false;
    }
    let sig_str = match core::str::from_utf8(sig) {
        Ok(s) => s,
        Err(_) => return false,
    };
    match jsonwebtoken::crypto::verify(sig_str, msg, &key, jsonwebtoken::Algorithm::EdDSA) {
        Ok(b) => b,
        Err(_) => false,
    }
}

/// The fixed token header, `{"alg":"EdDSA","typ":"JWT"}`: any other header,
/// and with it any other algorithm, is rejected.
pub open spec fn header_json() -> Seq<u8> {
    seq![0x7bu8, 0x22, 0x61, 0x6c, 0x67, 0x22, 0x3a, 0x22, 0x45, 0x64, 0x44, 0x53, 0x41, 0x22,
        0x2c, 0x22, 0x74, 0x79, 0x70, 0x22, 0x3a, 0x22, 0x4a, 0x57, 0x54, 0x22, 0x7d]
}

/// The signed part of a token: encoded header, a dot, encoded claims.
pub open spec fn signing_input(sub: Seq<u8>, iat: u64, exp: u64) -> Seq<u8> {
    b64_of(header_json()) + seq![0x2eu8] + b64_of(claims_json(sub, iat, exp))
}

/// The whole token that signing with `priv_pem` yields.
pub open spec fn token_of(priv_pem: Seq<u8>, sub: Seq<u8>, iat: u64, exp: u64) -> Seq<u8> {
    signing_input(sub, iat, exp) + seq![0x2eu8] + ed_sig(priv_pem, signing_input(sub, iat, exp))
}

/// What verifying a token yields: the claims exactly when the token is the
/// three-part encoding, its header is the fixed header, its claims parse,
/// its signature verifies and its expiry has not passed; otherwise the one
/// error that names the first failure.
pub open spec fn spec_verify(pub_pem: Seq<u8>, token: Seq<u8>, now: u64) -> Result<
    ClaimsSpec,
    TokenError,
> {
    match find_byte(token, 0x2e) {
        None => Err(TokenError::Malformed),
        Some(d1) => {
            let rest = token.skip(d1 + 1);
            match find_byte(rest, 0x2e) {
                None => Err(TokenError::Malformed),
                Some(d2) => {
                    if token.take(d1) != b64_of(header_json()) {
                        Err(TokenError::Malformed)
                    } else {
                        match b64_decode(rest.take(d2)) {
                            None => Err(TokenError::Malformed),
                            Some(json) => match parse_claims(json) {
                                None => Err(TokenError::Malformed),
                                Some(c) => if !ed_verify_ok(
                                    pub_pem,
                                    token.take(d1 + 1 + d2),
                                    rest.skip(d2 + 1),
                                ) {
                                    Err(TokenError::BadSignature)
                                } else if now <= c.exp {
                                    Ok(c)
                                } else {
                                    Err(TokenError::Expired)
                                },
                            },
                        }
                    }
                },
            }
        },
    }
}

/// `find_byte` finds a witnessed first occurrence.
proof fn lemma_find_first(s: Seq<u8>, b: u8, i: int)
    requires
        0 <= i < s.len(),
        s[i] == b,
        forall|k: int| 0 <= k < i ==> s[k] != b,
    ensures
        find_byte(s, b) == Some(i),
{
    lemma_find_byte(s, b);
    match find_byte(s, b) {
        Some(j) => {
            if j < i {
                assert(s[j] == b);
                assert(false);
            }
            if j > i {
                assert(s[i] != b);
                assert(false);
            }
        },
        None => {
            assert(s[i] != b);
            assert(false);
        },
    }
}

/// How `spec_verify` treats a token of the issued shape: never malformed;
/// rejected as a bad signature exactly when the signature does not verify,
/// as expired exactly when the expiry has passed, accepted otherwise with
/// the issued claims.
#[verifier::rlimit(100)]
pub proof fn lemma_verify_issued(pub_pem: Seq<u8>, p: Seq<u8>, sub: Seq<u8>, iat: u64, exp: u64, now: u64)
    ensures
        ({
            let si = signing_input(sub, iat, exp);
            let sg = ed_sig(p, si);
            let tok = token_of(p, sub, iat, exp);
            let hl = b64_of(header_json()).len() as int;
            let pl = b64_of(claims_json(sub, iat, exp)).len() as int;
            &&& tok.len() == hl + 1 + pl + 1 + sg.len()
            &&& find_byte(tok, 0x2e) == Some(hl)
            &&& find_byte(tok.skip(hl + 1), 0x2e) == Some(pl)
            &&& tok.take(hl + 1 + pl) == si
            &&& tok.skip(hl + 1 + pl + 1) == sg
            &&& spec_verify(pub_pem, tok, now) == (if !ed_verify_ok(pub_pem, si, sg) {
                Err::<ClaimsSpec, TokenError>(TokenError::BadSignature)
            } else if now <= exp {
                Ok::<ClaimsSpec, TokenError>(ClaimsSpec { sub, iat, exp })
            } else {
                Err::<ClaimsSpec, TokenError>(TokenError::Expired)
            })
        }),
{
    let hb = b64_of(header_json());
    let cj = claims_json(sub, iat, exp);
    let pb = b64_of(cj);
    let si = signing_input(sub, iat, exp);
    let sg = ed_sig(p, si);
    let tok = token_of(p, sub, iat, exp);
    let hl = hb.len() as int;
    let pl = pb.len() as int;

    assert(si =~= hb + seq![0x2eu8] + pb);
    assert(tok =~= hb + seq![0x2eu8] + pb + seq![0x2eu8] + sg);
    assert(tok.len() == hl + 1 + pl + 1 + sg.len());

    lemma_b64_of_alphabet(header_json());
    lemma_b64_of_alphabet(cj);
    assert(forall|k: int| 0 <= k < hl ==> tok[k] == hb[k]);
    assert(tok[hl] == 0x2e);
    assert forall|k: int| 0 <= k < hl implies tok[k] != 0x2e by {
        assert(is_b64_byte(hb[k]));
    }
    lemma_find_first(tok, 0x2e, hl);

    let rest = tok.skip(hl + 1);
    assert(rest =~= pb + seq![0x2eu8] + sg);
    assert(forall|k: int| 0 <= k < pl ==> rest[k] == pb[k]);
    assert(rest[pl] == 0x2e);
    assert forall|k: int| 0 <= k < pl implies rest[k] != 0x2e by {
        assert(is_b64_byte(pb[k]));
    }
    lemma_find_first(rest, 0x2e, pl);

    assert(tok.take(hl) =~= hb);
    assert(tok.take(hl + 1 + pl) =~= si);
    assert(tok.skip(hl + 1 + pl + 1) =~= sg);
    assert(rest.take(pl) =~= pb);
    assert(rest.skip(pl + 1) =~= sg);

    lemma_b64_round_trip(cj);
    lemma_claims_round_trip(sub, iat, exp);
}

/// The token authority: the process-wide key pair, loaded once at start and
/// read-only thereafter.  The private half only signs, the public half only
/// verifies.
#[derive(Debug)]
pub struct TokenAuthority {
    public_pem: Vec<u8>,
    private_pem: Vec<u8>,
}

impl TokenAuthority {
    /// The public key text held.
    pub closed spec fn spec_public_pem(&self) -> Seq<u8> {
        self.public_pem@
    }

    /// The private key text held.
    pub closed spec fn spec_private_pem(&self) -> Seq<u8> {
        self.private_pem@
    }

    /// Both halves were accepted as key material at construction.
    pub open spec fn wf(&self) -> bool {
        ed_pub_pem_ok(self.spec_public_pem()) && ed_priv_pem_ok(self.spec_private_pem())
    }

    /// Builds an authority from the two PEM texts; fails exactly on the
    /// first text that is not valid Ed25519 key material.
    pub fn new(public_pem: Vec<u8>, private_pem: Vec<u8>) -> (r: Result<TokenAuthority, ConfigError>)
        ensures
            r is Ok <==> ed_pub_pem_ok(public_pem@) && ed_priv_pem_ok(private_pem@),
            r is Ok ==> r->Ok_0.wf() && r->Ok_0.spec_public_pem() == public_pem@
                && r->Ok_0.spec_private_pem() == private_pem@,
            !ed_pub_pem_ok(public_pem@) ==> r == Err::<TokenAuthority, ConfigError>(
                ConfigError::Invalid(ConfigField::JwtPublicKey),
            ),
            ed_pub_pem_ok(public_pem@) && !ed_priv_pem_ok(private_pem@) ==> r == Err::<
                TokenAuthority,
                ConfigError,
            >(ConfigError::Invalid(ConfigField::JwtPrivateKey)),
    {
        if !ed_pub_check(public_pem.as_slice()) {
            return Err(ConfigError::Invalid(ConfigField::JwtPublicKey));
        }
        if !ed_priv_check(private_pem.as_slice()) {
            return Err(ConfigError::Invalid(ConfigField::JwtPrivateKey));
        }
        Ok(TokenAuthority { public_pem, private_pem })
    }

    /// Issues the token binding `sub` to the interval `[iat, iat + ttl]`,
    /// signed with the private key.  Every subject is carried: the claims
    /// encoding escapes what the textual form cannot hold verbatim.
    pub fn issue(&self, sub: &[u8], iat: u64, ttl: u64) -> (r: Result<Vec<u8>, TokenError>)
        requires
            iat + ttl <= u64::MAX,
        ensures
            !ed_priv_pem_ok(self.spec_private_pem()) ==> r == Err::<Vec<u8>, TokenError>(
                TokenError::InvalidKey,
            ),
            ed_priv_pem_ok(self.spec_private_pem()) ==> r is Ok && r->Ok_0@ == token_of(
                self.spec_private_pem(),
                sub@,
                iat,
                (iat + ttl) as u64,
            ),
    {
        let exp = iat + ttl;
        let hdr = header_bytes();
        let mut msg = b64_encode(hdr.as_slice());
        msg.push(0x2e);
        let cj = encode_claims(sub, iat, exp);
        let mut pb = b64_encode(cj.as_slice());
        msg.append(&mut pb);
        assert(msg@ =~= signing_input(sub@, iat, exp));
        let mut sig = match ed_sign_exec(self.private_pem.as_slice(), msg.as_slice()) {
            Ok(s) => s,
            Err(e) => {
                return Err(e);
            },
        };
        let mut tok = msg;
        tok.push(0x2e);
        tok.append(&mut sig);
        assert(tok@ =~= token_of(self.spec_private_pem(), sub@, iat, exp));
        Ok(tok)
    }

    /// Verifies a presented token against the public key at time `now`.
    ///
    /// The result is exactly `spec_verify`; and every token that `issue`
    /// built under the matching private key is accepted while `now` has not
    /// passed its expiry, with its claims returned, and rejected as expired
    /// afterwards.
    pub fn verify(&self, token: &[u8], now: u64) -> (r: Result<Claims, TokenError>)
        ensures
            match r {
                Ok(c) => spec_verify(self.spec_public_pem(), token@, now) == Ok::<
                    ClaimsSpec,
                    TokenError,
                >(c@),
                Err(e) => spec_verify(self.spec_public_pem(), token@, now) == Err::<
                    ClaimsSpec,
                    TokenError,
                >(e),
            },
            forall|p: Seq<u8>, sub: Seq<u8>, iat: u64, exp: u64|
                ed_keypair(self.spec_public_pem(), p) && ed_priv_pem_ok(p)
                    && token@ == #[trigger] token_of(p, sub, iat, exp) ==> if now <= exp {
                    r is Ok && r->Ok_0@ == (ClaimsSpec { sub, iat, exp })
                } else {
                    r == Err::<Claims, TokenError>(TokenError::Expired)
                },
    {
        let ghost pubk = self.spec_public_pem();
        let n = token.len();
        let d1 = match find_byte_from_tok(token, 0, 0x2e) {
            Some(j) => j,
            None => {
                proof {
                    lemma_find_at_zero(token@, 0x2e, None);
                    assert_issued_not_malformed(pubk, token@, now);
                }
                return Err(TokenError::Malformed);
            },
        };
        proof {
            lemma_find_at_zero(token@, 0x2e, Some(d1 as int));
        }
        let rest_from = d1 + 1;
        let ghost rest = token@.skip(d1 + 1);
        let d2_abs = match find_byte_from_tok(token, rest_from, 0x2e) {
            Some(j) => j,
            None => {
                proof {
                    crate::claims::lemma_find_byte_at(token@, rest_from as int, 0x2e, None);
                    assert_issued_not_malformed(pubk, token@, now);
                }
                return Err(TokenError::Malformed);
            },
        };
        proof {
            crate::claims::lemma_find_byte_at(token@, rest_from as int, 0x2e, Some(d2_abs as int));
        }
        let ghost d2 = d2_abs - rest_from;

        let hdr = header_bytes();
        let hb = b64_encode(hdr.as_slice());
        let header_part = slice_subrange(token, 0, d1);
        assert(header_part@ =~= token@.take(d1 as int));
        if !bytes_eq(header_part, hb.as_slice()) {
            proof {
                assert_issued_not_malformed(pubk, token@, now);
            }
            return Err(TokenError::Malformed);
        }

        let payload = slice_subrange(token, rest_from, d2_abs);
        assert(payload@ =~= rest.take(d2));
        let json = match b64_decode_exec(payload) {
            Some(v) => v,
            None => {
                proof {
                    assert_issued_not_malformed(pubk, token@, now);
                }
                return Err(TokenError::Malformed);
            },
        };
        let c = match parse_claims_exec(json.as_slice()) {
            Some(c) => c,
            None => {
                proof {
                    assert_issued_not_malformed(pubk, token@, now);
                }
                return Err(TokenError::Malformed);
            },
        };

        let msg = slice_subrange(token, 0, d2_abs);
        assert(msg@ =~= token@.take(d1 + 1 + d2));
        let sig = slice_subrange(token, d2_abs + 1, n);
        assert(sig@ =~= rest.skip(d2 + 1));
        let okv = ed_verify_exec(self.public_pem.as_slice(), msg, sig);
        proof {
            assert forall|p: Seq<u8>, sub: Seq<u8>, iat: u64, exp: u64|
                ed_keypair(pubk, p) && ed_priv_pem_ok(p) && token@
                    == #[trigger] token_of(p, sub, iat, exp) implies okv
                && spec_verify(pubk, token@, now) == (if now <= exp {
                Ok::<ClaimsSpec, TokenError>(ClaimsSpec { sub, iat, exp })
            } else {
                Err::<ClaimsSpec, TokenError>(TokenError::Expired)
            }) by {
                lemma_verify_issued(pubk, p, sub, iat, exp, now);
                let si = signing_input(sub, iat, exp);
                let sg = ed_sig(p, si);
                let hl = b64_of(header_json()).len() as int;
                let pl = b64_of(claims_json(sub, iat, exp)).len() as int;
                assert(d1 == hl && d2 == pl);
                assert(msg@ == si);
                assert(sig@ == sg);
                assert(okv);
            }
        }
        if !okv {
            return Err(TokenError::BadSignature);
        }
        if now <= c.exp {
            Ok(c)
        } else {
            Err(TokenError::Expired)
        }
    }
}

/// Shows the issued-shape clause vacuous where the parse failed: a token of
/// the issued shape never parses as malformed.
proof fn assert_issued_not_malformed(pub_pem: Seq<u8>, token: Seq<u8>, now: u64)
    requires
        spec_verify(pub_pem, token, now) == Err::<ClaimsSpec, TokenError>(TokenError::Malformed),
    ensures
        forall|p: Seq<u8>, sub: Seq<u8>, iat: u64, exp: u64|
            token != #[trigger] token_of(p, sub, iat, exp),
{
    assert forall|p: Seq<u8>, sub: Seq<u8>, iat: u64, exp: u64| token
        != #[trigger] token_of(p, sub, iat, exp) by {
        if token == token_of(p, sub, iat, exp) {
            lemma_verify_issued(pub_pem, p, sub, iat, exp, now);
            assert(false);
        }
    }
}

/// The first occurrence of `b` in `s` at or after `from`.
fn find_byte_from_tok(s: &[u8], from: usize, b: u8) -> (r: Option<usize>)
    requires
        from <= s@.len(),
    ensures
        match r {
            Some(j) => from <= j < s@.len() && s@[j as int] == b && forall|k: int|
                from <= k < j ==> s@[k] != b,
            None => forall|k: int| from <= k < s@.len() ==> s@[k] != b,
        },
{
    let n = s.len();
    let mut j: usize = from;
    while j < n
        invariant
            from <= j <= n,
            n == s@.len(),
            forall|k: int| from <= k < j ==> s@[k] != b,
        decreases n - j,
    {
        if s[j] == b {
            return Some(j);
        }
        j = j + 1;
    }
    None
}

/// Ties a first-occurrence search from the start to `find_byte`.
proof fn lemma_find_at_zero(s: Seq<u8>, b: u8, r: Option<int>)
    requires
        match r {
            Some(j) => 0 <= j < s.len() && s[j] == b && forall|k: int| 0 <= k < j ==> s[k] != b,
            None => forall|k: int| 0 <= k < s.len() ==> s[k] != b,
        },
    ensures
        match r {
            Some(j) => find_byte(s, b) == Some(j),
            None => find_byte(s, b) is None,
        },
{
    lemma_find_byte(s, b);
    match r {
        Some(j) => {
            lemma_find_first(s, b, j);
        },
        None => {
            match find_byte(s, b) {
                Some(i) => {
                    assert(s[i] != b);
                    assert(false);
                },
                None => {},
            }
        },
    }
}

/// Whether two byte strings are equal.
fn bytes_eq(a: &[u8], b: &[u8]) -> (r: bool)
    ensures
        r == (a@ == b@),
{
    let n = a.len();
    if n != b.len() {
        assert(a@.len() != b@.len());
        return false;
    }
    let mut i: usize = 0;
    while i < n
        invariant
            0 <= i <= n,
            n == a@.len() && n == b@.len(),
            forall|k: int| 0 <= k < i ==> a@[k] == b@[k],
        decreases n - i,
    {
        if a[i] != b[i] {
            return false;
        }
        i = i + 1;
    }
    assert(a@ =~= b@);
    true
}

/// The bytes of the fixed token header.
fn header_bytes() -> (r: Vec<u8>)
    ensures
        r@ == header_json(),
{
    let mut out: Vec<u8> = Vec::new();
    out.push(0x7b);
    out.push(0x22);
    out.push(0x61);
    out.push(0x6c);
    out.push(0x67);
    out.push(0x22);
    out.push(0x3a);
    out.push(0x22);
    out.push(0x45);
    out.push(0x64);
    out.push(0x44);
    out.push(0x53);
    out.push(0x41);
    out.push(0x22);
    out.push(0x2c);
    out.push(0x22);
    out.push(0x74);
    out.push(0x79);
    out.push(0x70);
    out.push(0x22);
    out.push(0x3a);
    out.push(0x22);
    out.push(0x4a);
    out.push(0x57);
    out.push(0x54);
    out.push(0x22);
    out.push(0x7d);
    assert(out@ =~= header_json());
    out
}

} // verus!

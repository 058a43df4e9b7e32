//! The claims object of a token and its textual encoding: a fixed-shape JSON
//! object `{"sub":"…","iat":…,"exp":…}` whose subject is escaped so that
//! every subject can be carried, and whose timestamps are canonical
//! decimals.

use vstd::prelude::*;
use vstd::slice::slice_subrange;
use crate::decimal::{dec_of, is_digit, parse_dec, u64_to_dec, parse_u64, lemma_dec_of_canonical};

verus! {

/// The mathematical value of a claims object.
pub struct ClaimsSpec {
    pub sub: Seq<u8>,
    pub iat: u64,
    pub exp: u64,
}

/// The claims bound into a token: subject, issued-at and expiry, the two
/// timestamps in seconds.
#[derive(Debug)]
pub struct Claims {
    pub sub: Vec<u8>,
    pub iat: u64,
    pub exp: u64,
}

impl View for Claims {
    type V = ClaimsSpec;

    open spec fn view(&self) -> ClaimsSpec {
        ClaimsSpec { sub: self.sub@, iat: self.iat, exp: self.exp }
    }
}

/// The lowercase hex digit byte for a value under sixteen.
pub open spec fn hex_low(v: u8) -> u8 {
    if v < 10 {
        (0x30 + v) as u8
    } else {
        (0x61 + (v - 10)) as u8
    }
}

/// The value of a lowercase hex digit byte, if it is one.
pub open spec fn hex_val(b: u8) -> Option<u8> {
    if 0x30 <= b <= 0x39 {
        Some((b - 0x30) as u8)
    } else if 0x61 <= b <= 0x66 {
        Some((b - 0x61 + 10) as u8)
    } else {
        None
    }
}

/// The encoded form of one subject byte: quote and backslash take a
/// backslash, a control byte takes the six-byte `\u00xx` form, and every
/// other byte — non-ASCII included — is carried verbatim.  Every subject can
/// so be carried.
pub open spec fn escape_byte(b: u8) -> Seq<u8> {
    if b == 0x22 {
        seq![0x5cu8, 0x22]
    } else if b == 0x5c {
        seq![0x5cu8, 0x5c]
    } else if b < 0x20 {
        seq![0x5cu8, 0x75, 0x30, 0x30, hex_low(b / 16), hex_low(b % 16)]
    } else {
        seq![b]
    }
}

/// The encoded form of a subject.
pub open spec fn escape(s: Seq<u8>) -> Seq<u8>
    decreases s.len(),
{
    if s.len() == 0 {
        Seq::empty()
    } else {
        escape_byte(s[0]) + escape(s.skip(1))
    }
}

/// Encoding distributes over concatenation.
pub proof fn lemma_escape_append(a: Seq<u8>, b: Seq<u8>)
    ensures
        escape(a + b) == escape(a) + escape(b),
    decreases a.len(),
{
    if a.len() == 0 {
        assert(a + b =~= b);
        assert(escape(a) + escape(b) =~= escape(b));
    } else {
        lemma_escape_append(a.skip(1), b);
        assert((a + b).len() > 0);
        assert((a + b)[0] == a[0]);
        assert((a + b).skip(1) =~= a.skip(1) + b);
        assert(escape_byte(a[0]) + (escape(a.skip(1)) + escape(b)) =~= (escape_byte(a[0]) + escape(
            a.skip(1),
        )) + escape(b));
    }
}

/// Encoding one more byte appends that byte's form.
pub proof fn lemma_escape_snoc(s: Seq<u8>, i: int)
    requires
        0 <= i < s.len(),
    ensures
        escape(s.take(i + 1)) == escape(s.take(i)) + escape_byte(s[i]),
{
    let one = seq![s[i]];
    assert(s.take(i + 1) =~= s.take(i) + one);
    lemma_escape_append(s.take(i), one);
    assert(one.skip(1) =~= Seq::<u8>::empty());
    assert(escape(one) =~= escape_byte(s[i]) + escape(one.skip(1)));
    assert(escape(one) =~= escape_byte(s[i]));
}

/// Reads the quoted subject region: the bytes before the first unescaped
/// quote, decoded, with the position of that quote.  Nothing when the text
/// ends first or holds a form the encoder never emits (a stray backslash
/// escape, or a raw control byte).
pub open spec fn parse_sub(s: Seq<u8>) -> Option<(Seq<u8>, int)>
    decreases s.len(),
{
    if s.len() == 0 {
        None
    } else if s[0] == 0x22 {
        Some((Seq::empty(), 0))
    } else if s[0] == 0x5c {
        if s.len() >= 2 && (s[1] == 0x22 || s[1] == 0x5c) {
            match parse_sub(s.skip(2)) {
                Some(p) => Some((seq![s[1]] + p.0, p.1 + 2)),
                None => None,
            }
        } else if s.len() >= 6 && s[1] == 0x75 && s[2] == 0x30 && s[3] == 0x30 && hex_val(s[4])
            is Some && hex_val(s[5]) is Some && hex_val(s[4])->Some_0 * 16 + hex_val(s[5])->Some_0
            < 0x20 {
            match parse_sub(s.skip(6)) {
                Some(p) => Some(
                    (seq![(hex_val(s[4])->Some_0 * 16 + hex_val(s[5])->Some_0) as u8] + p.0, p.1 + 6),
                ),
                None => None,
            }
        } else {
            None
        }
    } else if s[0] >= 0x20 {
        match parse_sub(s.skip(1)) {
            Some(p) => Some((seq![s[0]] + p.0, p.1 + 1)),
            None => None,
        }
    } else {
        None
    }
}

/// Decoding inverts encoding: an encoded subject followed by its closing
/// quote reads back as the subject, whatever the subject holds.
pub proof fn lemma_parse_sub_round_trip(sub: Seq<u8>, rest: Seq<u8>)
    ensures
        parse_sub(escape(sub) + seq![0x22u8] + rest) == Some((sub, escape(sub).len() as int)),
    decreases sub.len(),
{
    let s = escape(sub) + seq![0x22u8] + rest;
    if sub.len() == 0 {
        assert(escape(sub) =~= Seq::<u8>::empty());
        assert(s =~= seq![0x22u8] + rest);
        assert(s[0] == 0x22);
        assert(sub =~= Seq::<u8>::empty());
    } else {
        let b = sub[0];
        let t = sub.skip(1);
        lemma_parse_sub_round_trip(t, rest);
        let s2 = escape(t) + seq![0x22u8] + rest;
        assert(escape(sub) =~= escape_byte(b) + escape(t));
        assert(s =~= escape_byte(b) + s2);
        if b == 0x22 {
            assert(s[0] == 0x5c && s[1] == 0x22);
            assert(s.skip(2) =~= s2);
            assert(seq![s[1]] + t =~= sub);
        } else if b == 0x5c {
            assert(s[0] == 0x5c && s[1] == 0x5c);
            assert(s.skip(2) =~= s2);
            assert(seq![s[1]] + t =~= sub);
        } else if b < 0x20 {
            assert(s[0] == 0x5c && s[1] == 0x75 && s[2] == 0x30 && s[3] == 0x30);
            assert(s[4] == hex_low(b / 16) && s[5] == hex_low(b % 16));
            assert(hex_val(hex_low(b / 16)) == Some((b / 16) as u8));
            assert(hex_val(hex_low(b % 16)) == Some((b % 16) as u8));
            assert((b / 16) * 16 + b % 16 == b);
            assert(s.skip(6) =~= s2);
            assert(seq![b] + t =~= sub);
        } else {
            assert(s[0] == b);
            assert(s.skip(1) =~= s2);
            assert(seq![b] + t =~= sub);
        }
    }
}

/// The opening of the object, `{"sub":"`.
pub open spec fn json_pre() -> Seq<u8> {
    seq![0x7bu8, 0x22, 0x73, 0x75, 0x62, 0x22, 0x3a, 0x22]
}

/// The middle of the object, `","iat":`.
pub open spec fn json_mid1() -> Seq<u8> {
    seq![0x22u8, 0x2c, 0x22, 0x69, 0x61, 0x74, 0x22, 0x3a]
}

/// The second middle of the object, `,"exp":`.
pub open spec fn json_mid2() -> Seq<u8> {
    seq![0x2cu8, 0x22, 0x65, 0x78, 0x70, 0x22, 0x3a]
}

/// The encoding of a claims object: the subject escaped, the timestamps in
/// canonical decimal.
pub open spec fn claims_json(sub: Seq<u8>, iat: u64, exp: u64) -> Seq<u8> {
    json_pre() + escape(sub) + json_mid1() + dec_of(iat as nat) + json_mid2() + dec_of(exp as nat)
        + seq![0x7du8]
}

/// The position of the first occurrence of `b` in `s`, if any.
pub open spec fn find_byte(s: Seq<u8>, b: u8) -> Option<int>
    decreases s.len(),
{
    if s.len() == 0 {
        None
    } else if s[0] == b {
        Some(0)
    } else {
        match find_byte(s.skip(1), b) {
            Some(i) => Some(i + 1),
            None => None,
        }
    }
}

/// `find_byte` names the first occurrence and nothing else.
pub proof fn lemma_find_byte(s: Seq<u8>, b: u8)
    ensures
        match find_byte(s, b) {
            Some(i) => 0 <= i < s.len() && s[i] == b && forall|k: int| 0 <= k < i ==> s[k] != b,
            None => forall|k: int| 0 <= k < s.len() ==> s[k] != b,
        },
    decreases s.len(),
{
    if s.len() == 0 {
    } else if s[0] == b {
    } else {
        lemma_find_byte(s.skip(1), b);
        let t = s.skip(1);
        assert(forall|k: int| 0 <= k < t.len() ==> t[k] == s[k + 1]);
        match find_byte(t, b) {
            Some(i) => {
                assert(s[i + 1] == t[i]);
                assert forall|k: int| 0 <= k < i + 1 implies s[k] != b by {
                    if k >= 1 {
                        assert(s[k] == t[k - 1]);
                    }
                }
            },
            None => {
                assert forall|k: int| 0 <= k < s.len() implies s[k] != b by {
                    if k >= 1 {
                        assert(s[k] == t[k - 1]);
                    }
                }
            },
        }
    }
}

/// The length of the longest digit prefix of `s`.
pub open spec fn digit_run_len(s: Seq<u8>) -> int
    decreases s.len(),
{
    if s.len() == 0 {
        0
    } else if !is_digit(s[0]) {
        0
    } else {
        1 + digit_run_len(s.skip(1))
    }
}

/// `digit_run_len` names the maximal digit prefix.
pub proof fn lemma_digit_run(s: Seq<u8>)
    ensures
        0 <= digit_run_len(s) <= s.len(),
        forall|k: int| 0 <= k < digit_run_len(s) ==> is_digit(#[trigger] s[k]),
        digit_run_len(s) < s.len() ==> !is_digit(s[digit_run_len(s)]),
    decreases s.len(),
{
    if s.len() == 0 {
    } else if !is_digit(s[0]) {
    } else {
        lemma_digit_run(s.skip(1));
        let t = s.skip(1);
        assert(forall|k: int| 0 <= k < t.len() ==> t[k] == s[k + 1]);
        let d = digit_run_len(t);
        assert forall|k: int| 0 <= k < d + 1 implies is_digit(#[trigger] s[k]) by {
            if k >= 1 {
                assert(s[k] == t[k - 1]);
            }
        }
        if d + 1 < s.len() {
            assert(s[d + 1] == t[d]);
        }
    }
}

/// What parsing the numeric tail of the object yields: the issued-at decimal,
/// `,"exp":`, the expiry decimal, and the closing brace.
pub open spec fn parse_tail_nums(r3: Seq<u8>) -> Option<(u64, u64)> {
    let ilen = digit_run_len(r3);
    match parse_dec(r3.take(ilen)) {
        None => None,
        Some(iat) => {
            let r4 = r3.skip(ilen);
            if r4.len() < 7 || r4.take(7) != json_mid2() {
                None
            } else {
                let r5 = r4.skip(7);
                let elen = digit_run_len(r5);
                match parse_dec(r5.take(elen)) {
                    None => None,
                    Some(exp) => {
                        let r6 = r5.skip(elen);
                        if r6.len() == 1 && r6[0] == 0x7d {
                            Some((iat, exp))
                        } else {
                            None
                        }
                    },
                }
            }
        },
    }
}

/// What parsing the claims encoding yields: the claims on the exact shape the
/// encoder emits, nothing on anything else.
pub open spec fn parse_claims(s: Seq<u8>) -> Option<ClaimsSpec> {
    if s.len() < 8 || s.take(8) != json_pre() {
        None
    } else {
        let r1 = s.skip(8);
        match parse_sub(r1) {
            None => None,
            Some((sub, q)) => {
                let r2 = r1.skip(q);
                if r2.len() < 8 || r2.take(8) != json_mid1() {
                    None
                } else {
                    match parse_tail_nums(r2.skip(8)) {
                        None => None,
                        Some((iat, exp)) => Some(ClaimsSpec { sub, iat, exp }),
                    }
                }
            },
        }
    }
}

/// The numeric tail that the encoder emits parses back to its values.
pub proof fn lemma_tail_nums_round_trip(r3: Seq<u8>, iat: u64, exp: u64)
    requires
        r3 == dec_of(iat as nat) + json_mid2() + dec_of(exp as nat) + seq![0x7du8],
    ensures
        parse_tail_nums(r3) == Some((iat, exp)),
{
    let di = dec_of(iat as nat);
    let de = dec_of(exp as nat);
    lemma_dec_of_canonical(iat as nat);
    lemma_dec_of_canonical(exp as nat);

    lemma_digit_run(r3);
    assert(forall|k: int| 0 <= k < di.len() ==> r3[k] == di[k]);
    assert(r3[di.len() as int] == 0x2c);
    let ilen = digit_run_len(r3);
    assert(ilen == di.len()) by {
        if ilen < di.len() {
            assert(is_digit(r3[ilen]));
        }
        if ilen > di.len() {
            assert(is_digit(r3[di.len() as int]));
        }
    }
    assert(r3.take(ilen) =~= di);
    assert(parse_dec(di) == Some(iat));

    let r4 = r3.skip(ilen);
    assert(r4 =~= json_mid2() + de + seq![0x7du8]);
    assert(r4.take(7) =~= json_mid2());
    let r5 = r4.skip(7);
    assert(r5 =~= de + seq![0x7du8]);

    lemma_digit_run(r5);
    assert(forall|k: int| 0 <= k < de.len() ==> r5[k] == de[k]);
    assert(r5[de.len() as int] == 0x7d);
    let elen = digit_run_len(r5);
    assert(elen == de.len()) by {
        if elen < de.len() {
            assert(is_digit(r5[elen]));
        }
        if elen > de.len() {
            assert(is_digit(r5[de.len() as int]));
        }
    }
    assert(r5.take(elen) =~= de);
    assert(parse_dec(de) == Some(exp));

    let r6 = r5.skip(elen);
    assert(r6 =~= seq![0x7du8]);
}

/// Parsing inverts encoding on every carried subject.
#[verifier::rlimit(100)]
pub proof fn lemma_claims_round_trip(sub: Seq<u8>, iat: u64, exp: u64)
    ensures
        parse_claims(claims_json(sub, iat, exp)) == Some(ClaimsSpec { sub, iat, exp }),
{
    let di = dec_of(iat as nat);
    let de = dec_of(exp as nat);
    let es = escape(sub);
    let s = claims_json(sub, iat, exp);
    assert(s.take(8) =~= json_pre());
    let r1 = s.skip(8);
    assert(r1 =~= es + json_mid1() + di + json_mid2() + de + seq![0x7du8]);

    // the subject region ends at the quote that opens the first middle
    let rest = json_mid1().skip(1) + di + json_mid2() + de + seq![0x7du8];
    assert(r1 =~= es + seq![0x22u8] + rest);
    lemma_parse_sub_round_trip(sub, rest);
    assert(parse_sub(r1) == Some((sub, es.len() as int)));
    let q = es.len() as int;

    let r2 = r1.skip(q);
    assert(r2 =~= json_mid1() + di + json_mid2() + de + seq![0x7du8]);
    assert(r2.take(8) =~= json_mid1());
    let r3 = r2.skip(8);
    assert(r3 =~= di + json_mid2() + de + seq![0x7du8]);
    lemma_tail_nums_round_trip(r3, iat, exp);
}

/// The lowercase hex digit byte for a value under sixteen.
fn hex_low_exec(v: u8) -> (r: u8)
    requires
        v < 16,
    ensures
        r == hex_low(v),
{
    if v < 10 {
        0x30 + v
    } else {
        0x61 + (v - 10)
    }
}

/// The value of a lowercase hex digit byte, if it is one.
fn hex_val_exec(b: u8) -> (r: Option<u8>)
    ensures
        r == hex_val(b),
{
    if 0x30 <= b && b <= 0x39 {
        Some(b - 0x30)
    } else if 0x61 <= b && b <= 0x66 {
        Some(b - 0x61 + 10)
    } else {
        None
    }
}

/// Encodes a claims object.
pub fn encode_claims(sub: &[u8], iat: u64, exp: u64) -> (r: Vec<u8>)
    ensures
        r@ == claims_json(sub@, iat, exp),
{
    let mut out: Vec<u8> = Vec::new();
    out.push(0x7b);
    out.push(0x22);
    out.push(0x73);
    out.push(0x75);
    out.push(0x62);
    out.push(0x22);
    out.push(0x3a);
    out.push(0x22);
    assert(out@ =~= json_pre());
    assert(escape(sub@.take(0)) =~= Seq::<u8>::empty()) by {
        assert(sub@.take(0) =~= Seq::<u8>::empty());
    }
    let mut i: usize = 0;
    let n = sub.len();
    while i < n
        invariant
            0 <= i <= n,
            n == sub@.len(),
            out@ == json_pre() + escape(sub@.take(i as int)),
        decreases n - i,
    {
        proof {
            lemma_escape_snoc(sub@, i as int);
        }
        let b = sub[i];
        if b == 0x22 {
            out.push(0x5c);
            out.push(0x22);
        } else if b == 0x5c {
            out.push(0x5c);
            out.push(0x5c);
        } else if b < 0x20 {
            out.push(0x5c);
            out.push(0x75);
            out.push(0x30);
            out.push(0x30);
            out.push(hex_low_exec(b / 16));
            out.push(hex_low_exec(b % 16));
        } else {
            out.push(b);
        }
        assert(out@ =~= json_pre() + escape(sub@.take(i as int + 1)));
        i = i + 1;
    }
    assert(sub@.take(n as int) =~= sub@);
    out.push(0x22);
    out.push(0x2c);
    out.push(0x22);
    out.push(0x69);
    out.push(0x61);
    out.push(0x74);
    out.push(0x22);
    out.push(0x3a);
    assert(out@ =~= json_pre() + escape(sub@) + json_mid1());
    let mut di = u64_to_dec(iat);
    out.append(&mut di);
    out.push(0x2c);
    out.push(0x22);
    out.push(0x65);
    out.push(0x78);
    out.push(0x70);
    out.push(0x22);
    out.push(0x3a);
    assert(out@ =~= json_pre() + escape(sub@) + json_mid1() + dec_of(iat as nat) + json_mid2());
    let mut de = u64_to_dec(exp);
    out.append(&mut de);
    out.push(0x7d);
    assert(out@ =~= claims_json(sub@, iat, exp));
    out
}

/// Finds the end of the digit run that starts at `from`.
fn digit_run_end(s: &[u8], from: usize) -> (r: usize)
    requires
        from <= s@.len(),
    ensures
        from <= r <= s@.len(),
        forall|k: int| from <= k < r ==> is_digit(#[trigger] s@[k]),
        r < s@.len() ==> !is_digit(s@[r as int]),
{
    let n = s.len();
    let mut j: usize = from;
    while j < n
        invariant
            from <= j <= n,
            n == s@.len(),
            forall|k: int| from <= k < j ==> is_digit(#[trigger] s@[k]),
        decreases n - j,
    {
        let c = s[j];
        if c < 0x30 || c > 0x39 {
            return j;
        }
        j = j + 1;
    }
    n
}

/// Ties an executable first-occurrence search to `find_byte` on a suffix.
pub proof fn lemma_find_byte_at(s: Seq<u8>, from: int, b: u8, r: Option<int>)
    requires
        0 <= from <= s.len(),
        match r {
            Some(j) => from <= j < s.len() && s[j] == b && forall|k: int| from <= k < j ==> s[k]
                != b,
            None => forall|k: int| from <= k < s.len() ==> s[k] != b,
        },
    ensures
        match r {
            Some(j) => find_byte(s.skip(from), b) == Some(j - from),
            None => find_byte(s.skip(from), b) is None,
        },
{
    let t = s.skip(from);
    lemma_find_byte(t, b);
    assert(forall|k: int| 0 <= k < t.len() ==> t[k] == s[k + from]);
    match r {
        Some(j) => {
            assert(t[j - from] == b);
            match find_byte(t, b) {
                Some(i) => {
                    if i < j - from {
                        assert(s[i + from] == b);
                        assert(false);
                    }
                    if i > j - from {
                        assert(t[j - from] != b);
                        assert(false);
                    }
                },
                None => {
                    assert(t[j - from] != b);
                    assert(false);
                },
            }
        },
        None => {
            match find_byte(t, b) {
                Some(i) => {
                    assert(s[i + from] == b);
                    assert(false);
                },
                None => {},
            }
        },
    }
}

/// Ties an executable digit-run scan to `digit_run_len` on a suffix.
proof fn lemma_digit_run_at(s: Seq<u8>, from: int, r: int)
    requires
        0 <= from <= r <= s.len(),
        forall|k: int| from <= k < r ==> is_digit(#[trigger] s[k]),
        r < s.len() ==> !is_digit(s[r]),
    ensures
        digit_run_len(s.skip(from)) == r - from,
{
    let t = s.skip(from);
    lemma_digit_run(t);
    assert(forall|k: int| 0 <= k < t.len() ==> t[k] == s[k + from]);
    let d = digit_run_len(t);
    if d < r - from {
        assert(is_digit(s[d + from]));
        assert(!is_digit(t[d]));
        assert(false);
    }
    if d > r - from {
        assert(is_digit(t[r - from]));
        assert(!is_digit(s[r]));
        assert(false);
    }
}

/// Scans the quoted subject region that starts at `from`: the decoded
/// subject and the absolute position of the closing quote, exactly as
/// `parse_sub` reads the suffix.
#[verifier::rlimit(30)]
fn scan_sub(s: &[u8], from: usize) -> (r: Option<(Vec<u8>, usize)>)
    requires
        from <= s@.len(),
    ensures
        match r {
            Some(p) => from <= p.1 < s@.len() && s@[p.1 as int] == 0x22 && parse_sub(
                s@.skip(from as int),
            ) == Some((p.0@, p.1 - from as int)),
            None => parse_sub(s@.skip(from as int)) is None,
        },
{
    let n = s.len();
    let mut out: Vec<u8> = Vec::new();
    let mut j: usize = from;
    while j < n
        invariant
            from <= j <= n,
            n == s@.len(),
            (match parse_sub(s@.skip(j as int)) {
                Some(p) => parse_sub(s@.skip(from as int)) == Some((out@ + p.0, j - from + p.1)),
                None => parse_sub(s@.skip(from as int)) is None,
            }),
        decreases n - j,
    {
        let ghost rem = s@.skip(j as int);
        assert(rem.len() == n - j);
        assert(rem[0] == s@[j as int]);
        let b = s[j];
        if b == 0x22 {
            proof {
                assert(parse_sub(rem) == Some((Seq::<u8>::empty(), 0int)));
                assert(out@ + Seq::<u8>::empty() =~= out@);
            }
            return Some((out, j));
        }
        if b == 0x5c {
            if n - j >= 2 && (s[j + 1] == 0x22 || s[j + 1] == 0x5c) {
                assert(rem[1] == s@[j as int + 1]);
                let c = s[j + 1];
                let ghost prev = out@;
                out.push(c);
                proof {
                    assert(rem.skip(2) =~= s@.skip(j as int + 2));
                    assert(out@ =~= prev + seq![c]);
                    match parse_sub(s@.skip(j as int + 2)) {
                        Some(p) => {
                            assert(parse_sub(rem) == Some((seq![c] + p.0, p.1 + 2)));
                            assert(prev + (seq![c] + p.0) =~= out@ + p.0);
                        },
                        None => {
                            assert(parse_sub(rem) is None);
                        },
                    }
                }
                j = j + 2;
            } else if n - j >= 6 && s[j + 1] == 0x75 && s[j + 2] == 0x30 && s[j + 3] == 0x30 {
                assert(rem[1] == s@[j as int + 1] && rem[2] == s@[j as int + 2] && rem[3] == s@[j
                    as int + 3] && rem[4] == s@[j as int + 4] && rem[5] == s@[j as int + 5]);
                let h1o = hex_val_exec(s[j + 4]);
                let h2o = hex_val_exec(s[j + 5]);
                if h1o.is_none() || h2o.is_none() {
                    assert(parse_sub(rem) is None);
                    return None;
                }
                let h1 = h1o.unwrap();
                let h2 = h2o.unwrap();
                assert(h1 <= 15 && h2 <= 15);
                let v = h1 * 16 + h2;
                if v >= 0x20 {
                    assert(parse_sub(rem) is None);
                    return None;
                }
                let ghost prev = out@;
                out.push(v);
                proof {
                    assert(rem.skip(6) =~= s@.skip(j as int + 6));
                    assert(out@ =~= prev + seq![v]);
                    match parse_sub(s@.skip(j as int + 6)) {
                        Some(p) => {
                            assert(parse_sub(rem) == Some((seq![v] + p.0, p.1 + 6)));
                            assert(prev + (seq![v] + p.0) =~= out@ + p.0);
                        },
                        None => {
                            assert(parse_sub(rem) is None);
                        },
                    }
                }
                j = j + 6;
            } else {
                proof {
                    if n - j >= 2 {
                        assert(rem[1] == s@[j as int + 1]);
                    }
                    if n - j >= 6 {
                        assert(rem[1] == s@[j as int + 1] && rem[2] == s@[j as int + 2] && rem[3]
                            == s@[j as int + 3]);
                    }
                    assert(parse_sub(rem) is None);
                }
                return None;
            }
        } else if b < 0x20 {
            assert(parse_sub(rem) is None);
            return None;
        } else {
            let ghost prev = out@;
            out.push(b);
            proof {
                assert(rem.skip(1) =~= s@.skip(j as int + 1));
                assert(out@ =~= prev + seq![b]);
                match parse_sub(s@.skip(j as int + 1)) {
                    Some(p) => {
                        assert(parse_sub(rem) == Some((seq![b] + p.0, p.1 + 1)));
                        assert(prev + (seq![b] + p.0) =~= out@ + p.0);
                    },
                    None => {
                        assert(parse_sub(rem) is None);
                    },
                }
            }
            j = j + 1;
        }
    }
    proof {
        assert(s@.skip(j as int).len() == 0);
        assert(parse_sub(s@.skip(j as int)) is None);
    }
    None
}

/// Parses the claims encoding; accepts exactly what `parse_claims` accepts.
#[verifier::rlimit(30)]
pub fn parse_claims_exec(s: &[u8]) -> (r: Option<Claims>)
    ensures
        match r {
            Some(c) => parse_claims(s@) == Some(c@),
            None => parse_claims(s@) is None,
        },
{
    let n = s.len();
    if n < 8 {
        return None;
    }
    if !(s[0] == 0x7b && s[1] == 0x22 && s[2] == 0x73 && s[3] == 0x75 && s[4] == 0x62 && s[5]
        == 0x22 && s[6] == 0x3a && s[7] == 0x22) {
        proof {
            assert(forall|k: int| 0 <= k < 8 ==> s@.take(8)[k] == s@[k]);
            assert(s@.take(8) != json_pre());
        }
        return None;
    }
    assert(s@.take(8) =~= json_pre());
    let ghost r1 = s@.skip(8);

    let (sub_vec, q_abs) = match scan_sub(s, 8) {
        Some(p) => p,
        None => {
            return None;
        },
    };
    let ghost q = q_abs - 8int;
    assert(parse_sub(r1) == Some((sub_vec@, q)));
    let ghost r2 = r1.skip(q);
    assert(forall|k: int| 0 <= k < r2.len() ==> r2[k] == s@[q_abs + k]);

    if n - q_abs < 8 {
        return None;
    }
    if !(s[q_abs + 1] == 0x2c && s[q_abs + 2] == 0x22 && s[q_abs + 3] == 0x69 && s[q_abs + 4]
        == 0x61 && s[q_abs + 5] == 0x74 && s[q_abs + 6] == 0x22 && s[q_abs + 7] == 0x3a) {
        proof {
            assert(forall|k: int| 0 <= k < 8 ==> r2.take(8)[k] == r2[k]);
            assert(r2.take(8) != json_mid1());
        }
        return None;
    }
    assert(r2.take(8) =~= json_mid1());
    let ghost r3 = r2.skip(8);
    assert(r3 =~= s@.skip(q_abs + 8));

    let i_end = digit_run_end(s, q_abs + 8);
    proof {
        lemma_digit_run_at(s@, q_abs + 8, i_end as int);
    }
    let ghost ilen = digit_run_len(r3);
    assert(ilen == i_end - (q_abs + 8));
    let iat = match parse_u64(slice_subrange(s, q_abs + 8, i_end)) {
        Some(v) => v,
        None => {
            proof {
                assert(s@.subrange(q_abs + 8, i_end as int) =~= r3.take(ilen));
            }
            return None;
        },
    };
    assert(s@.subrange(q_abs + 8, i_end as int) =~= r3.take(ilen));
    assert(parse_dec(r3.take(ilen)) == Some(iat));

    let ghost r4 = r3.skip(ilen);
    assert(forall|k: int| 0 <= k < r4.len() ==> r4[k] == s@[i_end + k]);
    if n - i_end < 7 {
        return None;
    }
    if !(s[i_end] == 0x2c && s[i_end + 1] == 0x22 && s[i_end + 2] == 0x65 && s[i_end + 3] == 0x78
        && s[i_end + 4] == 0x70 && s[i_end + 5] == 0x22 && s[i_end + 6] == 0x3a) {
        proof {
            assert(forall|k: int| 0 <= k < 7 ==> r4.take(7)[k] == r4[k]);
            assert(r4.take(7) != json_mid2());
        }
        return None;
    }
    assert(r4.take(7) =~= json_mid2());
    let ghost r5 = r4.skip(7);
    assert(r5 =~= s@.skip(i_end + 7));

    let e_end = digit_run_end(s, i_end + 7);
    proof {
        lemma_digit_run_at(s@, i_end + 7, e_end as int);
    }
    let ghost elen = digit_run_len(r5);
    assert(elen == e_end - (i_end + 7));
    let exp = match parse_u64(slice_subrange(s, i_end + 7, e_end)) {
        Some(v) => v,
        None => {
            proof {
                assert(s@.subrange(i_end + 7, e_end as int) =~= r5.take(elen));
            }
            return None;
        },
    };
    assert(s@.subrange(i_end + 7, e_end as int) =~= r5.take(elen));
    assert(parse_dec(r5.take(elen)) == Some(exp));

    let ghost r6 = r5.skip(elen);
    assert(forall|k: int| 0 <= k < r6.len() ==> r6[k] == s@[e_end + k]);
    if !(e_end < n && n - e_end == 1 && s[e_end] == 0x7d) {
        proof {
            if r6.len() == 1 && r6[0] == 0x7d {
                assert(false);
            }
        }
        return None;
    }
    assert(r6.len() == 1 && r6[0] == 0x7d);
    let c = Claims { sub: sub_vec, iat, exp };
    Some(c)
}

} // verus!

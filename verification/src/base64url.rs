//! Unpadded base64url coding of byte strings, the textual layer of the
//! compact token encoding.

use vstd::prelude::*;

verus! {

/// The alphabet byte for a six-bit value.
pub open spec fn b64_byte(v: u8) -> u8 {
    if v < 26 {
        (0x41 + v) as u8
    } else if v < 52 {
        (0x61 + (v - 26)) as u8
    } else if v < 62 {
        (0x30 + (v - 52)) as u8
    } else if v == 62 {
        0x2d
    } else {
        0x5f
    }
}

/// The six-bit value of an alphabet byte, if it is one.
pub open spec fn b64_val(b: u8) -> Option<u8> {
    if 0x41 <= b <= 0x5a {
        Some((b - 0x41) as u8)
    } else if 0x61 <= b <= 0x7a {
        Some((b - 0x61 + 26) as u8)
    } else if 0x30 <= b <= 0x39 {
        Some((b - 0x30 + 52) as u8)
    } else if b == 0x2d {
        Some(62u8)
    } else if b == 0x5f {
        Some(63u8)
    } else {
        None
    }
}

/// True of the bytes of the alphabet.
pub open spec fn is_b64_byte(b: u8) -> bool {
    b64_val(b) is Some
}

/// The alphabet inverts its values.
pub proof fn lemma_b64_byte_val(v: u8)
    requires
        v < 64,
    ensures
        b64_val(b64_byte(v)) == Some(v),
{
}

/// The unpadded base64url encoding of a byte string: full three-byte groups
/// from the front, then a two- or three-character tail.
pub open spec fn b64_of(s: Seq<u8>) -> Seq<u8>
    decreases s.len(),
{
    if s.len() == 0 {
        Seq::empty()
    } else if s.len() == 1 {
        seq![b64_byte((s[0] / 4) as u8), b64_byte(((s[0] % 4) * 16) as u8)]
    } else if s.len() == 2 {
        seq![
            b64_byte((s[0] / 4) as u8),
            b64_byte(((s[0] % 4) * 16 + s[1] / 16) as u8),
            b64_byte(((s[1] % 16) * 4) as u8),
        ]
    } else {
        seq![
            b64_byte((s[0] / 4) as u8),
            b64_byte(((s[0] % 4) * 16 + s[1] / 16) as u8),
            b64_byte(((s[1] % 16) * 4 + s[2] / 64) as u8),
            b64_byte((s[2] % 64) as u8),
        ] + b64_of(s.skip(3))
    }
}

/// What decoding yields: the bytes on a canonical encoding, nothing on
/// anything else (bad length, foreign byte, or trailing bits set).
pub open spec fn b64_decode(s: Seq<u8>) -> Option<Seq<u8>>
    decreases s.len(),
{
    if s.len() == 0 {
        Some(Seq::empty())
    } else if s.len() == 1 {
        None
    } else if s.len() == 2 {
        match (b64_val(s[0]), b64_val(s[1])) {
            (Some(v0), Some(v1)) => if v1 % 16 == 0 {
                Some(seq![(v0 * 4 + v1 / 16) as u8])
            } else {
                None
            },
            _ => None,
        }
    } else if s.len() == 3 {
        match (b64_val(s[0]), b64_val(s[1]), b64_val(s[2])) {
            (Some(v0), Some(v1), Some(v2)) => if v2 % 4 == 0 {
                Some(seq![(v0 * 4 + v1 / 16) as u8, ((v1 % 16) * 16 + v2 / 4) as u8])
            } else {
                None
            },
            _ => None,
        }
    } else {
        match (b64_val(s[0]), b64_val(s[1]), b64_val(s[2]), b64_val(s[3])) {
            (Some(v0), Some(v1), Some(v2), Some(v3)) => match b64_decode(s.skip(4)) {
                Some(rest) => Some(
                    seq![
                        (v0 * 4 + v1 / 16) as u8,
                        ((v1 % 16) * 16 + v2 / 4) as u8,
                        ((v2 % 4) * 64 + v3) as u8,
                    ] + rest,
                ),
                None => None,
            },
            _ => None,
        }
    }
}

/// Every byte of an encoding is an alphabet byte.
pub proof fn lemma_b64_of_alphabet(s: Seq<u8>)
    ensures
        forall|i: int| 0 <= i < b64_of(s).len() ==> is_b64_byte(#[trigger] b64_of(s)[i]),
    decreases s.len(),
{
    assert forall|v: u8| v < 64 implies is_b64_byte(#[trigger] b64_byte(v)) by {
        lemma_b64_byte_val(v);
    }
    if s.len() <= 2 {
    } else {
        lemma_b64_of_alphabet(s.skip(3));
        let chunk = seq![
            b64_byte((s[0] / 4) as u8),
            b64_byte(((s[0] % 4) * 16 + s[1] / 16) as u8),
            b64_byte(((s[1] % 16) * 4 + s[2] / 64) as u8),
            b64_byte((s[2] % 64) as u8),
        ];
        let rest = b64_of(s.skip(3));
        assert(b64_of(s) == chunk + rest);
        assert forall|i: int| 0 <= i < b64_of(s).len() implies is_b64_byte(
            #[trigger] b64_of(s)[i],
        ) by {
            if i < 4 {
                assert(b64_of(s)[i] == chunk[i]);
            } else {
                assert(b64_of(s)[i] == rest[i - 4]);
            }
        }
    }
}

/// The length of an encoding, from the length of the input.
pub proof fn lemma_b64_of_len(s: Seq<u8>)
    ensures
        s.len() % 3 == 0 ==> b64_of(s).len() == s.len() / 3 * 4,
        s.len() % 3 == 1 ==> b64_of(s).len() == s.len() / 3 * 4 + 2,
        s.len() % 3 == 2 ==> b64_of(s).len() == s.len() / 3 * 4 + 3,
    decreases s.len(),
{
    if s.len() >= 3 {
        lemma_b64_of_len(s.skip(3));
    }
}

/// Decoding inverts encoding.
pub proof fn lemma_b64_round_trip(s: Seq<u8>)
    ensures
        b64_decode(b64_of(s)) == Some(s),
    decreases s.len(),
{
    if s.len() == 0 {
        assert(b64_of(s) =~= Seq::<u8>::empty());
        assert(b64_decode(b64_of(s)) == Some(Seq::<u8>::empty()));
        assert(Seq::<u8>::empty() =~= s);
    } else if s.len() == 1 {
        let v0 = (s[0] / 4) as u8;
        let v1 = ((s[0] % 4) * 16) as u8;
        lemma_b64_byte_val(v0);
        lemma_b64_byte_val(v1);
        let e = b64_of(s);
        assert(e.len() == 2 && e[0] == b64_byte(v0) && e[1] == b64_byte(v1));
        assert(v1 % 16 == 0);
        assert(v0 * 4 + v1 / 16 == s[0]);
        assert(b64_decode(e) == Some(seq![s[0]]));
        assert(seq![s[0]] =~= s);
    } else if s.len() == 2 {
        let v0 = (s[0] / 4) as u8;
        let v1 = ((s[0] % 4) * 16 + s[1] / 16) as u8;
        let v2 = ((s[1] % 16) * 4) as u8;
        lemma_b64_byte_val(v0);
        lemma_b64_byte_val(v1);
        lemma_b64_byte_val(v2);
        let e = b64_of(s);
        assert(e.len() == 3 && e[0] == b64_byte(v0) && e[1] == b64_byte(v1) && e[2] == b64_byte(v2));
        assert(v2 % 4 == 0);
        assert(v1 / 16 == s[0] % 4 && v1 % 16 == s[1] / 16);
        assert(v0 * 4 + v1 / 16 == s[0]);
        assert((v1 % 16) * 16 + v2 / 4 == s[1]);
        assert(b64_decode(e) == Some(seq![s[0], s[1]]));
        assert(seq![s[0], s[1]] =~= s);
    } else {
        lemma_b64_round_trip(s.skip(3));
        let v0 = (s[0] / 4) as u8;
        let v1 = ((s[0] % 4) * 16 + s[1] / 16) as u8;
        let v2 = ((s[1] % 16) * 4 + s[2] / 64) as u8;
        let v3 = (s[2] % 64) as u8;
        lemma_b64_byte_val(v0);
        lemma_b64_byte_val(v1);
        lemma_b64_byte_val(v2);
        lemma_b64_byte_val(v3);
        let chunk = seq![b64_byte(v0), b64_byte(v1), b64_byte(v2), b64_byte(v3)];
        let e = b64_of(s);
        assert(e =~= chunk + b64_of(s.skip(3)));
        lemma_b64_of_len(s.skip(3));
        assert(e.len() >= 4);
        assert(e[0] == b64_byte(v0) && e[1] == b64_byte(v1) && e[2] == b64_byte(v2) && e[3]
            == b64_byte(v3));
        assert(e.skip(4) =~= b64_of(s.skip(3)));
        assert(v1 / 16 == s[0] % 4 && v1 % 16 == s[1] / 16);
        assert(v2 / 4 == s[1] % 16 && v2 % 4 == s[2] / 64);
        assert(v0 * 4 + v1 / 16 == s[0]);
        assert((v1 % 16) * 16 + v2 / 4 == s[1]);
        assert((v2 % 4) * 64 + v3 == s[2]);
        assert(b64_decode(e) == Some(seq![s[0], s[1], s[2]] + s.skip(3)));
        assert(seq![s[0], s[1], s[2]] + s.skip(3) =~= s);
    }
}

/// The alphabet byte for a six-bit value.
fn b64_byte_exec(v: u8) -> (r: u8)
    requires
        v < 64,
    ensures
        r == b64_byte(v),
{
    if v < 26 {
        0x41 + v
    } else if v < 52 {
        0x61 + (v - 26)
    } else if v < 62 {
        0x30 + (v - 52)
    } else if v == 62 {
        0x2d
    } else {
        0x5f
    }
}

/// The six-bit value of an alphabet byte, if it is one.
fn b64_val_exec(b: u8) -> (r: Option<u8>)
    ensures
        r == b64_val(b),
{
    if 0x41 <= b && b <= 0x5a {
        Some(b - 0x41)
    } else if 0x61 <= b && b <= 0x7a {
        Some(b - 0x61 + 26)
    } else if 0x30 <= b && b <= 0x39 {
        Some(b - 0x30 + 52)
    } else if b == 0x2d {
        Some(62)
    } else if b == 0x5f {
        Some(63)
    } else {
        None
    }
}

/// Unfolds one three-byte group of the encoding.
proof fn lemma_b64_of_step(s: Seq<u8>, i: int)
    requires
        0 <= i,
        i + 3 <= s.len(),
    ensures
        b64_of(s.skip(i)) == seq![
            b64_byte((s[i] / 4) as u8),
            b64_byte(((s[i] % 4) * 16 + s[i + 1] / 16) as u8),
            b64_byte(((s[i + 1] % 16) * 4 + s[i + 2] / 64) as u8),
            b64_byte((s[i + 2] % 64) as u8),
        ] + b64_of(s.skip(i + 3)),
{
    let t = s.skip(i);
    assert(t.len() == s.len() - i);
    assert(t[0] == s[i] && t[1] == s[i + 1] && t[2] == s[i + 2]);
    assert(t.skip(3) =~= s.skip(i + 3));
}

/// Encodes a byte string as unpadded base64url.
pub fn b64_encode(s: &[u8]) -> (r: Vec<u8>)
    ensures
        r@ == b64_of(s@),
{
    let n = s.len();
    let mut out: Vec<u8> = Vec::new();
    let mut i: usize = 0;
    assert(s@.skip(0) =~= s@);
    while n - i >= 3
        invariant
            0 <= i <= n,
            n == s@.len(),
            b64_of(s@) == out@ + b64_of(s@.skip(i as int)),
        decreases n - i,
    {
        proof {
            lemma_b64_of_step(s@, i as int);
        }
        let b0 = s[i];
        let b1 = s[i + 1];
        let b2 = s[i + 2];
        out.push(b64_byte_exec(b0 / 4));
        out.push(b64_byte_exec((b0 % 4) * 16 + b1 / 16));
        out.push(b64_byte_exec((b1 % 16) * 4 + b2 / 64));
        out.push(b64_byte_exec(b2 % 64));
        i = i + 3;
        assert(b64_of(s@) =~= out@ + b64_of(s@.skip(i as int)));
    }
    if i == n {
        assert(b64_of(s@.skip(i as int)) =~= Seq::<u8>::empty());
        assert(out@ =~= b64_of(s@));
    } else if i + 1 == n {
        let b0 = s[i];
        out.push(b64_byte_exec(b0 / 4));
        out.push(b64_byte_exec((b0 % 4) * 16));
        assert(s@.skip(i as int).len() == 1 && s@.skip(i as int)[0] == s@[i as int]);
        assert(out@ =~= b64_of(s@));
    } else {
        let b0 = s[i];
        let b1 = s[i + 1];
        out.push(b64_byte_exec(b0 / 4));
        out.push(b64_byte_exec((b0 % 4) * 16 + b1 / 16));
        out.push(b64_byte_exec((b1 % 16) * 4));
        assert(s@.skip(i as int).len() == 2 && s@.skip(i as int)[0] == s@[i as int] && s@.skip(
            i as int,
        )[1] == s@[i as int + 1]);
        assert(out@ =~= b64_of(s@));
    }
    out
}

/// Unfolds one four-character group of the decoding.
proof fn lemma_b64_decode_step(s: Seq<u8>, i: int)
    requires
        0 <= i,
        i + 4 <= s.len(),
    ensures
        b64_decode(s.skip(i)) == (match (
            b64_val(s[i]),
            b64_val(s[i + 1]),
            b64_val(s[i + 2]),
            b64_val(s[i + 3]),
        ) {
            (Some(v0), Some(v1), Some(v2), Some(v3)) => match b64_decode(s.skip(i + 4)) {
                Some(rest) => Some(
                    seq![
                        (v0 * 4 + v1 / 16) as u8,
                        ((v1 % 16) * 16 + v2 / 4) as u8,
                        ((v2 % 4) * 64 + v3) as u8,
                    ] + rest,
                ),
                None => None,
            },
            _ => None,
        }),
{
    let t = s.skip(i);
    assert(t.len() == s.len() - i);
    assert(t[0] == s[i] && t[1] == s[i + 1] && t[2] == s[i + 2] && t[3] == s[i + 3]);
    assert(t.skip(4) =~= s.skip(i + 4));
}

/// Decodes unpadded base64url; rejects exactly what `b64_decode` rejects.
pub fn b64_decode_exec(s: &[u8]) -> (r: Option<Vec<u8>>)
    ensures
        match r {
            Some(v) => b64_decode(s@) == Some(v@),
            None => b64_decode(s@) is None,
        },
{
    let n = s.len();
    let mut out: Vec<u8> = Vec::new();
    let mut i: usize = 0;
    assert(s@.skip(0) =~= s@);
    while n - i >= 4
        invariant
            0 <= i <= n,
            n == s@.len(),
            forall|t: Seq<u8>|
                b64_decode(s@.skip(i as int)) == Some(t) ==> b64_decode(s@) == Some(out@ + t),
            b64_decode(s@.skip(i as int)) is None ==> b64_decode(s@) is None,
        decreases n - i,
    {
        proof {
            lemma_b64_decode_step(s@, i as int);
        }
        let v0 = match b64_val_exec(s[i]) {
            Some(v) => v,
            None => {
                return None;
            },
        };
        let v1 = match b64_val_exec(s[i + 1]) {
            Some(v) => v,
            None => {
                return None;
            },
        };
        let v2 = match b64_val_exec(s[i + 2]) {
            Some(v) => v,
            None => {
                return None;
            },
        };
        let v3 = match b64_val_exec(s[i + 3]) {
            Some(v) => v,
            None => {
                return None;
            },
        };
        assert(v0 < 64 && v1 < 64 && v2 < 64 && v3 < 64);
        let ghost prev = out@;
        let b0 = v0 * 4 + v1 / 16;
        let b1 = (v1 % 16) * 16 + v2 / 4;
        let b2 = (v2 % 4) * 64 + v3;
        out.push(b0);
        out.push(b1);
        out.push(b2);
        proof {
            let chunk = seq![b0, b1, b2];
            assert(out@ =~= prev + chunk);
            assert forall|t: Seq<u8>|
                b64_decode(s@.skip(i as int + 4)) == Some(t) implies b64_decode(s@) == Some(
                out@ + t,
            ) by {
                assert(b64_decode(s@.skip(i as int)) == Some(chunk + t));
                assert(prev + (chunk + t) =~= (prev + chunk) + t);
            }
        }
        i = i + 4;
    }
    if i == n {
        proof {
            assert(b64_decode(s@.skip(i as int)) == Some(Seq::<u8>::empty()));
            assert(out@ + Seq::<u8>::empty() =~= out@);
        }
        Some(out)
    } else if i + 1 == n {
        assert(s@.skip(i as int).len() == 1);
        None
    } else if i + 2 == n {
        assert(s@.skip(i as int).len() == 2 && s@.skip(i as int)[0] == s@[i as int] && s@.skip(
            i as int,
        )[1] == s@[i as int + 1]);
        let v0 = match b64_val_exec(s[i]) {
            Some(v) => v,
            None => {
                return None;
            },
        };
        let v1 = match b64_val_exec(s[i + 1]) {
            Some(v) => v,
            None => {
                return None;
            },
        };
        if v1 % 16 != 0 {
            return None;
        }
        assert(v0 < 64 && v1 < 64);
        let ghost prev = out@;
        let b0 = v0 * 4 + v1 / 16;
        out.push(b0);
        proof {
            assert(b64_decode(s@.skip(i as int)) == Some(seq![b0]));
            assert(out@ =~= prev + seq![b0]);
        }
        Some(out)
    } else {
        assert(s@.skip(i as int).len() == 3 && s@.skip(i as int)[0] == s@[i as int] && s@.skip(
            i as int,
        )[1] == s@[i as int + 1] && s@.skip(i as int)[2] == s@[i as int + 2]);
        let v0 = match b64_val_exec(s[i]) {
            Some(v) => v,
            None => {
                return None;
            },
        };
        let v1 = match b64_val_exec(s[i + 1]) {
            Some(v) => v,
            None => {
                return None;
            },
        };
        let v2 = match b64_val_exec(s[i + 2]) {
            Some(v) => v,
            None => {
                return None;
            },
        };
        if v2 % 4 != 0 {
            return None;
        }
        assert(v0 < 64 && v1 < 64 && v2 < 64);
        let ghost prev = out@;
        let b0 = v0 * 4 + v1 / 16;
        let b1 = (v1 % 16) * 16 + v2 / 4;
        out.push(b0);
        out.push(b1);
        proof {
            assert(b64_decode(s@.skip(i as int)) == Some(seq![b0, b1]));
            assert(out@ =~= prev + seq![b0, b1]);
        }
        Some(out)
    }
}

} // verus!

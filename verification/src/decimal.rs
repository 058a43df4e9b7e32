//! Canonical decimal encoding of `u64` values, used by the claims encoding
//! and by the configuration loader.

use vstd::prelude::*;
use vstd::arithmetic::div_mod::lemma_fundamental_div_mod;

verus! {

/// True of an ASCII decimal digit byte.
pub open spec fn is_digit(b: u8) -> bool {
    0x30 <= b <= 0x39
}

/// The canonical decimal representation of `n`, most significant digit first.
pub open spec fn dec_of(n: nat) -> Seq<u8>
    decreases n,
{
    if n < 10 {
        seq![(0x30 + n) as u8]
    } else {
        dec_of(n / 10).push((0x30 + n % 10) as u8)
    }
}

/// The numeric value of a digit string.
pub open spec fn dec_val(s: Seq<u8>) -> nat
    decreases s.len(),
{
    if s.len() == 0 {
        0
    } else {
        (dec_val(s.drop_last()) * 10 + (s.last() - 0x30)) as nat
    }
}

/// True of the strings that are the canonical decimal of some `u64`:
/// at least one digit, no leading zero, value within range.
pub open spec fn canonical_dec(s: Seq<u8>) -> bool {
    &&& s.len() >= 1
    &&& forall|i: int| 0 <= i < s.len() ==> is_digit(#[trigger] s[i])
    &&& s.len() > 1 ==> s[0] != 0x30
    &&& dec_val(s) <= u64::MAX
}

/// What parsing a decimal string yields: the value on canonical input,
/// nothing otherwise.
pub open spec fn parse_dec(s: Seq<u8>) -> Option<u64> {
    if canonical_dec(s) {
        Some(dec_val(s) as u64)
    } else {
        None
    }
}

/// The encoding of any value is canonical and evaluates back to the value.
pub proof fn lemma_dec_of_canonical(n: nat)
    ensures
        dec_of(n).len() >= 1,
        forall|i: int| 0 <= i < dec_of(n).len() ==> is_digit(#[trigger] dec_of(n)[i]),
        n >= 1 ==> dec_of(n)[0] != 0x30,
        n < 10 ==> dec_of(n).len() == 1,
        dec_val(dec_of(n)) == n,
    decreases n,
{
    if n < 10 {
        let s = dec_of(n);
        assert(s =~= seq![(0x30 + n) as u8]);
        assert(s.drop_last() =~= Seq::<u8>::empty());
        assert(dec_val(s.drop_last()) == 0);
        assert(s.last() == (0x30 + n) as u8);
        assert(dec_val(s) == n);
    } else {
        lemma_dec_of_canonical(n / 10);
        lemma_fundamental_div_mod(n as int, 10);
        let p = dec_of(n / 10);
        let d = (0x30 + n % 10) as u8;
        let s = dec_of(n);
        assert(s =~= p.push(d));
        assert(s.drop_last() =~= p);
        assert(s.last() == d);
        assert(dec_val(s) == dec_val(p) * 10 + (d - 0x30));
        assert(forall|i: int| 0 <= i < s.len() ==> is_digit(#[trigger] s[i])) by {
            assert(forall|i: int| 0 <= i < p.len() ==> s[i] == p[i]);
        }
        assert(s[0] == p[0]);
    }
}

/// Appending one digit multiplies the value by ten and adds the digit.
pub proof fn lemma_dec_val_step(s: Seq<u8>, i: int)
    requires
        0 <= i < s.len(),
        is_digit(s[i]),
    ensures
        dec_val(s.take(i + 1)) == dec_val(s.take(i)) * 10 + (s[i] - 0x30),
{
    let t = s.take(i + 1);
    assert(t.len() == i + 1);
    assert(t.drop_last() =~= s.take(i));
    assert(t.last() == s[i]);
    assert(dec_val(t) == (dec_val(t.drop_last()) * 10 + (t.last() - 0x30)) as nat);
}

/// On digit strings the value never shrinks as the string grows.
pub proof fn lemma_dec_val_monotone(s: Seq<u8>, i: int, j: int)
    requires
        0 <= i <= j <= s.len(),
        forall|k: int| 0 <= k < s.len() ==> is_digit(#[trigger] s[k]),
    ensures
        dec_val(s.take(i)) <= dec_val(s.take(j)),
    decreases j - i,
{
    if i < j {
        lemma_dec_val_monotone(s, i, j - 1);
        lemma_dec_val_step(s, j - 1);
    }
}

/// Writes the canonical decimal of `n` onto the end of `out`.
fn push_dec(n: u64, out: &mut Vec<u8>)
    ensures
        final(out)@ == old(out)@ + dec_of(n as nat),
    decreases n,
{
    if n < 10 {
        out.push(0x30 + (n as u8));
        assert(final(out)@ =~= old(out)@ + dec_of(n as nat));
    } else {
        assert(n / 10 < n && n / 10 >= 1) by (nonlinear_arith)
            requires n >= 10;
        push_dec(n / 10, out);
        out.push(0x30 + ((n % 10) as u8));
        assert(final(out)@ =~= old(out)@ + dec_of(n as nat));
    }
}

/// The canonical decimal representation of `n` as bytes.
pub fn u64_to_dec(n: u64) -> (r: Vec<u8>)
    ensures
        r@ == dec_of(n as nat),
{
    let mut out: Vec<u8> = Vec::new();
    push_dec(n, &mut out);
    assert(out@ =~= dec_of(n as nat));
    out
}

/// Parses a canonical decimal string; rejects everything else.
pub fn parse_u64(s: &[u8]) -> (r: Option<u64>)
    ensures
        r == parse_dec(s@),
{
    let n = s.len();
    if n == 0 {
        return None;
    }
    if n > 1 && s[0] == 0x30 {
        return None;
    }
    let max_div: u64 = 1844674407370955161;
    let mut acc: u64 = 0;
    let mut i: usize = 0;
    while i < n
        invariant
            0 <= i <= n,
            n == s@.len(),
            n >= 1,
            n > 1 ==> s@[0] != 0x30,
            max_div == 1844674407370955161,
            forall|k: int| 0 <= k < i ==> is_digit(#[trigger] s@[k]),
            acc == dec_val(s@.take(i as int)),
        decreases n - i,
    {
        let b = s[i];
        if b < 0x30 || b > 0x39 {
            return None;
        }
        let d = b - 0x30;
        if acc > max_div || (acc == max_div && d > 5) {
            proof {
                lemma_dec_val_step(s@, i as int);
                assert(dec_val(s@.take(i as int)) * 10 + (s@[i as int] - 0x30) > u64::MAX);
                if canonical_dec(s@) {
                    lemma_dec_val_monotone(s@, i as int + 1, n as int);
                    assert(s@.take(n as int) =~= s@);
                }
            }
            return None;
        }
        proof {
            lemma_dec_val_step(s@, i as int);
            assert(acc * 10 + d <= u64::MAX);
        }
        acc = acc * 10 + (d as u64);
        i = i + 1;
    }
    proof {
        assert(s@.take(n as int) =~= s@);
    }
    Some(acc)
}

/// What parsing a decimal as `u32` yields.
pub open spec fn parse_dec_u32(s: Seq<u8>) -> Option<u32> {
    match parse_dec(s) {
        Some(v) => if v <= u32::MAX {
            Some(v as u32)
        } else {
            None
        },
        None => None,
    }
}

/// What parsing a decimal as `usize` yields.
pub open spec fn parse_dec_usize(s: Seq<u8>) -> Option<usize> {
    match parse_dec(s) {
        Some(v) => if v <= usize::MAX {
            Some(v as usize)
        } else {
            None
        },
        None => None,
    }
}

/// Parses a canonical decimal that fits in `u32`.
pub fn parse_u32(s: &[u8]) -> (r: Option<u32>)
    ensures
        r == parse_dec_u32(s@),
{
    match parse_u64(s) {
        Some(v) => if v <= 0xFFFFFFFFu64 {
            Some(v as u32)
        } else {
            None
        },
        None => None,
    }
}

/// Parses a canonical decimal that fits in `usize`.
pub fn parse_usize(s: &[u8]) -> (r: Option<usize>)
    ensures
        r == parse_dec_usize(s@),
{
    match parse_u64(s) {
        Some(v) => if v <= usize::MAX as u64 {
            Some(v as usize)
        } else {
            None
        },
        None => None,
    }
}

} // verus!

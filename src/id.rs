//! Node identifiers: hexadecimal text to 64-bit integers.
use vstd::prelude::*;

use crate::error::DecodeError;

verus! {

/// The identifier of a node. `0` stands for a node without an `id` field.
#[derive(Debug, Clone, Copy, PartialEq, Eq, Structural, Hash, PartialOrd, Ord)]
pub struct Id(pub u64);

/// Value of one hex digit, or -1 for any other byte.
pub open spec fn hex_digit_value(c: u8) -> int {
    if 48 <= c <= 57 {
        c - 48
    } else if 97 <= c <= 102 {
        c - 97 + 10
    } else if 65 <= c <= 70 {
        c - 65 + 10
    } else {
        -1
    }
}

pub open spec fn is_hex_digit(c: u8) -> bool {
    hex_digit_value(c) >= 0
}

/// The number that a sequence of hex digits denotes, most significant first.
pub open spec fn hex_value(d: Seq<u8>) -> nat
    decreases d.len(),
{
    if d.len() == 0 {
        0
    } else {
        hex_value(d.drop_last()) * 16 + hex_digit_value(d.last()) as nat
    }
}

pub open spec fn has_hex_prefix(t: Seq<u8>) -> bool {
    t.len() >= 2 && t[0] == 48 && (t[1] == 120 || t[1] == 88)
}

/// The digits of an identifier text, after an optional `0x` / `0X`.
pub open spec fn id_digits(t: Seq<u8>) -> Seq<u8> {
    if has_hex_prefix(t) {
        t.subrange(2, t.len() as int)
    } else {
        t
    }
}

/// An identifier text is valid when its digits are non-empty, all hex, and
/// denote a number that fits in 64 bits.
pub open spec fn id_text_valid(t: Seq<u8>) -> bool {
    let d = id_digits(t);
    &&& d.len() > 0
    &&& forall|i: int| 0 <= i < d.len() ==> is_hex_digit(#[trigger] d[i])
    &&& hex_value(d) <= u64::MAX
}

/// The hex digit for `v < 16`, in lowercase or uppercase.
pub open spec fn hex_digit(v: nat, upper: bool) -> u8 {
    if v < 10 {
        (48 + v) as u8
    } else if upper {
        (65 + v - 10) as u8
    } else {
        (97 + v - 10) as u8
    }
}

/// The shortest hex text of `x`, without prefix, in the given letter case.
pub open spec fn hex_text(x: nat, upper: bool) -> Seq<u8>
    decreases x,
{
    if x < 16 {
        seq![hex_digit(x, upper)]
    } else {
        hex_text(x / 16, upper).push(hex_digit(x % 16, upper))
    }
}

pub open spec fn prefixed(t: Seq<u8>, upper: bool) -> Seq<u8> {
    seq![48u8, if upper { 88u8 } else { 120u8 }] + t
}

fn digit_value(c: u8) -> (r: Option<u64>)
    ensures
        match r {
            Some(v) => is_hex_digit(c) && v == hex_digit_value(c),
            None => !is_hex_digit(c),
        },
{
    if 48 <= c && c <= 57 {
        Some((c - 48) as u64)
    } else if 97 <= c && c <= 102 {
        Some((c - 97 + 10) as u64)
    } else if 65 <= c && c <= 70 {
        Some((c - 65 + 10) as u64)
    } else {
        None
    }
}

proof fn lemma_hex_value_grows(d: Seq<u8>, n: int)
    requires
        0 <= n <= d.len(),
        forall|i: int| 0 <= i < d.len() ==> is_hex_digit(#[trigger] d[i]),
    ensures
        hex_value(d.subrange(0, n)) <= hex_value(d),
    decreases d.len() - n,
{
    if n < d.len() {
        let e = d.subrange(0, n + 1);
        assert(e.drop_last() =~= d.subrange(0, n));
        assert(e.last() == d[n]);
        lemma_hex_value_grows(d, n + 1);
    } else {
        assert(d.subrange(0, n) =~= d);
    }
}

/// Decodes an identifier text: hex digits, any letter case, optionally
/// prefixed by `0x`.
pub fn parse_id(t: &Vec<u8>) -> (r: Result<Id, DecodeError>)
    ensures
        match r {
            Ok(id) => id_text_valid(t@) && id.0 == hex_value(id_digits(t@)),
            Err(e) => !id_text_valid(t@) && e == DecodeError::MalformedIdentifier,
        },
{
    let start: usize = if t.len() >= 2 && t[0] == 48 && (t[1] == 120 || t[1] == 88) {
        2
    } else {
        0
    };
    let ghost d = id_digits(t@);
    assert(d =~= t@.subrange(start as int, t@.len() as int));
    if start >= t.len() {
        return Err(DecodeError::MalformedIdentifier);
    }
    let mut acc: u64 = 0;
    let mut i: usize = start;
    while i < t.len()
        invariant
            start <= i <= t.len(),
            d == t@.subrange(start as int, t@.len() as int),
            d == id_digits(t@),
            forall|k: int| 0 <= k < i - start ==> is_hex_digit(#[trigger] d[k]),
            acc == hex_value(d.subrange(0, i - start)),
        decreases t.len() - i,
    {
        let ghost n = i - start;
        assert(d.subrange(0, n + 1).drop_last() =~= d.subrange(0, n));
        assert(d[n] == t@[i as int]);
        assert(d.subrange(0, n + 1).last() == d[n]);
        match digit_value(t[i]) {
            None => {
                assert(!is_hex_digit(d[n]));
                assert(!id_text_valid(t@));
                return Err(DecodeError::MalformedIdentifier);
            },
            Some(v) => {
                if acc > (u64::MAX - v) / 16 {
                    proof {
                        assert(acc * 16 + v > u64::MAX) by (nonlinear_arith)
                            requires acc > (u64::MAX - v) / 16, v <= 15;
                        if forall|k: int| 0 <= k < d.len() ==> is_hex_digit(#[trigger] d[k]) {
                            lemma_hex_value_grows(d, n + 1);
                        }
                        assert(!id_text_valid(t@));
                    }
                    return Err(DecodeError::MalformedIdentifier);
                }
                proof {
                    assert(acc * 16 + v <= u64::MAX) by (nonlinear_arith)
                        requires acc <= (u64::MAX - v) / 16, v <= 15;
                }
                acc = acc * 16 + v;
                i = i + 1;
            },
        }
    }
    assert(d.subrange(0, d.len() as int) =~= d);
    Ok(Id(acc))
}

proof fn lemma_hex_text(x: nat, upper: bool)
    ensures
        hex_text(x, upper).len() > 0,
        forall|i: int|
            0 <= i < hex_text(x, upper).len() ==> is_hex_digit(#[trigger] hex_text(x, upper)[i]),
        hex_value(hex_text(x, upper)) == x,
    decreases x,
{
    let t = hex_text(x, upper);
    assert(hex_digit_value(hex_digit(x % 16, upper)) == x % 16);
    if x < 16 {
        assert(t.drop_last() =~= Seq::<u8>::empty());
        assert(hex_value(Seq::<u8>::empty()) == 0);
    } else {
        assert(x == (x / 16) * 16 + x % 16);
        lemma_hex_text(x / 16, upper);
        assert(t.drop_last() =~= hex_text(x / 16, upper));
        assert forall|i: int| 0 <= i < t.len() implies is_hex_digit(#[trigger] t[i]) by {
            if i < t.len() - 1 {
                assert(t[i] == hex_text(x / 16, upper)[i]);
            }
        }
    }
}

/// Identifiers survive a trip through hex text: the shortest hex text of any
/// 64-bit integer, in lowercase or uppercase, with or without a `0x` / `0X`
/// prefix, is a valid identifier text that decodes to that integer.
pub proof fn lemma_id_text_round_trip(x: u64, upper: bool, prefix_upper: bool)
    ensures
        id_text_valid(hex_text(x as nat, upper)),
        hex_value(id_digits(hex_text(x as nat, upper))) == x,
        id_text_valid(prefixed(hex_text(x as nat, upper), prefix_upper)),
        hex_value(id_digits(prefixed(hex_text(x as nat, upper), prefix_upper))) == x,
{
    let t = hex_text(x as nat, upper);
    lemma_hex_text(x as nat, upper);
    if t.len() >= 2 {
        assert(is_hex_digit(t[1]));
    }
    assert(id_digits(t) == t);
    let p = prefixed(t, prefix_upper);
    assert(p.subrange(2, p.len() as int) =~= t);
}

} // verus!

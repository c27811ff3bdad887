//! Decimal numbers as they stand in header values.

use vstd::prelude::*;
use crate::text::{byte_is_digit, is_ascii, is_digit};

verus! {

/// Every byte of `s` is a decimal digit.
pub open spec fn all_digits(s: Seq<u8>) -> bool {
    forall|i: int| 0 <= i < s.len() ==> is_digit(#[trigger] s[i])
}

/// The number that the digit string `s` denotes, most significant digit
/// first. The empty string denotes zero.
pub open spec fn decimal_value(s: Seq<u8>) -> nat
    decreases s.len(),
{
    if s.len() == 0 {
        0
    } else {
        (decimal_value(s.drop_last()) * 10 + (s.last() - '0' as u8)) as nat
    }
}

/// The digits of a number text: the text itself, without one leading `+`.
pub open spec fn unsigned_digits(s: Seq<u8>) -> Seq<u8> {
    if s.len() > 0 && s[0] == '+' as u8 {
        s.drop_first()
    } else {
        s
    }
}

/// What an unsigned number text denotes: an optional `+`, then one or more
/// decimal digits whose value does not exceed `max`. Everything else denotes
/// nothing.
pub open spec fn parse_decimal(s: Seq<u8>, max: nat) -> Option<nat> {
    let d = unsigned_digits(s);
    if d.len() > 0 && all_digits(d) && decimal_value(d) <= max {
        Some(decimal_value(d))
    } else {
        None
    }
}

/// The decimal digits of `n`, without leading zeros; `0` is written "0".
pub open spec fn decimal_digits(n: nat) -> Seq<u8>
    decreases n,
{
    if n < 10 {
        seq![('0' as u8 + n) as u8]
    } else {
        decimal_digits(n / 10).push(('0' as u8 + n % 10) as u8)
    }
}

/// A prefix of a digit string denotes no more than the whole string.
pub proof fn lemma_decimal_prefix(s: Seq<u8>, k: int)
    requires
        0 <= k <= s.len(),
        all_digits(s),
    ensures
        decimal_value(s.take(k)) <= decimal_value(s),
    decreases s.len() - k,
{
    if k == s.len() {
        assert(s.take(k) =~= s);
    } else {
        lemma_decimal_prefix(s.drop_last(), k);
        assert(s.drop_last().take(k) =~= s.take(k));
        assert(is_digit(s.last()));
    }
}

/// The digits written for a number are digits, and are ASCII.
pub proof fn lemma_decimal_digits_are_digits(n: nat)
    ensures
        decimal_digits(n).len() > 0,
        all_digits(decimal_digits(n)),
        is_ascii(decimal_digits(n)),
        n > 0 ==> decimal_digits(n)[0] != '0' as u8,
    decreases n,
{
    if n >= 10 {
        lemma_decimal_digits_are_digits(n / 10);
        let d = decimal_digits(n / 10);
        let e = decimal_digits(n);
        assert forall|i: int| 0 <= i < e.len() implies is_digit(#[trigger] e[i]) by {
            if i < d.len() {
                assert(e[i] == d[i]);
                assert(is_digit(d[i]));
            }
        }
        assert forall|i: int| 0 <= i < e.len() implies #[trigger] e[i] < 128 by {
            assert(is_digit(e[i]));
        }
        assert(e[0] == d[0]);
    }
}

/// Writing a number and reading the digits back gives the number.
pub proof fn lemma_decimal_round_trip(n: nat)
    ensures
        decimal_value(decimal_digits(n)) == n,
    decreases n,
{
    if n < 10 {
        let e = decimal_digits(n);
        assert(e.drop_last() =~= Seq::<u8>::empty());
        assert(decimal_value(e.drop_last()) == 0);
    } else {
        lemma_decimal_round_trip(n / 10);
        let e = decimal_digits(n);
        assert(e.drop_last() =~= decimal_digits(n / 10));
    }
}

/// A written number, read as a number text, denotes that number.
pub proof fn lemma_format_then_parse(n: nat, max: nat)
    requires
        n <= max,
    ensures
        parse_decimal(decimal_digits(n), max) == Some(n),
{
    lemma_decimal_digits_are_digits(n);
    lemma_decimal_round_trip(n);
    let e = decimal_digits(n);
    assert(is_digit(e[0]));
    assert(unsigned_digits(e) == e);
}

/// Reads an unsigned number text with a value of at most `max`.
pub fn parse_number(s: &[u8], max: u64) -> (r: Option<u64>)
    ensures
        match r {
            Some(n) => parse_decimal(s@, max as nat) == Some(n as nat),
            None => parse_decimal(s@, max as nat) is None,
        },
{
    let n = s.len();
    let mut i: usize = 0;
    if n > 0 && s[0] == '+' as u8 {
        i = 1;
    }
    let start = i;
    let ghost d = unsigned_digits(s@);
    assert(d =~= s@.skip(start as int));
    if i == n {
        return None;
    }
    let mut acc: u64 = 0;
    assert(d.take(0) =~= Seq::<u8>::empty());
    while i < n
        invariant
            start <= i <= n,
            n == s@.len(),
            d == s@.skip(start as int),
            d == unsigned_digits(s@),
            acc == decimal_value(d.take(i - start)),
            acc <= max,
            forall|j: int| 0 <= j < i - start ==> is_digit(#[trigger] d[j]),
        decreases n - i,
    {
        let b: u8 = s[i];
        assert(d[i - start] == b);
        if !byte_is_digit(b) {
            assert(!all_digits(d));
            return None;
        }
        let v: u64 = (b - '0' as u8) as u64;
        proof {
            assert(d.take(i - start + 1).drop_last() =~= d.take(i - start));
            assert(d.take(i - start + 1).last() == b);
        }
        if v > max || acc > (max - v) / 10 {
            proof {
                assert(acc * 10 + v > max);
                if all_digits(d) {
                    lemma_decimal_prefix(d, i - start + 1);
                }
            }
            return None;
        }
        acc = acc * 10 + v;
        i += 1;
    }
    proof {
        assert(d.take(n - start) =~= d);
    }
    Some(acc)
}

/// Reads an unsigned 64-bit number text.
pub fn parse_u64(s: &[u8]) -> (r: Option<u64>)
    ensures
        match r {
            Some(n) => parse_decimal(s@, u64::MAX as nat) == Some(n as nat),
            None => parse_decimal(s@, u64::MAX as nat) is None,
        },
{
    parse_number(s, u64::MAX)
}

/// Reads an unsigned 32-bit number text.
pub fn parse_u32(s: &[u8]) -> (r: Option<u32>)
    ensures
        match r {
            Some(n) => parse_decimal(s@, u32::MAX as nat) == Some(n as nat),
            None => parse_decimal(s@, u32::MAX as nat) is None,
        },
{
    match parse_number(s, 0xffff_ffff) {
        Some(n) => Some(n as u32),
        None => None,
    }
}

/// Appends the decimal digits of `n` to `out`.
pub fn push_decimal(out: &mut Vec<u8>, n: u64)
    ensures
        final(out)@ == old(out)@ + decimal_digits(n as nat),
    decreases n,
{
    if n >= 10 {
        push_decimal(out, n / 10);
    }
    out.push('0' as u8 + (n % 10) as u8);
}

/// The decimal digits of `n`.
pub fn format_u64(n: u64) -> (r: Vec<u8>)
    ensures
        r@ == decimal_digits(n as nat),
{
    let mut out: Vec<u8> = Vec::new();
    push_decimal(&mut out, n);
    out
}

} // verus!

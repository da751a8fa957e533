//! Integers written and read in decimal.

use vstd::prelude::*;
use crate::text::{from_chars, skip_space_backward, skip_space_forward, to_chars, trim};

verus! {

/// The character of the digit `d`.
pub open spec fn digit_char(d: int) -> char
    recommends
        0 <= d <= 9,
{
    ((0x30 + d) as u8) as char
}

/// Whether `c` is one of `0` to `9`.
pub open spec fn is_digit(c: char) -> bool {
    0x30 <= c as u32 <= 0x39
}

/// The value of the digit `c`.
pub open spec fn digit_value(c: char) -> int
    recommends
        is_digit(c),
{
    (c as u32) - 0x30
}

/// The digits of `n`, most significant first, without leading zeros.
pub open spec fn decimal_digits(n: nat) -> Seq<char>
    decreases n,
{
    if n < 10 {
        seq![digit_char(n as int)]
    } else {
        decimal_digits(n / 10).push(digit_char((n % 10) as int))
    }
}

/// `n` in decimal, with a minus sign where it is negative.
pub open spec fn decimal(n: int) -> Seq<char> {
    if n < 0 {
        seq!['-'] + decimal_digits((-n) as nat)
    } else {
        decimal_digits(n as nat)
    }
}

/// Whether `s` consists of digits only.
pub open spec fn all_digits(s: Seq<char>) -> bool {
    forall|i: int| 0 <= i < s.len() ==> is_digit(#[trigger] s[i])
}

/// The number that the digits of `s` write.
pub open spec fn digits_value(s: Seq<char>) -> nat
    decreases s.len(),
{
    if s.len() == 0 {
        0
    } else {
        (digits_value(s.drop_last()) * 10 + digit_value(s.last())) as nat
    }
}

/// The digits of `s` once a leading sign is taken off.
pub open spec fn unsigned_part(s: Seq<char>) -> Seq<char> {
    if s.len() > 0 && (s[0] == '-' || s[0] == '+') {
        s.drop_first()
    } else {
        s
    }
}

/// The 64-bit signed integer that `s` writes: an optional `+` or `-`, then
/// one digit or more and nothing else, with a value in range.
pub open spec fn parse_decimal(s: Seq<char>) -> Option<i64> {
    let body = unsigned_part(s);
    let value = if s.len() > 0 && s[0] == '-' {
        -(digits_value(body) as int)
    } else {
        digits_value(body) as int
    };
    if body.len() > 0 && all_digits(body) && i64::MIN <= value <= i64::MAX {
        Some(value as i64)
    } else {
        None
    }
}

/// The low-order digits gathered so far, read backwards.
spec fn reversed(buf: Seq<char>) -> Seq<char> {
    Seq::new(buf.len(), |j: int| buf[buf.len() - 1 - j])
}

/// Appends the decimal digits of `n` to `out`.
pub fn push_decimal(out: &mut String, n: u64)
    ensures
        final(out)@ == old(out)@ + decimal_digits(n as nat),
{
    let mut buf: Vec<char> = Vec::new();
    let mut m: u64 = n;
    proof {
        assert(decimal_digits(m as nat) + reversed(buf@) == decimal_digits(n as nat));
    }
    while m >= 10
        invariant
            decimal_digits(n as nat) == decimal_digits(m as nat) + reversed(buf@),
        decreases m,
    {
        let d: u8 = (m % 10) as u8;
        let ghost before = buf@;
        buf.push((0x30 + d) as char);
        proof {
            let c = digit_char((m % 10) as int);
            assert(reversed(buf@) == seq![c] + reversed(before));
            assert(decimal_digits((m / 10) as nat).push(c) + reversed(before) == decimal_digits(
                (m / 10) as nat,
            ) + (seq![c] + reversed(before)));
        }
        m = m / 10;
    }
    let ghost before = buf@;
    buf.push((0x30 + (m as u8)) as char);
    proof {
        let c = digit_char(m as int);
        assert(reversed(buf@) == seq![c] + reversed(before));
        assert(decimal_digits(n as nat) == reversed(buf@));
    }
    let mut i: usize = buf.len();
    while i > 0
        invariant
            i <= buf@.len(),
            out@ == old(out)@ + reversed(buf@).subrange(0, buf@.len() - i),
        decreases i,
    {
        i = i - 1;
        out.push(buf[i]);
        proof {
            let r = reversed(buf@);
            assert(r.subrange(0, buf@.len() - i) == r.subrange(0, buf@.len() - i - 1).push(
                buf@[i as int],
            ));
        }
    }
    proof {
        assert(reversed(buf@).subrange(0, buf@.len() as int) == reversed(buf@));
    }
}

/// The distance of `n` from zero.
pub fn magnitude_of(n: i64) -> (m: u64)
    ensures
        m == (if n < 0 { -(n as int) } else { n as int }),
{
    if n < 0 {
        ((-(n + 1)) as u64) + 1
    } else {
        n as u64
    }
}

/// Appends `n` in decimal to `out`.
pub fn push_signed_decimal(out: &mut String, n: i64)
    ensures
        final(out)@ == old(out)@ + decimal(n as int),
{
    if n < 0 {
        out.push('-');
        push_decimal(out, magnitude_of(n));
        proof {
            let digits = decimal_digits((-(n as int)) as nat);
            assert(old(out)@.push('-') + digits == old(out)@ + (seq!['-'] + digits));
        }
    } else {
        push_decimal(out, n as u64);
    }
}

/// `n` in decimal.
pub fn signed_decimal(n: i64) -> (out: String)
    ensures
        out@ == decimal(n as int),
{
    let mut out: String = String::new();
    push_signed_decimal(&mut out, n);
    proof {
        assert(Seq::<char>::empty() + decimal(n as int) == decimal(n as int));
    }
    out
}

/// More digits never write a smaller number.
proof fn lemma_prefix_value(s: Seq<char>, j: int)
    requires
        0 <= j <= s.len(),
        all_digits(s),
    ensures
        digits_value(s.subrange(0, j)) <= digits_value(s),
    decreases s.len(),
{
    if j == s.len() {
        assert(s.subrange(0, j) == s);
    } else {
        assert(s.drop_last().subrange(0, j) == s.subrange(0, j));
        assert(is_digit(s.last()));
        lemma_prefix_value(s.drop_last(), j);
    }
}

/// The integer that `chars[lo..hi]` writes, if it writes one.
pub fn parse_window(chars: &Vec<char>, lo: usize, hi: usize) -> (parsed: Option<i64>)
    requires
        lo <= hi <= chars@.len(),
    ensures
        parsed == parse_decimal(chars@.subrange(lo as int, hi as int)),
{
    let ghost s = chars@.subrange(lo as int, hi as int);
    if lo == hi {
        return None;
    }
    assert(s[0] == chars@[lo as int]);
    let negative: bool = chars[lo] == '-';
    let start: usize = if negative || chars[lo] == '+' {
        lo + 1
    } else {
        lo
    };
    let ghost body = unsigned_part(s);
    assert(body == chars@.subrange(start as int, hi as int));
    if start == hi {
        return None;
    }
    let limit: u64 = if negative {
        0x8000_0000_0000_0000
    } else {
        0x7fff_ffff_ffff_ffff
    };
    let mut acc: u64 = 0;
    let mut i: usize = start;
    while i < hi
        invariant
            lo <= start <= i <= hi <= chars@.len(),
            s == chars@.subrange(lo as int, hi as int),
            body == unsigned_part(s),
            negative == (s.len() > 0 && s[0] == '-'),
            limit == (if negative { 0x8000_0000_0000_0000u64 } else { 0x7fff_ffff_ffff_ffffu64 }),
            body == chars@.subrange(start as int, hi as int),
            all_digits(body.subrange(0, i - start)),
            acc == digits_value(body.subrange(0, i - start)),
            acc <= limit,
            limit <= 0x8000_0000_0000_0000,
        decreases hi - i,
    {
        let c: char = chars[i];
        let u: u32 = c as u32;
        let ghost prefix = body.subrange(0, i - start);
        let ghost longer = body.subrange(0, i - start + 1);
        proof {
            assert(body[i - start] == c);
            assert(longer.drop_last() == prefix);
            assert(longer.last() == c);
        }
        if u < 0x30 || u > 0x39 {
            proof {
                assert(!is_digit(body[i - start]));
            }
            return None;
        }
        let d: u64 = (u - 0x30) as u64;
        let next: u128 = (acc as u128) * 10 + (d as u128);
        proof {
            assert(next == digits_value(longer));
            assert forall|j: int| 0 <= j < longer.len() implies is_digit(#[trigger] longer[j]) by {
                if j < prefix.len() {
                    assert(longer[j] == prefix[j]);
                }
            }
        }
        if next > limit as u128 {
            proof {
                if all_digits(body) {
                    lemma_prefix_value(body, i - start + 1);
                }
            }
            return None;
        }
        acc = next as u64;
        i = i + 1;
    }
    proof {
        assert(body.subrange(0, hi - start) == body);
    }
    if negative {
        if acc == 0x8000_0000_0000_0000 {
            Some(i64::MIN)
        } else {
            Some(-(acc as i64))
        }
    } else {
        Some(acc as i64)
    }
}

/// The integer that `s` writes, if it writes one: see [`parse_decimal`].
pub fn parse_i64(s: &str) -> (parsed: Option<i64>)
    ensures
        parsed == parse_decimal(s@),
{
    let chars = to_chars(s);
    proof {
        assert(chars@.subrange(0, chars@.len() as int) == chars@);
    }
    parse_window(&chars, 0, chars.len())
}

/// The digits of a number are digits, and write that number.
pub proof fn lemma_digits_of(n: nat)
    ensures
        decimal_digits(n).len() > 0,
        all_digits(decimal_digits(n)),
        digits_value(decimal_digits(n)) == n,
    decreases n,
{
    let s = decimal_digits(n);
    if n < 10 {
        assert(s.drop_last() == Seq::<char>::empty());
        assert(s.last() == digit_char(n as int));
        assert(digits_value(s.drop_last()) == 0);
    } else {
        lemma_digits_of(n / 10);
        assert(s.drop_last() == decimal_digits(n / 10));
        assert(s.last() == digit_char((n % 10) as int));
        assert forall|i: int| 0 <= i < s.len() implies is_digit(#[trigger] s[i]) by {
            if i < s.len() - 1 {
                assert(s[i] == decimal_digits(n / 10)[i]);
            }
        }
    }
}

/// Reading what was written gives the number back.
pub proof fn lemma_decimal_round_trip(n: i64)
    ensures
        parse_decimal(decimal(n as int)) == Some(n),
{
    let s = decimal(n as int);
    if n < 0 {
        let digits = decimal_digits((-(n as int)) as nat);
        lemma_digits_of((-(n as int)) as nat);
        assert(s[0] == '-');
        assert(s.drop_first() == digits);
    } else {
        lemma_digits_of(n as nat);
        assert(is_digit(s[0]));
    }
}

/// `n` in decimal.
pub fn unsigned_decimal(n: u64) -> (out: String)
    ensures
        out@ == decimal_digits(n as nat),
{
    let mut out: String = String::new();
    push_decimal(&mut out, n);
    proof {
        assert(Seq::<char>::empty() + decimal_digits(n as nat) == decimal_digits(n as nat));
    }
    out
}

} // verus!

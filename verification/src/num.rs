//! Decimal numbers as text, both ways.

use vstd::prelude::*;
use crate::text::push_char;

verus! {

/// The ASCII digit for `d < 10`.
pub open spec fn digit_char(d: nat) -> char {
    ((48 + d) as u8) as char
}

/// The decimal digits of `n`, without sign or leading zeros.
pub open spec fn dec_s(n: nat) -> Seq<char>
    decreases n,
{
    if n < 10 {
        seq![digit_char(n)]
    } else {
        dec_s(n / 10).push(digit_char(n % 10))
    }
}

/// The decimal form of the integer `n`, with a `-` before a negative one.
pub open spec fn int_s(n: int) -> Seq<char> {
    if n < 0 {
        seq!['-'] + dec_s((-n) as nat)
    } else {
        dec_s(n as nat)
    }
}

/// Append the decimal digits of `n`.
pub fn push_dec(out: &mut String, n: u128)
    ensures
        final(out)@ == old(out)@ + dec_s(n as nat),
    decreases n,
{
    if n >= 10 {
        push_dec(out, n / 10);
    }
    let d = (n % 10) as u8;
    push_char(out, (48u8 + d) as char);
    assert(final(out)@ =~= old(out)@ + dec_s(n as nat));
}

/// The decimal form of `n`.
pub fn dec_u64(n: u64) -> (r: String)
    ensures
        r@ == dec_s(n as nat),
{
    let mut r = String::new();
    push_dec(&mut r, n as u128);
    assert(r@ =~= dec_s(n as nat));
    r
}

/// The decimal form of `n`, with a `-` before a negative one.
pub fn dec_i64(n: i64) -> (r: String)
    ensures
        r@ == int_s(n as int),
{
    let mut r = String::new();
    if n < 0 {
        push_char(&mut r, '-');
        let m: i128 = -(n as i128);
        push_dec(&mut r, m as u128);
    } else {
        push_dec(&mut r, n as u128);
    }
    assert(r@ =~= int_s(n as int));
    r
}

/// An ASCII decimal digit.
pub open spec fn is_digit(c: char) -> bool {
    '0' <= c && c <= '9'
}

/// The value of the decimal digits `s` (most significant first).
pub open spec fn digits_value(s: Seq<char>) -> nat
    decreases s.len(),
{
    if s.len() == 0 {
        0
    } else {
        digits_value(s.drop_last()) * 10 + ((s.last() as u32) - 48) as nat
    }
}

/// `s.parse::<i64>()` for a string of ASCII digits: its value, or `None`
/// when it is empty or too large.
pub open spec fn parse_digits_s(s: Seq<char>) -> Option<int> {
    if s.len() == 0 || digits_value(s) > i64::MAX {
        None
    } else {
        Some(digits_value(s) as int)
    }
}

/// Larger digit strings are worth at least as much.
proof fn lemma_digits_grow(s: Seq<char>, c: char)
    requires
        is_digit(c),
    ensures
        digits_value(s.push(c)) >= digits_value(s),
{
    assert(s.push(c).drop_last() =~= s);
}

/// A prefix of a digit string is worth no more than the whole.
proof fn lemma_digits_prefix(s: Seq<char>, i: int)
    requires
        0 <= i <= s.len(),
        forall|k: int| 0 <= k < s.len() ==> is_digit(#[trigger] s[k]),
    ensures
        digits_value(s.subrange(0, i)) <= digits_value(s),
    decreases s.len() - i,
{
    if i < s.len() {
        lemma_digits_prefix(s, i + 1);
        assert(s.subrange(0, i + 1).drop_last() =~= s.subrange(0, i));
        lemma_digits_grow(s.subrange(0, i), s[i]);
        assert(s.subrange(0, i).push(s[i]) =~= s.subrange(0, i + 1));
    } else {
        assert(s.subrange(0, i) =~= s);
    }
}

/// `s.parse::<i64>()` where `s` holds only ASCII digits.
pub fn parse_digits(s: &Vec<char>) -> (r: Option<i64>)
    requires
        forall|k: int| 0 <= k < s@.len() ==> is_digit(#[trigger] s@[k]),
    ensures
        match r {
            Some(v) => parse_digits_s(s@) == Some(v as int),
            None => parse_digits_s(s@) is None,
        },
{
    if s.len() == 0 {
        return None;
    }
    let mut acc: i64 = 0;
    let mut i: usize = 0;
    while i < s.len()
        invariant
            i <= s.len(),
            forall|k: int| 0 <= k < s@.len() ==> is_digit(#[trigger] s@[k]),
            acc as int == digits_value(s@.subrange(0, i as int)),
            0 <= acc,
        decreases s.len() - i,
    {
        let d = (s[i] as u32 - 48) as i64;
        assert(s@.subrange(0, i + 1).drop_last() =~= s@.subrange(0, i as int));
        if acc > (i64::MAX - d) / 10 {
            proof {
                assert(digits_value(s@.subrange(0, i + 1)) > i64::MAX) by (nonlinear_arith)
                    requires
                        acc > (i64::MAX - d) / 10,
                        0 <= d <= 9,
                        digits_value(s@.subrange(0, i + 1)) == acc * 10 + d,
                ;
                lemma_digits_prefix(s@, i + 1);
            }
            return None;
        }
        assert(acc * 10 + d <= i64::MAX) by (nonlinear_arith)
            requires
                acc <= (i64::MAX - d) / 10,
                0 <= d <= 9,
                0 <= acc,
        ;
        acc = acc * 10 + d;
        i = i + 1;
    }
    assert(s@.subrange(0, s@.len() as int) =~= s@);
    Some(acc)
}

} // verus!

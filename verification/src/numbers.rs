//! Numbers as decimal text.

use crate::text::{chars_of, push_char};
use vstd::prelude::*;

verus! {

/// The character of a digit.
pub open spec fn digit(d: int) -> char {
    (48 + d) as char
}

/// A number in decimal, without leading zeros.
pub open spec fn decimal(n: nat) -> Seq<char>
    decreases n,
{
    if n < 10 {
        seq![digit(n as int)]
    } else {
        decimal(n / 10).push(digit((n % 10) as int))
    }
}

/// A number in decimal, with a sign where it is negative.
pub open spec fn signed_decimal(n: int) -> Seq<char> {
    if n < 0 {
        seq!['-'] + decimal((-n) as nat)
    } else {
        decimal(n as nat)
    }
}

/// The character is a decimal digit.
pub open spec fn is_digit(c: char) -> bool {
    '0' <= c && c <= '9'
}

/// The number that digits denote; none where a character is no digit.
pub open spec fn value_of(s: Seq<char>) -> Option<nat>
    decreases s.len(),
{
    if s.len() == 0 {
        Some(0)
    } else {
        match value_of(s.drop_last()) {
            Some(n) => if is_digit(s.last()) {
                Some((n * 10 + (s.last() as int - 48)) as nat)
            } else {
                None
            },
            None => None,
        }
    }
}

/// The number that a text denotes: one digit or more, after at most one plus sign.
pub open spec fn number_in(s: Seq<char>) -> Option<nat> {
    let body = if s.len() > 0 && s[0] == '+' {
        s.skip(1)
    } else {
        s
    };
    if body.len() == 0 {
        None
    } else {
        value_of(body)
    }
}

/// The number that a text denotes: one digit or more, after at most one sign.
pub open spec fn signed_number_in(s: Seq<char>) -> Option<int> {
    if s.len() > 1 && s[0] == '-' {
        match value_of(s.skip(1)) {
            Some(n) => Some(-(n as int)),
            None => None,
        }
    } else {
        match number_in(s) {
            Some(n) => Some(n as int),
            None => None,
        }
    }
}

/// Appends a number in decimal.
pub fn push_number(s: &mut String, n: u64)
    ensures
        final(s)@ == old(s)@ + decimal(n as nat),
    decreases n,
{
    let ghost before = s@;
    if n >= 10 {
        push_number(s, n / 10);
    }
    let code: u8 = 48 + (n % 10) as u8;
    push_char(s, code as char);
    assert(s@ =~= before + decimal(n as nat));
}

/// Appends a number in decimal, with a sign where it is negative.
pub fn push_signed(s: &mut String, n: i64)
    ensures
        final(s)@ == old(s)@ + signed_decimal(n as int),
{
    let ghost before = s@;
    if n < 0 {
        push_char(s, '-');
        let magnitude: u64 = (-(n as i128)) as u64;
        push_number(s, magnitude);
        assert(s@ =~= before + signed_decimal(n as int));
    } else {
        push_number(s, n as u64);
    }
}

/// A number in decimal.
pub fn number_text(n: u64) -> (r: String)
    ensures
        r@ == decimal(n as nat),
{
    let mut s = String::new();
    push_number(&mut s, n);
    assert(s@ =~= decimal(n as nat));
    s
}

/// A number in decimal, with a sign where it is negative.
pub fn signed_text(n: i64) -> (r: String)
    ensures
        r@ == signed_decimal(n as int),
{
    let mut s = String::new();
    push_signed(&mut s, n);
    assert(s@ =~= signed_decimal(n as int));
    s
}

/// More digits denote no smaller number.
proof fn lemma_value_grows(s: Seq<char>, n: int)
    requires
        0 <= n <= s.len(),
    ensures
        value_of(s) is Some ==> value_of(s.take(n)) is Some && value_of(s.take(n))->0 <= value_of(
            s,
        )->0,
    decreases s.len(),
{
    if n == s.len() {
        assert(s.take(n) =~= s);
    } else {
        lemma_value_grows(s.drop_last(), n);
        assert(s.drop_last().take(n) =~= s.take(n));
    }
}

/// The number that the digits `v[from..]` denote, if it is at most `max`.
fn parse_digits(v: &Vec<char>, from: usize, max: u64) -> (r: Option<u64>)
    requires
        from <= v.len(),
    ensures
        match r {
            Some(n) => value_of(v@.skip(from as int)) == Some(n as nat) && n <= max,
            None => value_of(v@.skip(from as int)) is None || value_of(v@.skip(from as int))->0
                > max,
        },
{
    let ghost all = v@.skip(from as int);
    let mut n: u128 = 0;
    let mut i: usize = from;
    while i < v.len()
        invariant
            from <= i <= v.len(),
            all == v@.skip(from as int),
            value_of(all.take(i - from)) == Some(n as nat),
            n <= max,
        decreases v.len() - i,
    {
        let c = v[i];
        proof {
            assert(all.take(i + 1 - from).drop_last() =~= all.take(i - from));
            assert(all.take(i + 1 - from).last() == c);
            lemma_value_grows(all, i + 1 - from);
        }
        if c < '0' || '9' < c {
            return None;
        }
        n = n * 10 + (c as u32 as u128 - 48);
        if n > max as u128 {
            return None;
        }
        i += 1;
    }
    assert(all.take(v.len() - from) =~= all);
    Some(n as u64)
}

/// The number that a text denotes, if it is at most `max`.
pub fn parse_number(text: &str, max: u64) -> (r: Option<u64>)
    ensures
        match r {
            Some(n) => number_in(text@) == Some(n as nat) && n <= max,
            None => number_in(text@) is None || number_in(text@)->0 > max,
        },
{
    let v = chars_of(text);
    let from: usize = if v.len() > 0 && v[0] == '+' {
        1
    } else {
        0
    };
    assert(v@.skip(0) =~= v@);
    if v.len() == from {
        return None;
    }
    parse_digits(&v, from, max)
}

/// The number that a text denotes, if it lies within the bounds of the type.
pub fn parse_signed(text: &str) -> (r: Option<i64>)
    ensures
        match r {
            Some(n) => signed_number_in(text@) == Some(n as int),
            None => signed_number_in(text@) is None || signed_number_in(text@)->0 < i64::MIN
                || signed_number_in(text@)->0 > i64::MAX,
        },
{
    let v = chars_of(text);
    if v.len() > 1 && v[0] == '-' {
        match parse_digits(&v, 1, 0x8000_0000_0000_0000) {
            Some(n) => Some((-(n as i128)) as i64),
            None => None,
        }
    } else {
        match parse_number(text, i64::MAX as u64) {
            Some(n) => Some(n as i64),
            None => None,
        }
    }
}

/// A number is read back from its decimal text.
pub proof fn law_decimal_is_read_back(n: nat)
    ensures
        value_of(decimal(n)) == Some(n),
        number_in(decimal(n)) == Some(n),
        decimal(n).len() > 0,
        is_digit(decimal(n)[0]),
    decreases n,
{
    if n < 10 {
        let s = decimal(n);
        assert(s.drop_last() =~= Seq::empty());
        assert(value_of(s.drop_last()) == Some(0nat));
    } else {
        law_decimal_is_read_back(n / 10);
        assert(decimal(n).drop_last() =~= decimal(n / 10));
    }
}

/// The text of a number is made of digits.
pub proof fn lemma_digits(n: nat)
    ensures
        decimal(n).len() > 0,
        forall|i: int| 0 <= i < decimal(n).len() ==> is_digit(#[trigger] decimal(n)[i]),
    decreases n,
{
    if n >= 10 {
        lemma_digits(n / 10);
    }
}

} // verus!

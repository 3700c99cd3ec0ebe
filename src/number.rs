//! Decimal numbers as sensor files hold them, and as tags print them.
use vstd::prelude::*;

use crate::text::{line_value, line_value_of, opt_string, opt_text, to_chars};

verus! {

pub open spec fn is_digit(c: char) -> bool {
    '0' <= c <= '9'
}

pub open spec fn digit_value(c: char) -> int {
    c as int - '0' as int
}

/// The value of a string of ASCII digits.
pub open spec fn digits_value(s: Seq<char>) -> int
    decreases s.len(),
{
    if s.len() == 0 {
        0
    } else {
        digits_value(s.drop_last()) * 10 + digit_value(s.last())
    }
}

/// `s` without a leading `+`.
pub open spec fn unsigned_part(s: Seq<char>) -> Seq<char> {
    if s.len() > 0 && s[0] == '+' {
        s.drop_first()
    } else {
        s
    }
}

pub open spec fn all_digits(d: Seq<char>) -> bool {
    forall|i: int| 0 <= i < d.len() ==> is_digit(#[trigger] d[i])
}

/// The number that `s` spells as `u32`'s `FromStr` reads it: an optional
/// `+`, then one or more ASCII digits, with a value that fits.
pub open spec fn parse_u32_spec(s: Seq<char>) -> Option<u32> {
    let d = unsigned_part(s);
    if d.len() > 0 && all_digits(d) && digits_value(d) <= u32::MAX {
        Some(digits_value(d) as u32)
    } else {
        None
    }
}

/// A sensor reading: the number on the first line of `content`, or 0 when
/// the file could not be read or does not hold one.
pub open spec fn reading_spec(content: Option<Seq<char>>) -> u32 {
    match content {
        Some(c) => match parse_u32_spec(line_value_of(c)) {
            Some(v) => v,
            None => 0,
        },
        None => 0,
    }
}

pub open spec fn digit_char(d: nat) -> char {
    (('0' as u32) + d) as char
}

/// The decimal digits of `n`, without leading zeros.
pub open spec fn decimal_spec(n: nat) -> Seq<char>
    decreases n,
{
    if n < 10 {
        seq![digit_char(n)]
    } else {
        decimal_spec(n / 10) + seq![digit_char(n % 10)]
    }
}

proof fn lemma_digits_grow(x: int, d: int)
    requires
        x >= 0,
        0 <= d <= 9,
    ensures
        x * 10 + d >= x,
{
}

/// Reads `s` as `u32`'s `FromStr` does.
pub fn parse_u32(s: &str) -> (r: Option<u32>)
    ensures
        r == parse_u32_spec(s@),
{
    let chars = to_chars(s);
    let start: usize = if chars.len() > 0 && chars[0] == '+' {
        1
    } else {
        0
    };
    let ghost d = unsigned_part(s@);
    assert(d =~= chars@.skip(start as int));
    if start == chars.len() {
        return None;
    }
    let mut acc: u64 = 0;
    let mut i: usize = start;
    while i < chars.len()
        invariant
            chars@ == s@,
            start <= i <= chars.len(),
            d == chars@.skip(start as int),
            d == unsigned_part(s@),
            forall|j: int| 0 <= j < i - start ==> is_digit(#[trigger] d[j]),
            digits_value(d.take(i - start)) >= 0,
            acc <= u32::MAX + 1,
            acc <= u32::MAX ==> acc == digits_value(d.take(i - start)),
            acc > u32::MAX ==> digits_value(d.take(i - start)) > u32::MAX,
        decreases chars.len() - i,
    {
        let c = chars[i];
        if !('0' <= c && c <= '9') {
            assert(d[i - start] == c);
            assert(!is_digit(d[i - start]));
            return None;
        }
        let v = (c as u32 - '0' as u32) as u64;
        let ghost prev = d.take(i - start);
        assert(d.take(i + 1 - start).drop_last() =~= prev);
        assert(d.take(i + 1 - start).last() == c);
        proof {
            lemma_digits_grow(digits_value(prev), v as int);
        }
        if acc <= u32::MAX as u64 {
            acc = acc * 10 + v;
            if acc > u32::MAX as u64 {
                acc = u32::MAX as u64 + 1;
            }
        }
        i = i + 1;
    }
    assert(d.take(chars.len() - start) =~= d);
    if acc <= u32::MAX as u64 {
        Some(acc as u32)
    } else {
        None
    }
}

/// The number on the first line of `content`, or 0 when there is no
/// content or it holds no number.
pub fn reading(content: Option<&str>) -> (r: u32)
    ensures
        r == reading_spec(opt_text(content)),
{
    match content {
        Some(c) => {
            let line = line_value(c);
            match parse_u32(line.as_str()) {
                Some(v) => v,
                None => 0,
            }
        },
        None => 0,
    }
}

fn digit_str(d: u64) -> (r: &'static str)
    requires
        d < 10,
    ensures
        r@ == seq![digit_char(d as nat)],
{
    proof {
        reveal_strlit("0");
        reveal_strlit("1");
        reveal_strlit("2");
        reveal_strlit("3");
        reveal_strlit("4");
        reveal_strlit("5");
        reveal_strlit("6");
        reveal_strlit("7");
        reveal_strlit("8");
        reveal_strlit("9");
    }
    let r = if d == 0 {
        "0"
    } else if d == 1 {
        "1"
    } else if d == 2 {
        "2"
    } else if d == 3 {
        "3"
    } else if d == 4 {
        "4"
    } else if d == 5 {
        "5"
    } else if d == 6 {
        "6"
    } else if d == 7 {
        "7"
    } else if d == 8 {
        "8"
    } else {
        "9"
    };
    assert(r@ =~= seq![digit_char(d as nat)]);
    r
}

/// `n` in decimal.
pub fn decimal_u64(n: u64) -> (r: String)
    ensures
        r@ == decimal_spec(n as nat),
    decreases n,
{
    if n < 10 {
        String::from_str(digit_str(n))
    } else {
        let mut s = decimal_u64(n / 10);
        s.append(digit_str(n % 10));
        s
    }
}

/// `n` in decimal.
pub fn decimal(n: u32) -> (r: String)
    ensures
        r@ == decimal_spec(n as nat),
{
    decimal_u64(n as u64)
}

pub open spec fn read_number_spec(content: Option<Seq<char>>) -> Option<u32> {
    match content {
        Some(c) => parse_u32_spec(line_value_of(c)),
        None => None,
    }
}

/// The number a read file holds on its first line, if any.
pub fn read_number(content: &Option<String>) -> (r: Option<u32>)
    ensures
        r == read_number_spec(opt_string(*content)),
{
    match content {
        Some(c) => {
            let line = line_value(c.as_str());
            parse_u32(line.as_str())
        },
        None => None,
    }
}

} // verus!

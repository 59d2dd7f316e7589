//! Decimal numerals of 32-bit signed integers.

use vstd::prelude::*;
use vstd::slice::*;
use vstd::string::*;

verus! {

/// `c` is one of the digits `0` to `9`.
pub open spec fn is_digit(c: char) -> bool {
    '0' <= c <= '9'
}

/// The number that the digit `c` stands for.
pub open spec fn digit_value(c: char) -> int {
    c as u32 - '0' as u32
}

/// Every character of `s` is a digit.
pub open spec fn all_digits(s: Seq<char>) -> bool {
    forall|i: int| 0 <= i < s.len() ==> is_digit(#[trigger] s[i])
}

/// The number that the digits `s` stand for in base ten.
pub open spec fn decimal_value(s: Seq<char>) -> int
    decreases s.len(),
{
    if s.len() == 0 {
        0
    } else {
        10 * decimal_value(s.drop_last()) + digit_value(s.last())
    }
}

/// The digits of a numeral: the numeral without its sign.
pub open spec fn digits_of(s: Seq<char>) -> Seq<char> {
    if s.len() > 0 && (s[0] == '-' || s[0] == '+') {
        s.drop_first()
    } else {
        s
    }
}

/// The number that the numeral `s` stands for: an optional sign, `+` or `-`,
/// then digits.
pub open spec fn signed_value(s: Seq<char>) -> int {
    if s.len() > 0 && s[0] == '-' {
        -decimal_value(digits_of(s))
    } else {
        decimal_value(digits_of(s))
    }
}

/// The 32-bit signed integer that `s` is a numeral of. There is none where
/// `s` has no digit, has anything but digits after an optional sign, or
/// stands for a number outside the range of `i32`.
pub open spec fn parse_i32(s: Seq<char>) -> Option<i32> {
    if digits_of(s).len() > 0 && all_digits(digits_of(s)) && i32::MIN <= signed_value(s)
        <= i32::MAX {
        Some(signed_value(s) as i32)
    } else {
        None
    }
}

/// Digits stand for a number that is not negative and not less than what
/// any of their prefixes stands for.
pub proof fn lemma_decimal_value_grows(s: Seq<char>, k: int)
    requires
        all_digits(s),
        0 <= k <= s.len(),
    ensures
        0 <= decimal_value(s.take(k)) <= decimal_value(s),
    decreases s.len(),
{
    if k == s.len() {
        assert(s.take(k) =~= s);
        if s.len() > 0 {
            assert(all_digits(s.drop_last()));
            lemma_decimal_value_grows(s.drop_last(), k - 1);
        }
    } else {
        assert(all_digits(s.drop_last()));
        assert(s.drop_last().take(k) =~= s.take(k));
        lemma_decimal_value_grows(s.drop_last(), k);
        assert(is_digit(s.last()));
    }
}

/// The integer that `numeral` is a numeral of, if it is one.
pub fn parse_numeral(numeral: &[char]) -> (parsed: Option<i32>)
    ensures
        parsed == parse_i32(numeral@),
{
    let end: usize = numeral.len();
    if end == 0 {
        return None;
    }
    let negative = numeral[0] == '-';
    let first: usize = if negative || numeral[0] == '+' {
        1
    } else {
        0
    };
    let ghost digits = numeral@.subrange(first as int, end as int);
    assert(digits =~= digits_of(numeral@));
    if first == end {
        return None;
    }
    let mut value: i64 = 0;
    let mut i: usize = first;
    while i < end
        invariant
            first <= i <= end == numeral@.len(),
            digits == numeral@.subrange(first as int, end as int),
            digits == digits_of(numeral@),
            negative == (numeral@[0] == '-'),
            all_digits(digits.take(i - first)),
            value == decimal_value(digits.take(i - first)),
            0 <= value <= 0x8000_0000,
        decreases end - i,
    {
        let c = numeral[i];
        if !('0' <= c && c <= '9') {
            assert(!is_digit(digits[i - first]));
            return None;
        }
        let ghost before = digits.take(i - first);
        let ghost after = digits.take(i - first + 1);
        assert(after.drop_last() =~= before);
        assert(after.last() == c);
        let digit: i64 = (c as u32 - '0' as u32) as i64;
        value = 10 * value + digit;
        i += 1;
        if value > 0x8000_0000 {
            proof {
                if all_digits(digits) {
                    lemma_decimal_value_grows(digits, i - first);
                }
            }
            return None;
        }
    }
    assert(digits.take(i - first) =~= digits);
    if negative {
        Some((-value) as i32)
    } else if value > 0x7fff_ffff {
        None
    } else {
        Some(value as i32)
    }
}

/// The digit that stands for `d`, a number from 0 to 9.
pub open spec fn digit_char(d: int) -> char {
    "0123456789"@[d]
}

/// The digits of `n` in base ten, without leading zeros; `0` for zero.
pub open spec fn decimal_digits(n: nat) -> Seq<char>
    decreases n,
{
    if n < 10 {
        seq![digit_char(n as int)]
    } else {
        decimal_digits(n / 10).push(digit_char(n as int % 10))
    }
}

/// The numeral of `i` in base ten: a minus sign if `i` is negative, then
/// the digits of its absolute value.
pub open spec fn decimal(i: int) -> Seq<char> {
    if i < 0 {
        seq!['-'] + decimal_digits((-i) as nat)
    } else {
        decimal_digits(i as nat)
    }
}

/// Appends the digits of `n` to `text`.
fn put_digits(text: &mut String, n: u32)
    ensures
        final(text)@ == old(text)@ + decimal_digits(n as nat),
    decreases n,
{
    if n >= 10 {
        put_digits(text, n / 10);
    }
    let d: usize = (n % 10) as usize;
    proof {
        reveal_strlit("0123456789");
    }
    text.append("0123456789".substring_char(d, d + 1));
    assert(text@ =~= old(text)@ + decimal_digits(n as nat)) by {
        assert("0123456789"@.subrange(d as int, d + 1) =~= seq![digit_char(d as int)]);
    }
}

/// The numeral of `value` in base ten.
pub fn numeral_of(value: i32) -> (text: String)
    ensures
        text@ == decimal(value as int),
{
    let mut text = String::new();
    if value < 0 {
        proof {
            reveal_strlit("-");
        }
        text.append("-");
        put_digits(&mut text, (-(value as i64)) as u32);
        assert(text@ =~= decimal(value as int));
    } else {
        put_digits(&mut text, value as u32);
        assert(text@ =~= decimal(value as int));
    }
    text
}

} // verus!

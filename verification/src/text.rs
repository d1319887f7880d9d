//! Text handling for configuration keys and values: unsigned decimal
//! numerals and key prefixes.

use crate::trusted::{starts_with, substring};
use vstd::prelude::*;
use vstd::string::*;
use vstd::utf8::is_ascii_chars;

verus! {

/// Whether `c` is one of the ten ASCII decimal digits.
pub open spec fn is_decimal_digit(c: char) -> bool {
    '0' <= c && c <= '9'
}

/// The value of a decimal digit; zero for any other character.
pub open spec fn digit_value(c: char) -> nat {
    if is_decimal_digit(c) {
        (c as int - '0' as int) as nat
    } else {
        0
    }
}

/// Whether `text` consists of decimal digits only.
pub open spec fn all_decimal_digits(text: Seq<char>) -> bool {
    forall|i: int| 0 <= i < text.len() ==> is_decimal_digit(#[trigger] text[i])
}

/// The number that a run of decimal digits denotes, most significant digit
/// first. Leading zeros do not change it.
pub open spec fn decimal_value(digits: Seq<char>) -> nat
    decreases digits.len(),
{
    if digits.len() == 0 {
        0
    } else {
        10 * decimal_value(digits.drop_last()) + digit_value(digits.last())
    }
}

/// The digits of a numeral: the text without one leading `+`, if it has one.
pub open spec fn numeral_digits(text: Seq<char>) -> Seq<char> {
    if text.len() > 0 && text[0] == '+' {
        text.skip(1)
    } else {
        text
    }
}

/// What `text` denotes as an unsigned decimal numeral no greater than `max`.
///
/// A numeral is an optional `+` followed by one or more decimal digits and
/// nothing else: no blank, no `-`, no separator. A numeral above `max`
/// denotes nothing.
pub open spec fn unsigned_decimal(text: Seq<char>, max: nat) -> Option<nat> {
    let digits = numeral_digits(text);
    if digits.len() > 0 && all_decimal_digits(digits) && decimal_value(digits) <= max {
        Some(decimal_value(digits))
    } else {
        None
    }
}

/// A prefix of a run of digits never denotes more than the whole run.
pub proof fn lemma_decimal_value_of_prefix(digits: Seq<char>, k: int)
    requires
        0 <= k <= digits.len(),
    ensures
        decimal_value(digits.take(k)) <= decimal_value(digits),
    decreases digits.len(),
{
    if k == digits.len() {
        assert(digits.take(k) =~= digits);
    } else {
        assert(digits.drop_last().take(k) =~= digits.take(k));
        lemma_decimal_value_of_prefix(digits.drop_last(), k);
    }
}

/// A text with a character outside ASCII is no numeral.
proof fn lemma_numeral_is_ascii(text: Seq<char>, max: nat)
    requires
        unsigned_decimal(text, max) is Some,
    ensures
        is_ascii_chars(text),
{
    let digits = numeral_digits(text);
    assert forall|i: int| 0 <= i < text.len() implies '\0' <= #[trigger] text[i] <= '\u{7f}' by {
        if digits.len() == text.len() {
            assert(is_decimal_digit(digits[i]));
        } else if i == 0 {
            assert(text[0] == '+');
        } else {
            assert(digits[i - 1] == text[i]);
            assert(is_decimal_digit(digits[i - 1]));
        }
    }
}

/// Reads `text` as an unsigned decimal numeral no greater than `max`.
pub fn parse_unsigned(text: &str, max: u64) -> (r: Option<u64>)
    ensures
        match r {
            Some(v) => unsigned_decimal(text@, max as nat) == Some(v as nat),
            None => unsigned_decimal(text@, max as nat) is None,
        },
{
    if !text.is_ascii() {
        proof {
            if unsigned_decimal(text@, max as nat) is Some {
                lemma_numeral_is_ascii(text@, max as nat);
            }
        }
        return None;
    }
    let n: usize = text.unicode_len();
    let start: usize = if n > 0 && text.get_ascii(0) == 43u8 {
        1
    } else {
        0
    };
    let ghost digits = numeral_digits(text@);
    assert(digits =~= text@.skip(start as int)) by {
        if n > 0 {
            assert('+' as u8 == 43u8);
            assert(text@[0] as u8 == 43u8 <==> text@[0] == '+');
        }
    }
    if start == n {
        return None;
    }
    let mut value: u64 = 0;
    let mut i: usize = start;
    assert(digits.take(0) =~= Seq::<char>::empty());
    while i < n
        invariant
            start <= i <= n,
            n == text@.len(),
            is_ascii(text),
            digits == text@.skip(start as int),
            digits == numeral_digits(text@),
            all_decimal_digits(digits.take(i - start)),
            value == decimal_value(digits.take(i - start)),
            value <= max,
        decreases n - i,
    {
        let b: u8 = text.get_ascii(i);
        let ghost c = text@[i as int];
        let ghost k = i - start;
        assert(digits[k] == c);
        assert(digits.take(k + 1).drop_last() =~= digits.take(k));
        assert(digits.take(k + 1).last() == c);
        assert('0' as u8 == 48u8 && '9' as u8 == 57u8);
        assert(is_decimal_digit(c) <==> 48 <= b <= 57);
        if b < 48 || b > 57 {
            assert(!is_decimal_digit(digits[k]));
            return None;
        }
        let d: u64 = (b - 48) as u64;
        assert(d == digit_value(c));
        if d > max || value > (max - d) / 10 {
            proof {
                assert(10 * value + d > max);
                assert(decimal_value(digits.take(k + 1)) == 10 * value + d);
                lemma_decimal_value_of_prefix(digits, k + 1);
            }
            return None;
        }
        value = value * 10 + d;
        i = i + 1;
        assert forall|j: int| 0 <= j < digits.take(k + 1).len() implies is_decimal_digit(
            #[trigger] digits.take(k + 1)[j],
        ) by {
            if j < k {
                assert(digits.take(k)[j] == digits.take(k + 1)[j]);
            }
        }
    }
    assert(digits.take(n - start) =~= digits);
    Some(value)
}

/// What is left of `key` once `prefix` is taken from its front; nothing
/// where `key` does not begin with `prefix`.
pub open spec fn without_prefix(key: Seq<char>, prefix: Seq<char>) -> Option<Seq<char>> {
    if prefix.is_prefix_of(key) {
        Some(key.skip(prefix.len() as int))
    } else {
        None
    }
}

/// Takes `prefix` from the front of `key`.
pub fn strip_prefix(key: &str, prefix: &str) -> (r: Option<String>)
    ensures
        match r {
            Some(rest) => without_prefix(key@, prefix@) == Some(rest@),
            None => without_prefix(key@, prefix@) is None,
        },
{
    if !starts_with(key, prefix) {
        return None;
    }
    let rest = substring(key, prefix.unicode_len(), key.unicode_len());
    assert(rest@ =~= key@.skip(prefix@.len() as int));
    Some(rest.to_owned())
}

} // verus!

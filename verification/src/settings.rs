//! Numbers given as text: the window's width, height and frame time and the
//! cell scale all arrive as strings and must be whole numbers that fit 32
//! bits.

use vstd::prelude::*;
use vstd::string::{StrSliceExecFns, StringExecFns};

verus! {

/// `c` is one of the ten decimal digits.
pub open spec fn is_digit(c: char) -> bool {
    '0' <= c && c <= '9'
}

/// The number a decimal digit stands for.
pub open spec fn digit_value(c: char) -> int {
    c as int - '0' as int
}

/// The number that a sequence of decimal digits writes; the empty sequence
/// writes zero.
pub open spec fn decimal_value(digits: Seq<char>) -> int
    decreases digits.len(),
{
    if digits.len() == 0 {
        0
    } else {
        10 * decimal_value(digits.drop_last()) + digit_value(digits.last())
    }
}

/// The text without a leading plus sign.
pub open spec fn unsigned_part(text: Seq<char>) -> Seq<char> {
    if text.len() > 0 && text[0] == '+' {
        text.skip(1)
    } else {
        text
    }
}

/// The text writes a whole number of at most 32 bits: an optional plus
/// sign, then one or more decimal digits and nothing else, with a value no
/// greater than `u32::MAX`.
pub open spec fn is_number(text: Seq<char>) -> bool {
    let digits = unsigned_part(text);
    &&& digits.len() > 0
    &&& forall|i: int| 0 <= i < digits.len() ==> is_digit(#[trigger] digits[i])
    &&& decimal_value(digits) <= u32::MAX
}

/// The message that turns a text down.
pub open spec fn complaint(text: Seq<char>) -> Seq<char> {
    text + " is not a valid number (must be positive)"@
}

/// More digits never write a smaller number: the value of the first `n`
/// digits is at most the value of all of them.
pub proof fn lemma_decimal_value_grows(digits: Seq<char>, n: int)
    requires
        0 <= n <= digits.len(),
        forall|i: int| 0 <= i < digits.len() ==> is_digit(#[trigger] digits[i]),
    ensures
        0 <= decimal_value(digits.take(n)) <= decimal_value(digits),
    decreases digits.len() - n,
{
    if n == digits.len() {
        assert(digits.take(n) =~= digits);
        lemma_decimal_value_nonnegative(digits);
    } else {
        lemma_decimal_value_grows(digits, n + 1);
        lemma_decimal_value_nonnegative(digits.take(n));
        assert(digits.take(n + 1).drop_last() =~= digits.take(n));
        assert(is_digit(digits[n]));
        assert(digits.take(n + 1).last() == digits[n]);
    }
}

/// Digits write a number that is not negative.
pub proof fn lemma_decimal_value_nonnegative(digits: Seq<char>)
    requires
        forall|i: int| 0 <= i < digits.len() ==> is_digit(#[trigger] digits[i]),
    ensures
        0 <= decimal_value(digits),
    decreases digits.len(),
{
    if digits.len() > 0 {
        lemma_decimal_value_nonnegative(digits.drop_last());
        assert(is_digit(digits[digits.len() - 1]));
    }
}

/// Accepts a text that writes a whole number of at most 32 bits and turns
/// down every other with a message that names it.
pub fn is_positive(valstr: String) -> (checked: Result<(), String>)
    ensures
        match checked {
            Ok(()) => is_number(valstr@),
            Err(message) => !is_number(valstr@) && message@ == complaint(valstr@),
        },
{
    if holds_number(valstr.as_str()) {
        Ok(())
    } else {
        Err(valstr.concat(" is not a valid number (must be positive)"))
    }
}

/// Whether the text writes a whole number of at most 32 bits.
pub fn holds_number(text: &str) -> (valid: bool)
    ensures
        valid == is_number(text@),
{
    let len: usize = text.unicode_len();
    if len == 0 {
        return false;
    }
    let start: usize = if text.get_char(0) == '+' {
        1
    } else {
        0
    };
    if start == len {
        return false;
    }
    let ghost digits = unsigned_part(text@);
    assert(digits.len() == len - start);
    assert(forall|i: int| 0 <= i < digits.len() ==> digits[i] == text@[i + start]);
    let mut value: u64 = 0;
    let mut i: usize = start;
    while i < len
        invariant
            start <= i <= len,
            len == text@.len(),
            digits == unsigned_part(text@),
            digits.len() == len - start,
            forall|k: int| 0 <= k < digits.len() ==> digits[k] == text@[k + start],
            forall|k: int| 0 <= k < i - start ==> is_digit(#[trigger] digits[k]),
            value == decimal_value(digits.take(i - start)),
            value <= u32::MAX,
        decreases len - i,
    {
        let c: char = text.get_char(i);
        assert(c == digits[i - start]);
        if c < '0' || c > '9' {
            return false;
        }
        let digit: u64 = (c as u64) - ('0' as u64);
        assert(digits.take(i - start + 1).drop_last() =~= digits.take(i - start));
        assert(digits.take(i - start + 1).last() == c);
        value = value * 10 + digit;
        if value > 0xFFFF_FFFF {
            proof {
                if forall|k: int| 0 <= k < digits.len() ==> is_digit(#[trigger] digits[k]) {
                    lemma_decimal_value_grows(digits, i - start + 1);
                }
            }
            return false;
        }
        i += 1;
    }
    assert(digits.take(len - start) =~= digits);
    true
}

} // verus!

//! Decimal notation, and the few standard-library calls whose behaviour vstd
//! does not specify: each of those wrappers calls exactly one std function.

use vstd::prelude::*;

verus! {

/// Decimal digits of `value`, most significant first, without leading zeros.
pub open spec fn decimal_chars(value: nat) -> Seq<char>
    decreases value,
{
    if value < 10 {
        seq![digit_char(value)]
    } else {
        decimal_chars(value / 10).push(digit_char(value % 10))
    }
}

pub open spec fn digit_char(digit: nat) -> char {
    (('0' as u32) + digit) as char
}

/// Calls `Vec::try_reserve_exact`. Whether the allocator grants the request
/// depends on the machine, so the result is left open; the contents are kept
/// either way.
#[verifier::external_body]
pub(crate) fn try_reserve_exact<T>(vec: &mut Vec<T>, additional: usize) -> (granted: bool)
    ensures
        final(vec)@ == old(vec)@,
{
    vec.try_reserve_exact(additional).is_ok()
}

/// The plain decimal representation of `value`: no sign, no padding, no
/// leading zeros.
pub(crate) fn decimal_string(value: u32) -> (text: String)
    ensures
        text@ == decimal_chars(value as nat),
{
    let mut text = String::new();
    push_decimal(&mut text, value);
    assert(text@ =~= decimal_chars(value as nat));
    text
}

/// Appends the decimal digits of `value` to `text`.
fn push_decimal(text: &mut String, value: u32)
    ensures
        final(text)@ == old(text)@ + decimal_chars(value as nat),
    decreases value,
{
    if value >= 10 {
        push_decimal(text, value / 10);
    }
    let digit = value % 10;
    let character = if digit == 0 {
        '0'
    } else if digit == 1 {
        '1'
    } else if digit == 2 {
        '2'
    } else if digit == 3 {
        '3'
    } else if digit == 4 {
        '4'
    } else if digit == 5 {
        '5'
    } else if digit == 6 {
        '6'
    } else if digit == 7 {
        '7'
    } else if digit == 8 {
        '8'
    } else {
        '9'
    };
    assert(character == digit_char(digit as nat));
    let ghost before = text@;
    string_push(text, character);
    assert(old(text)@ + decimal_chars(value as nat) =~= before.push(character));
}

/// Calls `String::from_utf8`, which accepts exactly the well-formed UTF-8
/// byte strings and decodes them.
#[verifier::external_body]
pub(crate) fn string_from_utf8(bytes: Vec<u8>) -> (text: Option<String>)
    ensures
        text is Some <==> vstd::utf8::valid_utf8(bytes@),
        text matches Some(t) ==> t@ == vstd::utf8::decode_utf8(bytes@),
{
    String::from_utf8(bytes).ok()
}

/// A Unicode scalar value: a code point outside the surrogate range.
pub open spec fn is_scalar_value(value: u32) -> bool {
    value <= 0x10ffff && !(0xd800 <= value <= 0xdfff)
}

/// Calls `char::from_u32`, which gives the `char` with that code point when
/// the value is a Unicode scalar value and `None` otherwise.
#[verifier::external_body]
pub(crate) fn char_from_u32(value: u32) -> (character: Option<char>)
    ensures
        character is Some <==> is_scalar_value(value),
        character matches Some(c) ==> c as u32 == value,
{
    char::from_u32(value)
}

/// Calls `String::push`, which appends one character.
#[verifier::external_body]
pub(crate) fn string_push(text: &mut String, character: char)
    ensures
        final(text)@ == old(text)@.push(character),
{
    text.push(character)
}

/// Calls `String::pop`, which removes and returns the last character, or
/// returns `None` on an empty string.
#[verifier::external_body]
pub(crate) fn string_pop(text: &mut String) -> (last: Option<char>)
    ensures
        old(text)@.len() == 0 ==> last is None && final(text)@ == old(text)@,
        old(text)@.len() > 0 ==> last == Some(old(text)@.last()) && final(text)@ == old(text)@.drop_last(),
{
    text.pop()
}

/// Value of a string of decimal digits, most significant first.
pub open spec fn digits_value(digits: Seq<char>) -> int
    decreases digits.len(),
{
    if digits.len() == 0 {
        0
    } else {
        digits_value(digits.drop_last()) * 10 + (digits.last() as int - '0' as int)
    }
}

pub open spec fn all_digits(text: Seq<char>) -> bool {
    forall|i: int| 0 <= i < text.len() ==> '0' <= #[trigger] text[i] <= '9'
}

/// What `str::parse::<u32>` accepts: an optional `+` and then at least one
/// ASCII digit, with a value that fits in `u32`.
pub open spec fn parse_u32(text: Seq<char>) -> Option<u32> {
    let digits = if text.len() > 0 && text[0] == '+' {
        text.drop_first()
    } else {
        text
    };
    if digits.len() == 0 || !all_digits(digits) || digits_value(digits) > u32::MAX {
        None
    } else {
        Some(digits_value(digits) as u32)
    }
}

proof fn lemma_digits_value_nonneg(digits: Seq<char>)
    requires
        all_digits(digits),
    ensures
        digits_value(digits) >= 0,
    decreases digits.len(),
{
    if digits.len() > 0 {
        lemma_digits_value_nonneg(digits.drop_last());
    }
}

proof fn lemma_digits_value_grows(digits: Seq<char>, n: int)
    requires
        all_digits(digits),
        0 <= n <= digits.len(),
    ensures
        digits_value(digits.subrange(0, n)) <= digits_value(digits),
    decreases digits.len() - n,
{
    if n < digits.len() {
        lemma_digits_value_grows(digits, n + 1);
        let prefix = digits.subrange(0, n + 1);
        assert(prefix.drop_last() =~= digits.subrange(0, n));
        lemma_digits_value_nonneg(digits.subrange(0, n));
    } else {
        assert(digits.subrange(0, n) =~= digits);
    }
}

/// Parses `text[start..]` as `str::parse::<u32>` does.
pub fn parse_decimal(text: &str, start: usize) -> (value: Option<u32>)
    requires
        start <= text@.len(),
    ensures
        value == parse_u32(text@.subrange(start as int, text@.len() as int)),
{
    let ghost whole = text@.subrange(start as int, text@.len() as int);
    let length = text.unicode_len();
    let mut first = start;
    if first < length && text.get_char(first) == '+' {
        first = first + 1;
    }
    let ghost digits = text@.subrange(first as int, text@.len() as int);
    proof {
        if whole.len() > 0 && whole[0] == '+' {
            assert(digits =~= whole.drop_first());
        } else {
            assert(digits =~= whole);
        }
    }
    if first == length {
        return None;
    }
    let mut value: u64 = 0;
    let mut i = first;
    #[verifier::loop_isolation(false)]
    while i < length
        invariant
            first <= i <= length,
            length == text@.len(),
            digits == text@.subrange(first as int, text@.len() as int),
            all_digits(digits.subrange(0, i - first)),
            value as int == digits_value(digits.subrange(0, i - first)),
            value <= u32::MAX,
        decreases length - i,
    {
        let c = text.get_char(i);
        if c < '0' || c > '9' {
            proof {
                assert(digits[i - first] == c);
                assert(!all_digits(digits));
                assert(parse_u32(whole) is None);
            }
            return None;
        }
        let digit = (c as u32 - '0' as u32) as u64;
        let next = value * 10 + digit;
        proof {
            let prefix = digits.subrange(0, i - first + 1);
            assert(prefix.drop_last() =~= digits.subrange(0, i - first));
            assert(prefix.last() == c);
            assert(all_digits(prefix));
        }
        if next > 0xffff_ffff {
            proof {
                if all_digits(digits) {
                    lemma_digits_value_grows(digits, i - first + 1);
                }
            }
            return None;
        }
        value = next;
        i = i + 1;
    }
    proof {
        assert(digits.subrange(0, length - first) =~= digits);
    }
    Some(value as u32)
}

} // verus!

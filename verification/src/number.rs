//! Decimal numbers as text, in both directions.
use vstd::prelude::*;

use crate::text;

verus! {

/// The digit that stands for a number below ten.
pub open spec fn digit_char(value: nat) -> char {
    (('0' as u32) + value) as char
}

/// The number that a digit stands for.
pub open spec fn digit_value(c: char) -> int {
    (c as int) - ('0' as int)
}

/// A number in decimal, without leading zeros.
pub open spec fn decimal(value: nat) -> text::Text
    decreases value,
{
    if value < 10 {
        seq![digit_char(value)]
    } else {
        decimal(value / 10).push(digit_char(value % 10))
    }
}

/// A whole number in decimal, with a minus sign where it is negative.
pub open spec fn signed_decimal(value: int) -> text::Text {
    if value < 0 {
        seq!['-'] + decimal((-value) as nat)
    } else {
        decimal(value as nat)
    }
}

/// `text` consists of digits.
pub open spec fn all_digits(text: text::Text) -> bool {
    forall|i: int| 0 <= i < text.len() ==> text::is_digit(#[trigger] text[i])
}

/// The number that a row of digits stands for.
pub open spec fn digits_value(text: text::Text) -> int
    decreases text.len(),
{
    if text.len() == 0 {
        0
    } else {
        digits_value(text.drop_last()) * 10 + digit_value(text.last())
    }
}

/// The number that `text` writes: at least one digit and nothing but digits,
/// behind at most one plus sign, with a value of at most 64 bits.
pub open spec fn parse_u64(text: text::Text) -> Option<u64> {
    let digits = if text.len() > 0 && text[0] == '+' {
        text.skip(1)
    } else {
        text
    };
    if digits.len() > 0 && all_digits(digits) && digits_value(digits) <= u64::MAX {
        Some(digits_value(digits) as u64)
    } else {
        None
    }
}

/// Digits stand for a number that is not negative.
pub proof fn lemma_digits_value_bounds(text: text::Text)
    requires
        all_digits(text),
    ensures
        digits_value(text) >= 0,
    decreases text.len(),
{
    if text.len() > 0 {
        let front = text.drop_last();
        assert forall|i: int| 0 <= i < front.len() implies text::is_digit(#[trigger] front[i]) by {
            assert(front[i] == text[i]);
        }
        lemma_digits_value_bounds(front);
        assert(text::is_digit(text[text.len() - 1]));
    }
}

/// More digits never make a smaller number.
proof fn lemma_digits_value_grows(text: text::Text, size: int)
    requires
        all_digits(text),
        0 <= size <= text.len(),
    ensures
        digits_value(text.take(size)) <= digits_value(text),
    decreases text.len(),
{
    if size == text.len() {
        assert(text.take(size) =~= text);
    } else {
        let front = text.drop_last();
        assert forall|i: int| 0 <= i < front.len() implies text::is_digit(#[trigger] front[i]) by {
            assert(front[i] == text[i]);
        }
        lemma_digits_value_grows(front, size);
        lemma_digits_value_bounds(front);
        assert(front.take(size) =~= text.take(size));
        assert(text::is_digit(text[text.len() - 1]));
    }
}

/// What is written in decimal is a row of digits that stands for the number.
pub proof fn lemma_decimal(value: nat)
    ensures
        decimal(value).len() > 0,
        all_digits(decimal(value)),
        digits_value(decimal(value)) == value,
    decreases value,
{
    if value < 10 {
        let text = seq![digit_char(value)];
        assert(text::is_digit(text[0]));
        assert(text.drop_last() =~= Seq::empty());
        assert(digits_value(text.drop_last()) == 0);
    } else {
        let front = decimal(value / 10);
        let last = digit_char(value % 10);
        lemma_decimal(value / 10);
        assert(text::is_digit(last));
        assert forall|i: int| 0 <= i < front.push(last).len() implies text::is_digit(
            #[trigger] front.push(last)[i],
        ) by {
            if i < front.len() {
                assert(front.push(last)[i] == front[i]);
            }
        }
        assert(front.push(last).drop_last() =~= front);
    }
}

/// A number that was written in decimal is read back as itself.
pub proof fn law_decimal_reads_back(value: u64)
    ensures
        parse_u64(decimal(value as nat)) == Some(value),
{
    lemma_decimal(value as nat);
    assert(text::is_digit(decimal(value as nat)[0]));
}

/// Different numbers are written differently.
pub proof fn law_decimal_is_injective(a: nat, b: nat)
    requires
        decimal(a) == decimal(b),
    ensures
        a == b,
{
    lemma_decimal(a);
    lemma_decimal(b);
}

/// Reads a decimal number.
pub fn read_u64(text: &[char]) -> (number: Option<u64>)
    ensures
        number == parse_u64(text@),
{
    let start: usize = if text.len() > 0 && text[0] == '+' {
        1
    } else {
        0
    };
    let ghost digits = text@.skip(start as int);
    assert(start == 0 ==> digits =~= text@);
    if start == text.len() {
        return None;
    }
    let mut value: u64 = 0;
    let mut i: usize = start;
    while i < text.len()
        invariant
            start <= i <= text.len(),
            digits == text@.skip(start as int),
            forall|j: int| 0 <= j < i - start ==> text::is_digit(#[trigger] digits[j]),
            value == digits_value(digits.take(i - start)),
            digits == (if text@.len() > 0 && text@[0] == '+' {
                text@.skip(1)
            } else {
                text@
            }),
        decreases text.len() - i,
    {
        let c = text[i];
        assert(c == digits[i - start]);
        if !('0' <= c && c <= '9') {
            assert(!text::is_digit(digits[i - start]));
            return None;
        }
        let unit: u64 = (c as u32 - '0' as u32) as u64;
        proof {
            let longer = digits.take(i - start + 1);
            assert(longer.drop_last() =~= digits.take(i - start));
            assert(longer.last() == c);
            if all_digits(digits) {
                lemma_digits_value_grows(digits, i - start + 1);
            }
        }
        match value.checked_mul(10) {
            Some(shifted) => match shifted.checked_add(unit) {
                Some(sum) => {
                    value = sum;
                },
                None => {
                    return None;
                },
            },
            None => {
                return None;
            },
        }
        i += 1;
    }
    assert(digits.take(i - start) =~= digits);
    proof {
        assert(all_digits(digits));
        lemma_digits_value_bounds(digits);
    }
    Some(value)
}

/// Writes a number in decimal.
pub fn write_u64(value: u64) -> (text: Vec<char>)
    ensures
        text@ == decimal(value as nat),
    decreases value,
{
    let unit = (value % 10) as u8;
    let c: char = (48u8 + unit) as char;
    assert(c == digit_char((value % 10) as nat));
    let mut text: Vec<char> = if value < 10 {
        Vec::new()
    } else {
        write_u64(value / 10)
    };
    text.push(c);
    proof {
        if value < 10 {
            assert(text@ =~= seq![digit_char(value as nat)]);
        }
    }
    text
}

/// Writes a whole number in decimal.
pub fn write_i64(value: i64) -> (text: Vec<char>)
    ensures
        text@ == signed_decimal(value as int),
{
    if value >= 0 {
        return write_u64(value as u64);
    }
    let size: u64 = (0i128 - value as i128) as u64;
    let digits = write_u64(size);
    let mut text: Vec<char> = Vec::new();
    text.push('-');
    let mut i: usize = 0;
    while i < digits.len()
        invariant
            i <= digits.len(),
            text@ == seq!['-'] + digits@.take(i as int),
        decreases digits.len() - i,
    {
        proof {
            digits@.lemma_take_succ_push(i as int);
            Seq::push_distributes_over_add(seq!['-'], digits@.take(i as int), digits@[i as int]);
        }
        text.push(digits[i]);
        i += 1;
    }
    assert(digits@.take(i as int) =~= digits@);
    text
}

} // verus!

//! Decimal numbers in ASCII.

use vstd::prelude::*;

verus! {

/// The digit zero.
pub const ZERO: u8 = 0x30;

/// Whether a byte is a decimal digit.
pub open spec fn is_digit(byte: u8) -> bool {
    0x30 <= byte <= 0x39
}

/// Whether all bytes are decimal digits.
pub open spec fn all_digits(bytes: Seq<u8>) -> bool {
    forall|i: int| 0 <= i < bytes.len() ==> is_digit(#[trigger] bytes[i])
}

/// The number that a string of digits stands for; the empty one stands for zero.
pub open spec fn decimal_value(digits: Seq<u8>) -> int
    decreases digits.len(),
{
    if digits.len() == 0 {
        0
    } else {
        10 * decimal_value(digits.drop_last()) + (digits.last() - ZERO)
    }
}

/// The digits of a number below a thousand, without leading zeros.
pub open spec fn decimal_digits(value: nat) -> Seq<u8> {
    if value < 10 {
        seq![(ZERO + value) as u8]
    } else if value < 100 {
        seq![(ZERO + value / 10) as u8, (ZERO + value % 10) as u8]
    } else {
        seq![
            (ZERO + value / 100) as u8,
            (ZERO + value / 10 % 10) as u8,
            (ZERO + value % 10) as u8,
        ]
    }
}

/// One digit more.
pub proof fn lemma_decimal_push(digits: Seq<u8>, digit: u8)
    ensures
        decimal_value(digits.push(digit)) == 10 * decimal_value(digits) + (digit - ZERO),
{
    assert(digits.push(digit).drop_last() =~= digits);
}

/// The first digits of a number stand for no larger one.
pub proof fn lemma_decimal_prefix(digits: Seq<u8>, count: int)
    requires
        all_digits(digits),
        0 <= count <= digits.len(),
    ensures
        0 <= decimal_value(digits.take(count)) <= decimal_value(digits),
    decreases digits.len(),
{
    if digits.len() > 0 {
        let shorter = digits.drop_last();
        assert(all_digits(shorter)) by {
            assert forall|i: int| 0 <= i < shorter.len() implies is_digit(
                #[trigger] shorter[i],
            ) by {
                assert(shorter[i] == digits[i]);
            }
        }
        assert(is_digit(digits[digits.len() - 1]));
        if count == digits.len() {
            lemma_decimal_prefix(shorter, shorter.len() as int);
            assert(shorter.take(shorter.len() as int) =~= shorter);
            assert(digits.take(count) =~= digits);
        } else {
            lemma_decimal_prefix(shorter, count);
            assert(shorter.take(count) =~= digits.take(count));
        }
    } else {
        assert(digits.take(count) =~= digits);
    }
}

/// A number is read back from its digits.
pub proof fn law_decimal_round_trip(value: nat)
    requires
        value < 1_000,
    ensures
        all_digits(decimal_digits(value)),
        decimal_digits(value).len() > 0,
        decimal_value(decimal_digits(value)) == value,
{
    let none = Seq::<u8>::empty();
    let digits = decimal_digits(value);
    assert(decimal_value(none) == 0);
    lemma_decimal_push(none, digits[0]);
    if value < 10 {
        assert(digits =~= none.push(digits[0]));
    } else if value < 100 {
        lemma_decimal_push(none.push(digits[0]), digits[1]);
        assert(digits =~= none.push(digits[0]).push(digits[1]));
    } else {
        lemma_decimal_push(none.push(digits[0]), digits[1]);
        lemma_decimal_push(none.push(digits[0]).push(digits[1]), digits[2]);
        assert(digits =~= none.push(digits[0]).push(digits[1]).push(digits[2]));
    }
}

/// A further digit multiplies the number by ten and adds to it; without digits
/// there is zero. Digits are those bytes that stand for a number below ten.
pub proof fn law_digits_are_read_in_base_ten(digits: Seq<u8>, digit: u8)
    ensures
        decimal_value(Seq::<u8>::empty()) == 0,
        decimal_value(digits.push(digit)) == 10 * decimal_value(digits) + (digit - 48),
        all_digits(digits.push(digit)) <==> all_digits(digits) && 48 <= digit <= 57,
{
    lemma_decimal_push(digits, digit);
    let longer = digits.push(digit);
    if all_digits(longer) {
        assert(is_digit(longer[digits.len() as int]));
        assert forall|i: int| 0 <= i < digits.len() implies is_digit(#[trigger] digits[i]) by {
            assert(is_digit(longer[i]));
        }
    }
}

/// The digits of a number have no leading zero, but for those of zero.
pub proof fn law_digits_are_as_few_as_possible(value: nat)
    requires
        value < 1_000,
    ensures
        value >= 10 ==> decimal_digits(value)[0] != 48,
        value < 10 ==> decimal_digits(value).len() == 1,
{
}

} // verus!

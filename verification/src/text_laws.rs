//! What splitting a text and reading numbers come to.

use vstd::prelude::*;

use crate::text::{all_digits, digits_value, is_digit, number_of, number_or_zero, split_at};

verus! {

/// A text without separators is a single piece, whole.
pub proof fn law_a_text_without_separators_is_one_piece(text: Seq<char>, separator: char)
    requires
        forall|i: int| 0 <= i < text.len() ==> #[trigger] text[i] != separator,
    ensures
        split_at(text, separator) == seq![text],
    decreases text.len(),
{
    if text.len() == 0 {
        assert(text =~= Seq::empty());
    } else {
        let rest = text.drop_last();
        assert forall|i: int| 0 <= i < rest.len() implies #[trigger] rest[i] != separator by {
            assert(text[i] != separator);
        }
        law_a_text_without_separators_is_one_piece(rest, separator);
        assert(text[text.len() - 1] != separator);
        assert(rest.push(text.last()) =~= text);
        assert(split_at(text, separator) =~= seq![text]);
    }
}

/// There is always a piece.
proof fn lemma_some_piece(text: Seq<char>, separator: char)
    ensures
        split_at(text, separator).len() > 0,
    decreases text.len(),
{
    if text.len() > 0 {
        lemma_some_piece(text.drop_last(), separator);
    }
}

/// What stands on either side of a separator is split on its own: the pieces are
/// those of the left side and then those of the right side.
pub proof fn law_both_sides_of_a_separator_are_split(
    left: Seq<char>,
    right: Seq<char>,
    separator: char,
)
    ensures
        split_at(left.push(separator) + right, separator) == split_at(left, separator) + split_at(
            right,
            separator,
        ),
    decreases right.len(),
{
    let text = left.push(separator) + right;
    let first = split_at(left, separator);
    if right.len() == 0 {
        assert(text =~= left.push(separator));
        assert(text.drop_last() =~= left);
        assert(split_at(text, separator) =~= first + seq![Seq::<char>::empty()]);
    } else {
        let shorter = right.drop_last();
        law_both_sides_of_a_separator_are_split(left, shorter, separator);
        lemma_some_piece(shorter, separator);
        assert(text.drop_last() =~= left.push(separator) + shorter);
        assert(text.last() == right.last());
        assert(split_at(text, separator) =~= first + split_at(right, separator));
    }
}

/// The digits are the ten characters from `0` to `9`, and a text holds nothing but
/// digits if each of its characters is one.
pub proof fn law_there_are_ten_digits(c: char, text: Seq<char>)
    ensures
        is_digit(c) <==> 48 <= c as int && c as int <= 57,
        all_digits(text) <==> forall|i: int|
            0 <= i < text.len() ==> 48 <= (#[trigger] text[i]) as int && text[i] as int <= 57,
{
    if all_digits(text) {
        assert forall|i: int| 0 <= i < text.len() implies 48 <= (#[trigger] text[i]) as int
            && text[i] as int <= 57 by {
            assert(is_digit(text[i]));
        }
    }
}

/// Digits are decimal: one more digit makes ten times the number, and the digit
/// more.
pub proof fn law_digits_are_decimal(digits: Seq<char>, digit: char)
    requires
        48 <= digit as int <= 57,
    ensures
        digits_value(Seq::empty()) == 0,
        digits_value(digits.push(digit)) == 10 * digits_value(digits) + (digit as int - 48),
{
    assert(digits.push(digit).drop_last() =~= digits);
}

/// One or more digits are the number that they stand for if it fits 32 bits, with
/// or without a plus sign in front, and no number otherwise.
pub proof fn law_digits_are_a_number_if_it_fits(digits: Seq<char>)
    requires
        digits.len() > 0,
        forall|i: int|
            0 <= i < digits.len() ==> 48 <= (#[trigger] digits[i]) as int && digits[i] as int
                <= 57,
    ensures
        digits_value(digits) <= 0xffff_ffff ==> {
            &&& number_of(digits) == Some(digits_value(digits) as u32)
            &&& number_of(seq!['+'] + digits) == Some(digits_value(digits) as u32)
            &&& number_or_zero(digits) == digits_value(digits)
            &&& number_or_zero(seq!['+'] + digits) == digits_value(digits)
        },
        digits_value(digits) > 0xffff_ffff ==> {
            &&& number_of(digits) is None
            &&& number_of(seq!['+'] + digits) is None
            &&& number_or_zero(digits) == 0
            &&& number_or_zero(seq!['+'] + digits) == 0
        },
{
    law_there_are_ten_digits(digits[0], digits);
    assert((seq!['+'] + digits).skip(1) =~= digits);
    assert((seq!['+'] + digits)[0] == '+');
}

/// Nothing but digits, with or without a plus sign in front, is a number. What is
/// none counts as zero.
pub proof fn law_nothing_else_is_a_number(text: Seq<char>)
    ensures
        number_of(text) is Some ==> {
            &&& text.len() > 0
            &&& text[0] == '+' ==> text.len() > 1
            &&& forall|i: int|
                0 <= i < text.len() && !(i == 0 && text[0] == '+') ==> 48 <= (
                #[trigger] text[i]) as int && text[i] as int <= 57
        },
        number_of(text) is None ==> number_or_zero(text) == 0,
        number_of(text) matches Some(number) ==> number_or_zero(text) == number,
{
    if number_of(text) is Some {
        let signed = text.len() > 0 && text[0] == '+';
        let digits = if signed {
            text.skip(1)
        } else {
            text
        };
        assert forall|i: int| 0 <= i < text.len() && !(i == 0 && text[0] == '+') implies 48 <= (
        #[trigger] text[i]) as int && text[i] as int <= 57 by {
            if signed {
                assert(is_digit(digits[i - 1]));
            } else {
                assert(is_digit(digits[i]));
            }
        }
    }
}

} // verus!

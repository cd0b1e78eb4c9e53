//! Text: decoding, splitting and numbers.

use vstd::prelude::*;
use vstd::utf8::{decode_utf8, valid_utf8};

verus! {

/// The text that `String::from_utf8_lossy` makes of bytes.
pub uninterp spec fn utf8_lossy(bytes: Seq<u8>) -> Seq<char>;

/// `String::from_utf8_lossy`: the text is a function of the bytes alone, bytes
/// that are valid UTF-8 are decoded as they stand, and others leave a replacement
/// character.
///
/// How many replacement characters there are, and between which others, is left
/// unsaid.
#[verifier::external_body]
pub(crate) fn decode_lossy(bytes: &[u8]) -> (text: String)
    ensures
        text@ == utf8_lossy(bytes@),
        valid_utf8(bytes@) ==> text@ == decode_utf8(bytes@),
        !valid_utf8(bytes@) ==> text@.contains('\u{fffd}'),
{
    String::from_utf8_lossy(bytes).into_owned()
}

/// The characters of a text.
pub fn chars_of(text: &str) -> (chars: Vec<char>)
    ensures
        chars@ == text@,
{
    let mut chars: Vec<char> = Vec::new();
    for c in iter: text.chars()
        invariant
            iter.seq() == text@,
            chars@ == text@.take(iter.index() as int),
    {
        chars.push(c);
        assert(chars@ =~= text@.take(iter.index() + 1));
    }
    assert(chars@ =~= text@);
    chars
}

/// The pieces of a text between separators. There is always at least one.
pub open spec fn split_at(text: Seq<char>, separator: char) -> Seq<Seq<char>>
    decreases text.len(),
{
    if text.len() == 0 {
        seq![Seq::empty()]
    } else {
        let pieces = split_at(text.drop_last(), separator);
        if text.last() == separator {
            pieces.push(Seq::empty())
        } else {
            pieces.update(pieces.len() - 1, pieces.last().push(text.last()))
        }
    }
}

/// The pieces of a split text.
pub open spec fn piece_views(pieces: Seq<Vec<char>>) -> Seq<Seq<char>> {
    pieces.map_values(|piece: Vec<char>| piece@)
}

/// Splits a text at every separator.
pub fn split(text: &[char], separator: char) -> (pieces: Vec<Vec<char>>)
    ensures
        piece_views(pieces@) == split_at(text@, separator),
        pieces@.len() > 0,
{
    let mut pieces: Vec<Vec<char>> = Vec::new();
    let mut piece: Vec<char> = Vec::new();
    assert(piece_views(pieces@).push(piece@) =~= split_at(text@.take(0), separator));
    for i in 0..text.len()
        invariant
            piece_views(pieces@).push(piece@) == split_at(text@.take(i as int), separator),
    {
        let ghost so_far = split_at(text@.take(i as int), separator);
        let c: char = text[i];
        assert(text@.take(i + 1).drop_last() =~= text@.take(i as int));
        assert(so_far.last() == piece@);
        if c == separator {
            pieces.push(piece);
            piece = Vec::new();
            assert(piece_views(pieces@) =~= so_far);
        } else {
            piece.push(c);
            assert(piece_views(pieces@).push(piece@) =~= so_far.update(
                so_far.len() - 1,
                so_far.last().push(c),
            ));
        }
    }
    assert(text@.take(text@.len() as int) =~= text@);
    let ghost before = pieces@;
    let ghost last = piece@;
    pieces.push(piece);
    assert(piece_views(pieces@) =~= piece_views(before).push(last));
    pieces
}

/// Whether a character is one of the ten decimal digits.
pub open spec fn is_digit(c: char) -> bool {
    '0' <= c && c <= '9'
}

/// Whether a text holds nothing but decimal digits.
pub open spec fn all_digits(text: Seq<char>) -> bool {
    forall|i: int| 0 <= i < text.len() ==> is_digit(#[trigger] text[i])
}

/// The number that decimal digits stand for.
pub open spec fn digits_value(digits: Seq<char>) -> nat
    decreases digits.len(),
{
    if digits.len() == 0 {
        0
    } else {
        digits_value(digits.drop_last()) * 10 + (digits.last() as nat - '0' as nat) as nat
    }
}

/// The number that a text stands for: one or more decimal digits, with or
/// without a plus sign in front, that fit 32 bits.
pub open spec fn number_of(text: Seq<char>) -> Option<u32> {
    let digits = if text.len() > 0 && text[0] == '+' {
        text.skip(1)
    } else {
        text
    };
    if digits.len() > 0 && all_digits(digits) && digits_value(digits) <= u32::MAX {
        Some(digits_value(digits) as u32)
    } else {
        None
    }
}

/// [`number_of`], or zero where there is none.
pub open spec fn number_or_zero(text: Seq<char>) -> u32 {
    match number_of(text) {
        Some(number) => number,
        None => 0,
    }
}

/// Digits in front of others stand for no larger a number.
proof fn lemma_digits_value_grows(digits: Seq<char>, count: int)
    requires
        0 <= count <= digits.len(),
        all_digits(digits),
    ensures
        digits_value(digits.take(count)) <= digits_value(digits),
    decreases digits.len(),
{
    if count == digits.len() {
        assert(digits.take(count) =~= digits);
    } else {
        assert(digits.drop_last().take(count) =~= digits.take(count));
        assert(is_digit(digits[digits.len() - 1]));
        lemma_digits_value_grows(digits.drop_last(), count);
    }
}

/// Reads a number from the characters from `start` up to `end`.
pub fn parse_number(text: &[char], start: usize, end: usize) -> (number: Option<u32>)
    requires
        start <= end <= text@.len(),
    ensures
        number == number_of(text@.subrange(start as int, end as int)),
{
    let ghost piece = text@.subrange(start as int, end as int);
    let first: usize = if start < end && text[start] == '+' {
        start + 1
    } else {
        start
    };
    let ghost digits = text@.subrange(first as int, end as int);
    assert(digits =~= if piece.len() > 0 && piece[0] == '+' {
        piece.skip(1)
    } else {
        piece
    });
    if first == end {
        return None;
    }
    let mut value: u32 = 0;
    for i in first..end
        invariant
            first <= end <= text@.len(),
            piece == text@.subrange(start as int, end as int),
            digits == text@.subrange(first as int, end as int),
            number_of(piece) == if digits.len() > 0 && all_digits(digits) && digits_value(digits)
                <= u32::MAX {
                Some(digits_value(digits) as u32)
            } else {
                None
            },
            all_digits(digits.take(i - first)),
            value == digits_value(digits.take(i - first)),
    {
        let c: char = text[i];
        let ghost seen = i - first;
        assert(digits[seen] == c);
        assert(digits.take(seen + 1).drop_last() =~= digits.take(seen));
        if c < '0' || c > '9' {
            assert(!all_digits(digits));
            return None;
        }
        let digit: u32 = c as u32 - '0' as u32;
        proof {
            if all_digits(digits) {
                lemma_digits_value_grows(digits, seen + 1);
            }
        }
        if value > (u32::MAX - digit) / 10 {
            return None;
        }
        value = value * 10 + digit;
        assert(all_digits(digits.take(seen + 1))) by {
            assert forall|k: int| 0 <= k < seen + 1 implies is_digit(
                #[trigger] digits.take(seen + 1)[k],
            ) by {
                if k < seen {
                    assert(digits.take(seen)[k] == digits.take(seen + 1)[k]);
                }
            }
        }
    }
    assert(digits.take(end - first) =~= digits);
    Some(value)
}

} // verus!

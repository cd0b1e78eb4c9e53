//! What the parts of a file name say about the version.

use vstd::prelude::*;

use crate::path::file_name_of;
use crate::so_version::{
    leading_digits, leading_number, path_so_version, so_marker_at, so_version_of, trailing_digits,
    trailing_number, version_of, version_text, SoVersion,
};
use crate::text::{
    all_digits, digits_value, is_digit, number_of, number_or_zero, split_at, utf8_lossy,
};
use crate::text_laws::{
    law_a_text_without_separators_is_one_piece, law_both_sides_of_a_separator_are_split,
    law_digits_are_a_number_if_it_fits, law_nothing_else_is_a_number, law_there_are_ten_digits,
};

verus! {

/// Whether all characters of a text are among the ten digits.
pub open spec fn plain_digits(text: Seq<char>) -> bool {
    forall|i: int|
        0 <= i < text.len() ==> 48 <= (#[trigger] text[i]) as int && text[i] as int <= 57
}

/// Whether a text does not go on with a digit.
pub open spec fn starts_otherwise(text: Seq<char>) -> bool {
    text.len() > 0 ==> text[0] as int <= 47 || text[0] as int >= 58
}

/// The version is told by what stands behind the first `.so.`, all of it, split at
/// the dots.
pub proof fn law_what_follows_the_first_marker_counts(name: Seq<char>, at: int)
    requires
        0 <= at,
        at + 4 <= name.len(),
        name[at] == '.',
        name[at + 1] == 's',
        name[at + 2] == 'o',
        name[at + 3] == '.',
        forall|i: int|
            0 <= i < at ==> !((#[trigger] name[i]) == '.' && name[i + 1] == 's' && name[i + 2]
                == 'o' && name[i + 3] == '.'),
    ensures
        version_text(name) == Some(name.skip(at + 4)),
        so_version_of(name) == Some(version_of(split_at(name.skip(at + 4), '.'))),
    decreases name.len(),
{
    if at > 0 {
        let rest = name.drop_first();
        assert(!(name[0] == '.' && name[1] == 's' && name[2] == 'o' && name[3] == '.'));
        assert(!so_marker_at(name, 0));
        assert forall|i: int| 0 <= i < at - 1 implies !((#[trigger] rest[i]) == '.' && rest[i + 1]
            == 's' && rest[i + 2] == 'o' && rest[i + 3] == '.') by {
            assert(rest[i] == name[i + 1]);
            assert(!(name[i + 1] == '.' && name[i + 1 + 1] == 's' && name[i + 1 + 2] == 'o'
                && name[i + 1 + 3] == '.'));
        }
        law_what_follows_the_first_marker_counts(rest, at - 1);
        assert(rest.skip(at - 1 + 4) =~= name.skip(at + 4));
    }
}

/// A file name tells no version exactly if `.so.` stands nowhere in it.
pub proof fn law_no_marker_no_version(name: Seq<char>)
    ensures
        so_version_of(name) is None <==> forall|i: int|
            0 <= i && i + 4 <= name.len() ==> !((#[trigger] name[i]) == '.' && name[i + 1] == 's'
                && name[i + 2] == 'o' && name[i + 3] == '.'),
        version_text(name) is None <==> so_version_of(name) is None,
    decreases name.len(),
{
    if name.len() >= 4 {
        let rest = name.drop_first();
        law_no_marker_no_version(rest);
        if so_marker_at(name, 0) {
            assert(name[0] == '.');
        } else if so_version_of(name) is None {
            assert forall|i: int| 0 <= i && i + 4 <= name.len() implies !((#[trigger] name[i])
                == '.' && name[i + 1] == 's' && name[i + 2] == 'o' && name[i + 3] == '.') by {
                if i > 0 {
                    assert(!(rest[i - 1] == '.' && rest[i - 1 + 1] == 's' && rest[i - 1 + 2] == 'o'
                        && rest[i - 1 + 3] == '.'));
                }
            }
        } else {
            let i = choose|i: int|
                0 <= i && i + 4 <= rest.len() && (#[trigger] rest[i]) == '.' && rest[i + 1] == 's'
                    && rest[i + 2] == 'o' && rest[i + 3] == '.';
            assert(name[i + 1] == '.' && name[i + 1 + 1] == 's' && name[i + 1 + 2] == 'o'
                && name[i + 1 + 3] == '.');
        }
    }
}

/// Digits in front of something else are the digits that lead.
proof fn lemma_leading(digits: Seq<char>, rest: Seq<char>)
    requires
        plain_digits(digits),
        starts_otherwise(rest),
    ensures
        leading_digits(digits + rest) == digits.len(),
        leading_number(digits + rest) == number_or_zero(digits),
    decreases digits.len(),
{
    let text = digits + rest;
    if digits.len() == 0 {
        assert(text =~= rest);
        if rest.len() > 0 {
            law_there_are_ten_digits(rest[0], rest);
        }
    } else {
        law_there_are_ten_digits(digits[0], digits);
        let shorter = digits.drop_first();
        assert forall|i: int| 0 <= i < shorter.len() implies 48 <= (#[trigger] shorter[i]) as int
            && shorter[i] as int <= 57 by {
            assert(shorter[i] == digits[i + 1]);
        }
        lemma_leading(shorter, rest);
        assert(text.drop_first() =~= shorter + rest);
        assert(text[0] == digits[0]);
    }
    assert(text.take(digits.len() as int) =~= digits);
}

/// Digits behind something else are the digits that trail.
proof fn lemma_trailing(head: Seq<char>, digits: Seq<char>)
    requires
        plain_digits(digits),
        head.len() > 0,
        head.last() as int <= 47 || head.last() as int >= 58,
    ensures
        trailing_digits(head + digits) == digits.len(),
        trailing_number(head + digits) == number_of(digits),
    decreases digits.len(),
{
    let text = head + digits;
    law_there_are_ten_digits(head.last(), text);
    assert(text[head.len() - 1] == head.last());
    if digits.len() == 0 {
        assert(text =~= head);
    } else {
        let shorter = digits.drop_last();
        law_there_are_ten_digits(digits.last(), digits);
        assert(digits[digits.len() - 1] == digits.last());
        assert forall|i: int| 0 <= i < shorter.len() implies 48 <= (#[trigger] shorter[i]) as int
            && shorter[i] as int <= 57 by {
            assert(shorter[i] == digits[i]);
        }
        lemma_trailing(head, shorter);
        assert(text.drop_last() =~= head + shorter);
        assert(text.last() == digits.last());
    }
    assert(!all_digits(text)) by {
        assert(!is_digit(text[head.len() - 1]));
    }
    assert(text.skip(text.len() - digits.len()) =~= digits);
}

/// The major and the minor version are the first two components, as far as they are
/// there and are numbers that fit, and zero otherwise.
pub proof fn law_the_first_two_components_are_major_and_minor(components: Seq<Seq<char>>)
    requires
        components.len() > 0,
    ensures
        number_of(components[0]) matches Some(number) ==> version_of(components).major == number,
        number_of(components[0]) is None ==> version_of(components).major == 0,
        components.len() > 1 ==> (number_of(components[1]) matches Some(number) ==> version_of(
            components,
        ).minor == number),
        components.len() > 1 && number_of(components[1]) is None ==> version_of(components).minor
            == 0,
        components.len() <= 1 ==> version_of(components).minor == 0,
{
    law_nothing_else_is_a_number(components[0]);
    if components.len() > 1 {
        law_nothing_else_is_a_number(components[1]);
    }
}

/// The patch version is the number of all the digits that the third component
/// starts with, if there are any and their number fits, and zero otherwise.
pub proof fn law_the_patch_is_what_the_third_component_starts_with(
    components: Seq<Seq<char>>,
    digits: Seq<char>,
    rest: Seq<char>,
)
    requires
        components.len() > 2,
        components[2] == digits + rest,
        plain_digits(digits),
        starts_otherwise(rest),
    ensures
        digits.len() > 0 && digits_value(digits) <= 0xffff_ffff ==> version_of(components).patch
            == digits_value(digits),
        digits.len() == 0 || digits_value(digits) > 0xffff_ffff ==> version_of(components).patch
            == 0,
{
    lemma_leading(digits, rest);
    if digits.len() > 0 {
        law_digits_are_a_number_if_it_fits(digits);
    } else {
        law_nothing_else_is_a_number(digits);
    }
}

/// The prerelease is the number of all the digits that the third component ends in
/// behind something else, if there are any and their number fits.
pub proof fn law_the_prerelease_is_what_the_third_component_ends_in(
    components: Seq<Seq<char>>,
    head: Seq<char>,
    digits: Seq<char>,
)
    requires
        components.len() > 2,
        components[2] == head + digits,
        plain_digits(digits),
        head.len() > 0,
        head.last() as int <= 47 || head.last() as int >= 58,
        digits.len() > 0,
        digits_value(digits) <= 0xffff_ffff,
    ensures
        version_of(components).prerelease == digits_value(digits),
{
    lemma_trailing(head, digits);
    law_digits_are_a_number_if_it_fits(digits);
}

/// Failing that, because the third component is all digits, or ends in none, or in
/// too large a number, the prerelease is the number that the fourth component starts
/// with, and zero if there is none.
pub proof fn law_the_prerelease_may_be_the_fourth_component(
    components: Seq<Seq<char>>,
    head: Seq<char>,
    trail: Seq<char>,
    digits: Seq<char>,
    rest: Seq<char>,
)
    requires
        components.len() > 2,
        components[2] == head + trail,
        plain_digits(trail),
        head.len() == 0 || ((head.last() as int <= 47 || head.last() as int >= 58) && (
        trail.len() == 0 || digits_value(trail) > 0xffff_ffff)),
        components.len() > 3 ==> components[3] == digits + rest,
        plain_digits(digits),
        starts_otherwise(rest),
    ensures
        components.len() > 3 && digits.len() > 0 && digits_value(digits) <= 0xffff_ffff
            ==> version_of(components).prerelease == digits_value(digits),
        components.len() <= 3 || digits.len() == 0 || digits_value(digits) > 0xffff_ffff
            ==> version_of(components).prerelease == 0,
{
    if head.len() == 0 {
        assert(head + trail =~= trail);
        law_there_are_ten_digits('0', trail);
        assert(trailing_number(components[2]) is None);
    } else {
        lemma_trailing(head, trail);
        if trail.len() == 0 {
            law_nothing_else_is_a_number(trail);
        } else {
            law_digits_are_a_number_if_it_fits(trail);
        }
    }
    lemma_leading(digits, rest);
    if digits.len() > 0 {
        law_digits_are_a_number_if_it_fits(digits);
    } else {
        law_nothing_else_is_a_number(digits);
    }
}

/// With fewer than three components there is neither a patch nor a prerelease.
pub proof fn law_missing_components_are_zero(components: Seq<Seq<char>>)
    requires
        components.len() <= 2,
    ensures
        version_of(components).patch == 0,
        version_of(components).prerelease == 0,
{
}

/// A file name that ends in `.so.` and three components, the last of them a number
/// followed by something else and another number, tells all four numbers.
pub proof fn law_a_whole_version_is_told(
    prefix: Seq<char>,
    major: Seq<char>,
    minor: Seq<char>,
    patch: Seq<char>,
    between: Seq<char>,
    prerelease: Seq<char>,
)
    requires
        forall|i: int| 0 <= i < prefix.len() ==> #[trigger] prefix[i] != '.',
        plain_digits(major) && major.len() > 0 && digits_value(major) <= 0xffff_ffff,
        plain_digits(minor) && minor.len() > 0 && digits_value(minor) <= 0xffff_ffff,
        plain_digits(patch) && patch.len() > 0 && digits_value(patch) <= 0xffff_ffff,
        plain_digits(prerelease) && prerelease.len() > 0 && digits_value(prerelease)
            <= 0xffff_ffff,
        between.len() > 0,
        starts_otherwise(between),
        between.last() as int <= 47 || between.last() as int >= 58,
        forall|i: int| 0 <= i < between.len() ==> #[trigger] between[i] != '.',
    ensures
        ({
            let name = prefix + seq!['.', 's', 'o', '.'] + (major.push('.') + (minor.push('.') + (
            patch + between + prerelease)));
            so_version_of(name) == Some(
                SoVersion {
                    major: digits_value(major) as u32,
                    minor: digits_value(minor) as u32,
                    patch: digits_value(patch) as u32,
                    prerelease: digits_value(prerelease) as u32,
                },
            )
        }),
{
    let third = patch + between + prerelease;
    let version = major.push('.') + (minor.push('.') + third);
    let name = prefix + seq!['.', 's', 'o', '.'] + version;
    let at = prefix.len() as int;
    assert forall|i: int| 0 <= i < at implies !((#[trigger] name[i]) == '.' && name[i + 1] == 's'
        && name[i + 2] == 'o' && name[i + 3] == '.') by {
        assert(name[i] == prefix[i]);
    }
    law_what_follows_the_first_marker_counts(name, at);
    assert(name.skip(at + 4) =~= version);
    assert forall|i: int| 0 <= i < major.len() implies #[trigger] major[i] != '.' by {}
    assert forall|i: int| 0 <= i < minor.len() implies #[trigger] minor[i] != '.' by {}
    assert forall|i: int| 0 <= i < third.len() implies #[trigger] third[i] != '.' by {
        if i < patch.len() {
            assert(third[i] == patch[i]);
        } else if i < patch.len() + between.len() {
            assert(third[i] == between[i - patch.len()]);
        } else {
            assert(third[i] == prerelease[i - patch.len() - between.len()]);
        }
    }
    law_a_text_without_separators_is_one_piece(major, '.');
    law_a_text_without_separators_is_one_piece(minor, '.');
    law_a_text_without_separators_is_one_piece(third, '.');
    law_both_sides_of_a_separator_are_split(minor, third, '.');
    law_both_sides_of_a_separator_are_split(major, minor.push('.') + third, '.');
    let components = split_at(version, '.');
    assert(components =~= seq![major, minor, third]);
    law_digits_are_a_number_if_it_fits(major);
    law_digits_are_a_number_if_it_fits(minor);
    law_the_first_two_components_are_major_and_minor(components);
    assert(third =~= patch + (between + prerelease));
    assert((between + prerelease)[0] == between[0]);
    law_the_patch_is_what_the_third_component_starts_with(
        components,
        patch,
        between + prerelease,
    );
    assert(third =~= (patch + between) + prerelease);
    assert((patch + between).last() == between.last());
    law_the_prerelease_is_what_the_third_component_ends_in(
        components,
        patch + between,
        prerelease,
    );
}

/// The version that a path tells is the one that its file name tells, and a path
/// without a file name tells none.
pub proof fn law_a_path_tells_what_its_file_name_tells(path: Seq<u8>, name: Seq<u8>)
    ensures
        file_name_of(path) == Some(name) ==> path_so_version(path) == so_version_of(
            utf8_lossy(name),
        ),
        file_name_of(path) is None ==> path_so_version(path) is None,
{
}

} // verus!

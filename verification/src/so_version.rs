//! Versions of shared objects, as their file names tell them.

use vstd::prelude::*;
use vstd::utf8::{decode_utf8, valid_utf8};

use crate::path::{file_name, file_name_of};
use crate::text::{
    all_digits, chars_of, decode_lossy, digits_value, is_digit, number_of, number_or_zero, parse_number,
    piece_views, split, split_at, utf8_lossy,
};

verus! {

/// Version metadata retrieved from an .so filename
///
/// There is no standard for .so version numbers so this implementation just
/// does a best effort to pull as much data as it can based on real .so schemes
/// seen
///
/// That being said, the [libtool](https://www.gnu.org/software/libtool/manual/html_node/Libtool-versioning.html)
/// versioning scheme is fairly common
#[derive(Debug, Clone, Copy, PartialEq, Eq, Structural)]
pub struct SoVersion {
    /// Might be non-zero if there is at least one non-zero numeric component after .so.
    ///
    /// Equivalent to `current` in libtool versions
    pub major: u32,
    /// The numeric component after the major version, if any
    ///
    /// Equivalent to `revision` in libtool versions
    pub minor: u32,
    /// The numeric component after the minor version, if any
    ///
    /// Equivalent to `age` in libtool versions
    pub patch: u32,
    /// The patch component may contain additional non-numeric metadata similar
    /// to a semver prelease, this is any numeric data that suffixes that prerelease
    /// string
    pub prerelease: u32,
}

/// Whether `.so.` stands at index `at`.
pub open spec fn so_marker_at(text: Seq<char>, at: int) -> bool {
    &&& 0 <= at
    &&& at + 4 <= text.len()
    &&& text[at] == '.'
    &&& text[at + 1] == 's'
    &&& text[at + 2] == 'o'
    &&& text[at + 3] == '.'
}

/// What follows the first `.so.`, if there is one.
pub open spec fn version_text(text: Seq<char>) -> Option<Seq<char>>
    decreases text.len(),
{
    if text.len() < 4 {
        None
    } else if so_marker_at(text, 0) {
        Some(text.skip(4))
    } else {
        version_text(text.drop_first())
    }
}

/// How many digits a text starts with.
pub open spec fn leading_digits(text: Seq<char>) -> nat
    decreases text.len(),
{
    if text.len() > 0 && is_digit(text[0]) {
        1 + leading_digits(text.drop_first())
    } else {
        0
    }
}

/// How many digits a text ends in.
pub open spec fn trailing_digits(text: Seq<char>) -> nat
    decreases text.len(),
{
    if text.len() > 0 && is_digit(text.last()) {
        1 + trailing_digits(text.drop_last())
    } else {
        0
    }
}

/// The number that a component starts with, or zero.
pub open spec fn leading_number(component: Seq<char>) -> u32 {
    number_or_zero(component.take(leading_digits(component) as int))
}

/// The number that a component with something else than digits in it ends in.
pub open spec fn trailing_number(component: Seq<char>) -> Option<u32> {
    if all_digits(component) {
        None
    } else {
        number_of(component.skip(component.len() - trailing_digits(component)))
    }
}

/// The version that the components of a version text stand for.
///
/// The first two are numbers or count as zero. The third starts with the patch
/// number, and the number it ends in, or failing that the one the fourth starts
/// with, is the prerelease.
pub open spec fn version_of(components: Seq<Seq<char>>) -> SoVersion {
    SoVersion {
        major: number_or_zero(components[0]),
        minor: if components.len() > 1 {
            number_or_zero(components[1])
        } else {
            0
        },
        patch: if components.len() > 2 {
            leading_number(components[2])
        } else {
            0
        },
        prerelease: if components.len() > 2 && trailing_number(components[2]) is Some {
            trailing_number(components[2])->0
        } else if components.len() > 3 {
            leading_number(components[3])
        } else {
            0
        },
    }
}

/// The version that a file name tells, if it holds `.so.`.
pub open spec fn so_version_of(name: Seq<char>) -> Option<SoVersion> {
    match version_text(name) {
        Some(version) => Some(version_of(split_at(version, '.'))),
        None => None,
    }
}

/// The version that the file name of a path tells.
pub open spec fn path_so_version(path: Seq<u8>) -> Option<SoVersion> {
    match file_name_of(path) {
        Some(name) => so_version_of(utf8_lossy(name)),
        None => None,
    }
}

/// Where the text behind the first `.so.` starts.
fn find_version(text: &[char]) -> (start: Option<usize>)
    ensures
        match start {
            Some(at) => at <= text@.len() && version_text(text@) == Some(text@.skip(at as int)),
            None => version_text(text@) is None,
        },
{
    let mut at: usize = 0;
    assert(text@.skip(0) =~= text@);
    while text.len() - at >= 4
        invariant
            at <= text@.len(),
            version_text(text@) == version_text(text@.skip(at as int)),
        decreases text@.len() - at,
    {
        let ghost rest = text@.skip(at as int);
        assert(rest[0] == text@[at as int]);
        assert(rest[1] == text@[at + 1]);
        assert(rest[2] == text@[at + 2]);
        assert(rest[3] == text@[at + 3]);
        assert(rest.skip(4) =~= text@.skip(at + 4));
        assert(rest.drop_first() =~= text@.skip(at + 1));
        if text[at] == '.' && text[at + 1] == 's' && text[at + 2] == 'o' && text[at + 3] == '.' {
            return Some(at + 4);
        }
        at = at + 1;
    }
    None
}

/// How many digits a component starts with.
fn count_leading_digits(component: &[char]) -> (count: usize)
    ensures
        count == leading_digits(component@),
        count <= component@.len(),
        count == component@.len() <==> all_digits(component@),
{
    let mut count: usize = 0;
    assert(component@.skip(0) =~= component@);
    while count < component.len() && component[count] >= '0' && component[count] <= '9'
        invariant
            count <= component@.len(),
            forall|i: int| 0 <= i < count ==> is_digit(#[trigger] component@[i]),
            leading_digits(component@) == count + leading_digits(component@.skip(count as int)),
        decreases component@.len() - count,
    {
        assert(component@.skip(count as int).drop_first() =~= component@.skip(count + 1));
        count = count + 1;
    }
    if count < component.len() {
        assert(!is_digit(component@[count as int]));
    }
    count
}

/// How many digits a component ends in.
fn count_trailing_digits(component: &[char]) -> (count: usize)
    ensures
        count == trailing_digits(component@),
        count <= component@.len(),
{
    let length: usize = component.len();
    let mut count: usize = 0;
    assert(component@.take(length as int) =~= component@);
    while count < length && component[length - 1 - count] >= '0' && component[length - 1 - count]
        <= '9'
        invariant
            length == component@.len(),
            count <= length,
            trailing_digits(component@) == count + trailing_digits(
                component@.take(length - count),
            ),
        decreases length - count,
    {
        assert(component@.take(length - count).drop_last() =~= component@.take(
            length - (count + 1),
        ));
        count = count + 1;
    }
    count
}

/// The number that a whole component stands for, or zero.
fn component_number(component: &[char]) -> (number: u32)
    ensures
        number == number_or_zero(component@),
{
    assert(component@.subrange(0, component@.len() as int) =~= component@);
    match parse_number(component, 0, component.len()) {
        Some(number) => number,
        None => 0,
    }
}

/// The number that a component starts with, or zero.
fn component_leading_number(component: &[char]) -> (number: u32)
    ensures
        number == leading_number(component@),
{
    let count: usize = count_leading_digits(component);
    assert(component@.subrange(0, count as int) =~= component@.take(count as int));
    match parse_number(component, 0, count) {
        Some(number) => number,
        None => 0,
    }
}

/// The number that a component with something else than digits in it ends in.
fn component_trailing_number(component: &[char]) -> (number: Option<u32>)
    ensures
        number == trailing_number(component@),
{
    if count_leading_digits(component) == component.len() {
        return None;
    }
    let start: usize = component.len() - count_trailing_digits(component);
    assert(component@.subrange(start as int, component@.len() as int) =~= component@.skip(
        start as int,
    ));
    parse_number(component, start, component.len())
}

impl SoVersion {
    /// Attempts to retrieve the .so version of the elf path via its filename
    pub fn parse(so_path: &[u8]) -> (version: Option<SoVersion>)
        ensures
            version == path_so_version(so_path@),
            file_name_of(so_path@) matches Some(name) ==> (valid_utf8(name) ==> version
                == so_version_of(decode_utf8(name))),
    {
        match file_name(so_path) {
            Some(name) => {
                let text: String = decode_lossy(name.as_slice());
                SoVersion::from_file_name(text.as_str())
            },
            None => None,
        }
    }

    /// Attempts to retrieve the .so version that a file name tells.
    pub fn from_file_name(name: &str) -> (version: Option<SoVersion>)
        ensures
            version == so_version_of(name@),
    {
        let text: Vec<char> = chars_of(name);
        let start: usize = match find_version(text.as_slice()) {
            Some(start) => start,
            None => {
                return None;
            },
        };
        let rest: &[char] = vstd::slice::slice_subrange(text.as_slice(), start, text.len());
        assert(rest@ =~= text@.skip(start as int));
        let components: Vec<Vec<char>> = split(rest, '.');
        let ghost views = piece_views(components@);
        assert(forall|i: int| 0 <= i < views.len() ==> #[trigger] views[i] == components@[i]@);
        assert(views.len() == components@.len());

        assert(views[0] == components@[0]@);
        let major: u32 = component_number(components[0].as_slice());
        let mut minor: u32 = 0;
        if components.len() > 1 {
            assert(views[1] == components@[1]@);
            minor = component_number(components[1].as_slice());
        }
        let mut patch: u32 = 0;
        let mut prerelease: u32 = 0;
        if components.len() > 2 {
            // In some cases the release/patch version is alphanumeric (eg. '2rc5'),
            // so try to parse either a single or two numbers
            assert(views[2] == components@[2]@);
            patch = component_leading_number(components[2].as_slice());
            match component_trailing_number(components[2].as_slice()) {
                Some(number) => {
                    prerelease = number;
                },
                None => {
                    if components.len() > 3 {
                        assert(views[3] == components@[3]@);
                        prerelease = component_leading_number(components[3].as_slice());
                    }
                },
            }
        }
        Some(SoVersion { major, minor, patch, prerelease })
    }
}

/// A file name tells a version exactly if it holds `.so.`.
pub proof fn law_a_version_needs_a_marker(name: Seq<char>)
    ensures
        version_text(name) is Some <==> exists|at: int| #[trigger] so_marker_at(name, at),
        so_version_of(name) is Some <==> exists|at: int| #[trigger] so_marker_at(name, at),
    decreases name.len(),
{
    if name.len() >= 4 && !so_marker_at(name, 0) {
        let rest = name.drop_first();
        law_a_version_needs_a_marker(rest);
        if exists|at: int| #[trigger] so_marker_at(name, at) {
            let at = choose|at: int| #[trigger] so_marker_at(name, at);
            assert(so_marker_at(rest, at - 1));
        }
        if exists|at: int| #[trigger] so_marker_at(rest, at) {
            let at = choose|at: int| #[trigger] so_marker_at(rest, at);
            assert(so_marker_at(name, at + 1));
        }
    }
}

/// Of all `.so.` in a file name it is the text behind the first one that counts.
pub proof fn law_version_follows_the_first_marker(name: Seq<char>, at: int)
    requires
        so_marker_at(name, at),
        forall|i: int| 0 <= i < at ==> !#[trigger] so_marker_at(name, i),
    ensures
        version_text(name) == Some(name.skip(at + 4)),
        so_version_of(name) == Some(version_of(split_at(name.skip(at + 4), '.'))),
    decreases name.len(),
{
    if at > 0 {
        let rest = name.drop_first();
        assert(!so_marker_at(name, 0));
        assert(so_marker_at(rest, at - 1));
        assert forall|i: int| 0 <= i < at - 1 implies !#[trigger] so_marker_at(rest, i) by {
            assert(!so_marker_at(name, i + 1));
        }
        law_version_follows_the_first_marker(rest, at - 1);
        assert(rest.skip(at - 1 + 4) =~= name.skip(at + 4));
    }
}

/// No component behind the fourth has a say.
pub proof fn law_only_four_components_count(components: Seq<Seq<char>>)
    requires
        components.len() > 4,
    ensures
        version_of(components) == version_of(components.take(4)),
{
}

/// Components that are plain numbers are the version: each number that is there
/// stands for itself, and one that is missing, or does not fit, for zero. What
/// stands behind the fourth component may be anything.
pub proof fn law_plain_numbers_are_the_version(components: Seq<Seq<char>>)
    requires
        components.len() >= 1,
        forall|i: int|
            0 <= i < 4 && i < components.len() ==> all_digits(#[trigger] components[i]),
    ensures
        version_of(components) == (SoVersion {
            major: number_or_zero(components[0]),
            minor: if components.len() > 1 {
                number_or_zero(components[1])
            } else {
                0
            },
            patch: if components.len() > 2 {
                number_or_zero(components[2])
            } else {
                0
            },
            prerelease: if components.len() > 3 {
                number_or_zero(components[3])
            } else {
                0
            },
        }),
        forall|i: int|
            0 <= i < 4 && i < components.len() && 0 < (#[trigger] components[i]).len()
                && digits_value(components[i]) <= u32::MAX ==> number_or_zero(components[i])
                == digits_value(components[i]),
{
    assert forall|i: int| 2 <= i < 4 && i < components.len() implies leading_number(
        #[trigger] components[i],
    ) == number_or_zero(components[i]) by {
        lemma_all_leading(components[i]);
        assert(components[i].take(components[i].len() as int) =~= components[i]);
    }
    if components.len() > 2 {
        assert(all_digits(components[2]));
    }
    assert forall|i: int|
        0 <= i < 4 && i < components.len() && 0 < (#[trigger] components[i]).len() && digits_value(
            components[i],
        ) <= u32::MAX implies number_or_zero(components[i]) == digits_value(components[i]) by {
        assert(is_digit(components[i][0]));
    }
}

/// Where all characters are digits, all of them lead.
proof fn lemma_all_leading(text: Seq<char>)
    requires
        all_digits(text),
    ensures
        leading_digits(text) == text.len(),
    decreases text.len(),
{
    if text.len() > 0 {
        assert(is_digit(text[0]));
        assert forall|i: int| 0 <= i < text.drop_first().len() implies is_digit(
            #[trigger] text.drop_first()[i],
        ) by {
            assert(is_digit(text[i + 1]));
        }
        lemma_all_leading(text.drop_first());
    }
}

} // verus!

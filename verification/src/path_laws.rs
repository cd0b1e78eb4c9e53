//! What paths are made of, byte by byte: `0x2f` is the separator, `0x2e` the dot.

use vstd::prelude::*;

use crate::path::{
    file_name_of, is_file_name, joined, last_component_start, parent_of, trimmed, with_file_name,
};

verus! {

/// Whether nothing but separators, and dots that each follow one, stands in a path
/// from index `end` on.
pub open spec fn trails_from(path: Seq<u8>, end: int) -> bool {
    forall|i: int|
        end <= i < path.len() ==> (#[trigger] path[i]) == 0x2f || (path[i] == 0x2e && i > 0
            && path[i - 1] == 0x2f)
}

/// Whether the byte in front of index `end` is one to keep: it is the only one, or
/// neither a separator nor a dot that follows one.
pub open spec fn keeps_up_to(path: Seq<u8>, end: int) -> bool {
    &&& 0 <= end <= path.len()
    &&& end == 0 ==> path.len() == 0
    &&& end >= 2 ==> path[end - 1] != 0x2f && !(path[end - 1] == 0x2e && path[end - 2] == 0x2f)
}

/// Whether the bytes from `start` up to `end` are the name of a file: some bytes
/// between separators, neither a single dot nor two.
pub open spec fn names_a_file(path: Seq<u8>, start: int, end: int) -> bool {
    &&& 0 <= start < end <= path.len()
    &&& start > 0 ==> path[start - 1] == 0x2f
    &&& forall|i: int| start <= i < end ==> #[trigger] path[i] != 0x2f
    &&& !(end == start + 1 && path[start] == 0x2e)
    &&& !(end == start + 2 && path[start] == 0x2e && path[start + 1] == 0x2e)
}

/// Trimming takes all of what trails and nothing else.
pub proof fn law_trimming_takes_what_trails(path: Seq<u8>, end: int)
    requires
        keeps_up_to(path, end),
        trails_from(path, end),
    ensures
        trimmed(path) == path.take(end),
    decreases path.len(),
{
    if end == path.len() {
        assert(path.take(end) =~= path);
    } else {
        let shorter = path.drop_last();
        assert(path[path.len() - 1] == 0x2f || (path[path.len() - 1] == 0x2e && path[path.len()
            - 2] == 0x2f));
        assert forall|i: int| end <= i < shorter.len() implies (#[trigger] shorter[i]) == 0x2f || (
        shorter[i] == 0x2e && i > 0 && shorter[i - 1] == 0x2f) by {
            assert(shorter[i] == path[i]);
        }
        law_trimming_takes_what_trails(shorter, end);
        assert(shorter.take(end) =~= path.take(end));
    }
}

/// Every path can be trimmed, to one of its beginnings.
pub proof fn law_every_path_can_be_trimmed(path: Seq<u8>) -> (end: int)
    ensures
        keeps_up_to(path, end),
        trails_from(path, end),
        trimmed(path) == path.take(end),
    decreases path.len(),
{
    let n = path.len() as int;
    if n >= 2 && (path[n - 1] == 0x2f || (path[n - 1] == 0x2e && path[n - 2] == 0x2f)) {
        let shorter = path.drop_last();
        let end = law_every_path_can_be_trimmed(shorter);
        assert forall|i: int| end <= i < path.len() implies (#[trigger] path[i]) == 0x2f || (path[i]
            == 0x2e && i > 0 && path[i - 1] == 0x2f) by {
            if i < n - 1 {
                assert(shorter[i] == path[i]);
            }
        }
        law_trimming_takes_what_trails(path, end);
        end
    } else {
        law_trimming_takes_what_trails(path, n);
        n
    }
}

/// Where the last component of a path starts.
proof fn lemma_component_start(path: Seq<u8>, start: int)
    requires
        0 <= start <= path.len(),
        start > 0 ==> path[start - 1] == 0x2f,
        forall|i: int| start <= i < path.len() ==> #[trigger] path[i] != 0x2f,
    ensures
        last_component_start(path) == start,
    decreases path.len(),
{
    if start < path.len() {
        let shorter = path.drop_last();
        assert(path[path.len() - 1] != 0x2f);
        assert forall|i: int| start <= i < shorter.len() implies #[trigger] shorter[i] != 0x2f by {
            assert(shorter[i] == path[i]);
        }
        lemma_component_start(shorter, start);
    }
}

/// The last component of a path starts somewhere.
proof fn lemma_some_component_start(path: Seq<u8>) -> (start: int)
    ensures
        0 <= start <= path.len(),
        start > 0 ==> path[start - 1] == 0x2f,
        forall|i: int| start <= i < path.len() ==> #[trigger] path[i] != 0x2f,
        last_component_start(path) == start,
    decreases path.len(),
{
    if path.len() == 0 {
        0
    } else if path[path.len() - 1] == 0x2f {
        path.len() as int
    } else {
        let shorter = path.drop_last();
        let start = lemma_some_component_start(shorter);
        assert forall|i: int| start <= i < path.len() implies #[trigger] path[i] != 0x2f by {
            if i < shorter.len() {
                assert(shorter[i] == path[i]);
            }
        }
        lemma_component_start(path, start);
        start
    }
}

/// A component is a file name exactly if it has bytes and is neither a dot nor two.
pub proof fn law_dots_name_no_file(component: Seq<u8>)
    ensures
        is_file_name(component) <==> component.len() > 0 && !(component.len() == 1 && component[0]
            == 0x2e) && !(component.len() == 2 && component[0] == 0x2e && component[1] == 0x2e),
{
    if component.len() == 1 && component[0] == 0x2e {
        assert(component =~= seq![0x2eu8]);
    }
    if component.len() == 2 && component[0] == 0x2e && component[1] == 0x2e {
        assert(component =~= seq![0x2eu8, 0x2eu8]);
    }
}

/// What names a file with nothing but trailing bytes behind it is the file name of
/// the path, whole.
pub proof fn law_the_last_name_is_the_file_name(path: Seq<u8>, start: int, end: int)
    requires
        names_a_file(path, start, end),
        trails_from(path, end),
    ensures
        file_name_of(path) == Some(path.subrange(start, end)),
{
    assert(path[end - 1] != 0x2f);
    if end >= 2 && path[end - 1] == 0x2e && path[end - 2] == 0x2f {
        assert(start == end - 1) by {
            if start < end - 1 {
                assert(path[end - 2] != 0x2f);
            }
        }
    }
    law_trimming_takes_what_trails(path, end);
    let body = path.take(end);
    assert forall|i: int| start <= i < body.len() implies #[trigger] body[i] != 0x2f by {
        assert(body[i] == path[i]);
    }
    lemma_component_start(body, start);
    assert(body.skip(start) =~= path.subrange(start, end));
    law_dots_name_no_file(path.subrange(start, end));
}

/// A path has a file name only where something in it names a file, with nothing but
/// trailing bytes behind.
pub proof fn law_a_file_name_stands_in_the_path(path: Seq<u8>) -> (place: (int, int))
    requires
        file_name_of(path) is Some,
    ensures
        names_a_file(path, place.0, place.1),
        trails_from(path, place.1),
        file_name_of(path) == Some(path.subrange(place.0, place.1)),
{
    let end = law_every_path_can_be_trimmed(path);
    let body = path.take(end);
    let start = lemma_some_component_start(body);
    assert(body.skip(start) =~= path.subrange(start, end));
    law_dots_name_no_file(path.subrange(start, end));
    assert forall|i: int| start <= i < end implies #[trigger] path[i] != 0x2f by {
        assert(body[i] == path[i]);
    }
    (start, end)
}

/// A component behind a path: in its place if it starts with a separator, otherwise
/// behind a separator, which is only added where there is a path that lacks it.
pub proof fn law_joining_keeps_both(path: Seq<u8>, component: Seq<u8>)
    ensures
        component.len() > 0 && component[0] == 0x2f ==> joined(path, component) == component,
        !(component.len() > 0 && component[0] == 0x2f) && path.len() > 0 && path[path.len() - 1]
            != 0x2f ==> joined(path, component) == path + seq![0x2fu8] + component,
        !(component.len() > 0 && component[0] == 0x2f) && (path.len() == 0 || path[path.len() - 1]
            == 0x2f) ==> joined(path, component) == path + component,
{
    assert(path.push(0x2f) =~= path + seq![0x2fu8]);
}

/// A new file name takes the place of the old one and of what trails it, behind the
/// directory without what trails that.
pub proof fn law_a_new_name_takes_the_place_of_the_old_one(
    path: Seq<u8>,
    start: int,
    end: int,
    directory: int,
    name: Seq<u8>,
)
    requires
        names_a_file(path, start, end),
        trails_from(path, end),
        keeps_up_to(path.take(start), directory),
        trails_from(path.take(start), directory),
    ensures
        parent_of(path) == path.take(directory),
        with_file_name(path, name) == joined(path.take(directory), name),
{
    law_the_last_name_is_the_file_name(path, start, end);
    assert(path[end - 1] != 0x2f);
    if end >= 2 && path[end - 1] == 0x2e && path[end - 2] == 0x2f {
        assert(start == end - 1) by {
            if start < end - 1 {
                assert(path[end - 2] != 0x2f);
            }
        }
    }
    law_trimming_takes_what_trails(path, end);
    let body = path.take(end);
    assert forall|i: int| start <= i < body.len() implies #[trigger] body[i] != 0x2f by {
        assert(body[i] == path[i]);
    }
    lemma_component_start(body, start);
    assert(body.take(start) =~= path.take(start));
    law_trimming_takes_what_trails(path.take(start), directory);
    assert(path.take(start).take(directory) =~= path.take(directory));
}

/// A path without a file name gets one behind it.
pub proof fn law_a_path_without_a_name_gets_one(path: Seq<u8>, name: Seq<u8>)
    requires
        file_name_of(path) is None,
    ensures
        with_file_name(path, name) == joined(path, name),
{
}

} // verus!

//! Paths as byte strings, separated by `/`.

use vstd::prelude::*;

use crate::bytes::copy_bytes;

verus! {

/// The byte that separates the components of a path.
pub const SEPARATOR: u8 = 0x2f;

/// The byte that, alone or twice, makes up a component that is no name.
pub const DOT: u8 = 0x2e;

/// The path without what trails its last component: separators and components
/// that are a lone dot. A leading separator or dot is not trailing.
pub open spec fn trimmed(path: Seq<u8>) -> Seq<u8>
    decreases path.len(),
{
    let n = path.len();
    if n >= 2 && (path[n - 1] == SEPARATOR || path[n - 1] == DOT && path[n - 2] == SEPARATOR) {
        trimmed(path.drop_last())
    } else {
        path
    }
}

/// Where the text behind the last separator starts.
pub open spec fn last_component_start(path: Seq<u8>) -> int
    decreases path.len(),
{
    if path.len() == 0 {
        0
    } else if path.last() == SEPARATOR {
        path.len() as int
    } else {
        last_component_start(path.drop_last())
    }
}

/// Whether a component names a file: it is not empty, `.` or `..`.
pub open spec fn is_file_name(component: Seq<u8>) -> bool {
    &&& component.len() > 0
    &&& component != seq![DOT]
    &&& component != seq![DOT, DOT]
}

/// The last component of the path, if it names a file.
pub open spec fn file_name_of(path: Seq<u8>) -> Option<Seq<u8>> {
    let body = trimmed(path);
    let component = body.skip(last_component_start(body));
    if is_file_name(component) {
        Some(component)
    } else {
        None
    }
}

/// The path without its last component.
pub open spec fn parent_of(path: Seq<u8>) -> Seq<u8> {
    let body = trimmed(path);
    trimmed(body.take(last_component_start(body)))
}

/// The path followed by `component`, which replaces it if absolute.
pub open spec fn joined(path: Seq<u8>, component: Seq<u8>) -> Seq<u8> {
    if component.len() > 0 && component[0] == SEPARATOR {
        component
    } else if path.len() > 0 && path.last() != SEPARATOR {
        path.push(SEPARATOR) + component
    } else {
        path + component
    }
}

/// The path with `name` in place of its file name, or behind it if it has none.
pub open spec fn with_file_name(path: Seq<u8>, name: Seq<u8>) -> Seq<u8> {
    if file_name_of(path) is Some {
        joined(parent_of(path), name)
    } else {
        joined(path, name)
    }
}

/// Length of the path without what trails its last component.
fn trimmed_len(path: &[u8]) -> (len: usize)
    ensures
        len <= path@.len(),
        trimmed(path@) == path@.take(len as int),
{
    let mut len: usize = path.len();
    assert(path@.take(len as int) =~= path@);
    while len >= 2 && (path[len - 1] == SEPARATOR || path[len - 1] == DOT && path[len - 2]
        == SEPARATOR)
        invariant
            len <= path@.len(),
            trimmed(path@) == trimmed(path@.take(len as int)),
        decreases len,
    {
        assert(path@.take(len as int).drop_last() =~= path@.take(len - 1));
        len = len - 1;
    }
    len
}

/// Where the text behind the last separator of the first `len` bytes starts.
fn component_start(path: &[u8], len: usize) -> (start: usize)
    requires
        len <= path@.len(),
    ensures
        start <= len,
        start == last_component_start(path@.take(len as int)),
{
    let mut start: usize = len;
    while start > 0 && path[start - 1] != SEPARATOR
        invariant
            start <= len <= path@.len(),
            last_component_start(path@.take(start as int)) == last_component_start(
                path@.take(len as int),
            ),
        decreases start,
    {
        assert(path@.take(start as int).drop_last() =~= path@.take(start - 1));
        start = start - 1;
    }
    start
}

/// Copies the bytes from `start` up to `end`.
fn copy_range(path: &[u8], start: usize, end: usize) -> (copy: Vec<u8>)
    requires
        start <= end <= path@.len(),
    ensures
        copy@ == path@.subrange(start as int, end as int),
{
    copy_bytes(vstd::slice::slice_subrange(path, start, end))
}

/// The last component of the path, if it names a file.
pub fn file_name(path: &[u8]) -> (name: Option<Vec<u8>>)
    ensures
        match name {
            Some(bytes) => file_name_of(path@) == Some(bytes@),
            None => file_name_of(path@) is None,
        },
{
    let end: usize = trimmed_len(path);
    let start: usize = component_start(path, end);
    let ghost component = path@.take(end as int).skip(start as int);
    let length: usize = end - start;
    assert(component =~= path@.subrange(start as int, end as int));
    proof {
        if component.len() == 1 && component[0] == DOT {
            assert(component =~= seq![DOT]);
        }
        if component.len() == 2 && component[0] == DOT && component[1] == DOT {
            assert(component =~= seq![DOT, DOT]);
        }
    }
    if length == 0 || length == 1 && path[start] == DOT || length == 2 && path[start] == DOT
        && path[start + 1] == DOT {
        None
    } else {
        Some(copy_range(path, start, end))
    }
}

/// Appends a component to a path, or replaces the path if the component is
/// absolute.
pub fn push(path: &mut Vec<u8>, component: &[u8])
    ensures
        final(path)@ == joined(old(path)@, component@),
{
    if component.len() > 0 && component[0] == SEPARATOR {
        path.clear();
    } else if path.len() > 0 && path[path.len() - 1] != SEPARATOR {
        path.push(SEPARATOR);
    }
    let ghost before = path@;
    path.extend_from_slice(component);
    assert(path@ =~= before + component@);
    assert(path@ =~= joined(old(path)@, component@));
}

/// Puts `name` in place of the file name of a path, or appends it if the path
/// has none.
pub fn set_file_name(path: &mut Vec<u8>, name: &[u8])
    ensures
        final(path)@ == with_file_name(old(path)@, name@),
{
    let ghost before = path@;
    if file_name(path.as_slice()).is_some() {
        let end: usize = trimmed_len(path.as_slice());
        let start: usize = component_start(path.as_slice(), end);
        assert(before.take(end as int).take(start as int) =~= before.take(start as int));
        path.truncate(start);
        assert(path@ =~= before.take(start as int));
        let parent: usize = trimmed_len(path.as_slice());
        path.truncate(parent);
        assert(path@ =~= parent_of(before));
    }
    push(path, name);
}

/// Behind a directory, an empty one or one that ends in a separator, the last
/// component is the name.
proof fn lemma_last_component(directory: Seq<u8>, name: Seq<u8>)
    requires
        directory.len() == 0 || directory.last() == SEPARATOR,
        !name.contains(SEPARATOR),
    ensures
        last_component_start(directory + name) == directory.len(),
    decreases name.len(),
{
    if name.len() == 0 {
        assert(directory + name =~= directory);
    } else {
        assert(name.contains(name[name.len() - 1]));
        assert((directory + name).drop_last() =~= directory + name.drop_last());
        assert forall|byte: u8| #[trigger] name.drop_last().contains(byte) implies name.contains(
            byte,
        ) by {
            let i = choose|i: int| 0 <= i < name.drop_last().len() && name.drop_last()[i] == byte;
            assert(name[i] == byte);
        }
        lemma_last_component(directory, name.drop_last());
    }
}

/// A path that ends in a file name has nothing to trim.
proof fn lemma_nothing_trails_a_name(directory: Seq<u8>, name: Seq<u8>)
    requires
        directory.len() == 0 || directory.last() == SEPARATOR,
        is_file_name(name),
        !name.contains(SEPARATOR),
    ensures
        trimmed(directory + name) == directory + name,
        file_name_of(directory + name) == Some(name),
        parent_of(directory + name) == trimmed(directory),
{
    let path = directory + name;
    assert(name.contains(name[name.len() - 1]));
    if name.len() >= 2 {
        assert(name.contains(name[name.len() - 2]));
    } else if name[0] == DOT {
        assert(name =~= seq![DOT]);
    }
    lemma_last_component(directory, name);
    assert(path.skip(directory.len() as int) =~= name);
    assert(path.take(directory.len() as int) =~= directory);
}

/// The directory that [`joined`] puts in front of a name.
proof fn lemma_joined_directory(path: Seq<u8>, name: Seq<u8>) -> (directory: Seq<u8>)
    requires
        is_file_name(name),
        !name.contains(SEPARATOR),
    ensures
        directory.len() == 0 || directory.last() == SEPARATOR,
        joined(path, name) == directory + name,
        directory == if path.len() > 0 && path.last() != SEPARATOR {
            path.push(SEPARATOR)
        } else {
            path
        },
{
    assert(name.contains(name[0]));
    if path.len() > 0 && path.last() != SEPARATOR {
        path.push(SEPARATOR)
    } else {
        path
    }
}

/// A file name put behind any path, or in place of its file name, is the file
/// name of the outcome.
pub proof fn law_the_name_put_last_is_the_file_name(path: Seq<u8>, name: Seq<u8>)
    requires
        is_file_name(name),
        !name.contains(SEPARATOR),
    ensures
        file_name_of(joined(path, name)) == Some(name),
        file_name_of(with_file_name(path, name)) == Some(name),
{
    let directory = lemma_joined_directory(path, name);
    lemma_nothing_trails_a_name(directory, name);
    let parent_directory = lemma_joined_directory(parent_of(path), name);
    lemma_nothing_trails_a_name(parent_directory, name);
}

/// Trimming leaves nothing to trim.
proof fn lemma_trimmed_twice(path: Seq<u8>)
    ensures
        trimmed(trimmed(path)) == trimmed(path),
        trimmed(path).len() >= 2 ==> trimmed(path).last() != SEPARATOR,
    decreases path.len(),
{
    let n = path.len();
    if n >= 2 && (path[n - 1] == SEPARATOR || path[n - 1] == DOT && path[n - 2] == SEPARATOR) {
        lemma_trimmed_twice(path.drop_last());
    }
}

/// Changing the file name of a path leaves it in the same directory.
pub proof fn law_the_directory_stays(path: Seq<u8>, name: Seq<u8>)
    requires
        file_name_of(path) is Some,
        is_file_name(name),
        !name.contains(SEPARATOR),
    ensures
        parent_of(with_file_name(path, name)) == parent_of(path),
{
    let parent = parent_of(path);
    let body = trimmed(path);
    lemma_trimmed_twice(body.take(last_component_start(body)));
    let directory = lemma_joined_directory(parent, name);
    lemma_nothing_trails_a_name(directory, name);
    if parent.len() > 0 && parent.last() != SEPARATOR {
        assert(directory.drop_last() =~= parent);
    }
}

} // verus!

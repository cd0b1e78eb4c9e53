//! Copies of byte strings.

use vstd::prelude::*;

verus! {

/// The bytes of a name that may be missing.
pub open spec fn name_bytes(name: Option<Vec<u8>>) -> Option<Seq<u8>> {
    match name {
        Some(bytes) => Some(bytes@),
        None => None,
    }
}

/// The bytes of a name, with nothing standing for a missing one.
pub open spec fn name_or_empty(name: Option<Seq<u8>>) -> Seq<u8> {
    match name {
        Some(bytes) => bytes,
        None => Seq::empty(),
    }
}

/// Copies a byte string.
pub fn copy_bytes(bytes: &[u8]) -> (copy: Vec<u8>)
    ensures
        copy@ == bytes@,
{
    let mut copy: Vec<u8> = Vec::with_capacity(bytes.len());
    copy.extend_from_slice(bytes);
    assert(copy@ =~= bytes@);
    copy
}

/// Copies a name that may be missing.
pub fn copy_name(name: &Option<Vec<u8>>) -> (copy: Option<Vec<u8>>)
    ensures
        name_bytes(copy) == name_bytes(*name),
{
    match name {
        Some(bytes) => Some(copy_bytes(bytes.as_slice())),
        None => None,
    }
}

/// Copies a name, turning a missing one into an empty one.
pub fn copy_name_or_empty(name: &Option<Vec<u8>>) -> (copy: Vec<u8>)
    ensures
        copy@ == name_or_empty(name_bytes(*name)),
{
    match name {
        Some(bytes) => copy_bytes(bytes.as_slice()),
        None => {
            let empty: Vec<u8> = Vec::new();
            empty
        },
    }
}

} // verus!

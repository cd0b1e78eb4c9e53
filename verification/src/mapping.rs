//! Memory mappings, as far as the module list looks at them.

use vstd::prelude::*;

verus! {

/// A memory mapping of the target process.
#[derive(Debug)]
pub struct MappingInfo {
    /// Where the mapping starts.
    pub start_address: usize,
    /// How many bytes it spans.
    pub size: usize,
    /// Offset of the mapping within its backing file.
    pub offset: usize,
    /// Name of the mapping, usually the path of its backing file.
    pub name: Option<Vec<u8>>,
    /// Whether the mapping holds executable pages.
    pub executable: bool,
    /// Whether the name is a path, rather than a label such as `[stack]`.
    pub path_named: bool,
    /// Whether the mapping is worth an entry of the module list.
    pub interesting: bool,
    /// Where the object's own program headers say it was loaded, on systems
    /// where that may lie below the start of the mapping.
    pub load_base: Option<usize>,
}

/// A mapping the user told us about, with the identifier of its module.
#[derive(Debug)]
pub struct MappingEntry {
    pub mapping: MappingInfo,
    pub identifier: Vec<u8>,
}

impl MappingInfo {
    /// The address right behind the mapping.
    pub open spec fn end(&self) -> int {
        self.start_address + self.size
    }

    /// A mapping ends within the address space.
    pub open spec fn wf(&self) -> bool {
        self.end() <= usize::MAX
    }

    /// Whether the mapping may belong to a library, whose program headers are
    /// then worth looking at.
    pub fn is_library_candidate(&self) -> (likely: bool)
        ensures
            likely == (self.executable && self.path_named),
    {
        self.executable && self.path_named
    }
}

/// Where the object behind `mapping` was loaded, as far as is known.
pub open spec fn loaded_at_spec(mapping: MappingInfo) -> usize {
    match mapping.load_base {
        Some(load_base) if mapping.executable && mapping.path_named => load_base,
        _ => mapping.start_address,
    }
}

/// Where the object behind `mapping` was loaded.
///
/// `/proc/<pid>/maps` reports where a mapping *starts*, which for an Android
/// object with packed relocations is above where the object was actually
/// loaded. Everywhere else the two are the same address and
/// [`MappingInfo::load_base`] is missing.
pub fn loaded_at(mapping: &MappingInfo) -> (address: usize)
    ensures
        address == loaded_at_spec(*mapping),
{
    // Filter out unlikely candidates for libraries
    if mapping.is_library_candidate() {
        match mapping.load_base {
            Some(load_base) => load_base,
            None => mapping.start_address,
        }
    } else {
        mapping.start_address
    }
}

} // verus!

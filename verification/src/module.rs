//! Modules, before and after their extent is final.

use vstd::prelude::*;

use crate::bytes::{copy_bytes, copy_name, name_bytes};
use crate::mapping::{loaded_at, loaded_at_spec, MappingEntry, MappingInfo};

verus! {

/// Where a module's information came from.
#[derive(Debug)]
pub enum ModuleSource {
    /// Read out of the process, be it from its memory map or from the dynamic
    /// linker's rendez-vous.
    Process,
    /// Supplied by the user, and taken at face value: they know things about it
    /// that we cannot derive, which is why it was supplied in the first place.
    User { identifier: Vec<u8> },
}

/// What a [`ModuleSource`] stands for.
#[verifier::ext_equal]
pub enum ModuleSourceView {
    Process,
    User { identifier: Seq<u8> },
}

impl View for ModuleSource {
    type V = ModuleSourceView;

    open spec fn view(&self) -> ModuleSourceView {
        match self {
            ModuleSource::Process => ModuleSourceView::Process,
            ModuleSource::User { identifier } => ModuleSourceView::User {
                identifier: identifier@,
            },
        }
    }
}

impl ModuleSource {
    /// Whether the user supplied the module.
    pub fn is_user(&self) -> (user: bool)
        ensures
            user == (self@ is User),
    {
        matches!(self, ModuleSource::User { .. })
    }
}

/// An entry of the module list written to the `ModuleListStream`.
#[derive(Debug)]
pub struct ModuleInfo {
    /// Where the ELF object was loaded, the minidump's `base_of_image`.
    pub base_address: usize,
    pub size: usize,
    pub name: Option<Vec<u8>>,
    /// Offset of the object within its backing file; typically 0, but might
    /// not be, e.g. if loaded from an APK.
    pub file_offset: usize,
    /// Whether the object has an executable segment.
    /// It *is* possible to load data-only ELF objects!
    pub executable: bool,
    pub source: ModuleSource,
}

/// What a [`ModuleInfo`] stands for.
#[verifier::ext_equal]
pub struct ModuleInfoView {
    pub base_address: usize,
    pub size: usize,
    pub name: Option<Seq<u8>>,
    pub file_offset: usize,
    pub executable: bool,
    pub source: ModuleSourceView,
}

impl View for ModuleInfo {
    type V = ModuleInfoView;

    open spec fn view(&self) -> ModuleInfoView {
        ModuleInfoView {
            base_address: self.base_address,
            size: self.size,
            name: name_bytes(self.name),
            file_offset: self.file_offset,
            executable: self.executable,
            source: self.source@,
        }
    }
}

impl ModuleInfoView {
    /// Whether `address` falls within the module's image.
    pub open spec fn covers(&self, address: int) -> bool {
        self.base_address <= address < self.base_address + self.size
    }
}

/// The entries of a module list.
pub open spec fn module_views(modules: Seq<ModuleInfo>) -> Seq<ModuleInfoView> {
    modules.map_values(|module: ModuleInfo| module@)
}

/// A module we may write, before its extent is final.
#[derive(Debug)]
pub struct ModuleCandidate {
    pub base_address: usize,
    pub end_address: usize,
    /// End of the object's last executable segment, or `base_address` if none.
    pub code_end: usize,
    pub name: Option<Vec<u8>>,
    pub file_offset: usize,
    pub source: ModuleSource,
}

/// What a [`ModuleCandidate`] stands for.
#[verifier::ext_equal]
pub struct ModuleCandidateView {
    pub base_address: usize,
    pub end_address: usize,
    pub code_end: usize,
    pub name: Option<Seq<u8>>,
    pub file_offset: usize,
    pub source: ModuleSourceView,
}

impl View for ModuleCandidate {
    type V = ModuleCandidateView;

    open spec fn view(&self) -> ModuleCandidateView {
        ModuleCandidateView {
            base_address: self.base_address,
            end_address: self.end_address,
            code_end: self.code_end,
            name: name_bytes(self.name),
            file_offset: self.file_offset,
            source: self.source@,
        }
    }
}

/// The candidates of a list.
pub open spec fn candidate_views(candidates: Seq<ModuleCandidate>) -> Seq<ModuleCandidateView> {
    candidates.map_values(|candidate: ModuleCandidate| candidate@)
}

/// Whether no module of a list ends before it starts.
pub open spec fn modules_wf(modules: Seq<ModuleCandidateView>) -> bool {
    forall|i: int| 0 <= i < modules.len() ==> (#[trigger] modules[i]).wf()
}

impl ModuleCandidateView {
    /// A module does not end before it starts.
    pub open spec fn wf(&self) -> bool {
        self.base_address <= self.end_address
    }

    /// Whether the user supplied the module.
    pub open spec fn is_user(&self) -> bool {
        self.source is User
    }

    /// Whether `address` falls within the module's extent.
    pub open spec fn contains_address(&self, address: usize) -> bool {
        self.base_address <= address < self.end_address
    }

    /// The entry written for the module.
    pub open spec fn into_module(self) -> ModuleInfoView {
        ModuleInfoView {
            base_address: self.base_address,
            size: (self.end_address - self.base_address) as usize,
            name: self.name,
            file_offset: self.file_offset,
            executable: self.code_end > self.base_address,
            source: self.source,
        }
    }
}

/// The module that a user-supplied entry stands for: all of it executable.
pub open spec fn user_candidate(entry: MappingEntry) -> ModuleCandidateView {
    ModuleCandidateView {
        base_address: entry.mapping.start_address,
        end_address: entry.mapping.end() as usize,
        code_end: entry.mapping.end() as usize,
        name: name_bytes(entry.mapping.name),
        file_offset: entry.mapping.offset,
        source: ModuleSourceView::User { identifier: entry.identifier@ },
    }
}

/// The module that a mapping stands for.
pub open spec fn mapping_candidate(mapping: MappingInfo) -> ModuleCandidateView {
    ModuleCandidateView {
        base_address: loaded_at_spec(mapping),
        end_address: mapping.end() as usize,
        code_end: if mapping.executable {
            mapping.end() as usize
        } else {
            mapping.start_address
        },
        name: name_bytes(mapping.name),
        file_offset: mapping.offset,
        source: ModuleSourceView::Process,
    }
}

impl ModuleCandidate {
    /// Builds a module from user-supplied information.
    pub fn from_user_entry(entry: &MappingEntry) -> (candidate: ModuleCandidate)
        requires
            entry.mapping.wf(),
        ensures
            candidate@ == user_candidate(*entry),
            candidate@.wf(),
    {
        let end: usize = entry.mapping.start_address + entry.mapping.size;
        ModuleCandidate {
            base_address: entry.mapping.start_address,
            end_address: end,
            // Let's assume it's all executable.
            code_end: end,
            name: copy_name(&entry.mapping.name),
            file_offset: entry.mapping.offset,
            source: ModuleSource::User { identifier: copy_bytes(entry.identifier.as_slice()) },
        }
    }

    /// Builds a module from a memory mapping.
    pub fn from_mapping(mapping: &MappingInfo) -> (candidate: ModuleCandidate)
        requires
            mapping.wf(),
        ensures
            candidate@ == mapping_candidate(*mapping),
            candidate@.wf() <==> loaded_at_spec(*mapping) <= mapping.end(),
    {
        let end: usize = mapping.start_address + mapping.size;
        ModuleCandidate {
            // Adjust the base address if needed.
            base_address: loaded_at(mapping),
            end_address: end,
            code_end: if mapping.executable {
                end
            } else {
                mapping.start_address
            },
            name: copy_name(&mapping.name),
            file_offset: mapping.offset,
            source: ModuleSource::Process,
        }
    }

    /// Whether `address` falls within this module's extent.
    pub fn contains_address(&self, address: usize) -> (within: bool)
        ensures
            within == self@.contains_address(address),
    {
        self.base_address <= address && address < self.end_address
    }

    /// Settles on the module's present extent.
    pub fn into_module(self) -> (module: ModuleInfo)
        requires
            self@.wf(),
        ensures
            module@ == self@.into_module(),
    {
        ModuleInfo {
            base_address: self.base_address,
            size: self.end_address - self.base_address,
            name: self.name,
            file_offset: self.file_offset,
            executable: self.code_end > self.base_address,
            source: self.source,
        }
    }
}

/// The mappings that are worth an entry of the module list.
pub open spec fn interesting_mappings(mappings: Seq<MappingInfo>) -> Seq<MappingInfo> {
    mappings.filter(|mapping: MappingInfo| mapping.interesting)
}

/// Build module information out of kernel mapping data
///
/// Only requires access to /proc/pid/maps, but is ultimately just an approximation based on
/// observed behaviour of linkers.
pub fn from_mappings(mappings: &[MappingInfo]) -> (candidates: Vec<ModuleCandidate>)
    requires
        forall|i: int| 0 <= i < mappings@.len() && mappings@[i].interesting ==> mappings@[i].wf(),
    ensures
        candidate_views(candidates@) == interesting_mappings(mappings@).map_values(
            |mapping: MappingInfo| mapping_candidate(mapping),
        ),
        (forall|i: int|
            0 <= i < mappings@.len() && (#[trigger] mappings@[i]).interesting ==> loaded_at_spec(
                mappings@[i],
            ) <= mappings@[i].end()) ==> modules_wf(candidate_views(candidates@)),
{
    let mut candidates: Vec<ModuleCandidate> = Vec::new();
    let ghost to_candidate = |mapping: MappingInfo| mapping_candidate(mapping);
    assert(mappings@.take(0) =~= Seq::empty());
    assert(candidate_views(candidates@) =~= interesting_mappings(mappings@.take(0)).map_values(
        to_candidate,
    ));
    for i in 0..mappings.len()
        invariant
            forall|j: int|
                0 <= j < mappings@.len() && mappings@[j].interesting ==> mappings@[j].wf(),
            to_candidate == (|mapping: MappingInfo| mapping_candidate(mapping)),
            candidate_views(candidates@) == interesting_mappings(
                mappings@.take(i as int),
            ).map_values(to_candidate),
    {
        let ghost seen = mappings@.take(i as int);
        let ghost now = mappings@.take(i + 1);
        proof {
            assert(now.drop_last() =~= seen);
            assert(now.last() == mappings@[i as int]);
            reveal(Seq::filter);
        }
        if mappings[i].interesting {
            let ghost before = candidates@;
            candidates.push(ModuleCandidate::from_mapping(&mappings[i]));
            assert(candidate_views(candidates@) =~= candidate_views(before).push(
                candidates@.last()@,
            ));
            assert(interesting_mappings(now) == interesting_mappings(seen).push(mappings@[i as int]));
            assert(interesting_mappings(now).map_values(to_candidate) =~= interesting_mappings(
                seen,
            ).map_values(to_candidate).push(mapping_candidate(mappings@[i as int])));
        }
    }
    assert(mappings@.take(mappings@.len() as int) =~= mappings@);
    proof {
        if forall|i: int|
            0 <= i < mappings@.len() && (#[trigger] mappings@[i]).interesting ==> loaded_at_spec(
                mappings@[i],
            ) <= mappings@[i].end() {
            let kept = interesting_mappings(mappings@);
            broadcast use vstd::seq_lib::group_filter_ensures;
            assert forall|k: int| 0 <= k < candidates@.len() implies (#[trigger] candidate_views(
                candidates@,
            )[k]).wf() by {
                assert(candidate_views(candidates@)[k] == mapping_candidate(kept[k]));
                assert((|mapping: MappingInfo| mapping.interesting)(kept[k]));
                assert(kept.contains(kept[k]));
                mappings@.lemma_filter_contains_rev(
                    |mapping: MappingInfo| mapping.interesting,
                    kept[k],
                );
                let i = choose|i: int| 0 <= i < mappings@.len() && mappings@[i] == kept[k];
                assert(mappings@[i].wf());
            }
        }
    }
    candidates
}

/// Builds the modules the user told us about.
pub fn from_user_mappings(user_mapping_list: &[MappingEntry]) -> (candidates: Vec<ModuleCandidate>)
    requires
        forall|i: int|
            0 <= i < user_mapping_list@.len() ==> (#[trigger] user_mapping_list@[i]).mapping.wf(),
    ensures
        candidate_views(candidates@) == user_mapping_list@.map_values(
            |entry: MappingEntry| user_candidate(entry),
        ),
        modules_wf(candidate_views(candidates@)),
{
    let mut candidates: Vec<ModuleCandidate> = Vec::new();
    for i in 0..user_mapping_list.len()
        invariant
            forall|j: int|
                0 <= j < user_mapping_list@.len() ==> (
                #[trigger] user_mapping_list@[j]).mapping.wf(),
            candidates@.len() == i,
            forall|j: int|
                0 <= j < i ==> (#[trigger] candidates@[j])@ == user_candidate(user_mapping_list@[j]),
    {
        candidates.push(ModuleCandidate::from_user_entry(&user_mapping_list[i]));
    }
    assert(candidate_views(candidates@) =~= user_mapping_list@.map_values(
        |entry: MappingEntry| user_candidate(entry),
    ));
    candidates
}

} // verus!

//! What single modules are made of.

use vstd::prelude::*;

use crate::bytes::name_bytes;
use crate::mapping::{loaded_at_spec, MappingEntry, MappingInfo};
use crate::module::{
    interesting_mappings, mapping_candidate, modules_wf, user_candidate, ModuleCandidateView,
    ModuleInfoView, ModuleSourceView,
};

verus! {

/// A mapping is sound as long as its end is an address, whatever else it is.
pub proof fn law_a_mapping_is_sound_if_its_end_is_an_address(mapping: MappingInfo)
    ensures
        mapping.end() == mapping.start_address + mapping.size,
        mapping.wf() <==> mapping.start_address + mapping.size <= usize::MAX,
{
}

/// The object behind a mapping was loaded where the mapping starts, unless it may
/// be a library and its headers say otherwise.
pub proof fn law_objects_are_loaded_where_mapped_or_said(mapping: MappingInfo)
    ensures
        mapping.executable && mapping.path_named && mapping.load_base is Some
            ==> loaded_at_spec(mapping) == mapping.load_base->0,
        !(mapping.executable && mapping.path_named && mapping.load_base is Some)
            ==> loaded_at_spec(mapping) == mapping.start_address,
{
}

/// A mapping's module spans from where the object was loaded to the end of the
/// mapping, is code up to there or not at all, and keeps the mapping's name and
/// offset.
pub proof fn law_a_mapping_becomes_a_module(mapping: MappingInfo)
    requires
        mapping.start_address + mapping.size <= usize::MAX,
    ensures
        ({
            let candidate = mapping_candidate(mapping);
            &&& candidate.base_address == if mapping.executable && mapping.path_named
                && mapping.load_base is Some {
                mapping.load_base->0
            } else {
                mapping.start_address
            }
            &&& candidate.end_address == mapping.start_address + mapping.size
            &&& mapping.executable ==> candidate.code_end == mapping.start_address + mapping.size
            &&& !mapping.executable ==> candidate.code_end == candidate.base_address
            &&& mapping.name is None ==> candidate.name is None
            &&& mapping.name matches Some(name) ==> candidate.name == Some(name@)
            &&& candidate.file_offset == mapping.offset
            &&& candidate.source is Process
        }),
{
}

/// An entry of the user's becomes a module that spans the whole mapping, is all
/// code, and keeps the name, the offset and every byte of the identifier.
pub proof fn law_a_user_entry_becomes_a_module(entry: MappingEntry)
    requires
        entry.mapping.start_address + entry.mapping.size <= usize::MAX,
    ensures
        ({
            let candidate = user_candidate(entry);
            &&& candidate.base_address == entry.mapping.start_address
            &&& candidate.end_address == entry.mapping.start_address + entry.mapping.size
            &&& candidate.code_end == candidate.end_address
            &&& entry.mapping.name is None ==> candidate.name is None
            &&& entry.mapping.name matches Some(name) ==> candidate.name == Some(name@)
            &&& candidate.file_offset == entry.mapping.offset
            &&& candidate.source is User
            &&& candidate.source->identifier.len() == entry.identifier@.len()
            &&& forall|i: int|
                0 <= i < entry.identifier@.len() ==> candidate.source->identifier[i]
                    == #[trigger] entry.identifier@[i]
        }),
{
}

/// Two entries of the user's that differ in their identifiers give modules, and
/// entries of the list, that differ in theirs.
pub proof fn law_identifiers_are_never_confused(first: MappingEntry, second: MappingEntry)
    requires
        first.identifier@ != second.identifier@,
    ensures
        user_candidate(first).source != user_candidate(second).source,
        user_candidate(first).into_module().source != user_candidate(second).into_module().source,
        user_candidate(first).into_module().source == (ModuleSourceView::User {
            identifier: first.identifier@,
        }),
{
}

/// An interesting mapping is kept, whatever its name, permissions and offset, at
/// the place that the interesting ones before it leave to it.
pub proof fn law_every_interesting_mapping_is_kept(mappings: Seq<MappingInfo>, i: int)
    requires
        0 <= i < mappings.len(),
        mappings[i].interesting,
    ensures
        ({
            let before = mappings.take(i).filter(|mapping: MappingInfo| mapping.interesting).len();
            &&& before < interesting_mappings(mappings).len()
            &&& interesting_mappings(mappings)[before as int] == mappings[i]
        }),
{
    let interesting = |mapping: MappingInfo| mapping.interesting;
    let head = mappings.take(i);
    let tail = mappings.skip(i + 1);
    let here = seq![mappings[i]];
    assert(mappings =~= head + (here + tail));
    Seq::filter_distributes_over_add(head, here + tail, interesting);
    Seq::filter_distributes_over_add(here, tail, interesting);
    assert(here.filter(interesting) =~= here) by {
        reveal(Seq::filter);
        assert(here.drop_last() =~= Seq::empty());
        assert(here.drop_last().filter(interesting) =~= Seq::empty());
        assert(Seq::<MappingInfo>::empty().push(mappings[i]) =~= here);
    }
    assert(interesting_mappings(mappings) =~= head.filter(interesting) + (here + tail.filter(
        interesting,
    )));
}

/// Nothing but interesting mappings is kept, and each as often as it was given: one
/// more mapping adds itself if it is interesting, and nothing otherwise.
pub proof fn law_only_interesting_mappings_are_kept(
    mappings: Seq<MappingInfo>,
    last: MappingInfo,
)
    ensures
        interesting_mappings(Seq::empty()).len() == 0,
        last.interesting ==> interesting_mappings(mappings.push(last)) == interesting_mappings(
            mappings,
        ).push(last),
        !last.interesting ==> interesting_mappings(mappings.push(last)) == interesting_mappings(
            mappings,
        ),
        interesting_mappings(mappings).len() == mappings.filter(
            |mapping: MappingInfo| mapping.interesting,
        ).len(),
{
    reveal(Seq::filter);
    assert(mappings.push(last).drop_last() =~= mappings);
    assert(mappings.push(last).last() == last);
}

/// The module at each place of the list that mappings become: where its mapping was
/// loaded, up to the end of the mapping, under its name.
pub proof fn law_interesting_mappings_become_modules_in_order(
    mappings: Seq<MappingInfo>,
    candidates: Seq<ModuleCandidateView>,
    i: int,
)
    requires
        candidates == interesting_mappings(mappings).map_values(
            |mapping: MappingInfo| mapping_candidate(mapping),
        ),
        0 <= i < mappings.len(),
        mappings[i].interesting,
        mappings[i].start_address + mappings[i].size <= usize::MAX,
    ensures
        ({
            let k = mappings.take(i).filter(
                |mapping: MappingInfo| mapping.interesting,
            ).len() as int;
            &&& candidates.len() == mappings.filter(
                |mapping: MappingInfo| mapping.interesting,
            ).len()
            &&& k < candidates.len()
            &&& candidates[k].base_address == loaded_at_spec(mappings[i])
            &&& candidates[k].end_address == mappings[i].start_address + mappings[i].size
            &&& candidates[k].name == name_bytes(mappings[i].name)
            &&& candidates[k].file_offset == mappings[i].offset
            &&& candidates[k].source is Process
        }),
{
    law_every_interesting_mapping_is_kept(mappings, i);
    law_only_interesting_mappings_are_kept(mappings, mappings[i]);
    law_a_mapping_becomes_a_module(mappings[i]);
}

/// A module is sound exactly if it does not end before it starts, contains the
/// addresses from its start up to its end, and is the user's if that is its source.
pub proof fn law_a_module_contains_what_it_spans(module: ModuleCandidateView, address: usize)
    ensures
        module.wf() <==> module.base_address <= module.end_address,
        module.contains_address(address) <==> module.base_address <= address && address
            < module.end_address,
        module.is_user() <==> module.source is User,
{
}

/// A list is sound exactly if each of its modules is.
pub proof fn law_a_list_is_sound_if_its_modules_are(modules: Seq<ModuleCandidateView>)
    ensures
        modules_wf(modules) <==> forall|i: int|
            0 <= i < modules.len() ==> (#[trigger] modules[i]).base_address
                <= modules[i].end_address,
{
}

/// An entry of the list takes over all of the module: it starts and ends where the
/// module does, and has code exactly if the module's code ends behind its start.
pub proof fn law_an_entry_is_the_whole_module(module: ModuleCandidateView)
    requires
        module.base_address <= module.end_address,
    ensures
        module.into_module().base_address == module.base_address,
        module.into_module().base_address + module.into_module().size == module.end_address,
        module.into_module().name == module.name,
        module.into_module().file_offset == module.file_offset,
        module.into_module().source == module.source,
        module.into_module().executable <==> module.base_address < module.code_end,
{
}

/// An entry covers the addresses from its start on, as many as its size.
pub proof fn law_an_entry_covers_its_size(module: ModuleInfoView, address: int)
    ensures
        module.covers(address) <==> module.base_address <= address && address
            < module.base_address + module.size,
{
}

} // verus!

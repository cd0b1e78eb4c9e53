//! What the ELF structures and the linker's structures of a process tell, field by
//! field.

use vstd::prelude::*;

use crate::elf::{
    debug_entry, dyn_size, dynamic_entries, dynamic_section_outcome, elf_header_outcome,
    packs_relocations, packs_relocations_outcome, program_headers_outcome, segment_of_type, Dyn,
    ElfHeader, ProgramHeader, DT_ANDROID_REL, DT_ANDROID_RELA, DT_DEBUG,
};
use crate::error::{CopyFromProcessError, DebuggerRendezvousErrorView};
use crate::link_map::{c_string_outcome, link_outcome, rendezvous_outcome, LinkMap, RDebug};

verus! {

/// The first debug entry of a dynamic section is the rendez-vous, wherever it
/// stands and whatever the entries around it are.
pub proof fn law_the_first_debug_entry_counts(section: Seq<Dyn>, i: int)
    requires
        0 <= i < section.len(),
        section[i].d_tag == DT_DEBUG,
        forall|j: int| 0 <= j < i ==> (#[trigger] section[j]).d_tag != DT_DEBUG,
    ensures
        debug_entry(section) is Ok,
        debug_entry(section)->Ok_0 == section[i].d_val,
    decreases section.len(),
{
    if i > 0 {
        let rest = section.drop_first();
        assert(section[0].d_tag != DT_DEBUG);
        assert(rest[i - 1] == section[i]);
        assert forall|j: int| 0 <= j < i - 1 implies (#[trigger] rest[j]).d_tag != DT_DEBUG by {
            assert(rest[j] == section[j + 1]);
        }
        law_the_first_debug_entry_counts(rest, i - 1);
    }
}

/// The rendez-vous is missing exactly if no entry is a debug entry, and then that
/// is what is said.
pub proof fn law_only_sections_without_a_debug_entry_lack_one(section: Seq<Dyn>)
    ensures
        debug_entry(section) is Err <==> forall|j: int|
            0 <= j < section.len() ==> (#[trigger] section[j]).d_tag != DT_DEBUG,
        debug_entry(section) is Err ==> debug_entry(section)->Err_0 is MissingDebugEntry,
    decreases section.len(),
{
    if section.len() > 0 && section[0].d_tag != DT_DEBUG {
        let rest = section.drop_first();
        law_only_sections_without_a_debug_entry_lack_one(rest);
        assert(forall|j: int| 0 <= j < rest.len() ==> #[trigger] rest[j] == section[j + 1]);
        if debug_entry(section) is Err {
            assert forall|j: int| 0 <= j < section.len() implies (#[trigger] section[j]).d_tag
                != DT_DEBUG by {
                if j > 0 {
                    assert(rest[j - 1] == section[j]);
                }
            }
        }
    }
}

/// The first program header of a type is the one that is found, wherever it stands.
pub proof fn law_the_first_segment_of_a_type_counts(
    headers: Seq<ProgramHeader>,
    segment_type: u32,
    i: int,
)
    requires
        0 <= i < headers.len(),
        headers[i].p_type == segment_type,
        forall|j: int| 0 <= j < i ==> (#[trigger] headers[j]).p_type != segment_type,
    ensures
        segment_of_type(headers, segment_type) == Some((headers[i].p_vaddr, headers[i].p_memsz)),
    decreases headers.len(),
{
    if i > 0 {
        let rest = headers.drop_first();
        assert(headers[0].p_type != segment_type);
        assert(rest[i - 1] == headers[i]);
        assert forall|j: int| 0 <= j < i - 1 implies (#[trigger] rest[j]).p_type
            != segment_type by {
            assert(rest[j] == headers[j + 1]);
        }
        law_the_first_segment_of_a_type_counts(rest, segment_type, i - 1);
    }
}

/// No segment is found exactly if no program header has the type.
pub proof fn law_only_missing_segments_are_not_found(
    headers: Seq<ProgramHeader>,
    segment_type: u32,
)
    ensures
        segment_of_type(headers, segment_type) is None <==> forall|j: int|
            0 <= j < headers.len() ==> (#[trigger] headers[j]).p_type != segment_type,
    decreases headers.len(),
{
    if headers.len() > 0 && headers[0].p_type != segment_type {
        let rest = headers.drop_first();
        law_only_missing_segments_are_not_found(rest, segment_type);
        assert(forall|j: int| 0 <= j < rest.len() ==> #[trigger] rest[j] == headers[j + 1]);
        if segment_of_type(headers, segment_type) is None {
            assert forall|j: int| 0 <= j < headers.len() implies (#[trigger] headers[j]).p_type
                != segment_type by {
                if j > 0 {
                    assert(rest[j - 1] == headers[j]);
                }
            }
        }
    }
}

/// An ELF header is taken as it was read exactly if it starts with a delete
/// character and the letters `ELF`. Otherwise its first four bytes are reported, or
/// why it could not be read.
pub proof fn law_an_elf_header_is_told_by_its_magic(
    header: ElfHeader,
    error: CopyFromProcessError,
)
    ensures
        ({
            let read: Result<ElfHeader, CopyFromProcessError> = Ok(header);
            let bytes = header.e_ident@;
            let outcome = elf_header_outcome(read);
            &&& outcome is Ok <==> bytes[0] == 0x7f && bytes[1] == 0x45 && bytes[2] == 0x4c
                && bytes[3] == 0x46
            &&& outcome matches Ok(taken) ==> taken == header
            &&& outcome matches Err(refusal) ==> {
                &&& refusal matches DebuggerRendezvousErrorView::InvalidElfSignature(signature)
                &&& signature == seq![bytes[0], bytes[1], bytes[2], bytes[3]]
            }
        }),
        elf_header_outcome(Err(error)) == Err::<ElfHeader, _>(
            DebuggerRendezvousErrorView::ReadElfHeaderFailed(error),
        ),
{
    let bytes = header.e_ident@;
    assert(bytes.take(4) =~= seq![bytes[0], bytes[1], bytes[2], bytes[3]]);
    if bytes.take(4) == seq![0x7fu8, 0x45u8, 0x4cu8, 0x46u8] {
        assert(bytes.take(4)[0] == 0x7f);
        assert(bytes.take(4)[1] == 0x45);
        assert(bytes.take(4)[2] == 0x4c);
        assert(bytes.take(4)[3] == 0x46);
    }
}

/// Program headers are taken as they were read, all of them.
pub proof fn law_program_headers_are_taken_as_read(
    headers: Seq<ProgramHeader>,
    error: CopyFromProcessError,
)
    ensures
        program_headers_outcome(Ok(headers)) == Ok::<_, DebuggerRendezvousErrorView>(headers),
        program_headers_outcome(Err(error)) == Err::<Seq<ProgramHeader>, _>(
            DebuggerRendezvousErrorView::ReadProgramHeaderTableFailed(error),
        ),
{
}

/// A dynamic section of whole entries, each of which takes two words of the
/// machine, has as many as fill it. Any other size is refused, and reported.
pub proof fn law_a_dynamic_section_holds_whole_entries(size: usize, count: usize)
    ensures
        usize::BITS == 64 ==> dyn_size() == 16,
        usize::BITS == 32 ==> dyn_size() == 8,
        count * dyn_size() == size ==> dynamic_entries(size) == Ok::<
            _,
            DebuggerRendezvousErrorView,
        >(count),
        dynamic_entries(size) matches Ok(found) ==> found * dyn_size() == size,
        dynamic_entries(size) matches Err(error) ==> error
            == DebuggerRendezvousErrorView::InvalidDynamicSectionSize(size),
{
    vstd::arithmetic::div_mod::lemma_fundamental_div_mod(size as int, dyn_size());
    let n = dyn_size();
    assert(n == 16 || n == 8);
    if n == 16 {
        assert(count * n == count * 16);
    } else {
        assert(count * n == count * 8);
    }
}

/// A dynamic section is taken as it was read exactly if its last entry is null.
pub proof fn law_a_dynamic_section_ends_in_null(section: Seq<Dyn>, error: CopyFromProcessError)
    ensures
        section.len() > 0 && section[section.len() - 1].d_tag == 0 && section[section.len()
            - 1].d_val == 0 ==> dynamic_section_outcome(Ok(section)) == Ok::<
            _,
            DebuggerRendezvousErrorView,
        >(section),
        !(section.len() > 0 && section[section.len() - 1].d_tag == 0 && section[section.len()
            - 1].d_val == 0) ==> dynamic_section_outcome(Ok(section)) == Err::<Seq<Dyn>, _>(
            DebuggerRendezvousErrorView::DynamicSectionMissingTerminator,
        ),
        dynamic_section_outcome(Err(error)) == Err::<Seq<Dyn>, _>(
            DebuggerRendezvousErrorView::ReadDynamicSectionFailed(error),
        ),
{
}

/// One entry with one of Android's tags, anywhere in a section that ends, tells
/// packed relocations, and nothing else does.
pub proof fn law_packed_relocations_are_told_by_a_tag(
    section: Seq<Dyn>,
    error: CopyFromProcessError,
)
    ensures
        packs_relocations(section) <==> exists|i: int|
            0 <= i < section.len() && ((#[trigger] section[i]).d_tag == DT_ANDROID_REL
                || section[i].d_tag == DT_ANDROID_RELA),
        packs_relocations_outcome(Ok(section)) <==> section.len() > 0 && section[section.len()
            - 1].d_tag == 0 && section[section.len() - 1].d_val == 0 && exists|i: int|
            0 <= i < section.len() && ((#[trigger] section[i]).d_tag == DT_ANDROID_REL
                || section[i].d_tag == DT_ANDROID_RELA),
        !packs_relocations_outcome(Err(error)),
{
}

/// A rendez-vous is trusted, as it was read, exactly if it is of version one, the
/// linker is done with its list, and nothing says to distrust it. The version is
/// looked at first.
pub proof fn law_a_rendezvous_is_trusted_if_consistent(
    rendezvous: RDebug,
    distrusted: bool,
    error: CopyFromProcessError,
)
    ensures
        rendezvous_outcome(Ok(rendezvous), distrusted) is Ok <==> rendezvous.r_version == 1
            && rendezvous.r_state == 0 && !distrusted,
        rendezvous_outcome(Ok(rendezvous), distrusted) matches Ok(taken) ==> taken == rendezvous,
        rendezvous.r_version != 1 ==> rendezvous_outcome(Ok(rendezvous), distrusted) == Err::<
            RDebug,
            _,
        >(
            DebuggerRendezvousErrorView::UnexpectedDebuggerRendezvousVersion(
                rendezvous.r_version,
            ),
        ),
        rendezvous.r_version == 1 && (rendezvous.r_state != 0 || distrusted)
            ==> rendezvous_outcome(Ok(rendezvous), distrusted) == Err::<RDebug, _>(
            DebuggerRendezvousErrorView::DebuggerRendezvousNotConsistent(rendezvous.r_state),
        ),
        rendezvous_outcome(Err(error), distrusted) == Err::<RDebug, _>(
            DebuggerRendezvousErrorView::ReadDebuggerRendezvousAddressFailed(error),
        ),
{
}

/// A string loses its terminator, if it has one, and nothing else.
pub proof fn law_a_string_loses_only_its_terminator(
    bytes: Seq<u8>,
    error: CopyFromProcessError,
)
    ensures
        c_string_outcome(Ok(bytes.push(0))) == Ok::<_, DebuggerRendezvousErrorView>(bytes),
        bytes.len() == 0 || bytes[bytes.len() - 1] != 0 ==> c_string_outcome(Ok(bytes)) == Ok::<
            _,
            DebuggerRendezvousErrorView,
        >(bytes),
        c_string_outcome(Err(error)) == Err::<Seq<u8>, _>(
            DebuggerRendezvousErrorView::ReadModuleNameFailed(error),
        ),
{
    assert(bytes.push(0).drop_last() =~= bytes);
}

/// A node is taken as it was read, unless it is the head of the list and has a
/// predecessor.
pub proof fn law_only_a_head_with_a_predecessor_is_refused(
    link: LinkMap,
    first_node: bool,
    error: CopyFromProcessError,
)
    ensures
        !first_node || link.l_prev == 0 ==> link_outcome(Ok(link), first_node) == Ok::<
            _,
            DebuggerRendezvousErrorView,
        >(link),
        first_node && link.l_prev != 0 ==> link_outcome(Ok(link), first_node) == Err::<
            LinkMap,
            _,
        >(DebuggerRendezvousErrorView::InvalidLinkEntry),
        link_outcome(Err(error), first_node) == Err::<LinkMap, _>(
            DebuggerRendezvousErrorView::ReadLinkMapEntryFailed(error),
        ),
{
}

} // verus!

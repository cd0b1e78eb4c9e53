//! What a process's memory says about its modules, structure by structure.

use vstd::prelude::*;

use crate::elf::{
    dyn_size, Dyn, ElfHeader, ProgramHeader, DT_ANDROID_REL, DT_ANDROID_RELA, DT_DEBUG, ET_DYN,
    PT_DYNAMIC, PT_LOAD, PT_PHDR,
};
use crate::elf_laws::{
    law_a_dynamic_section_ends_in_null, law_a_dynamic_section_holds_whole_entries,
    law_a_rendezvous_is_trusted_if_consistent, law_an_elf_header_is_told_by_its_magic,
    law_only_a_head_with_a_predecessor_is_refused, law_only_missing_segments_are_not_found,
    law_only_sections_without_a_debug_entry_lack_one, law_packed_relocations_are_told_by_a_tag,
    law_the_first_debug_entry_counts, law_the_first_segment_of_a_type_counts,
};
use crate::error::{CopyFromProcessError, DebuggerRendezvousErrorView};
use crate::link_laws::{listing_from, process_link_result, progress_ahead};
use crate::link_map::{c_string_outcome, LinkMap, LinkMaps, RDebug};
use crate::link_walk::{
    LinkPhaseView, LinkProgressView, LinkSetting, LinkWalkView, ListingView,
};
use crate::module::{ModuleCandidateView, ModuleSourceView};
use crate::module_read::{
    base_address_of, extent_ahead, extent_at, extent_of, extent_with_headers,
    object_packs_relocations, ModuleExtent, ModulePhase, ModulePlace, ModuleRead,
};
use crate::process::{ReplyView, Request, StillProcess};
use crate::rendezvous::{
    rendezvous_start, RendezvousPhaseView, RendezvousSetting, RendezvousWalkView,
};
use crate::rendezvous_laws::{
    driven, law_the_walk_gets_where_it_heads, list_head, process_listing, rendezvous_ahead,
    ListHead,
};
use crate::segment::{segments_fit, ModuleSpan};
use crate::segment_laws::{
    law_an_object_ends_with_its_highest_segment, law_an_object_starts_with_its_lowest_segment,
    law_code_ends_with_the_highest_executable_segment, law_no_executable_segment_no_code,
    next_page, page_of,
};

verus! {

/// A process answers a request with what it holds at the address that is asked for.
pub proof fn law_a_process_answers_what_is_asked(
    process: StillProcess,
    address: usize,
    count: usize,
)
    ensures
        process.answer(Request::ProgramHeaders { address, count }) == ReplyView::ProgramHeaders(
            (process.program_headers)(address, count),
        ),
        process.answer(Request::ElfHeader { address }) == ReplyView::ElfHeader(
            (process.elf_header)(address),
        ),
        process.answer(Request::DynamicSection { address, count }) == ReplyView::DynamicSection(
            (process.dynamic_section)(address, count),
        ),
        process.answer(Request::DebuggerRendezvous { address }) == ReplyView::DebuggerRendezvous(
            (process.debugger_rendezvous)(address),
            process.distrusted,
        ),
        process.answer(Request::LinkMap { address }) == ReplyView::LinkMap(
            (process.link_map)(address),
        ),
        process.answer(Request::ModuleName { address }) == ReplyView::ModuleName(
            (process.module_name)(address),
        ),
        process.answer(Request::ExecutableName) == ReplyView::ExecutableName(
            process.executable_name,
        ),
{
}

/// A reply answers a request exactly if it is of the kind that was asked for,
/// whatever it holds.
pub proof fn law_any_reply_of_the_kind_answers(reply: ReplyView, address: usize, count: usize)
    ensures
        reply.answers(Request::ProgramHeaders { address, count }) <==> reply is ProgramHeaders,
        reply.answers(Request::ElfHeader { address }) <==> reply is ElfHeader,
        reply.answers(Request::DynamicSection { address, count }) <==> reply is DynamicSection,
        reply.answers(Request::DebuggerRendezvous { address }) <==> reply is DebuggerRendezvous,
        reply.answers(Request::LinkMap { address }) <==> reply is LinkMap,
        reply.answers(Request::ModuleName { address }) <==> reply is ModuleName,
        reply.answers(Request::ExecutableName) <==> reply is ExecutableName,
{
}

/// Whether bytes are those that an ELF object starts with.
pub open spec fn magic(bytes: Seq<u8>) -> bool {
    bytes[0] == 0x7f && bytes[1] == 0x45 && bytes[2] == 0x4c && bytes[3] == 0x46
}

/// A module is read from the program headers that its ELF header points to.
pub proof fn law_a_module_is_read_from_its_headers(
    process: StillProcess,
    place: ModulePlace,
    elf_header: ElfHeader,
)
    requires
        (process.elf_header)(place.elf_header_address) == Ok::<_, CopyFromProcessError>(
            elf_header,
        ),
        magic(elf_header.e_ident@),
        place.elf_header_address + elf_header.e_phoff <= usize::MAX,
    ensures
        match (process.program_headers)(
            (place.elf_header_address + elf_header.e_phoff) as usize,
            elf_header.e_phnum as usize,
        ) {
            Ok(headers) => extent_at(process, place) == extent_with_headers(
                process,
                place,
                elf_header,
                headers,
            ),
            Err(error) => extent_at(process, place) == Err::<ModuleExtent, _>(
                DebuggerRendezvousErrorView::ReadProgramHeaderTableFailed(error),
            ),
        },
{
    law_an_elf_header_is_told_by_its_magic(
        elf_header,
        CopyFromProcessError { address: 0, length: 0, errno: 0 },
    );
}

/// A module whose ELF header cannot be read, or is none, is refused for that.
pub proof fn law_a_module_needs_an_elf_header(
    process: StillProcess,
    place: ModulePlace,
    elf_header: ElfHeader,
    error: CopyFromProcessError,
)
    ensures
        (process.elf_header)(place.elf_header_address) == Err::<ElfHeader, _>(error) ==> extent_at(
            process,
            place,
        ) == Err::<ModuleExtent, _>(DebuggerRendezvousErrorView::ReadElfHeaderFailed(error)),
        (process.elf_header)(place.elf_header_address) == Ok::<_, CopyFromProcessError>(elf_header)
            && !magic(elf_header.e_ident@) ==> extent_at(process, place) == Err::<ModuleExtent, _>(
            DebuggerRendezvousErrorView::InvalidElfSignature(
                seq![
                    elf_header.e_ident@[0],
                    elf_header.e_ident@[1],
                    elf_header.e_ident@[2],
                    elf_header.e_ident@[3],
                ],
            ),
        ),
{
    law_an_elf_header_is_told_by_its_magic(elf_header, error);
}

/// Whether the dynamic section of `count` entries at `address` can be read, ends, and
/// holds one of Android's tags.
pub open spec fn tells_packed(process: StillProcess, address: usize, count: usize) -> bool {
    (process.dynamic_section)(address, count) matches Ok(section) && section.len() > 0
        && section[section.len() - 1].d_tag == 0 && section[section.len() - 1].d_val == 0
        && exists|i: int|
        0 <= i < section.len() && ((#[trigger] section[i]).d_tag == DT_ANDROID_REL
            || section[i].d_tag == DT_ANDROID_RELA)
}

/// An object packs its relocations exactly if its first dynamic segment is of whole
/// entries and tells so.
pub proof fn law_the_first_dynamic_segment_tells_packed_relocations(
    process: StillProcess,
    headers: Seq<ProgramHeader>,
    load_bias: usize,
    d: int,
    count: usize,
)
    requires
        0 <= d < headers.len(),
        headers[d].p_type == PT_DYNAMIC,
        forall|j: int| 0 <= j < d ==> (#[trigger] headers[j]).p_type != PT_DYNAMIC,
        load_bias + headers[d].p_vaddr <= usize::MAX,
    ensures
        count * dyn_size() == headers[d].p_memsz ==> (object_packs_relocations(
            process,
            headers,
            load_bias,
        ) <==> tells_packed(process, (load_bias + headers[d].p_vaddr) as usize, count)),
        object_packs_relocations(process, headers, load_bias) ==> exists|n: usize|
            n * dyn_size() == headers[d].p_memsz && #[trigger] tells_packed(
                process,
                (load_bias + headers[d].p_vaddr) as usize,
                n,
            ),
{
    law_the_first_segment_of_a_type_counts(headers, PT_DYNAMIC, d);
    law_a_dynamic_section_holds_whole_entries(headers[d].p_memsz, count);
    if let Ok(n) = crate::elf::dynamic_entries(headers[d].p_memsz) {
        let address = (load_bias + headers[d].p_vaddr) as usize;
        match (process.dynamic_section)(address, n) {
            Ok(section) => law_packed_relocations_are_told_by_a_tag(
                section,
                CopyFromProcessError { address: 0, length: 0, errno: 0 },
            ),
            Err(error) => law_packed_relocations_are_told_by_a_tag(Seq::empty(), error),
        }
        assert(object_packs_relocations(process, headers, load_bias) ==> tells_packed(
            process,
            address,
            n,
        ));
    }
}

/// An object without a dynamic segment packs nothing.
pub proof fn law_no_dynamic_segment_no_packed_relocations(
    process: StillProcess,
    headers: Seq<ProgramHeader>,
    load_bias: usize,
)
    requires
        forall|j: int| 0 <= j < headers.len() ==> (#[trigger] headers[j]).p_type != PT_DYNAMIC,
    ensures
        !object_packs_relocations(process, headers, load_bias),
{
    law_only_missing_segments_are_not_found(headers, PT_DYNAMIC);
}

/// A module is based at its load bias exactly if it is a shared object with packed
/// relocations, and otherwise at the page of its lowest loadable segment, the first
/// of them giving its file offset. It ends with its highest segment.
pub proof fn law_a_module_extends_from_its_base_to_its_highest_segment(
    process: StillProcess,
    place: ModulePlace,
    elf_header: ElfHeader,
    headers: Seq<ProgramHeader>,
    low: int,
    high: int,
)
    requires
        place.page_size > 0,
        segments_fit(headers, place.load_bias, place.page_size),
        0 <= low < headers.len(),
        headers[low].p_type == PT_LOAD,
        forall|j: int|
            0 <= j < headers.len() && (#[trigger] headers[j]).p_type == PT_LOAD ==> page_of(
                place.load_bias + headers[low].p_vaddr,
                place.page_size as int,
            ) <= page_of(place.load_bias + headers[j].p_vaddr, place.page_size as int) && (j < low
                ==> page_of(place.load_bias + headers[low].p_vaddr, place.page_size as int)
                < page_of(place.load_bias + headers[j].p_vaddr, place.page_size as int)),
        0 <= high < headers.len(),
        headers[high].p_type == PT_LOAD,
        forall|j: int|
            0 <= j < headers.len() && (#[trigger] headers[j]).p_type == PT_LOAD
                ==> place.load_bias + headers[j].p_vaddr + headers[j].p_memsz <= place.load_bias
                + headers[high].p_vaddr + headers[high].p_memsz,
    ensures
        ({
            let start = page_of(place.load_bias + headers[low].p_vaddr, place.page_size as int);
            &&& extent_with_headers(process, place, elf_header, headers) matches Ok(extent)
            &&& extent.base_address == if elf_header.e_type == ET_DYN && object_packs_relocations(
                process,
                headers,
                place.load_bias,
            ) {
                place.load_bias as int
            } else {
                start
            }
            &&& extent.end_address == next_page(
                place.load_bias + headers[high].p_vaddr + headers[high].p_memsz,
                place.page_size as int,
            )
            &&& extent.file_offset == page_of(
                headers[low].p_offset as int,
                place.page_size as int,
            )
        }),
{
    law_an_object_starts_with_its_lowest_segment(headers, place.load_bias, place.page_size, low);
    law_an_object_ends_with_its_highest_segment(headers, place.load_bias, place.page_size, high);
}

/// A module's code ends with its highest executable segment.
pub proof fn law_a_modules_code_ends_with_its_highest_executable_segment(
    process: StillProcess,
    place: ModulePlace,
    elf_header: ElfHeader,
    headers: Seq<ProgramHeader>,
    high: int,
)
    requires
        place.page_size > 0,
        segments_fit(headers, place.load_bias, place.page_size),
        0 <= high < headers.len(),
        headers[high].p_type == PT_LOAD,
        headers[high].p_flags & crate::elf::PF_X != 0,
        forall|j: int|
            0 <= j < headers.len() && (#[trigger] headers[j]).p_type == PT_LOAD
                && headers[j].p_flags & crate::elf::PF_X != 0 ==> place.load_bias
                + headers[j].p_vaddr + headers[j].p_memsz <= place.load_bias
                + headers[high].p_vaddr + headers[high].p_memsz,
    ensures
        extent_with_headers(process, place, elf_header, headers) matches Ok(extent)
            && extent.code_end == next_page(
            place.load_bias + headers[high].p_vaddr + headers[high].p_memsz,
            place.page_size as int,
        ),
{
    law_code_ends_with_the_highest_executable_segment(
        headers,
        place.load_bias,
        place.page_size,
        high,
    );
}

/// A module without an executable segment has code that ends where it starts, and one
/// without a loadable segment is refused.
pub proof fn law_a_module_may_lack_code_but_not_segments(
    process: StillProcess,
    place: ModulePlace,
    elf_header: ElfHeader,
    headers: Seq<ProgramHeader>,
)
    requires
        place.page_size > 0,
        segments_fit(headers, place.load_bias, place.page_size),
    ensures
        (forall|j: int|
            0 <= j < headers.len() && (#[trigger] headers[j]).p_type == PT_LOAD
                ==> headers[j].p_flags & crate::elf::PF_X == 0) ==> (extent_with_headers(
            process,
            place,
            elf_header,
            headers,
        ) matches Ok(extent) ==> extent.code_end == extent.base_address),
        extent_with_headers(process, place, elf_header, headers) is Err <==> forall|j: int|
            0 <= j < headers.len() ==> (#[trigger] headers[j]).p_type != PT_LOAD,
        extent_with_headers(process, place, elf_header, headers) matches Err(error)
            ==> error is ProgramHeaderTableNoLoad,
{
    if forall|j: int|
        0 <= j < headers.len() && (#[trigger] headers[j]).p_type == PT_LOAD ==> headers[j].p_flags
            & crate::elf::PF_X == 0 {
        law_no_executable_segment_no_code(headers, place.load_bias, place.page_size);
    }
    crate::segment::law_only_objects_without_segments_have_no_span(
        headers,
        place.load_bias,
        place.page_size,
    );
}

/// What becomes of a link: the module that its ELF header tells, under its name, or
/// why not. The head of the list has its ELF header at a place of its own, and a name
/// of its own if the list has none for it.
pub proof fn law_a_link_becomes_a_module_or_a_report(
    process: StillProcess,
    setting: LinkSetting,
    link: LinkMap,
    main_executable: bool,
    name: Seq<u8>,
    error: CopyFromProcessError,
)
    ensures
        (process.module_name)(link.l_name) == Err::<Seq<u8>, _>(error) ==> process_link_result(
            process,
            setting,
            link,
            main_executable,
        ) == Err::<ModuleCandidateView, _>(
            DebuggerRendezvousErrorView::ReadModuleNameFailed(error),
        ),
        c_string_outcome((process.module_name)(link.l_name)) == Ok::<
            _,
            DebuggerRendezvousErrorView,
        >(name) ==> {
            let address = if main_executable {
                setting.main_elf_header_address
            } else {
                link.l_addr
            };
            let place = ModulePlace {
                elf_header_address: address,
                load_bias: link.l_addr,
                page_size: setting.page_size,
            };
            let called = if main_executable && name.len() == 0 {
                process.executable_name
            } else {
                Some(name)
            };
            match extent_at(process, place) {
                Ok(extent) => process_link_result(process, setting, link, main_executable) == Ok::<
                    _,
                    DebuggerRendezvousErrorView,
                >(
                    ModuleCandidateView {
                        base_address: extent.base_address,
                        end_address: extent.end_address,
                        code_end: extent.code_end,
                        name: called,
                        file_offset: extent.file_offset,
                        source: ModuleSourceView::Process,
                    },
                ),
                Err(reason) => process_link_result(process, setting, link, main_executable)
                    == Err::<ModuleCandidateView, _>(
                    DebuggerRendezvousErrorView::SkippedModule {
                        name: match called {
                            Some(bytes) => bytes,
                            None => Seq::empty(),
                        },
                        address,
                        source: Box::new(reason),
                    },
                ),
            }
        },
{
}

/// Whether `nodes` are what a process holds at the addresses that lead from `first`
/// along the list, as far as they go.
pub open spec fn chained(process: StillProcess, first: usize, nodes: Seq<LinkMap>) -> bool
    decreases nodes.len(),
{
    nodes.len() > 0 ==> first != 0 && (process.link_map)(first) == Ok::<_, CopyFromProcessError>(
        nodes[0],
    ) && chained(process, nodes[0].l_next, nodes.drop_first())
}

/// Where a list goes on behind some nodes.
pub open spec fn goes_on_at(first: usize, nodes: Seq<LinkMap>) -> usize {
    if nodes.len() == 0 {
        first
    } else {
        nodes.last().l_next
    }
}

/// What becomes of each of some nodes.
pub open spec fn outcomes(
    process: StillProcess,
    setting: LinkSetting,
    first_node: bool,
    nodes: Seq<LinkMap>,
) -> Seq<Result<ModuleCandidateView, DebuggerRendezvousErrorView>> {
    Seq::new(
        nodes.len(),
        |i: int| process_link_result(process, setting, nodes[i], first_node && i == 0),
    )
}

/// The modules among some outcomes.
pub open spec fn modules_among(
    outcomes: Seq<Result<ModuleCandidateView, DebuggerRendezvousErrorView>>,
) -> Seq<ModuleCandidateView> {
    outcomes.filter(
        |outcome: Result<ModuleCandidateView, DebuggerRendezvousErrorView>| outcome is Ok,
    ).map_values(
        |outcome: Result<ModuleCandidateView, DebuggerRendezvousErrorView>| outcome->Ok_0,
    )
}

/// The errors among some outcomes.
pub open spec fn errors_among(
    outcomes: Seq<Result<ModuleCandidateView, DebuggerRendezvousErrorView>>,
) -> Seq<DebuggerRendezvousErrorView> {
    outcomes.filter(
        |outcome: Result<ModuleCandidateView, DebuggerRendezvousErrorView>| outcome is Err,
    ).map_values(
        |outcome: Result<ModuleCandidateView, DebuggerRendezvousErrorView>| outcome->Err_0,
    )
}

/// One more outcome in front is one more module in front, or one more error.
proof fn lemma_one_more_outcome(
    here: Result<ModuleCandidateView, DebuggerRendezvousErrorView>,
    rest: Seq<Result<ModuleCandidateView, DebuggerRendezvousErrorView>>,
)
    ensures
        here is Ok ==> modules_among(seq![here] + rest) == seq![here->Ok_0] + modules_among(rest)
            && errors_among(seq![here] + rest) == errors_among(rest),
        here is Err ==> errors_among(seq![here] + rest) == seq![here->Err_0] + errors_among(rest)
            && modules_among(seq![here] + rest) == modules_among(rest),
{
    let good = |outcome: Result<ModuleCandidateView, DebuggerRendezvousErrorView>| outcome is Ok;
    let bad = |outcome: Result<ModuleCandidateView, DebuggerRendezvousErrorView>| outcome is Err;
    let one = seq![here];
    Seq::filter_distributes_over_add(one, rest, good);
    Seq::filter_distributes_over_add(one, rest, bad);
    reveal(Seq::filter);
    assert(one.drop_last() =~= Seq::empty());
    assert(one.drop_last().filter(good) =~= Seq::empty());
    assert(one.drop_last().filter(bad) =~= Seq::empty());
    if here is Ok {
        assert(one.filter(good) =~= one);
        assert(one.filter(bad) =~= Seq::empty());
        assert(modules_among(one + rest) =~= seq![here->Ok_0] + modules_among(rest));
        assert(errors_among(one + rest) =~= errors_among(rest));
    } else {
        assert(one.filter(bad) =~= one);
        assert(one.filter(good) =~= Seq::empty());
        assert(errors_among(one + rest) =~= seq![here->Err_0] + errors_among(rest));
        assert(modules_among(one + rest) =~= modules_among(rest));
    }
}

/// Some links in front of a list whose listing is known.
proof fn lemma_links_in_front(
    process: StillProcess,
    setting: LinkSetting,
    links: LinkMaps,
    nodes: Seq<LinkMap>,
    limit: nat,
)
    requires
        chained(process, links.address, nodes),
        links.first_node && nodes.len() > 0 ==> nodes[0].l_prev == 0,
        limit >= nodes.len(),
        listing_from(
            process,
            setting,
            LinkMaps {
                address: goes_on_at(links.address, nodes),
                first_node: links.first_node && nodes.len() == 0,
            },
            (limit - nodes.len()) as nat,
        ) is Some,
    ensures
        ({
            let behind = listing_from(
                process,
                setting,
                LinkMaps {
                    address: goes_on_at(links.address, nodes),
                    first_node: links.first_node && nodes.len() == 0,
                },
                (limit - nodes.len()) as nat,
            )->0;
            let all = outcomes(process, setting, links.first_node, nodes);
            &&& listing_from(process, setting, links, limit) matches Some(listing)
            &&& listing.soft_errors == errors_among(all) + behind.soft_errors
            &&& behind.result matches Ok(modules) ==> listing.result is Ok
                && listing.result->Ok_0 == modules_among(all) + modules
            &&& behind.result matches Err(error) ==> listing.result is Err
                && listing.result->Err_0 == error
        }),
    decreases nodes.len(),
{
    let all = outcomes(process, setting, links.first_node, nodes);
    if nodes.len() == 0 {
        reveal(Seq::filter);
        assert(all =~= Seq::empty());
        assert(modules_among(all) =~= Seq::empty());
        assert(errors_among(all) =~= Seq::empty());
        let behind = listing_from(process, setting, links, limit)->0;
        assert(errors_among(all) + behind.soft_errors =~= behind.soft_errors);
        if let Ok(modules) = behind.result {
            assert(modules_among(all) + modules =~= modules);
        }
    } else {
        let rest = nodes.drop_first();
        let next = LinkMaps { address: nodes[0].l_next, first_node: false };
        let later = outcomes(process, setting, false, rest);
        let here = process_link_result(process, setting, nodes[0], links.first_node);
        law_only_a_head_with_a_predecessor_is_refused(
            nodes[0],
            links.first_node,
            CopyFromProcessError { address: 0, length: 0, errno: 0 },
        );
        assert(goes_on_at(next.address, rest) == goes_on_at(links.address, nodes)) by {
            if rest.len() > 0 {
                assert(rest.last() == nodes.last());
            }
        }
        lemma_links_in_front(process, setting, next, rest, (limit - 1) as nat);
        assert(all =~= seq![here] + later) by {
            assert forall|i: int| 0 <= i < all.len() implies all[i] == (seq![here] + later)[i] by {
                if i > 0 {
                    assert(rest[i - 1] == nodes[i]);
                }
            }
        }
        lemma_one_more_outcome(here, later);
        let behind = listing_from(
            process,
            setting,
            LinkMaps { address: goes_on_at(next.address, rest), first_node: false },
            (limit - nodes.len()) as nat,
        )->0;
        let listing = listing_from(process, setting, links, limit)->0;
        assert(listing.soft_errors =~= errors_among(all) + behind.soft_errors);
        if let Ok(modules) = behind.result {
            assert(listing.result->Ok_0 =~= modules_among(all) + modules);
        }
    }
}

/// The listing of a list that can be followed to its end holds the module of every
/// node that has one, in the order of the list, and an error for every other, in the
/// same order.
pub proof fn law_the_listing_is_what_each_node_becomes(
    process: StillProcess,
    setting: LinkSetting,
    first: usize,
    nodes: Seq<LinkMap>,
    limit: nat,
)
    requires
        chained(process, first, nodes),
        goes_on_at(first, nodes) == 0,
        nodes.len() > 0 ==> nodes[0].l_prev == 0,
        limit >= nodes.len(),
    ensures
        ({
            let all = outcomes(process, setting, true, nodes);
            &&& listing_from(
                process,
                setting,
                LinkMaps { address: first, first_node: true },
                limit,
            ) matches Some(listing)
            &&& listing.result is Ok
            &&& listing.result->Ok_0 == modules_among(all)
            &&& listing.soft_errors == errors_among(all)
        }),
{
    let links = LinkMaps { address: first, first_node: true };
    let all = outcomes(process, setting, true, nodes);
    lemma_links_in_front(process, setting, links, nodes, limit);
    assert(errors_among(all) + Seq::empty() =~= errors_among(all));
    assert(modules_among(all) + Seq::empty() =~= modules_among(all));
}

/// A list that breaks off at a node that cannot be read has that for its result, and
/// still reports each node before it that has no module.
pub proof fn law_a_list_that_breaks_off_is_an_error(
    process: StillProcess,
    setting: LinkSetting,
    first: usize,
    nodes: Seq<LinkMap>,
    error: CopyFromProcessError,
    limit: nat,
)
    requires
        chained(process, first, nodes),
        goes_on_at(first, nodes) != 0,
        (process.link_map)(goes_on_at(first, nodes)) == Err::<LinkMap, _>(error),
        nodes.len() > 0 ==> nodes[0].l_prev == 0,
        limit > nodes.len(),
    ensures
        listing_from(
            process,
            setting,
            LinkMaps { address: first, first_node: true },
            limit,
        ) matches Some(listing) && listing.result is Err && listing.result->Err_0
            == DebuggerRendezvousErrorView::ReadLinkMapEntryFailed(error)
            && listing.soft_errors == errors_among(outcomes(process, setting, true, nodes)),
{
    let links = LinkMaps { address: first, first_node: true };
    let all = outcomes(process, setting, true, nodes);
    lemma_links_in_front(process, setting, links, nodes, limit);
    assert(errors_among(all) + Seq::empty() =~= errors_among(all));
}

/// A list whose head has a predecessor is refused.
pub proof fn law_a_list_starts_at_its_head(
    process: StillProcess,
    setting: LinkSetting,
    first: usize,
    node: LinkMap,
    limit: nat,
)
    requires
        first != 0,
        (process.link_map)(first) == Ok::<_, CopyFromProcessError>(node),
        node.l_prev != 0,
        limit > 0,
    ensures
        listing_from(
            process,
            setting,
            LinkMaps { address: first, first_node: true },
            limit,
        ) matches Some(listing) && listing.result is Err
            && listing.result->Err_0 is InvalidLinkEntry && listing.soft_errors.len() == 0,
{
}

/// A process whose headers, dynamic section and consistent rendez-vous can be read
/// has its list where the rendez-vous says: the first `PT_PHDR` tells where the ELF
/// header is, the first `PT_DYNAMIC` where the dynamic section is, and the first
/// debug entry, wherever it stands in it, where the rendez-vous is.
pub proof fn law_a_readable_process_has_a_list(
    process: StillProcess,
    setting: RendezvousSetting,
    headers: Seq<ProgramHeader>,
    itself: int,
    dynamic: int,
    elf_header: ElfHeader,
    count: usize,
    section: Seq<Dyn>,
    debug: int,
    rendezvous: RDebug,
)
    requires
        (process.program_headers)(
            setting.program_header_table_address,
            setting.program_header_count,
        ) == Ok::<_, CopyFromProcessError>(headers),
        0 <= itself < headers.len(),
        headers[itself].p_type == PT_PHDR,
        forall|j: int| 0 <= j < itself ==> (#[trigger] headers[j]).p_type != PT_PHDR,
        headers[itself].p_vaddr <= setting.program_header_table_address,
        0 <= dynamic < headers.len(),
        headers[dynamic].p_type == PT_DYNAMIC,
        forall|j: int| 0 <= j < dynamic ==> (#[trigger] headers[j]).p_type != PT_DYNAMIC,
        ({
            let base = setting.program_header_table_address - headers[itself].p_vaddr;
            &&& (process.elf_header)(base as usize) == Ok::<_, CopyFromProcessError>(elf_header)
            &&& magic(elf_header.e_ident@)
            &&& base + headers[dynamic].p_vaddr <= usize::MAX
            &&& count * dyn_size() == headers[dynamic].p_memsz
            &&& (process.dynamic_section)(
                (base + headers[dynamic].p_vaddr) as usize,
                count,
            ) == Ok::<_, CopyFromProcessError>(section)
        }),
        section.len() > 0,
        section[section.len() - 1].d_tag == 0 && section[section.len() - 1].d_val == 0,
        0 <= debug < section.len(),
        section[debug].d_tag == DT_DEBUG,
        forall|j: int| 0 <= j < debug ==> (#[trigger] section[j]).d_tag != DT_DEBUG,
        (process.debugger_rendezvous)(section[debug].d_val) == Ok::<_, CopyFromProcessError>(
            rendezvous,
        ),
        rendezvous.r_version == 1,
        rendezvous.r_state == 0,
        !process.distrusted,
    ensures
        list_head(process, setting) == Ok::<_, DebuggerRendezvousErrorView>(
            ListHead {
                elf_header_address: (setting.program_header_table_address
                    - headers[itself].p_vaddr) as usize,
                rendezvous,
            },
        ),
{
    let no_error = CopyFromProcessError { address: 0, length: 0, errno: 0 };
    law_the_first_segment_of_a_type_counts(headers, PT_PHDR, itself);
    law_the_first_segment_of_a_type_counts(headers, PT_DYNAMIC, dynamic);
    law_an_elf_header_is_told_by_its_magic(elf_header, no_error);
    law_a_dynamic_section_holds_whole_entries(headers[dynamic].p_memsz, count);
    law_a_dynamic_section_ends_in_null(section, no_error);
    law_the_first_debug_entry_counts(section, debug);
    law_a_rendezvous_is_trusted_if_consistent(rendezvous, process.distrusted, no_error);
}

/// The module list of a process whose list is found is the listing of that list, with
/// an error of the list marked as such, and of a process whose list is not found the
/// reason.
pub proof fn law_the_module_list_is_the_listing_of_the_list(
    process: StillProcess,
    setting: RendezvousSetting,
    limit: nat,
)
    ensures
        match list_head(process, setting) {
            Ok(head) => {
                let list = listing_from(
                    process,
                    LinkSetting {
                        main_elf_header_address: head.elf_header_address,
                        page_size: setting.page_size,
                    },
                    LinkMaps { address: head.rendezvous.r_map, first_node: true },
                    limit,
                );
                &&& list is None <==> process_listing(process, setting, limit) is None
                &&& list matches Some(listing) ==> {
                    let found = process_listing(process, setting, limit)->0;
                    &&& found.soft_errors == listing.soft_errors
                    &&& listing.result matches Ok(modules) ==> found.result is Ok
                        && found.result->Ok_0 == modules
                    &&& listing.result matches Err(error) ==> found.result is Err
                        && found.result->Err_0
                        == DebuggerRendezvousErrorView::IterateLinkMapFailed(Box::new(error))
                }
            },
            Err(error) => process_listing(process, setting, limit) matches Some(found)
                && found.result is Err && found.result->Err_0 == error && found.soft_errors.len()
                == 0,
        },
{
}

/// Why a list is not found, in the order in which its parts are looked at: the
/// program headers, the ELF header, the dynamic section, the debug entry and the
/// rendez-vous.
pub proof fn law_what_is_missing_is_reported(
    process: StillProcess,
    setting: RendezvousSetting,
    headers: Seq<ProgramHeader>,
    itself: int,
    error: CopyFromProcessError,
)
    ensures
        (process.program_headers)(
            setting.program_header_table_address,
            setting.program_header_count,
        ) == Err::<Seq<ProgramHeader>, _>(error) ==> list_head(process, setting) == Err::<
            ListHead,
            _,
        >(DebuggerRendezvousErrorView::ReadProgramHeaderTableFailed(error)),
        (process.program_headers)(
            setting.program_header_table_address,
            setting.program_header_count,
        ) == Ok::<_, CopyFromProcessError>(headers) ==> {
            &&& (forall|j: int|
                0 <= j < headers.len() ==> (#[trigger] headers[j]).p_type != PT_PHDR)
                ==> list_head(process, setting) == Err::<ListHead, _>(
                DebuggerRendezvousErrorView::ProgramHeaderTableNoSelf,
            )
            &&& 0 <= itself < headers.len() && headers[itself].p_type == PT_PHDR && (forall|j: int|
                0 <= j < itself ==> (#[trigger] headers[j]).p_type != PT_PHDR)
                && headers[itself].p_vaddr <= setting.program_header_table_address ==> {
                let base = (setting.program_header_table_address
                    - headers[itself].p_vaddr) as usize;
                match (process.elf_header)(base) {
                    Err(failure) => list_head(process, setting) == Err::<ListHead, _>(
                        DebuggerRendezvousErrorView::ReadElfHeaderFailed(failure),
                    ),
                    Ok(elf_header) => {
                        &&& !magic(elf_header.e_ident@) ==> list_head(process, setting) == Err::<
                            ListHead,
                            _,
                        >(
                            DebuggerRendezvousErrorView::InvalidElfSignature(
                                seq![
                                    elf_header.e_ident@[0],
                                    elf_header.e_ident@[1],
                                    elf_header.e_ident@[2],
                                    elf_header.e_ident@[3],
                                ],
                            ),
                        )
                        &&& magic(elf_header.e_ident@) && (forall|j: int|
                            0 <= j < headers.len() ==> (#[trigger] headers[j]).p_type
                                != PT_DYNAMIC) ==> list_head(process, setting) == Err::<
                            ListHead,
                            _,
                        >(DebuggerRendezvousErrorView::ProgramHeaderTableNoDynamic)
                    },
                }
            }
        },
{
    if (process.program_headers)(
        setting.program_header_table_address,
        setting.program_header_count,
    ) == Ok::<_, CopyFromProcessError>(headers) {
        law_only_missing_segments_are_not_found(headers, PT_PHDR);
        law_only_missing_segments_are_not_found(headers, PT_DYNAMIC);
        if 0 <= itself < headers.len() && headers[itself].p_type == PT_PHDR && (forall|j: int|
            0 <= j < itself ==> (#[trigger] headers[j]).p_type != PT_PHDR)
            && headers[itself].p_vaddr <= setting.program_header_table_address {
            law_the_first_segment_of_a_type_counts(headers, PT_PHDR, itself);
            let base = (setting.program_header_table_address - headers[itself].p_vaddr) as usize;
            if let Ok(elf_header) = (process.elf_header)(base) {
                law_an_elf_header_is_told_by_its_magic(elf_header, error);
            }
        }
    }
}

/// Why the list of a process whose headers can be read is not found: its dynamic
/// section is not of whole entries, cannot be read, does not end or has no debug
/// entry, or the rendez-vous cannot be read or trusted.
pub proof fn law_what_is_wrong_with_the_rendezvous_is_reported(
    process: StillProcess,
    setting: RendezvousSetting,
    headers: Seq<ProgramHeader>,
    itself: int,
    dynamic: int,
    elf_header: ElfHeader,
    count: usize,
    debug: int,
)
    requires
        (process.program_headers)(
            setting.program_header_table_address,
            setting.program_header_count,
        ) == Ok::<_, CopyFromProcessError>(headers),
        0 <= itself < headers.len(),
        headers[itself].p_type == PT_PHDR,
        forall|j: int| 0 <= j < itself ==> (#[trigger] headers[j]).p_type != PT_PHDR,
        headers[itself].p_vaddr <= setting.program_header_table_address,
        0 <= dynamic < headers.len(),
        headers[dynamic].p_type == PT_DYNAMIC,
        forall|j: int| 0 <= j < dynamic ==> (#[trigger] headers[j]).p_type != PT_DYNAMIC,
        (process.elf_header)(
            (setting.program_header_table_address - headers[itself].p_vaddr) as usize,
        ) == Ok::<_, CopyFromProcessError>(elf_header),
        magic(elf_header.e_ident@),
        setting.program_header_table_address - headers[itself].p_vaddr + headers[dynamic].p_vaddr
            <= usize::MAX,
    ensures
        headers[dynamic].p_memsz as int % dyn_size() != 0 ==> list_head(
            process,
            setting,
        ) == Err::<ListHead, _>(
            DebuggerRendezvousErrorView::InvalidDynamicSectionSize(headers[dynamic].p_memsz),
        ),
        count * dyn_size() == headers[dynamic].p_memsz ==> match (process.dynamic_section)(
            (setting.program_header_table_address - headers[itself].p_vaddr
                + headers[dynamic].p_vaddr) as usize,
            count,
        ) {
            Err(error) => list_head(process, setting) == Err::<ListHead, _>(
                DebuggerRendezvousErrorView::ReadDynamicSectionFailed(error),
            ),
            Ok(section) => {
                let ends = section.len() > 0 && section[section.len() - 1].d_tag == 0
                    && section[section.len() - 1].d_val == 0;
                &&& !ends ==> list_head(process, setting) == Err::<ListHead, _>(
                    DebuggerRendezvousErrorView::DynamicSectionMissingTerminator,
                )
                &&& ends && (forall|j: int|
                    0 <= j < section.len() ==> (#[trigger] section[j]).d_tag != DT_DEBUG)
                    ==> list_head(process, setting) == Err::<ListHead, _>(
                    DebuggerRendezvousErrorView::MissingDebugEntry,
                )
                &&& ends && 0 <= debug < section.len() && section[debug].d_tag == DT_DEBUG && (
                forall|j: int| 0 <= j < debug ==> (#[trigger] section[j]).d_tag != DT_DEBUG)
                    ==> match (process.debugger_rendezvous)(section[debug].d_val) {
                    Err(error) => list_head(process, setting) == Err::<ListHead, _>(
                        DebuggerRendezvousErrorView::ReadDebuggerRendezvousAddressFailed(error),
                    ),
                    Ok(rendezvous) => {
                        &&& rendezvous.r_version != 1 ==> list_head(process, setting) == Err::<
                            ListHead,
                            _,
                        >(
                            DebuggerRendezvousErrorView::UnexpectedDebuggerRendezvousVersion(
                                rendezvous.r_version,
                            ),
                        )
                        &&& rendezvous.r_version == 1 && (rendezvous.r_state != 0
                            || process.distrusted) ==> list_head(process, setting) == Err::<
                            ListHead,
                            _,
                        >(
                            DebuggerRendezvousErrorView::DebuggerRendezvousNotConsistent(
                                rendezvous.r_state,
                            ),
                        )
                    },
                }
            },
        },
{
    let no_error = CopyFromProcessError { address: 0, length: 0, errno: 0 };
    law_the_first_segment_of_a_type_counts(headers, PT_PHDR, itself);
    law_the_first_segment_of_a_type_counts(headers, PT_DYNAMIC, dynamic);
    law_an_elf_header_is_told_by_its_magic(elf_header, no_error);
    law_a_dynamic_section_holds_whole_entries(headers[dynamic].p_memsz, count);
    if let Ok(n) = crate::elf::dynamic_entries(headers[dynamic].p_memsz) {
        assert(n * dyn_size() == headers[dynamic].p_memsz);
    }
    if count * dyn_size() == headers[dynamic].p_memsz {
        let address = (setting.program_header_table_address - headers[itself].p_vaddr
            + headers[dynamic].p_vaddr) as usize;
        if let Ok(section) = (process.dynamic_section)(address, count) {
            law_a_dynamic_section_ends_in_null(section, no_error);
            law_only_sections_without_a_debug_entry_lack_one(section);
            if 0 <= debug < section.len() && section[debug].d_tag == DT_DEBUG && (forall|j: int|
                0 <= j < debug ==> (#[trigger] section[j]).d_tag != DT_DEBUG) {
                law_the_first_debug_entry_counts(section, debug);
                match (process.debugger_rendezvous)(section[debug].d_val) {
                    Ok(rendezvous) => law_a_rendezvous_is_trusted_if_consistent(
                        rendezvous,
                        process.distrusted,
                        no_error,
                    ),
                    Err(_) => {},
                }
            }
        }
    }
}

/// Driving a walk is answering its requests, one after the other, until it has none.
pub proof fn law_driving_is_answering(process: StillProcess, walk: RendezvousWalkView, count: nat)
    ensures
        driven(process, walk, 0) == walk,
        walk.wanted() is None ==> driven(process, walk, count) == walk,
        walk.wanted() matches Some(request) ==> driven(process, walk, count + 1) == driven(
            process,
            walk.stepped(process.answer(request)),
            count,
        ),
        walk.wanted() is None <==> walk.phase is Done,
{
}

/// A walk starts with the program headers of the main program, of which it has read
/// nothing.
pub proof fn law_a_walk_starts_with_the_program_headers(setting: RendezvousSetting)
    ensures
        rendezvous_start(setting).setting == setting,
        rendezvous_start(setting).phase is ProgramHeaders,
        rendezvous_start(setting).wanted() == Some(
            Request::ProgramHeaders {
                address: setting.program_header_table_address,
                count: setting.program_header_count,
            },
        ),
{
}

/// A module that is being read refuses a reply only where an address that follows
/// from it is none.
pub proof fn law_a_module_refuses_only_what_is_no_address(
    read: ModuleRead,
    elf_header: ElfHeader,
    headers: Seq<ProgramHeader>,
    low: int,
    dynamic: int,
)
    requires
        read.place.page_size > 0,
    ensures
        read.phase is ElfHeader ==> (read.accepts(ReplyView::ElfHeader(Ok(elf_header))) <==> (magic(
            elf_header.e_ident@,
        ) ==> read.place.elf_header_address + elf_header.e_phoff <= usize::MAX)),
        read.phase matches ModulePhase::ProgramHeaders { elf_header: known, .. } ==> {
            let accepted = read.accepts(ReplyView::ProgramHeaders(Ok(headers)));
            &&& accepted ==> segments_fit(headers, read.place.load_bias, read.place.page_size)
            &&& segments_fit(headers, read.place.load_bias, read.place.page_size) && (
            known.e_type != ET_DYN || (forall|j: int|
                0 <= j < headers.len() ==> (#[trigger] headers[j]).p_type != PT_DYNAMIC) || (0
                <= dynamic < headers.len() && headers[dynamic].p_type == PT_DYNAMIC && (forall|
                j: int,
            |
                0 <= j < dynamic ==> (#[trigger] headers[j]).p_type != PT_DYNAMIC)
                && read.place.load_bias + headers[dynamic].p_vaddr <= usize::MAX)) ==> accepted
            &&& segments_fit(headers, read.place.load_bias, read.place.page_size) && 0 <= low
                < headers.len() && headers[low].p_type == PT_LOAD && (forall|j: int|
                0 <= j < headers.len() && (#[trigger] headers[j]).p_type == PT_LOAD ==> page_of(
                    read.place.load_bias + headers[low].p_vaddr,
                    read.place.page_size as int,
                ) <= page_of(
                    read.place.load_bias + headers[j].p_vaddr,
                    read.place.page_size as int,
                ) && (j < low ==> page_of(
                    read.place.load_bias + headers[low].p_vaddr,
                    read.place.page_size as int,
                ) < page_of(
                    read.place.load_bias + headers[j].p_vaddr,
                    read.place.page_size as int,
                ))) && page_of(
                read.place.load_bias + headers[low].p_vaddr,
                read.place.page_size as int,
            ) == read.place.load_bias ==> accepted
            &&& segments_fit(headers, read.place.load_bias, read.place.page_size) && (forall|
                j: int,
            |
                0 <= j < headers.len() ==> (#[trigger] headers[j]).p_type != PT_LOAD) ==> accepted
        },
        forall|error: CopyFromProcessError| #[trigger]
            read.accepts(ReplyView::ElfHeader(Err(error))),
        forall|error: CopyFromProcessError| #[trigger]
            read.accepts(ReplyView::ProgramHeaders(Err(error))),
        read.phase is DynamicSection ==> forall|reply: ReplyView| #[trigger] read.accepts(reply),
{
    law_an_elf_header_is_told_by_its_magic(
        elf_header,
        CopyFromProcessError { address: 0, length: 0, errno: 0 },
    );
    if segments_fit(headers, read.place.load_bias, read.place.page_size) {
        law_only_missing_segments_are_not_found(headers, PT_DYNAMIC);
        crate::segment::law_only_objects_without_segments_have_no_span(
            headers,
            read.place.load_bias,
            read.place.page_size,
        );
        if 0 <= dynamic < headers.len() && headers[dynamic].p_type == PT_DYNAMIC && (forall|j: int|
            0 <= j < dynamic ==> (#[trigger] headers[j]).p_type != PT_DYNAMIC) {
            law_the_first_segment_of_a_type_counts(headers, PT_DYNAMIC, dynamic);
        }
        if 0 <= low < headers.len() && headers[low].p_type == PT_LOAD && (forall|j: int|
            0 <= j < headers.len() && (#[trigger] headers[j]).p_type == PT_LOAD ==> page_of(
                read.place.load_bias + headers[low].p_vaddr,
                read.place.page_size as int,
            ) <= page_of(
                read.place.load_bias + headers[j].p_vaddr,
                read.place.page_size as int,
            ) && (j < low ==> page_of(
                read.place.load_bias + headers[low].p_vaddr,
                read.place.page_size as int,
            ) < page_of(
                read.place.load_bias + headers[j].p_vaddr,
                read.place.page_size as int,
            ))) {
            law_an_object_starts_with_its_lowest_segment(
                headers,
                read.place.load_bias,
                read.place.page_size,
                low,
            );
        }
    }
}

/// A walk along the list refuses a reply only where the module that it reads does.
pub proof fn law_a_link_walk_refuses_only_what_its_module_does(
    walk: LinkWalkView,
    reply: ReplyView,
)
    ensures
        walk.phase matches LinkPhaseView::Module { read, .. } ==> (walk.accepts(reply)
            <==> read.accepts(reply)),
        !(walk.phase is Module) ==> walk.accepts(reply),
{
}

/// A walk refuses program headers only if they say that the ELF header lies below the
/// address space, an ELF header only if the dynamic section then lies above it, and
/// any other reply only where its walk along the list does.
pub proof fn law_a_walk_refuses_only_what_is_no_address(
    walk: RendezvousWalkView,
    reply: ReplyView,
    headers: Seq<ProgramHeader>,
    itself: int,
    elf_header: ElfHeader,
)
    ensures
        walk.phase is ProgramHeaders && (forall|j: int|
            0 <= j < headers.len() ==> (#[trigger] headers[j]).p_type != PT_PHDR) ==> walk.accepts(
            ReplyView::ProgramHeaders(Ok(headers)),
        ),
        walk.phase is ProgramHeaders && 0 <= itself < headers.len() && headers[itself].p_type
            == PT_PHDR && (forall|j: int|
            0 <= j < itself ==> (#[trigger] headers[j]).p_type != PT_PHDR) ==> (walk.accepts(
            ReplyView::ProgramHeaders(Ok(headers)),
        ) <==> headers[itself].p_vaddr <= walk.setting.program_header_table_address),
        walk.phase matches RendezvousPhaseView::ElfHeader { elf_header_address, dynamic } ==> (
        walk.accepts(ReplyView::ElfHeader(Ok(elf_header))) <==> (magic(elf_header.e_ident@)
            ==> (dynamic matches Some((vaddr, _)) ==> elf_header_address + vaddr <= usize::MAX))),
        walk.phase matches RendezvousPhaseView::Links(links) ==> (walk.accepts(reply)
            <==> links.accepts(reply)),
        walk.phase is DynamicSection || walk.phase is Rendezvous || walk.phase is Done
            ==> walk.accepts(reply),
        forall|error: CopyFromProcessError|
            !(walk.phase is Links) ==> #[trigger] walk.accepts(
                ReplyView::ProgramHeaders(Err(error)),
            ),
        forall|error: CopyFromProcessError|
            !(walk.phase is Links) ==> #[trigger] walk.accepts(ReplyView::ElfHeader(Err(error))),
{
    law_only_missing_segments_are_not_found(headers, PT_PHDR);
    if 0 <= itself < headers.len() && headers[itself].p_type == PT_PHDR && (forall|j: int|
        0 <= j < itself ==> (#[trigger] headers[j]).p_type != PT_PHDR) {
        law_the_first_segment_of_a_type_counts(headers, PT_PHDR, itself);
    }
    law_an_elf_header_is_told_by_its_magic(
        elf_header,
        CopyFromProcessError { address: 0, length: 0, errno: 0 },
    );
}

/// A base address is the load bias of a shared object with packed relocations, and
/// where the lowest segment starts of anything else.
pub proof fn law_only_packed_shared_objects_are_based_at_their_bias(
    elf_header: ElfHeader,
    load_bias: usize,
    lowest_segment_start: usize,
    packed: bool,
)
    ensures
        packed && elf_header.e_type == ET_DYN ==> base_address_of(
            elf_header,
            load_bias,
            lowest_segment_start,
            packed,
        ) == load_bias,
        !packed || elf_header.e_type != ET_DYN ==> base_address_of(
            elf_header,
            load_bias,
            lowest_segment_start,
            packed,
        ) == lowest_segment_start,
{
}

/// The extent of a span is the span, from the base address, with code that ends there
/// if there is none.
pub proof fn law_an_extent_is_a_span_from_its_base(span: ModuleSpan, base_address: usize)
    ensures
        extent_of(span, base_address).base_address == base_address,
        extent_of(span, base_address).end_address == span.end,
        extent_of(span, base_address).file_offset == span.file_offset,
        span.code_end matches Some(end) ==> extent_of(span, base_address).code_end == end,
        span.code_end is None ==> extent_of(span, base_address).code_end == base_address,
{
}

/// A module of which nothing is read yet has its whole extent ahead, and a walk that is
/// over nothing but its listing.
pub proof fn law_what_lies_ahead(
    process: StillProcess,
    place: ModulePlace,
    listing: ListingView,
    walk: RendezvousWalkView,
    limit: nat,
)
    ensures
        extent_ahead(process, ModuleRead { place, phase: ModulePhase::ElfHeader }) == extent_at(
            process,
            place,
        ),
        progress_ahead(process, LinkProgressView::Done(listing), limit) == Some(listing),
        walk.phase == RendezvousPhaseView::Done(listing) ==> rendezvous_ahead(process, walk, limit)
            == Some(listing),
        rendezvous_ahead(process, rendezvous_start(walk.setting), limit) == process_listing(
            process,
            walk.setting,
            limit,
        ),
{
}

/// A process whose headers, dynamic section and consistent rendez-vous can be read, and
/// whose list can be followed to its end, is walked to the listing of that list: the
/// module of each node that has one, in order, and a report on each other.
pub proof fn law_a_readable_process_is_walked_to_its_module_list(
    process: StillProcess,
    setting: RendezvousSetting,
    headers: Seq<ProgramHeader>,
    itself: int,
    dynamic: int,
    elf_header: ElfHeader,
    count: usize,
    section: Seq<Dyn>,
    debug: int,
    rendezvous: RDebug,
    nodes: Seq<LinkMap>,
) -> (replies: nat)
    requires
        (process.program_headers)(
            setting.program_header_table_address,
            setting.program_header_count,
        ) == Ok::<_, CopyFromProcessError>(headers),
        0 <= itself < headers.len(),
        headers[itself].p_type == PT_PHDR,
        forall|j: int| 0 <= j < itself ==> (#[trigger] headers[j]).p_type != PT_PHDR,
        headers[itself].p_vaddr <= setting.program_header_table_address,
        0 <= dynamic < headers.len(),
        headers[dynamic].p_type == PT_DYNAMIC,
        forall|j: int| 0 <= j < dynamic ==> (#[trigger] headers[j]).p_type != PT_DYNAMIC,
        ({
            let base = setting.program_header_table_address - headers[itself].p_vaddr;
            &&& (process.elf_header)(base as usize) == Ok::<_, CopyFromProcessError>(elf_header)
            &&& magic(elf_header.e_ident@)
            &&& base + headers[dynamic].p_vaddr <= usize::MAX
            &&& count * dyn_size() == headers[dynamic].p_memsz
            &&& (process.dynamic_section)(
                (base + headers[dynamic].p_vaddr) as usize,
                count,
            ) == Ok::<_, CopyFromProcessError>(section)
        }),
        section.len() > 0,
        section[section.len() - 1].d_tag == 0 && section[section.len() - 1].d_val == 0,
        0 <= debug < section.len(),
        section[debug].d_tag == DT_DEBUG,
        forall|j: int| 0 <= j < debug ==> (#[trigger] section[j]).d_tag != DT_DEBUG,
        (process.debugger_rendezvous)(section[debug].d_val) == Ok::<_, CopyFromProcessError>(
            rendezvous,
        ),
        rendezvous.r_version == 1,
        rendezvous.r_state == 0,
        !process.distrusted,
        chained(process, rendezvous.r_map, nodes),
        goes_on_at(rendezvous.r_map, nodes) == 0,
        nodes.len() > 0 ==> nodes[0].l_prev == 0,
    ensures
        ({
            let all = outcomes(
                process,
                LinkSetting {
                    main_elf_header_address: (setting.program_header_table_address
                        - headers[itself].p_vaddr) as usize,
                    page_size: setting.page_size,
                },
                true,
                nodes,
            );
            &&& driven(
                process,
                rendezvous_start(setting),
                replies,
            ).phase matches RendezvousPhaseView::Done(listing)
            &&& listing.result is Ok
            &&& listing.result->Ok_0 == modules_among(all)
            &&& listing.soft_errors == errors_among(all)
            &&& modules_among(all).len() + errors_among(all).len() == nodes.len()
        }),
{
    law_a_readable_process_has_a_list(
        process,
        setting,
        headers,
        itself,
        dynamic,
        elf_header,
        count,
        section,
        debug,
        rendezvous,
    );
    let links = LinkSetting {
        main_elf_header_address: (setting.program_header_table_address
            - headers[itself].p_vaddr) as usize,
        page_size: setting.page_size,
    };
    law_the_listing_is_what_each_node_becomes(
        process,
        links,
        rendezvous.r_map,
        nodes,
        nodes.len(),
    );
    law_the_module_list_is_the_listing_of_the_list(process, setting, nodes.len());
    lemma_each_outcome_counts(outcomes(process, links, true, nodes));
    law_the_walk_gets_where_it_heads(process, rendezvous_start(setting), nodes.len())
}

/// Every outcome is a module or an error.
proof fn lemma_each_outcome_counts(
    all: Seq<Result<ModuleCandidateView, DebuggerRendezvousErrorView>>,
)
    ensures
        modules_among(all).len() + errors_among(all).len() == all.len(),
    decreases all.len(),
{
    if all.len() == 0 {
        reveal(Seq::filter);
        assert(all =~= Seq::empty());
    } else {
        lemma_each_outcome_counts(all.drop_first());
        lemma_one_more_outcome(all[0], all.drop_first());
        assert(all =~= seq![all[0]] + all.drop_first());
    }
}

} // verus!

//! What following the debugger rendez-vous comes to.

use vstd::prelude::*;

use crate::elf::{
    debug_entry, dynamic_entries, dynamic_section_outcome, elf_header_outcome,
    program_headers_outcome, segment_of_type, PT_DYNAMIC, PT_PHDR,
};
use crate::error::DebuggerRendezvousErrorView;
use crate::link_laws::{
    law_a_walk_starts_with_the_whole_list, law_answers_lead_along_the_list,
    lemma_listing_is_stable, link_reads_left, listing_ahead, listing_from,
};
use crate::link_map::{rendezvous_outcome, LinkMaps, RDebug, RT_CONSISTENT};
use crate::link_walk::{LinkSetting, ListingView};
use crate::process::{Request, StillProcess};
use crate::rendezvous::{
    iterated, rendezvous_start, unreachable_listing, RendezvousPhaseView, RendezvousSetting,
    RendezvousWalkView,
};

verus! {

/// Where a process's linker keeps its list.
pub struct ListHead {
    /// Address of the main program's ELF header.
    pub elf_header_address: usize,
    /// The rendez-vous that the list hangs off.
    pub rendezvous: RDebug,
}

/// The head of a process's list whose rendez-vous is at `address`.
pub open spec fn head_from_rendezvous(
    process: StillProcess,
    elf_header_address: usize,
    address: usize,
) -> Result<ListHead, DebuggerRendezvousErrorView> {
    match rendezvous_outcome((process.debugger_rendezvous)(address), process.distrusted) {
        Ok(rendezvous) => Ok(ListHead { elf_header_address, rendezvous }),
        Err(error) => Err(error),
    }
}

/// The head of a process's list whose main program has its dynamic section at
/// `address`.
pub open spec fn head_from_dynamic_section(
    process: StillProcess,
    elf_header_address: usize,
    address: usize,
    count: usize,
) -> Result<ListHead, DebuggerRendezvousErrorView> {
    match dynamic_section_outcome((process.dynamic_section)(address, count)) {
        Ok(section) => match debug_entry(section) {
            Ok(rendezvous) => head_from_rendezvous(process, elf_header_address, rendezvous),
            Err(error) => Err(error),
        },
        Err(error) => Err(error),
    }
}

/// The head of a process's list whose main program has its ELF header at
/// `elf_header_address`.
pub open spec fn head_from_elf_header(
    process: StillProcess,
    elf_header_address: usize,
    dynamic: Option<(usize, usize)>,
) -> Result<ListHead, DebuggerRendezvousErrorView> {
    match elf_header_outcome((process.elf_header)(elf_header_address)) {
        Ok(_) => match dynamic {
            Some((vaddr, size)) => match dynamic_entries(size) {
                Ok(count) => head_from_dynamic_section(
                    process,
                    elf_header_address,
                    (elf_header_address + vaddr) as usize,
                    count,
                ),
                Err(error) => Err(error),
            },
            None => Err(DebuggerRendezvousErrorView::ProgramHeaderTableNoDynamic),
        },
        Err(error) => Err(error),
    }
}

/// The head of a process's list, found from its main program's headers.
pub open spec fn list_head(process: StillProcess, setting: RendezvousSetting) -> Result<
    ListHead,
    DebuggerRendezvousErrorView,
> {
    let table = setting.program_header_table_address;
    match program_headers_outcome(
        (process.program_headers)(table, setting.program_header_count),
    ) {
        Ok(headers) => match segment_of_type(headers, PT_PHDR) {
            Some((vaddr, _)) => head_from_elf_header(
                process,
                (table - vaddr) as usize,
                segment_of_type(headers, PT_DYNAMIC),
            ),
            None => Err(DebuggerRendezvousErrorView::ProgramHeaderTableNoSelf),
        },
        Err(error) => Err(error),
    }
}

/// The listing of the list with the given head, if it has no more than `limit`
/// links.
pub open spec fn listing_of_head(
    process: StillProcess,
    setting: RendezvousSetting,
    head: Result<ListHead, DebuggerRendezvousErrorView>,
    limit: nat,
) -> Option<ListingView> {
    match head {
        Ok(found) => match listing_from(
            process,
            LinkSetting {
                main_elf_header_address: found.elf_header_address,
                page_size: setting.page_size,
            },
            LinkMaps { address: found.rendezvous.r_map, first_node: true },
            limit,
        ) {
            Some(listing) => Some(iterated(listing)),
            None => None,
        },
        Err(error) => Some(unreachable_listing(error)),
    }
}

/// The module list of a process whose linker's list has no more than `limit`
/// links.
pub open spec fn process_listing(
    process: StillProcess,
    setting: RendezvousSetting,
    limit: nat,
) -> Option<ListingView> {
    listing_of_head(process, setting, list_head(process, setting), limit)
}

/// The listing that a walk is heading for, if no more than `limit` links are
/// left to be read.
pub open spec fn rendezvous_ahead(
    process: StillProcess,
    walk: RendezvousWalkView,
    limit: nat,
) -> Option<ListingView> {
    let setting = walk.setting;
    match walk.phase {
        RendezvousPhaseView::ProgramHeaders => process_listing(process, setting, limit),
        RendezvousPhaseView::ElfHeader { elf_header_address, dynamic } => listing_of_head(
            process,
            setting,
            head_from_elf_header(process, elf_header_address, dynamic),
            limit,
        ),
        RendezvousPhaseView::DynamicSection {
            elf_header_address,
            address,
            count,
        } => listing_of_head(
            process,
            setting,
            head_from_dynamic_section(process, elf_header_address, address, count),
            limit,
        ),
        RendezvousPhaseView::Rendezvous { elf_header_address, address } => listing_of_head(
            process,
            setting,
            head_from_rendezvous(process, elf_header_address, address),
            limit,
        ),
        RendezvousPhaseView::Links(links) => match listing_ahead(process, links, limit) {
            Some(listing) => Some(iterated(listing)),
            None => None,
        },
        RendezvousPhaseView::Done(listing) => Some(listing),
    }
}

/// Whether a walk, if it has reached the linker's list, stands at a link.
pub open spec fn rendezvous_placed(walk: RendezvousWalkView) -> bool {
    walk.phase matches RendezvousPhaseView::Links(links) ==> links.placed()
}

/// A walk after up to `count` answers of a process.
pub open spec fn driven(process: StillProcess, walk: RendezvousWalkView, count: nat) -> RendezvousWalkView
    decreases count,
{
    match walk.wanted() {
        Some(request) if count > 0 => driven(
            process,
            walk.stepped(process.answer(request)),
            (count - 1) as nat,
        ),
        _ => walk,
    }
}

/// How many replies a walk is away from the list, or from the next link of it,
/// at most.
pub open spec fn rendezvous_reads_left(walk: RendezvousWalkView) -> nat {
    match walk.phase {
        RendezvousPhaseView::ProgramHeaders => 9,
        RendezvousPhaseView::ElfHeader { .. } => 8,
        RendezvousPhaseView::DynamicSection { .. } => 7,
        RendezvousPhaseView::Rendezvous { .. } => 6,
        RendezvousPhaseView::Links(links) => link_reads_left(links),
        RendezvousPhaseView::Done(_) => 0,
    }
}

/// Whether a walk is about to read a link.
pub open spec fn at_link(walk: RendezvousWalkView) -> bool {
    walk.phase matches RendezvousPhaseView::Links(links) && links.phase is Link
}

/// Each of a process's answers brings a walk closer to the linker's list, or
/// along it, and leaves it heading for the same listing.
pub proof fn law_answers_lead_to_the_listing(
    process: StillProcess,
    walk: RendezvousWalkView,
    limit: nat,
)
    requires
        rendezvous_placed(walk),
        walk.wanted() is Some,
    ensures
        ({
            let request = walk.wanted()->0;
            let next = walk.stepped(process.answer(request));
            &&& process.answer(request).answers(request)
            &&& rendezvous_placed(next)
            &&& at_link(walk) && limit > 0 ==> rendezvous_ahead(
                process,
                next,
                (limit - 1) as nat,
            ) == rendezvous_ahead(process, walk, limit)
            &&& !at_link(walk) ==> rendezvous_ahead(process, next, limit) == rendezvous_ahead(
                process,
                walk,
                limit,
            )
            &&& !at_link(walk) && next.wanted() is Some ==> rendezvous_reads_left(next)
                < rendezvous_reads_left(walk)
        }),
{
    match walk.phase {
        RendezvousPhaseView::Rendezvous { elf_header_address, address } => {
            if let Ok(rendezvous) = rendezvous_outcome(
                (process.debugger_rendezvous)(address),
                process.distrusted,
            ) {
                law_a_walk_starts_with_the_whole_list(
                    process,
                    LinkSetting {
                        main_elf_header_address: elf_header_address,
                        page_size: walk.setting.page_size,
                    },
                    rendezvous.r_map,
                    limit,
                );
            }
        },
        RendezvousPhaseView::Links(links) => {
            law_answers_lead_along_the_list(process, links, limit);
        },
        _ => {},
    }
}

/// A listing that a walk heads for within a limit is the one it heads for within
/// a higher one.
proof fn lemma_ahead_is_stable(
    process: StillProcess,
    walk: RendezvousWalkView,
    limit: nat,
    higher: nat,
)
    requires
        limit <= higher,
        rendezvous_ahead(process, walk, limit) is Some,
    ensures
        rendezvous_ahead(process, walk, higher) == rendezvous_ahead(process, walk, limit),
{
    match walk.phase {
        RendezvousPhaseView::Links(links) => {
            lemma_listing_is_stable(process, links.setting, links.links, limit, higher);
        },
        RendezvousPhaseView::Done(_) => {},
        _ => {
            let head = match walk.phase {
                RendezvousPhaseView::ElfHeader {
                    elf_header_address,
                    dynamic,
                } => head_from_elf_header(process, elf_header_address, dynamic),
                RendezvousPhaseView::DynamicSection {
                    elf_header_address,
                    address,
                    count,
                } => head_from_dynamic_section(process, elf_header_address, address, count),
                RendezvousPhaseView::Rendezvous {
                    elf_header_address,
                    address,
                } => head_from_rendezvous(process, elf_header_address, address),
                _ => list_head(process, walk.setting),
            };
            if let Ok(found) = head {
                lemma_listing_is_stable(
                    process,
                    LinkSetting {
                        main_elf_header_address: found.elf_header_address,
                        page_size: walk.setting.page_size,
                    },
                    LinkMaps { address: found.rendezvous.r_map, first_node: true },
                    limit,
                    higher,
                );
            }
        },
    }
}

/// What a walk comes to is what it was heading for.
pub proof fn law_the_walk_ends_where_it_heads(
    process: StillProcess,
    walk: RendezvousWalkView,
    count: nat,
)
    requires
        rendezvous_placed(walk),
    ensures
        driven(process, walk, count).phase matches RendezvousPhaseView::Done(listing)
            ==> rendezvous_ahead(process, walk, count) == Some(listing),
    decreases count,
{
    if let Some(request) = walk.wanted() {
        if count > 0 {
            let next = walk.stepped(process.answer(request));
            law_answers_lead_to_the_listing(process, walk, count);
            law_the_walk_ends_where_it_heads(process, next, (count - 1) as nat);
            if driven(process, walk, count).phase is Done && !at_link(walk) {
                lemma_ahead_is_stable(process, next, (count - 1) as nat, count);
            }
        }
    }
}

/// A walk that heads for a listing comes to it.
pub proof fn law_the_walk_gets_where_it_heads(
    process: StillProcess,
    walk: RendezvousWalkView,
    limit: nat,
) -> (count: nat)
    requires
        rendezvous_placed(walk),
        rendezvous_ahead(process, walk, limit) is Some,
    ensures
        driven(process, walk, count).phase == RendezvousPhaseView::Done(
            rendezvous_ahead(process, walk, limit)->0,
        ),
    decreases limit, rendezvous_reads_left(walk),
{
    match walk.wanted() {
        Some(request) => {
            let next = walk.stepped(process.answer(request));
            law_answers_lead_to_the_listing(process, walk, limit);
            if at_link(walk) {
                // A link that is left to be read counts against the limit.
                assert(limit > 0);
                let rest = law_the_walk_gets_where_it_heads(process, next, (limit - 1) as nat);
                rest + 1
            } else if next.wanted() is Some {
                let rest = law_the_walk_gets_where_it_heads(process, next, limit);
                rest + 1
            } else {
                assert(driven(process, next, 0) == next);
                1
            }
        },
        None => 0,
    }
}

/// Driven by the answers of a process, the walk comes to a listing exactly if
/// that is the process's module list: it follows the main program's headers to
/// the rendez-vous, and the list from its head to its end.
pub proof fn law_the_walk_finds_the_module_list(
    process: StillProcess,
    setting: RendezvousSetting,
    listing: ListingView,
)
    ensures
        (exists|count: nat| #[trigger]
            driven(process, rendezvous_start(setting), count).phase == RendezvousPhaseView::Done(
                listing,
            )) <==> (exists|limit: nat| #[trigger]
            process_listing(process, setting, limit) == Some(listing)),
{
    let start = rendezvous_start(setting);
    if exists|count: nat| #[trigger]
        driven(process, start, count).phase == RendezvousPhaseView::Done(listing) {
        let count = choose|count: nat| #[trigger]
            driven(process, start, count).phase == RendezvousPhaseView::Done(listing);
        law_the_walk_ends_where_it_heads(process, start, count);
        assert(process_listing(process, setting, count) == Some(listing));
    }
    if exists|limit: nat| #[trigger] process_listing(process, setting, limit) == Some(listing) {
        let limit = choose|limit: nat| #[trigger]
            process_listing(process, setting, limit) == Some(listing);
        assert(rendezvous_ahead(process, start, limit) == Some(listing));
        let count = law_the_walk_gets_where_it_heads(process, start, limit);
        assert(driven(process, start, count).phase == RendezvousPhaseView::Done(listing));
    }
}

/// A rendez-vous that the linker is in the middle of updating is refused, and
/// none of its list is read: the walk that reads one is over.
pub proof fn law_an_inconsistent_rendezvous_is_not_walked(
    process: StillProcess,
    walk: RendezvousWalkView,
    elf_header_address: usize,
    address: usize,
    rendezvous: RDebug,
)
    requires
        walk.phase == (RendezvousPhaseView::Rendezvous { elf_header_address, address }),
        (process.debugger_rendezvous)(address) == Ok::<_, crate::error::CopyFromProcessError>(
            rendezvous,
        ),
        rendezvous.r_version == 1,
        rendezvous.r_state != RT_CONSISTENT || process.distrusted,
    ensures
        walk.wanted() == Some(Request::DebuggerRendezvous { address }),
        walk.stepped(process.answer(Request::DebuggerRendezvous { address })).phase
            == RendezvousPhaseView::Done(
            unreachable_listing(
                DebuggerRendezvousErrorView::DebuggerRendezvousNotConsistent(rendezvous.r_state),
            ),
        ),
{
}

} // verus!

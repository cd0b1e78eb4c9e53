//! What a walk of the dynamic linker's list comes to.

use vstd::prelude::*;

use crate::error::DebuggerRendezvousErrorView;
use crate::link_map::{c_string_outcome, link_outcome, LinkMap, LinkMaps};
use crate::link_walk::{
    link_place, link_result, walk_start, LinkPhaseView, LinkProgressView, LinkSetting,
    LinkWalkView, ListingView,
};
use crate::module::ModuleCandidateView;
use crate::module_read::{
    extent_ahead, extent_at, law_answers_lead_to_the_extent, module_reads_left,
};
use crate::process::StillProcess;

verus! {

/// What a process's link with the given name comes to.
pub open spec fn named_link_result(
    process: StillProcess,
    setting: LinkSetting,
    link: LinkMap,
    main_executable: bool,
    name: Option<Seq<u8>>,
) -> Result<ModuleCandidateView, DebuggerRendezvousErrorView> {
    let place = link_place(setting, link, main_executable);
    link_result(name, place.elf_header_address, extent_at(process, place))
}

/// What a process's link comes to: its module, or why it has none.
///
/// The main executable goes by what `/proc/<pid>/exe` links to if the list has
/// no name for it.
pub open spec fn process_link_result(
    process: StillProcess,
    setting: LinkSetting,
    link: LinkMap,
    main_executable: bool,
) -> Result<ModuleCandidateView, DebuggerRendezvousErrorView> {
    match c_string_outcome((process.module_name)(link.l_name)) {
        Ok(name) => named_link_result(
            process,
            setting,
            link,
            main_executable,
            if main_executable && name.len() == 0 {
                process.executable_name
            } else {
                Some(name)
            },
        ),
        Err(error) => Err(error),
    }
}

/// The listing of a process's links from `links` on, if there are no more than
/// `limit` of them.
pub open spec fn listing_from(
    process: StillProcess,
    setting: LinkSetting,
    links: LinkMaps,
    limit: nat,
) -> Option<ListingView>
    decreases limit,
{
    if links.address == 0 {
        Some(ListingView { result: Ok(Seq::empty()), soft_errors: Seq::empty() })
    } else if limit == 0 {
        None
    } else {
        match link_outcome((process.link_map)(links.address), links.first_node) {
            Ok(link) => {
                let next = LinkMaps { address: link.l_next, first_node: false };
                match listing_from(process, setting, next, (limit - 1) as nat) {
                    Some(rest) => Some(
                        rest.after(
                            process_link_result(process, setting, link, links.first_node),
                        ),
                    ),
                    None => None,
                }
            },
            Err(error) => Some(ListingView { result: Err(error), soft_errors: Seq::empty() }),
        }
    }
}

/// The listing of a walk that has one link's outcome to record, and no more than
/// `limit` links behind that.
pub open spec fn listing_behind(
    process: StillProcess,
    walk: LinkWalkView,
    here: Result<ModuleCandidateView, DebuggerRendezvousErrorView>,
    limit: nat,
) -> Option<ListingView> {
    match listing_from(process, walk.setting, walk.links, limit) {
        Some(rest) => Some(rest.after(here).behind(walk.modules, walk.soft_errors)),
        None => None,
    }
}

/// The listing that a walk is heading for, if no more than `limit` links are
/// left to be read.
pub open spec fn listing_ahead(process: StillProcess, walk: LinkWalkView, limit: nat) -> Option<
    ListingView,
> {
    let setting = walk.setting;
    let main_executable = walk.main_executable;
    match walk.phase {
        LinkPhaseView::Link => match listing_from(process, setting, walk.links, limit) {
            Some(rest) => Some(rest.behind(walk.modules, walk.soft_errors)),
            None => None,
        },
        LinkPhaseView::Name { link } => listing_behind(
            process,
            walk,
            process_link_result(process, setting, link, main_executable),
            limit,
        ),
        LinkPhaseView::ExecutableName { link } => listing_behind(
            process,
            walk,
            named_link_result(process, setting, link, main_executable, process.executable_name),
            limit,
        ),
        LinkPhaseView::Module { name, read } => listing_behind(
            process,
            walk,
            link_result(name, read.place.elf_header_address, extent_ahead(process, read)),
            limit,
        ),
    }
}

/// What a step of a walk is heading for.
pub open spec fn progress_ahead(
    process: StillProcess,
    progress: LinkProgressView,
    limit: nat,
) -> Option<ListingView> {
    match progress {
        LinkProgressView::Walking(walk) => listing_ahead(process, walk, limit),
        LinkProgressView::Done(listing) => Some(listing),
    }
}

/// How many replies a walk is away from its next link at most.
pub open spec fn link_reads_left(walk: LinkWalkView) -> nat {
    match walk.phase {
        LinkPhaseView::Link => 0,
        LinkPhaseView::Name { .. } => 5,
        LinkPhaseView::ExecutableName { .. } => 4,
        LinkPhaseView::Module { read, .. } => module_reads_left(read),
    }
}

/// A walk that is past a link and one that has recorded it head for the same
/// listing.
proof fn lemma_recording_keeps_the_listing(
    process: StillProcess,
    walk: LinkWalkView,
    here: Result<ModuleCandidateView, DebuggerRendezvousErrorView>,
    limit: nat,
)
    requires
        !walk.links.first_node,
    ensures
        progress_ahead(process, walk.recorded(here), limit) == listing_behind(
            process,
            walk,
            here,
            limit,
        ),
{
    if let Some(rest) = listing_from(process, walk.setting, walk.links, limit) {
        match here {
            Ok(module) => {
                let modules = walk.modules.push(module);
                assert(rest.behind(modules, walk.soft_errors) =~= rest.after(here).behind(
                    walk.modules,
                    walk.soft_errors,
                )) by {
                    if let Ok(others) = rest.result {
                        assert(modules + others =~= walk.modules + (seq![module] + others));
                    }
                    assert(walk.soft_errors + rest.soft_errors =~= walk.soft_errors + (Seq::<
                        DebuggerRendezvousErrorView,
                    >::empty() + rest.soft_errors));
                }
                if walk.links.address == 0 {
                    assert(rest.behind(modules, walk.soft_errors) =~= ListingView {
                        result: Ok(modules),
                        soft_errors: walk.soft_errors,
                    }) by {
                        assert(modules + Seq::empty() =~= modules);
                    }
                }
            },
            Err(error) => {
                let errors = walk.soft_errors.push(error);
                assert(rest.behind(walk.modules, errors) =~= rest.after(here).behind(
                    walk.modules,
                    walk.soft_errors,
                )) by {
                    if let Ok(others) = rest.result {
                        assert(walk.modules + others =~= walk.modules + (Seq::<
                            ModuleCandidateView,
                        >::empty() + others));
                    }
                    assert(errors + rest.soft_errors =~= walk.soft_errors + (seq![error]
                        + rest.soft_errors));
                }
                if walk.links.address == 0 {
                    assert(rest.behind(walk.modules, errors) =~= ListingView {
                        result: Ok(walk.modules),
                        soft_errors: errors,
                    }) by {
                        assert(walk.modules + Seq::empty() =~= walk.modules);
                    }
                }
            },
        }
    }
}

/// A walk that starts at the head of the list heads for the listing of the whole
/// list.
pub proof fn law_a_walk_starts_with_the_whole_list(
    process: StillProcess,
    setting: LinkSetting,
    link_map_address: usize,
    limit: nat,
)
    ensures
        progress_ahead(process, walk_start(setting, link_map_address), limit) == listing_from(
            process,
            setting,
            LinkMaps { address: link_map_address, first_node: true },
            limit,
        ),
{
    let links = LinkMaps { address: link_map_address, first_node: true };
    if let Some(listing) = listing_from(process, setting, links, limit) {
        assert(listing.behind(Seq::empty(), Seq::empty()) =~= listing) by {
            if let Ok(modules) = listing.result {
                assert(Seq::<ModuleCandidateView>::empty() + modules =~= modules);
            }
        }
    }
}

/// Each of a process's answers brings a walk closer to the next link, or past
/// one, and leaves it heading for the same listing.
pub proof fn law_answers_lead_along_the_list(
    process: StillProcess,
    walk: LinkWalkView,
    limit: nat,
)
    requires
        walk.placed(),
    ensures
        process.answer(walk.wanted()).answers(walk.wanted()),
        walk.stepped(
            process.answer(walk.wanted()),
        ) matches LinkProgressView::Walking(next) ==> next.placed(),
        walk.phase is Link && limit > 0 ==> progress_ahead(
            process,
            walk.stepped(process.answer(walk.wanted())),
            (limit - 1) as nat,
        ) == listing_ahead(process, walk, limit),
        !(walk.phase is Link) ==> progress_ahead(
            process,
            walk.stepped(process.answer(walk.wanted())),
            limit,
        ) == listing_ahead(process, walk, limit),
        !(walk.phase is Link) ==> (walk.stepped(
            process.answer(walk.wanted()),
        ) matches LinkProgressView::Walking(next) ==> link_reads_left(next) < link_reads_left(walk)),
{
    match walk.phase {
        LinkPhaseView::Link => {
            if limit > 0 {
                match link_outcome((process.link_map)(walk.links.address), walk.links.first_node) {
                    Ok(_) => {},
                    Err(error) => {
                        let stopped = ListingView {
                            result: Err(error),
                            soft_errors: Seq::empty(),
                        };
                        assert(stopped.behind(walk.modules, walk.soft_errors) =~= ListingView {
                            result: Err(error),
                            soft_errors: walk.soft_errors,
                        }) by {
                            assert(walk.soft_errors + Seq::empty() =~= walk.soft_errors);
                        }
                    },
                }
            }
        },
        LinkPhaseView::Name { link } => {
            if let Err(error) = c_string_outcome((process.module_name)(link.l_name)) {
                lemma_recording_keeps_the_listing(process, walk, Err(error), limit);
            }
        },
        LinkPhaseView::ExecutableName { .. } => {},
        LinkPhaseView::Module { name, read } => {
            law_answers_lead_to_the_extent(process, read);
            let outcome = extent_ahead(process, read);
            lemma_recording_keeps_the_listing(
                process,
                walk,
                link_result(name, read.place.elf_header_address, outcome),
                limit,
            );
        },
    }
}

/// A listing that is found within a limit is found within a higher one.
pub proof fn lemma_listing_is_stable(
    process: StillProcess,
    setting: LinkSetting,
    links: LinkMaps,
    limit: nat,
    higher: nat,
)
    requires
        limit <= higher,
        listing_from(process, setting, links, limit) is Some,
    ensures
        listing_from(process, setting, links, higher) == listing_from(
            process,
            setting,
            links,
            limit,
        ),
    decreases limit,
{
    if links.address != 0 {
        if let Ok(link) = link_outcome((process.link_map)(links.address), links.first_node) {
            lemma_listing_is_stable(
                process,
                setting,
                LinkMaps { address: link.l_next, first_node: false },
                (limit - 1) as nat,
                (higher - 1) as nat,
            );
        }
    }
}

/// How many links a process's list has from `links` on, if there are no more
/// than `limit` and the list can be walked.
pub open spec fn links_counted(process: StillProcess, links: LinkMaps, limit: nat) -> Option<nat>
    decreases limit,
{
    if links.address == 0 {
        Some(0)
    } else if limit == 0 {
        None
    } else {
        match link_outcome((process.link_map)(links.address), links.first_node) {
            Ok(link) => match links_counted(
                process,
                LinkMaps { address: link.l_next, first_node: false },
                (limit - 1) as nat,
            ) {
                Some(rest) => Some(rest + 1),
                None => None,
            },
            Err(_) => None,
        }
    }
}

/// Every link of a list that can be walked gives exactly one module or one soft
/// error.
pub proof fn law_one_outcome_for_each_link(
    process: StillProcess,
    setting: LinkSetting,
    links: LinkMaps,
    limit: nat,
)
    requires
        links_counted(process, links, limit) is Some,
    ensures
        listing_from(process, setting, links, limit) is Some,
        ({
            let listing = listing_from(process, setting, links, limit)->0;
            &&& listing.result is Ok
            &&& listing.result->Ok_0.len() + listing.soft_errors.len() == links_counted(
                process,
                links,
                limit,
            )->0
        }),
    decreases limit,
{
    if links.address != 0 {
        let link = link_outcome((process.link_map)(links.address), links.first_node)->Ok_0;
        law_one_outcome_for_each_link(
            process,
            setting,
            LinkMaps { address: link.l_next, first_node: false },
            (limit - 1) as nat,
        );
    }
}

/// The main executable, which is the head of the list, comes first, unless it
/// could not be read.
pub proof fn law_the_main_executable_comes_first(
    process: StillProcess,
    setting: LinkSetting,
    address: usize,
    limit: nat,
    link: LinkMap,
)
    requires
        address != 0,
        link_outcome((process.link_map)(address), true) == Ok::<_, DebuggerRendezvousErrorView>(
            link,
        ),
        process_link_result(process, setting, link, true) is Ok,
        ({
            let links = LinkMaps { address, first_node: true };
            listing_from(process, setting, links, limit) matches Some(listing)
                && listing.result is Ok
        }),
    ensures
        ({
            let links = LinkMaps { address, first_node: true };
            let modules = listing_from(process, setting, links, limit)->0.result->Ok_0;
            modules.len() > 0 && modules[0] == process_link_result(
                process,
                setting,
                link,
                true,
            )->Ok_0
        }),
{
}

} // verus!

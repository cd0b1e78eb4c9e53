//! The module list as the dynamic linker's debugger rendez-vous tells it.

use vstd::prelude::*;

use crate::elf::{
    debug_entry, dynamic_entries, dynamic_entry_count, dynamic_section_outcome,
    elf_header_outcome, find_segment, get_rendezvous_address, program_headers_outcome,
    read_dynamic_section, read_elf_header, read_program_headers, segment_of_type, PT_DYNAMIC,
    PT_PHDR,
};
use crate::error::{DebuggerRendezvousError, DebuggerRendezvousErrorView};
use crate::link_map::{read_debugger_rendezvous, rendezvous_outcome};
use crate::link_walk::{
    read_link_map, rendezvous_error_views, walk_start, LinkProgress, LinkProgressView,
    LinkSetting, LinkWalk, LinkWalkView, Listing, ListingView,
};
use crate::process::{Reply, ReplyView, Request};

verus! {

/// Where the kernel put the main program's headers, and what else a walk needs to
/// be told.
#[derive(Debug, Clone, Copy, PartialEq, Eq, Structural)]
pub struct RendezvousSetting {
    /// Address of the program header table.
    pub program_header_table_address: usize,
    /// How many program headers there are.
    pub program_header_count: usize,
    /// The size that segments are rounded out to.
    pub page_size: usize,
}

/// How far the way to the module list has been followed.
#[derive(Debug)]
pub enum RendezvousPhase {
    /// The main program's headers are to be read.
    ProgramHeaders,
    /// The main program's ELF header is to be read. The virtual address and size
    /// of its dynamic section are known, if it has one.
    ElfHeader { elf_header_address: usize, dynamic: Option<(usize, usize)> },
    /// The main program's dynamic section is to be read.
    DynamicSection { elf_header_address: usize, address: usize, count: usize },
    /// The rendez-vous is to be read.
    Rendezvous { elf_header_address: usize, address: usize },
    /// The linker's list is being walked.
    Links(LinkWalk),
    /// There is nothing left to read.
    Done(Listing),
}

/// What a [`RendezvousPhase`] stands for.
pub enum RendezvousPhaseView {
    ProgramHeaders,
    ElfHeader { elf_header_address: usize, dynamic: Option<(usize, usize)> },
    DynamicSection { elf_header_address: usize, address: usize, count: usize },
    Rendezvous { elf_header_address: usize, address: usize },
    Links(LinkWalkView),
    Done(ListingView),
}

impl View for RendezvousPhase {
    type V = RendezvousPhaseView;

    open spec fn view(&self) -> RendezvousPhaseView {
        match self {
            RendezvousPhase::ProgramHeaders => RendezvousPhaseView::ProgramHeaders,
            RendezvousPhase::ElfHeader {
                elf_header_address,
                dynamic,
            } => RendezvousPhaseView::ElfHeader {
                elf_header_address: *elf_header_address,
                dynamic: *dynamic,
            },
            RendezvousPhase::DynamicSection {
                elf_header_address,
                address,
                count,
            } => RendezvousPhaseView::DynamicSection {
                elf_header_address: *elf_header_address,
                address: *address,
                count: *count,
            },
            RendezvousPhase::Rendezvous {
                elf_header_address,
                address,
            } => RendezvousPhaseView::Rendezvous {
                elf_header_address: *elf_header_address,
                address: *address,
            },
            RendezvousPhase::Links(walk) => RendezvousPhaseView::Links(walk@),
            RendezvousPhase::Done(listing) => RendezvousPhaseView::Done(listing@),
        }
    }
}

/// The way to the module list, as far as it has been followed.
///
/// [`RendezvousWalk::request`] says what to read out of the process next, and
/// [`RendezvousWalk::step`] takes what was read.
#[derive(Debug)]
pub struct RendezvousWalk {
    pub setting: RendezvousSetting,
    pub phase: RendezvousPhase,
}

/// What a [`RendezvousWalk`] stands for.
pub struct RendezvousWalkView {
    pub setting: RendezvousSetting,
    pub phase: RendezvousPhaseView,
}

impl View for RendezvousWalk {
    type V = RendezvousWalkView;

    open spec fn view(&self) -> RendezvousWalkView {
        RendezvousWalkView { setting: self.setting, phase: self.phase@ }
    }
}

/// The listing of a list whose walk gave `listing`.
pub open spec fn iterated(listing: ListingView) -> ListingView {
    ListingView {
        result: match listing.result {
            Ok(modules) => Ok(modules),
            Err(error) => Err(DebuggerRendezvousErrorView::IterateLinkMapFailed(Box::new(error))),
        },
        ..listing
    }
}

/// The listing of a rendez-vous that could not be reached.
pub open spec fn unreachable_listing(error: DebuggerRendezvousErrorView) -> ListingView {
    ListingView { result: Err(error), soft_errors: Seq::empty() }
}

impl RendezvousWalkView {
    /// Pages are not empty, and neither the walk nor the listing holds a module
    /// that ends before it starts.
    pub open spec fn wf(self) -> bool {
        &&& self.setting.page_size > 0
        &&& match self.phase {
            RendezvousPhaseView::Links(walk) => walk.wf(),
            RendezvousPhaseView::Done(listing) => listing.wf(),
            _ => true,
        }
    }

    /// What to read next, if anything.
    pub open spec fn wanted(self) -> Option<Request> {
        match self.phase {
            RendezvousPhaseView::ProgramHeaders => Some(
                Request::ProgramHeaders {
                    address: self.setting.program_header_table_address,
                    count: self.setting.program_header_count,
                },
            ),
            RendezvousPhaseView::ElfHeader { elf_header_address, .. } => Some(
                Request::ElfHeader { address: elf_header_address },
            ),
            RendezvousPhaseView::DynamicSection { address, count, .. } => Some(
                Request::DynamicSection { address, count },
            ),
            RendezvousPhaseView::Rendezvous { address, .. } => Some(
                Request::DebuggerRendezvous { address },
            ),
            RendezvousPhaseView::Links(walk) => Some(walk.wanted()),
            RendezvousPhaseView::Done(_) => None,
        }
    }

    /// Whether all addresses that follow from a reply lie within the address
    /// space.
    pub open spec fn accepts(self, reply: ReplyView) -> bool {
        match (self.phase, reply) {
            (
                RendezvousPhaseView::ProgramHeaders,
                ReplyView::ProgramHeaders(Ok(headers)),
            ) => segment_of_type(headers, PT_PHDR) matches Some((vaddr, _)) ==> vaddr
                <= self.setting.program_header_table_address,
            (
                RendezvousPhaseView::ElfHeader { elf_header_address, dynamic },
                ReplyView::ElfHeader(read),
            ) => elf_header_outcome(read) is Ok ==> (dynamic matches Some((vaddr, _))
                ==> elf_header_address + vaddr <= usize::MAX),
            (RendezvousPhaseView::Links(walk), reply) => walk.accepts(reply),
            _ => true,
        }
    }

    /// The walk in another phase.
    pub open spec fn in_phase(self, phase: RendezvousPhaseView) -> RendezvousWalkView {
        RendezvousWalkView { phase, ..self }
    }

    /// The walk, over because of an error.
    pub open spec fn failed(self, error: DebuggerRendezvousErrorView) -> RendezvousWalkView {
        self.in_phase(RendezvousPhaseView::Done(unreachable_listing(error)))
    }

    /// The walk once the linker's list is reached.
    pub open spec fn along_links(self, progress: LinkProgressView) -> RendezvousWalkView {
        match progress {
            LinkProgressView::Walking(walk) => self.in_phase(RendezvousPhaseView::Links(walk)),
            LinkProgressView::Done(listing) => self.in_phase(
                RendezvousPhaseView::Done(iterated(listing)),
            ),
        }
    }

    /// What a reply makes of the walk.
    pub open spec fn stepped(self, reply: ReplyView) -> RendezvousWalkView {
        match (self.phase, reply) {
            (
                RendezvousPhaseView::ProgramHeaders,
                ReplyView::ProgramHeaders(read),
            ) => match program_headers_outcome(read) {
                Ok(headers) => match segment_of_type(headers, PT_PHDR) {
                    Some((vaddr, _)) => self.in_phase(
                        RendezvousPhaseView::ElfHeader {
                            elf_header_address: (self.setting.program_header_table_address
                                - vaddr) as usize,
                            dynamic: segment_of_type(headers, PT_DYNAMIC),
                        },
                    ),
                    None => self.failed(DebuggerRendezvousErrorView::ProgramHeaderTableNoSelf),
                },
                Err(error) => self.failed(error),
            },
            (
                RendezvousPhaseView::ElfHeader { elf_header_address, dynamic },
                ReplyView::ElfHeader(read),
            ) => match elf_header_outcome(read) {
                Ok(_) => match dynamic {
                    Some((vaddr, size)) => match dynamic_entries(size) {
                        Ok(count) => self.in_phase(
                            RendezvousPhaseView::DynamicSection {
                                elf_header_address,
                                address: (elf_header_address + vaddr) as usize,
                                count,
                            },
                        ),
                        Err(error) => self.failed(error),
                    },
                    None => self.failed(DebuggerRendezvousErrorView::ProgramHeaderTableNoDynamic),
                },
                Err(error) => self.failed(error),
            },
            (
                RendezvousPhaseView::DynamicSection { elf_header_address, .. },
                ReplyView::DynamicSection(read),
            ) => match dynamic_section_outcome(read) {
                Ok(section) => match debug_entry(section) {
                    Ok(address) => self.in_phase(
                        RendezvousPhaseView::Rendezvous { elf_header_address, address },
                    ),
                    Err(error) => self.failed(error),
                },
                Err(error) => self.failed(error),
            },
            (
                RendezvousPhaseView::Rendezvous { elf_header_address, .. },
                ReplyView::DebuggerRendezvous(read, distrusted),
            ) => match rendezvous_outcome(read, distrusted) {
                Ok(rendezvous) => self.along_links(
                    walk_start(
                        LinkSetting {
                            main_elf_header_address: elf_header_address,
                            page_size: self.setting.page_size,
                        },
                        rendezvous.r_map,
                    ),
                ),
                Err(error) => self.failed(error),
            },
            (RendezvousPhaseView::Links(walk), reply) => self.along_links(walk.stepped(reply)),
            _ => self,
        }
    }
}

impl RendezvousWalk {
    /// What to read next, or nothing once the walk is over.
    pub fn request(&self) -> (request: Option<Request>)
        ensures
            request == self@.wanted(),
    {
        match &self.phase {
            RendezvousPhase::ProgramHeaders => Some(
                Request::ProgramHeaders {
                    address: self.setting.program_header_table_address,
                    count: self.setting.program_header_count,
                },
            ),
            RendezvousPhase::ElfHeader { elf_header_address, .. } => Some(
                Request::ElfHeader { address: *elf_header_address },
            ),
            RendezvousPhase::DynamicSection { address, count, .. } => Some(
                Request::DynamicSection { address: *address, count: *count },
            ),
            RendezvousPhase::Rendezvous { address, .. } => Some(
                Request::DebuggerRendezvous { address: *address },
            ),
            RendezvousPhase::Links(walk) => Some(walk.request()),
            RendezvousPhase::Done(_) => None,
        }
    }

    /// Whether all addresses that follow from a reply lie within the address
    /// space, without which [`RendezvousWalk::step`] cannot take it.
    pub fn fits(&self, reply: &Reply) -> (fits: bool)
        requires
            self@.wf(),
        ensures
            fits == self@.accepts(reply@),
    {
        match (&self.phase, reply) {
            (RendezvousPhase::ProgramHeaders, Reply::ProgramHeaders(Ok(headers))) => {
                match find_segment(headers.as_slice(), PT_PHDR) {
                    Some((vaddr, _)) => vaddr <= self.setting.program_header_table_address,
                    None => true,
                }
            },
            (
                RendezvousPhase::ElfHeader { elf_header_address, dynamic },
                Reply::ElfHeader(read),
            ) => {
                match (read_elf_header(*read), dynamic) {
                    (Ok(_), Some((vaddr, _))) => *vaddr <= usize::MAX - *elf_header_address,
                    _ => true,
                }
            },
            (RendezvousPhase::Links(walk), reply) => walk.fits(reply),
            _ => true,
        }
    }

    /// Takes what was read for the present request.
    pub fn step(self, reply: Reply) -> (next: RendezvousWalk)
        requires
            self@.wf(),
            self@.wanted() matches Some(request) ==> reply@.answers(request),
            self@.accepts(reply@),
        ensures
            next@ == self@.stepped(reply@),
            next@.wf(),
    {
        let RendezvousWalk { setting, phase } = self;
        let phase: RendezvousPhase = match (phase, reply) {
            (RendezvousPhase::ProgramHeaders, Reply::ProgramHeaders(read)) => {
                match read_program_headers(read) {
                    Ok(headers) => {
                        // PT_PHDR gives the program header table's own virtual address, so the
                        // difference between it and the address the kernel actually put the table at
                        // is where the main executable's ELF header lives.
                        match find_segment(headers.as_slice(), PT_PHDR) {
                            Some((vaddr, _)) => RendezvousPhase::ElfHeader {
                                elf_header_address: setting.program_header_table_address - vaddr,
                                dynamic: find_segment(headers.as_slice(), PT_DYNAMIC),
                            },
                            None => failure(DebuggerRendezvousError::ProgramHeaderTableNoSelf),
                        }
                    },
                    Err(error) => failure(error),
                }
            },
            (
                RendezvousPhase::ElfHeader { elf_header_address, dynamic },
                Reply::ElfHeader(read),
            ) => {
                // Let's make sure we can locate and parse the ELF header to ensure we didn't
                // somehow read garbage.
                match read_elf_header(read) {
                    Ok(_) => match dynamic {
                        Some((vaddr, size)) => {
                            let address: usize = elf_header_address + vaddr;
                            match dynamic_entry_count(size) {
                                Ok(count) => RendezvousPhase::DynamicSection {
                                    elf_header_address,
                                    address,
                                    count,
                                },
                                Err(error) => failure(error),
                            }
                        },
                        None => failure(DebuggerRendezvousError::ProgramHeaderTableNoDynamic),
                    },
                    Err(error) => failure(error),
                }
            },
            (
                RendezvousPhase::DynamicSection { elf_header_address, .. },
                Reply::DynamicSection(read),
            ) => {
                match read_dynamic_section(read) {
                    Ok(section) => match get_rendezvous_address(section.as_slice()) {
                        Ok(address) => RendezvousPhase::Rendezvous { elf_header_address, address },
                        Err(error) => failure(error),
                    },
                    Err(error) => failure(error),
                }
            },
            (
                RendezvousPhase::Rendezvous { elf_header_address, .. },
                Reply::DebuggerRendezvous(read, distrusted),
            ) => {
                match read_debugger_rendezvous(read, distrusted) {
                    Ok(rendezvous) => link_phase(
                        read_link_map(rendezvous.r_map, elf_header_address, setting.page_size),
                    ),
                    Err(error) => failure(error),
                }
            },
            (RendezvousPhase::Links(walk), reply) => link_phase(walk.step(reply)),
            (phase, _) => phase,
        };
        RendezvousWalk { setting, phase }
    }

    /// What the walk came to.
    pub fn finish(self) -> (listing: Listing)
        requires
            self@.wf(),
            self@.phase is Done,
        ensures
            self@.phase == RendezvousPhaseView::Done(listing@),
            listing@.wf(),
    {
        match self.phase {
            RendezvousPhase::Done(listing) => listing,
            _ => Listing { result: Ok(Vec::new()), soft_errors: Vec::new() },
        }
    }
}

/// The phase of a walk that is over because of an error.
fn failure(error: DebuggerRendezvousError) -> (phase: RendezvousPhase)
    ensures
        phase@ == RendezvousPhaseView::Done(unreachable_listing(error.view())),
{
    let soft_errors: Vec<DebuggerRendezvousError> = Vec::new();
    assert(rendezvous_error_views(soft_errors@) =~= Seq::empty());
    RendezvousPhase::Done(Listing { result: Err(error), soft_errors })
}

/// The phase of a walk that has reached the linker's list.
fn link_phase(progress: LinkProgress) -> (phase: RendezvousPhase)
    ensures
        phase@ == match progress@ {
            LinkProgressView::Walking(walk) => RendezvousPhaseView::Links(walk),
            LinkProgressView::Done(listing) => RendezvousPhaseView::Done(iterated(listing)),
        },
{
    match progress {
        LinkProgress::Walking(walk) => RendezvousPhase::Links(walk),
        LinkProgress::Done(listing) => {
            let Listing { result, soft_errors } = listing;
            RendezvousPhase::Done(
                Listing {
                    result: match result {
                        Ok(modules) => Ok(modules),
                        Err(error) => Err(
                            DebuggerRendezvousError::IterateLinkMapFailed(Box::new(error)),
                        ),
                    },
                    soft_errors,
                },
            )
        },
    }
}

/// Derives the module list by walking the dynamic linker's debugger rendez-vous.
///
/// The debugger rendez-vous is reachable through a field in the main program's
/// headers, hence the need for `program_header_table_address` and
/// `program_header_count`. The walk that starts here says what it needs to know
/// of the process as it goes.
pub fn from_debugger_rendezvous(
    program_header_table_address: usize,
    program_header_count: usize,
    page_size: usize,
) -> (walk: RendezvousWalk)
    requires
        page_size > 0,
    ensures
        walk@ == rendezvous_start(
            RendezvousSetting { program_header_table_address, program_header_count, page_size },
        ),
        walk@.wf(),
{
    RendezvousWalk {
        setting: RendezvousSetting {
            program_header_table_address,
            program_header_count,
            page_size,
        },
        phase: RendezvousPhase::ProgramHeaders,
    }
}

/// A walk of which nothing has been read.
pub open spec fn rendezvous_start(setting: RendezvousSetting) -> RendezvousWalkView {
    RendezvousWalkView { setting, phase: RendezvousPhaseView::ProgramHeaders }
}

} // verus!

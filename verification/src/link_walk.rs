//! Walking the dynamic linker's list of loaded objects.

use vstd::prelude::*;

use crate::bytes::{name_bytes, name_or_empty};
use crate::error::{DebuggerRendezvousError, DebuggerRendezvousErrorView};
use crate::link_map::{
    c_string_outcome, link_outcome, read_c_string, LinkMap, LinkMaps,
};
use crate::module::{
    candidate_views, modules_wf, ModuleCandidate, ModuleCandidateView, ModuleSource,
    ModuleSourceView,
};
use crate::module_read::{
    read_module, ModuleExtent, ModulePhase, ModulePlace, ModuleProgress, ModuleProgressView,
    ModuleRead,
};
use crate::process::{Reply, ReplyView, Request};

verus! {

/// What stays the same while the list is walked.
#[derive(Debug, Clone, Copy, PartialEq, Eq, Structural)]
pub struct LinkSetting {
    /// Address of the main executable's ELF header.
    pub main_elf_header_address: usize,
    /// The size that segments are rounded out to.
    pub page_size: usize,
}

/// What of the present link has been read so far.
#[derive(Debug)]
pub enum LinkPhase {
    /// Nothing, not even the link itself.
    Link,
    /// The link, but not its name.
    Name { link: LinkMap },
    /// The link, but its name turned out to be empty, as glibc leaves the main
    /// executable's.
    ExecutableName { link: LinkMap },
    /// The link and its name, but not all of its module.
    Module { name: Option<Vec<u8>>, read: ModuleRead },
}

/// What a [`LinkPhase`] stands for.
pub enum LinkPhaseView {
    Link,
    Name { link: LinkMap },
    ExecutableName { link: LinkMap },
    Module { name: Option<Seq<u8>>, read: ModuleRead },
}

impl View for LinkPhase {
    type V = LinkPhaseView;

    open spec fn view(&self) -> LinkPhaseView {
        match self {
            LinkPhase::Link => LinkPhaseView::Link,
            LinkPhase::Name { link } => LinkPhaseView::Name { link: *link },
            LinkPhase::ExecutableName { link } => LinkPhaseView::ExecutableName { link: *link },
            LinkPhase::Module { name, read } => LinkPhaseView::Module {
                name: name_bytes(*name),
                read: *read,
            },
        }
    }
}

/// The list, while it is being walked.
#[derive(Debug)]
pub struct LinkWalk {
    pub setting: LinkSetting,
    /// Where in the list the walk stands. While a link's module is being read,
    /// this is the link after it.
    pub links: LinkMaps,
    /// Whether the present link is the head of the list.
    pub main_executable: bool,
    pub phase: LinkPhase,
    /// The modules that were read.
    pub modules: Vec<ModuleCandidate>,
    /// Why others were not.
    pub soft_errors: Vec<DebuggerRendezvousError>,
}

/// The errors of a list.
pub open spec fn rendezvous_error_views(errors: Seq<DebuggerRendezvousError>) -> Seq<
    DebuggerRendezvousErrorView,
> {
    errors.map_values(|error: DebuggerRendezvousError| error.view())
}

/// What a [`LinkWalk`] stands for.
pub struct LinkWalkView {
    pub setting: LinkSetting,
    pub links: LinkMaps,
    pub main_executable: bool,
    pub phase: LinkPhaseView,
    pub modules: Seq<ModuleCandidateView>,
    pub soft_errors: Seq<DebuggerRendezvousErrorView>,
}

impl View for LinkWalk {
    type V = LinkWalkView;

    open spec fn view(&self) -> LinkWalkView {
        LinkWalkView {
            setting: self.setting,
            links: self.links,
            main_executable: self.main_executable,
            phase: self.phase@,
            modules: candidate_views(self.modules@),
            soft_errors: rendezvous_error_views(self.soft_errors@),
        }
    }
}

/// What a walk came to.
#[derive(Debug)]
pub struct Listing {
    /// The modules of the list, or why it could not be walked.
    pub result: Result<Vec<ModuleCandidate>, DebuggerRendezvousError>,
    /// What only cost us single modules.
    pub soft_errors: Vec<DebuggerRendezvousError>,
}

/// What a [`Listing`] stands for.
#[verifier::ext_equal]
pub struct ListingView {
    pub result: Result<Seq<ModuleCandidateView>, DebuggerRendezvousErrorView>,
    pub soft_errors: Seq<DebuggerRendezvousErrorView>,
}

impl View for Listing {
    type V = ListingView;

    open spec fn view(&self) -> ListingView {
        ListingView {
            result: match self.result {
                Ok(modules) => Ok(candidate_views(modules@)),
                Err(error) => Err(error.view()),
            },
            soft_errors: rendezvous_error_views(self.soft_errors@),
        }
    }
}

impl ListingView {
    /// No module ends before it starts.
    pub open spec fn wf(self) -> bool {
        self.result matches Ok(modules) ==> modules_wf(modules)
    }

    /// The listing of a list that has one more link in front.
    pub open spec fn after(
        self,
        here: Result<ModuleCandidateView, DebuggerRendezvousErrorView>,
    ) -> ListingView {
        match here {
            Ok(module) => self.behind(seq![module], Seq::empty()),
            Err(error) => self.behind(Seq::empty(), seq![error]),
        }
    }

    /// The listing of a list with more modules and errors in front.
    pub open spec fn behind(
        self,
        modules: Seq<ModuleCandidateView>,
        soft_errors: Seq<DebuggerRendezvousErrorView>,
    ) -> ListingView {
        ListingView {
            result: match self.result {
                Ok(rest) => Ok(modules + rest),
                Err(error) => Err(error),
            },
            soft_errors: soft_errors + self.soft_errors,
        }
    }
}

/// What a step of the walk leads to.
#[derive(Debug)]
pub enum LinkProgress {
    /// There is more to read.
    Walking(LinkWalk),
    /// The walk is over.
    Done(Listing),
}

/// What a [`LinkProgress`] stands for.
pub enum LinkProgressView {
    Walking(LinkWalkView),
    Done(ListingView),
}

impl View for LinkProgress {
    type V = LinkProgressView;

    open spec fn view(&self) -> LinkProgressView {
        match self {
            LinkProgress::Walking(walk) => LinkProgressView::Walking(walk@),
            LinkProgress::Done(listing) => LinkProgressView::Done(listing@),
        }
    }
}

impl LinkProgressView {
    /// The walk keeps its invariant, and so does what it comes to.
    pub open spec fn wf(self) -> bool {
        match self {
            LinkProgressView::Walking(walk) => walk.wf(),
            LinkProgressView::Done(listing) => listing.wf(),
        }
    }
}

/// The module that a name and an extent make.
pub open spec fn candidate_of(name: Option<Seq<u8>>, extent: ModuleExtent) -> ModuleCandidateView {
    ModuleCandidateView {
        base_address: extent.base_address,
        end_address: extent.end_address,
        code_end: extent.code_end,
        name,
        file_offset: extent.file_offset,
        source: ModuleSourceView::Process,
    }
}

/// What a link comes to once its module is read or turns out to be unreadable.
pub open spec fn link_result(
    name: Option<Seq<u8>>,
    address: usize,
    outcome: Result<ModuleExtent, DebuggerRendezvousErrorView>,
) -> Result<ModuleCandidateView, DebuggerRendezvousErrorView> {
    match outcome {
        Ok(extent) => Ok(candidate_of(name, extent)),
        Err(error) => Err(
            DebuggerRendezvousErrorView::SkippedModule {
                name: name_or_empty(name),
                address,
                source: Box::new(error),
            },
        ),
    }
}

/// Where a link's module is read from.
///
/// Where the main executable's ELF header is, is known beforehand. That matters
/// under glibc, where `l_addr` is a load *bias* and so is zero for a non-PIE
/// executable rather than the header's address.
pub open spec fn link_place(setting: LinkSetting, link: LinkMap, main_executable: bool) -> ModulePlace {
    ModulePlace {
        elf_header_address: if main_executable {
            setting.main_elf_header_address
        } else {
            link.l_addr
        },
        load_bias: link.l_addr,
        page_size: setting.page_size,
    }
}

impl LinkWalkView {
    /// The walk stands at a link, and knows whether that is the head of the list.
    pub open spec fn placed(self) -> bool {
        match self.phase {
            LinkPhaseView::Link => self.links.address != 0 && self.main_executable
                == self.links.first_node,
            _ => !self.links.first_node,
        }
    }

    /// Pages are not empty, and no module ends before it starts.
    pub open spec fn wf(self) -> bool {
        &&& self.setting.page_size > 0
        &&& modules_wf(self.modules)
        &&& self.placed()
        &&& self.phase matches LinkPhaseView::Module { read, .. } ==> read.wf()
    }

    /// What to read next.
    pub open spec fn wanted(self) -> Request {
        match self.phase {
            LinkPhaseView::Link => Request::LinkMap { address: self.links.address },
            LinkPhaseView::Name { link } => Request::ModuleName { address: link.l_name },
            LinkPhaseView::ExecutableName { .. } => Request::ExecutableName,
            LinkPhaseView::Module { read, .. } => read.wanted(),
        }
    }

    /// Whether all addresses that follow from a reply lie within the address
    /// space.
    pub open spec fn accepts(self, reply: ReplyView) -> bool {
        match self.phase {
            LinkPhaseView::Module { read, .. } => read.accepts(reply),
            _ => true,
        }
    }

    /// The walk at the next link, or over if there is none.
    pub open spec fn at_next_link(self) -> LinkProgressView {
        if self.links.address == 0 {
            LinkProgressView::Done(
                ListingView { result: Ok(self.modules), soft_errors: self.soft_errors },
            )
        } else {
            LinkProgressView::Walking(LinkWalkView { phase: LinkPhaseView::Link, ..self })
        }
    }

    /// The walk once it is known what the present link comes to.
    pub open spec fn recorded(
        self,
        here: Result<ModuleCandidateView, DebuggerRendezvousErrorView>,
    ) -> LinkProgressView {
        let walk = LinkWalkView { main_executable: false, ..self };
        match here {
            Ok(module) => LinkWalkView {
                modules: self.modules.push(module),
                ..walk
            }.at_next_link(),
            // One unreadable object shouldn't cost us the rest of the list.
            Err(error) => LinkWalkView {
                soft_errors: self.soft_errors.push(error),
                ..walk
            }.at_next_link(),
        }
    }

    /// The walk once the name of the present link is known.
    pub open spec fn named(self, link: LinkMap, name: Option<Seq<u8>>) -> LinkProgressView {
        LinkProgressView::Walking(
            LinkWalkView {
                phase: LinkPhaseView::Module {
                    name,
                    read: ModuleRead {
                        place: link_place(self.setting, link, self.main_executable),
                        phase: ModulePhase::ElfHeader,
                    },
                },
                ..self
            },
        )
    }

    /// What a reply makes of the walk.
    pub open spec fn stepped(self, reply: ReplyView) -> LinkProgressView {
        match (self.phase, reply) {
            (LinkPhaseView::Link, ReplyView::LinkMap(read)) => match link_outcome(
                read,
                self.links.first_node,
            ) {
                Ok(link) => LinkProgressView::Walking(
                    LinkWalkView {
                        links: LinkMaps { address: link.l_next, first_node: false },
                        phase: LinkPhaseView::Name { link },
                        ..self
                    },
                ),
                Err(error) => LinkProgressView::Done(
                    ListingView { result: Err(error), soft_errors: self.soft_errors },
                ),
            },
            (LinkPhaseView::Name { link }, ReplyView::ModuleName(read)) => match c_string_outcome(
                read,
            ) {
                Ok(name) => if self.main_executable && name.len() == 0 {
                    LinkProgressView::Walking(
                        LinkWalkView { phase: LinkPhaseView::ExecutableName { link }, ..self },
                    )
                } else {
                    self.named(link, Some(name))
                },
                Err(error) => self.recorded(Err(error)),
            },
            (
                LinkPhaseView::ExecutableName { link },
                ReplyView::ExecutableName(name),
            ) => self.named(link, name),
            (LinkPhaseView::Module { name, read }, reply) => match read.stepped(reply) {
                ModuleProgressView::Reading(next) => LinkProgressView::Walking(
                    LinkWalkView { phase: LinkPhaseView::Module { name, read: next }, ..self },
                ),
                ModuleProgressView::Done(outcome) => self.recorded(
                    link_result(name, read.place.elf_header_address, outcome),
                ),
            },
            _ => LinkProgressView::Walking(self),
        }
    }
}

impl LinkWalk {
    /// What to read next.
    pub fn request(&self) -> (request: Request)
        ensures
            request == self@.wanted(),
    {
        match &self.phase {
            LinkPhase::Link => Request::LinkMap { address: self.links.address },
            LinkPhase::Name { link } => Request::ModuleName { address: link.l_name },
            LinkPhase::ExecutableName { .. } => Request::ExecutableName,
            LinkPhase::Module { read, .. } => read.request(),
        }
    }

    /// Whether all addresses that follow from a reply lie within the address
    /// space.
    pub fn fits(&self, reply: &Reply) -> (fits: bool)
        requires
            self@.wf(),
        ensures
            fits == self@.accepts(reply@),
    {
        match &self.phase {
            LinkPhase::Module { read, .. } => read.fits(reply),
            _ => true,
        }
    }

    /// Moves on to the next link.
    fn next_link(self) -> (progress: LinkProgress)
        requires
            self@.setting.page_size > 0,
            modules_wf(self@.modules),
            self.main_executable == self.links.first_node,
        ensures
            progress@ == self@.at_next_link(),
            progress@.wf(),
    {
        let LinkWalk { setting, links, main_executable, modules, soft_errors, .. } = self;
        if links.address == 0 {
            LinkProgress::Done(Listing { result: Ok(modules), soft_errors })
        } else {
            LinkProgress::Walking(
                LinkWalk {
                    setting,
                    links,
                    main_executable,
                    phase: LinkPhase::Link,
                    modules,
                    soft_errors,
                },
            )
        }
    }

    /// Records the present link's module.
    fn record_module(self, module: ModuleCandidate) -> (progress: LinkProgress)
        requires
            self@.setting.page_size > 0,
            modules_wf(self@.modules),
            !self.links.first_node,
            module@.wf(),
        ensures
            progress@ == self@.recorded(Ok(module@)),
            progress@.wf(),
    {
        let mut walk: LinkWalk = self;
        walk.modules.push(module);
        walk.main_executable = false;
        assert(candidate_views(walk.modules@) =~= candidate_views(self.modules@).push(module@));
        walk.next_link()
    }

    /// Records why the present link has no module.
    fn record_error(self, error: DebuggerRendezvousError) -> (progress: LinkProgress)
        requires
            self@.setting.page_size > 0,
            modules_wf(self@.modules),
            !self.links.first_node,
        ensures
            progress@ == self@.recorded(Err(error.view())),
            progress@.wf(),
    {
        let mut walk: LinkWalk = self;
        walk.soft_errors.push(error);
        walk.main_executable = false;
        assert(rendezvous_error_views(walk.soft_errors@) =~= rendezvous_error_views(
            self.soft_errors@,
        ).push(error.view()));
        walk.next_link()
    }

    /// Starts reading the present link's module.
    fn start_module(self, link: LinkMap, name: Option<Vec<u8>>) -> (progress: LinkProgress)
        requires
            self@.setting.page_size > 0,
            modules_wf(self@.modules),
            !self.links.first_node,
        ensures
            progress@ == self@.named(link, name_bytes(name)),
            progress@.wf(),
    {
        let elf_header_address: usize = if self.main_executable {
            self.setting.main_elf_header_address
        } else {
            link.l_addr
        };
        let mut walk: LinkWalk = self;
        walk.phase =
        LinkPhase::Module {
            name,
            read: read_module(elf_header_address, link.l_addr, walk.setting.page_size),
        };
        LinkProgress::Walking(walk)
    }

    /// Takes what was read for the present request.
    pub fn step(self, reply: Reply) -> (progress: LinkProgress)
        requires
            self@.wf(),
            reply@.answers(self@.wanted()),
            self@.accepts(reply@),
        ensures
            progress@ == self@.stepped(reply@),
            progress@.wf(),
    {
        let LinkWalk { setting, links, main_executable, phase, modules, soft_errors } = self;
        match phase {
            LinkPhase::Link => {
                let mut walk: LinkWalk = LinkWalk {
                    setting,
                    links,
                    main_executable,
                    phase: LinkPhase::Link,
                    modules,
                    soft_errors,
                };
                if let Reply::LinkMap(read) = reply {
                    match walk.links.next(Some(read)) {
                        Ok(Some(link)) => {
                            walk.phase = LinkPhase::Name { link };
                            return LinkProgress::Walking(walk);
                        },
                        Ok(None) => {},
                        Err(error) => {
                            return LinkProgress::Done(
                                Listing { result: Err(error), soft_errors: walk.soft_errors },
                            );
                        },
                    }
                }
                LinkProgress::Walking(walk)
            },
            LinkPhase::Name { link } => {
                let walk: LinkWalk = LinkWalk {
                    setting,
                    links,
                    main_executable,
                    phase: LinkPhase::Name { link },
                    modules,
                    soft_errors,
                };
                if let Reply::ModuleName(read) = reply {
                    match read_c_string(read) {
                        Ok(name) => {
                            if main_executable && name.len() == 0 {
                                // Let's try asking /proc/pid/exe
                                let mut unnamed: LinkWalk = walk;
                                unnamed.phase = LinkPhase::ExecutableName { link };
                                return LinkProgress::Walking(unnamed);
                            }
                            return walk.start_module(link, Some(name));
                        },
                        Err(error) => {
                            return walk.record_error(error);
                        },
                    }
                }
                LinkProgress::Walking(walk)
            },
            LinkPhase::ExecutableName { link } => {
                let walk: LinkWalk = LinkWalk {
                    setting,
                    links,
                    main_executable,
                    phase: LinkPhase::ExecutableName { link },
                    modules,
                    soft_errors,
                };
                if let Reply::ExecutableName(name) = reply {
                    return walk.start_module(link, name);
                }
                LinkProgress::Walking(walk)
            },
            LinkPhase::Module { name, read } => {
                let address: usize = read.place.elf_header_address;
                let mut walk: LinkWalk = LinkWalk {
                    setting,
                    links,
                    main_executable,
                    phase: LinkPhase::Link,
                    modules,
                    soft_errors,
                };
                match read.step(reply) {
                    ModuleProgress::Reading(next) => {
                        walk.phase = LinkPhase::Module { name, read: next };
                        LinkProgress::Walking(walk)
                    },
                    ModuleProgress::Done(Ok(extent)) => {
                        let module: ModuleCandidate = ModuleCandidate {
                            base_address: extent.base_address,
                            end_address: extent.end_address,
                            code_end: extent.code_end,
                            name,
                            file_offset: extent.file_offset,
                            source: ModuleSource::Process,
                        };
                        walk.record_module(module)
                    },
                    ModuleProgress::Done(Err(error)) => {
                        let name: Vec<u8> = match name {
                            Some(name) => name,
                            None => Vec::new(),
                        };
                        walk.record_error(
                            DebuggerRendezvousError::SkippedModule {
                                name,
                                address,
                                source: Box::new(error),
                            },
                        )
                    },
                }
            },
        }
    }
}

/// Starts walking the list whose head is at `link_map_address`.
///
/// The head of the list is the main executable, which gets special treatment
/// twice over: we already know where its ELF header is from `AT_PHDR`, and glibc
/// leaves its `l_name` empty. Both fixups are no-ops under bionic, which fills in
/// the full path and has rejected non-PIE executables since API 21.
pub fn read_link_map(
    link_map_address: usize,
    main_executable_elf_header_address: usize,
    page_size: usize,
) -> (progress: LinkProgress)
    requires
        page_size > 0,
    ensures
        progress@ == walk_start(
            LinkSetting { main_elf_header_address: main_executable_elf_header_address, page_size },
            link_map_address,
        ),
        progress@.wf(),
{
    let walk: LinkWalk = LinkWalk {
        setting: LinkSetting {
            main_elf_header_address: main_executable_elf_header_address,
            page_size,
        },
        links: LinkMaps::new(link_map_address),
        main_executable: true,
        phase: LinkPhase::Link,
        modules: Vec::new(),
        soft_errors: Vec::new(),
    };
    assert(candidate_views(walk.modules@) =~= Seq::empty());
    assert(rendezvous_error_views(walk.soft_errors@) =~= Seq::empty());
    walk.next_link()
}

/// A walk that starts at the head of the list.
pub open spec fn walk_start(setting: LinkSetting, link_map_address: usize) -> LinkProgressView {
    LinkWalkView {
        setting,
        links: LinkMaps { address: link_map_address, first_node: true },
        main_executable: true,
        phase: LinkPhaseView::Link,
        modules: Seq::empty(),
        soft_errors: Seq::empty(),
    }.at_next_link()
}

} // verus!

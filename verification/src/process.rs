//! What is asked of the target process, and what it answers.

use vstd::prelude::*;

use crate::elf::{list_read, Dyn, ElfHeader, ProgramHeader};
use crate::error::CopyFromProcessError;
use crate::link_map::{LinkMap, RDebug};

verus! {

/// Something to read out of the target process.
#[derive(Debug, Clone, Copy, PartialEq, Eq, Structural)]
pub enum Request {
    /// `count` program headers.
    ProgramHeaders { address: usize, count: usize },
    /// An ELF header.
    ElfHeader { address: usize },
    /// `count` entries of a dynamic section.
    DynamicSection { address: usize, count: usize },
    /// The dynamic linker's `r_debug` structure.
    DebuggerRendezvous { address: usize },
    /// A `link_map` node.
    LinkMap { address: usize },
    /// The bytes of a module's name, up to and with the first null byte.
    ModuleName { address: usize },
    /// What `/proc/<pid>/exe` links to.
    ExecutableName,
}

/// What was read for a [`Request`].
#[derive(Debug)]
pub enum Reply {
    ProgramHeaders(Result<Vec<ProgramHeader>, CopyFromProcessError>),
    ElfHeader(Result<ElfHeader, CopyFromProcessError>),
    DynamicSection(Result<Vec<Dyn>, CopyFromProcessError>),
    /// The structure, and whether to distrust it whatever it says, so that tests
    /// can exercise that case.
    DebuggerRendezvous(Result<RDebug, CopyFromProcessError>, bool),
    LinkMap(Result<LinkMap, CopyFromProcessError>),
    ModuleName(Result<Vec<u8>, CopyFromProcessError>),
    /// Nothing if the link could not be read.
    ExecutableName(Option<Vec<u8>>),
}

/// What a [`Reply`] stands for.
#[verifier::ext_equal]
pub enum ReplyView {
    ProgramHeaders(Result<Seq<ProgramHeader>, CopyFromProcessError>),
    ElfHeader(Result<ElfHeader, CopyFromProcessError>),
    DynamicSection(Result<Seq<Dyn>, CopyFromProcessError>),
    DebuggerRendezvous(Result<RDebug, CopyFromProcessError>, bool),
    LinkMap(Result<LinkMap, CopyFromProcessError>),
    ModuleName(Result<Seq<u8>, CopyFromProcessError>),
    ExecutableName(Option<Seq<u8>>),
}

impl View for Reply {
    type V = ReplyView;

    open spec fn view(&self) -> ReplyView {
        match self {
            Reply::ProgramHeaders(read) => ReplyView::ProgramHeaders(list_read(*read)),
            Reply::ElfHeader(read) => ReplyView::ElfHeader(*read),
            Reply::DynamicSection(read) => ReplyView::DynamicSection(list_read(*read)),
            Reply::DebuggerRendezvous(read, distrusted) => ReplyView::DebuggerRendezvous(
                *read,
                *distrusted,
            ),
            Reply::LinkMap(read) => ReplyView::LinkMap(*read),
            Reply::ModuleName(read) => ReplyView::ModuleName(list_read(*read)),
            Reply::ExecutableName(name) => ReplyView::ExecutableName(
                crate::bytes::name_bytes(*name),
            ),
        }
    }
}

impl ReplyView {
    /// Whether the reply is of the kind that was asked for.
    pub open spec fn answers(self, request: Request) -> bool {
        match request {
            Request::ProgramHeaders { .. } => self is ProgramHeaders,
            Request::ElfHeader { .. } => self is ElfHeader,
            Request::DynamicSection { .. } => self is DynamicSection,
            Request::DebuggerRendezvous { .. } => self is DebuggerRendezvous,
            Request::LinkMap { .. } => self is LinkMap,
            Request::ModuleName { .. } => self is ModuleName,
            Request::ExecutableName => self is ExecutableName,
        }
    }
}

/// A process that stands still: what reading it gives depends only on what is
/// read.
pub struct StillProcess {
    pub program_headers: spec_fn(usize, usize) -> Result<Seq<ProgramHeader>, CopyFromProcessError>,
    pub elf_header: spec_fn(usize) -> Result<ElfHeader, CopyFromProcessError>,
    pub dynamic_section: spec_fn(usize, usize) -> Result<Seq<Dyn>, CopyFromProcessError>,
    pub debugger_rendezvous: spec_fn(usize) -> Result<RDebug, CopyFromProcessError>,
    pub link_map: spec_fn(usize) -> Result<LinkMap, CopyFromProcessError>,
    pub module_name: spec_fn(usize) -> Result<Seq<u8>, CopyFromProcessError>,
    pub executable_name: Option<Seq<u8>>,
    /// Whether the rendez-vous is distrusted whatever it says.
    pub distrusted: bool,
}

impl StillProcess {
    /// What the process answers to a request.
    pub open spec fn answer(self, request: Request) -> ReplyView {
        match request {
            Request::ProgramHeaders { address, count } => ReplyView::ProgramHeaders(
                (self.program_headers)(address, count),
            ),
            Request::ElfHeader { address } => ReplyView::ElfHeader((self.elf_header)(address)),
            Request::DynamicSection { address, count } => ReplyView::DynamicSection(
                (self.dynamic_section)(address, count),
            ),
            Request::DebuggerRendezvous { address } => ReplyView::DebuggerRendezvous(
                (self.debugger_rendezvous)(address),
                self.distrusted,
            ),
            Request::LinkMap { address } => ReplyView::LinkMap((self.link_map)(address)),
            Request::ModuleName { address } => ReplyView::ModuleName((self.module_name)(address)),
            Request::ExecutableName => ReplyView::ExecutableName(self.executable_name),
        }
    }
}

} // verus!

//! What can go wrong while the module list is put together.

use vstd::prelude::*;

verus! {

/// A failed read of the target's memory.
#[derive(Debug, Clone, Copy, PartialEq, Eq, Structural)]
pub struct CopyFromProcessError {
    /// Where the read started.
    pub address: usize,
    /// How many bytes were asked for.
    pub length: usize,
    /// The operating system's error number.
    pub errno: i32,
}

/// A failed search for a module's SONAME.
#[derive(Debug, PartialEq, Eq)]
pub enum ModuleReaderError {
    /// The module has no SONAME.
    NoSoName,
    /// The module could not be read.
    Unreadable { reason: String },
}

/// Errors that cost us the SONAME of a single entry of the module list.
#[derive(Debug, PartialEq, Eq)]
pub enum ModuleListError {
    /// error reading soname from file
    ReadSoNameFromFileFailed(ModuleReaderError),
}

/// Errors that only cost us the accuracy of a single entry of the module list.
#[derive(Debug, PartialEq, Eq)]
pub enum ModuleResolveError {
    /// A user-supplied module starts where another one already does.
    DuplicateUserModule { name: Vec<u8>, base_address: usize },
    /// A module was clamped in front of the end of its last executable segment.
    ModuleImageClamped {
        name: Vec<u8>,
        base_address: usize,
        code_end: usize,
        clamped_to: usize,
    },
}

/// What a [`ModuleResolveError`] stands for.
#[verifier::ext_equal]
pub enum ModuleResolveErrorView {
    DuplicateUserModule { name: Seq<u8>, base_address: usize },
    ModuleImageClamped {
        name: Seq<u8>,
        base_address: usize,
        code_end: usize,
        clamped_to: usize,
    },
}

impl View for ModuleResolveError {
    type V = ModuleResolveErrorView;

    open spec fn view(&self) -> ModuleResolveErrorView {
        match self {
            ModuleResolveError::DuplicateUserModule { name, base_address } =>
                ModuleResolveErrorView::DuplicateUserModule {
                name: name@,
                base_address: *base_address,
            },
            ModuleResolveError::ModuleImageClamped { name, base_address, code_end, clamped_to } =>
                ModuleResolveErrorView::ModuleImageClamped {
                name: name@,
                base_address: *base_address,
                code_end: *code_end,
                clamped_to: *clamped_to,
            },
        }
    }
}

/// The errors of a list.
pub open spec fn resolve_error_views(errors: Seq<ModuleResolveError>) -> Seq<
    ModuleResolveErrorView,
> {
    errors.map_values(|error: ModuleResolveError| error@)
}

/// Errors that prevent the debugger rendez-vous from being walked at all.
///
/// Failures that only affect a single module are reported as soft errors
/// instead, so that one unreadable object doesn't cost us the whole list.
#[derive(Debug, PartialEq, Eq)]
pub enum DebuggerRendezvousError {
    /// failed to read program header table
    ReadProgramHeaderTableFailed(CopyFromProcessError),
    /// program header table missing self-pointer
    ProgramHeaderTableNoSelf,
    /// program header table missing dynamic section
    ProgramHeaderTableNoDynamic,
    /// program header table has no loadable segment
    ProgramHeaderTableNoLoad,
    /// failed to read ELF header
    ReadElfHeaderFailed(CopyFromProcessError),
    /// ELF header had invalid identifer bytes
    InvalidElfSignature([u8; 4]),
    /// unexpected size for dynamic section
    InvalidDynamicSectionSize(usize),
    /// dynamic section missing NULL entry
    DynamicSectionMissingTerminator,
    /// failed to read dynamic section
    ReadDynamicSectionFailed(CopyFromProcessError),
    /// failed to find DT_DEBUG entry in dynamic section
    MissingDebugEntry,
    /// failed to read debugger rendezvous address
    ReadDebuggerRendezvousAddressFailed(CopyFromProcessError),
    /// unexpected debugger rendezvous version
    UnexpectedDebuggerRendezvousVersion(i32),
    /// the dynamic linker was mid-update, so its list of modules cannot be
    /// trusted
    DebuggerRendezvousNotConsistent(i32),
    /// an error occurred iterating the link_map linked list
    IterateLinkMapFailed(Box<DebuggerRendezvousError>),
    /// failed reading link_map entry
    ReadLinkMapEntryFailed(CopyFromProcessError),
    /// invalid link entry
    InvalidLinkEntry,
    /// failed reading module name
    ReadModuleNameFailed(CopyFromProcessError),
    /// a module was skipped
    SkippedModule { name: Vec<u8>, address: usize, source: Box<DebuggerRendezvousError> },
}

/// What a [`DebuggerRendezvousError`] stands for.
#[verifier::ext_equal]
pub enum DebuggerRendezvousErrorView {
    ReadProgramHeaderTableFailed(CopyFromProcessError),
    ProgramHeaderTableNoSelf,
    ProgramHeaderTableNoDynamic,
    ProgramHeaderTableNoLoad,
    ReadElfHeaderFailed(CopyFromProcessError),
    InvalidElfSignature(Seq<u8>),
    InvalidDynamicSectionSize(usize),
    DynamicSectionMissingTerminator,
    ReadDynamicSectionFailed(CopyFromProcessError),
    MissingDebugEntry,
    ReadDebuggerRendezvousAddressFailed(CopyFromProcessError),
    UnexpectedDebuggerRendezvousVersion(i32),
    DebuggerRendezvousNotConsistent(i32),
    IterateLinkMapFailed(Box<DebuggerRendezvousErrorView>),
    ReadLinkMapEntryFailed(CopyFromProcessError),
    InvalidLinkEntry,
    ReadModuleNameFailed(CopyFromProcessError),
    SkippedModule { name: Seq<u8>, address: usize, source: Box<DebuggerRendezvousErrorView> },
}

impl DebuggerRendezvousError {
    /// What the error stands for.
    pub open spec fn view(&self) -> DebuggerRendezvousErrorView
        decreases self,
    {
        match self {
            DebuggerRendezvousError::ReadProgramHeaderTableFailed(source) => DebuggerRendezvousErrorView::ReadProgramHeaderTableFailed(*source),
            DebuggerRendezvousError::ProgramHeaderTableNoSelf => DebuggerRendezvousErrorView::ProgramHeaderTableNoSelf,
            DebuggerRendezvousError::ProgramHeaderTableNoDynamic => DebuggerRendezvousErrorView::ProgramHeaderTableNoDynamic,
            DebuggerRendezvousError::ProgramHeaderTableNoLoad => DebuggerRendezvousErrorView::ProgramHeaderTableNoLoad,
            DebuggerRendezvousError::ReadElfHeaderFailed(source) => DebuggerRendezvousErrorView::ReadElfHeaderFailed(*source),
            DebuggerRendezvousError::InvalidElfSignature(signature) => DebuggerRendezvousErrorView::InvalidElfSignature(signature@),
            DebuggerRendezvousError::InvalidDynamicSectionSize(value) => DebuggerRendezvousErrorView::InvalidDynamicSectionSize(*value),
            DebuggerRendezvousError::DynamicSectionMissingTerminator => DebuggerRendezvousErrorView::DynamicSectionMissingTerminator,
            DebuggerRendezvousError::ReadDynamicSectionFailed(source) => DebuggerRendezvousErrorView::ReadDynamicSectionFailed(*source),
            DebuggerRendezvousError::MissingDebugEntry => DebuggerRendezvousErrorView::MissingDebugEntry,
            DebuggerRendezvousError::ReadDebuggerRendezvousAddressFailed(source) => DebuggerRendezvousErrorView::ReadDebuggerRendezvousAddressFailed(*source),
            DebuggerRendezvousError::UnexpectedDebuggerRendezvousVersion(value) => DebuggerRendezvousErrorView::UnexpectedDebuggerRendezvousVersion(*value),
            DebuggerRendezvousError::DebuggerRendezvousNotConsistent(value) => DebuggerRendezvousErrorView::DebuggerRendezvousNotConsistent(*value),
            DebuggerRendezvousError::IterateLinkMapFailed(source) => DebuggerRendezvousErrorView::IterateLinkMapFailed(Box::new(source.view())),
            DebuggerRendezvousError::ReadLinkMapEntryFailed(source) => DebuggerRendezvousErrorView::ReadLinkMapEntryFailed(*source),
            DebuggerRendezvousError::InvalidLinkEntry => DebuggerRendezvousErrorView::InvalidLinkEntry,
            DebuggerRendezvousError::ReadModuleNameFailed(source) => DebuggerRendezvousErrorView::ReadModuleNameFailed(*source),
            DebuggerRendezvousError::SkippedModule { name, address, source } =>
                DebuggerRendezvousErrorView::SkippedModule {
                name: name@,
                address: *address,
                source: Box::new(source.view()),
            },
        }
    }
}

} // verus!

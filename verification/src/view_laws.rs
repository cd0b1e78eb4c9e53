//! What the contracts speak of is all that the values hold: nothing of a value
//! goes missing between it and what it stands for.

use vstd::prelude::*;

use crate::bytes::{name_bytes, name_or_empty};
use crate::elf::{list_outcome_of, list_read, outcome_of};
use crate::error::{
    resolve_error_views, CopyFromProcessError, DebuggerRendezvousError,
    DebuggerRendezvousErrorView, ModuleResolveError, ModuleResolveErrorView,
};
use crate::link_walk::{
    rendezvous_error_views, LinkProgress, LinkProgressView, Listing,
};
use crate::module::{
    candidate_views, module_views, ModuleCandidate, ModuleInfo, ModuleSource, ModuleSourceView,
};
use crate::module_read::{ModuleProgress, ModuleProgressView};
use crate::process::{Reply, ReplyView};
use crate::rendezvous::{RendezvousPhase, RendezvousPhaseView, RendezvousWalk};
use crate::text::piece_views;

verus! {

/// A name stands for its bytes, all of them, and a missing name for none.
pub proof fn law_a_name_is_its_bytes(name: Option<Vec<u8>>)
    ensures
        name is None <==> name_bytes(name) is None,
        name is Some ==> name_bytes(name)->0.len() == name->0@.len(),
        name is Some ==> forall|i: int|
            0 <= i < name->0@.len() ==> name_bytes(name)->0[i] == #[trigger] name->0@[i],
        name is Some ==> name_or_empty(name_bytes(name)) == name->0@,
        name is None ==> name_or_empty(name_bytes(name)).len() == 0,
{
}

/// A missing name counts as an empty one, and no other name changes.
pub proof fn law_only_a_missing_name_becomes_empty(name: Option<Seq<u8>>, bytes: Seq<u8>)
    ensures
        name == Some(bytes) ==> name_or_empty(name) == bytes,
        name is None ==> name_or_empty(name).len() == 0,
{
}

/// A module's source keeps every byte of its identifier.
pub proof fn law_a_source_keeps_its_identifier(source: ModuleSource)
    ensures
        match source {
            ModuleSource::Process => source@ is Process,
            ModuleSource::User { identifier } => {
                &&& source@ is User
                &&& source@->identifier.len() == identifier@.len()
                &&& forall|i: int|
                    0 <= i < identifier@.len() ==> source@->identifier[i]
                        == #[trigger] identifier@[i]
            },
        },
{
}

/// A candidate stands for all of its fields.
pub proof fn law_a_candidate_is_its_fields(candidate: ModuleCandidate)
    ensures
        candidate@.base_address == candidate.base_address,
        candidate@.end_address == candidate.end_address,
        candidate@.code_end == candidate.code_end,
        candidate@.name == (match candidate.name {
            Some(name) => Some(name@),
            None => None,
        }),
        candidate@.file_offset == candidate.file_offset,
        candidate@.source == (match candidate.source {
            ModuleSource::Process => ModuleSourceView::Process,
            ModuleSource::User { identifier } => ModuleSourceView::User {
                identifier: identifier@,
            },
        }),
{
}

/// An entry stands for all of its fields.
pub proof fn law_an_entry_is_its_fields(module: ModuleInfo)
    ensures
        module@.base_address == module.base_address,
        module@.size == module.size,
        module@.name == (match module.name {
            Some(name) => Some(name@),
            None => None,
        }),
        module@.file_offset == module.file_offset,
        module@.executable == module.executable,
        module@.source == (match module.source {
            ModuleSource::Process => ModuleSourceView::Process,
            ModuleSource::User { identifier } => ModuleSourceView::User {
                identifier: identifier@,
            },
        }),
{
}

/// Lists of modules stand for each of their modules, in order.
pub proof fn law_a_list_is_each_of_its_modules(
    candidates: Seq<ModuleCandidate>,
    modules: Seq<ModuleInfo>,
)
    ensures
        candidate_views(candidates).len() == candidates.len(),
        forall|i: int|
            0 <= i < candidates.len() ==> #[trigger] candidate_views(candidates)[i]
                == candidates[i]@,
        module_views(modules).len() == modules.len(),
        forall|i: int|
            0 <= i < modules.len() ==> #[trigger] module_views(modules)[i] == modules[i]@,
{
}

/// Lists of reports stand for each of their reports, in order.
pub proof fn law_a_list_is_each_of_its_reports(
    reports: Seq<ModuleResolveError>,
    errors: Seq<DebuggerRendezvousError>,
)
    ensures
        resolve_error_views(reports).len() == reports.len(),
        forall|i: int|
            0 <= i < reports.len() ==> #[trigger] resolve_error_views(reports)[i] == reports[i]@,
        rendezvous_error_views(errors).len() == errors.len(),
        forall|i: int|
            0 <= i < errors.len() ==> #[trigger] rendezvous_error_views(errors)[i]
                == errors[i].view(),
{
}

/// The pieces of a text stand for their characters, in order.
pub proof fn law_a_list_is_each_of_its_pieces(pieces: Seq<Vec<char>>)
    ensures
        piece_views(pieces).len() == pieces.len(),
        forall|i: int| 0 <= i < pieces.len() ==> #[trigger] piece_views(pieces)[i] == pieces[i]@,
{
}

/// A report of resolving stands for all that it says.
pub proof fn law_a_report_is_its_fields(report: ModuleResolveError)
    ensures
        match report {
            ModuleResolveError::DuplicateUserModule { name, base_address } => report@ == (
            ModuleResolveErrorView::DuplicateUserModule { name: name@, base_address }),
            ModuleResolveError::ModuleImageClamped {
                name,
                base_address,
                code_end,
                clamped_to,
            } => report@ == (ModuleResolveErrorView::ModuleImageClamped {
                name: name@,
                base_address,
                code_end,
                clamped_to,
            }),
        },
{
}

/// An error of the rendez-vous stands for all that it says, and so does the error
/// that it wraps.
pub proof fn law_an_error_is_its_fields(error: DebuggerRendezvousError)
    ensures
        match error {
            DebuggerRendezvousError::ReadProgramHeaderTableFailed(source) => error.view()
                == DebuggerRendezvousErrorView::ReadProgramHeaderTableFailed(source),
            DebuggerRendezvousError::ProgramHeaderTableNoSelf => error.view() is ProgramHeaderTableNoSelf,
            DebuggerRendezvousError::ProgramHeaderTableNoDynamic => error.view() is ProgramHeaderTableNoDynamic,
            DebuggerRendezvousError::ProgramHeaderTableNoLoad => error.view() is ProgramHeaderTableNoLoad,
            DebuggerRendezvousError::ReadElfHeaderFailed(source) => error.view()
                == DebuggerRendezvousErrorView::ReadElfHeaderFailed(source),
            DebuggerRendezvousError::InvalidElfSignature(signature) => error.view()
                == DebuggerRendezvousErrorView::InvalidElfSignature(signature@),
            DebuggerRendezvousError::InvalidDynamicSectionSize(size) => error.view()
                == DebuggerRendezvousErrorView::InvalidDynamicSectionSize(size),
            DebuggerRendezvousError::DynamicSectionMissingTerminator => error.view() is DynamicSectionMissingTerminator,
            DebuggerRendezvousError::ReadDynamicSectionFailed(source) => error.view()
                == DebuggerRendezvousErrorView::ReadDynamicSectionFailed(source),
            DebuggerRendezvousError::MissingDebugEntry => error.view() is MissingDebugEntry,
            DebuggerRendezvousError::ReadDebuggerRendezvousAddressFailed(source) => error.view()
                == DebuggerRendezvousErrorView::ReadDebuggerRendezvousAddressFailed(source),
            DebuggerRendezvousError::UnexpectedDebuggerRendezvousVersion(version) => error.view()
                == DebuggerRendezvousErrorView::UnexpectedDebuggerRendezvousVersion(version),
            DebuggerRendezvousError::DebuggerRendezvousNotConsistent(state) => error.view()
                == DebuggerRendezvousErrorView::DebuggerRendezvousNotConsistent(state),
            DebuggerRendezvousError::IterateLinkMapFailed(source) => error.view()
                == DebuggerRendezvousErrorView::IterateLinkMapFailed(Box::new(source.view())),
            DebuggerRendezvousError::ReadLinkMapEntryFailed(source) => error.view()
                == DebuggerRendezvousErrorView::ReadLinkMapEntryFailed(source),
            DebuggerRendezvousError::InvalidLinkEntry => error.view() is InvalidLinkEntry,
            DebuggerRendezvousError::ReadModuleNameFailed(source) => error.view()
                == DebuggerRendezvousErrorView::ReadModuleNameFailed(source),
            DebuggerRendezvousError::SkippedModule { name, address, source } => error.view() == (
            DebuggerRendezvousErrorView::SkippedModule {
                name: name@,
                address,
                source: Box::new(source.view()),
            }),
        },
{
}

/// A result stands for its value or its error, and what was read of a list for all
/// of the list.
pub proof fn law_a_result_is_its_value<T>(
    result: Result<T, DebuggerRendezvousError>,
    list: Result<Vec<T>, DebuggerRendezvousError>,
    read: Result<Vec<T>, CopyFromProcessError>,
)
    ensures
        result is Ok ==> outcome_of(result) is Ok && outcome_of(result)->Ok_0 == result->Ok_0,
        result is Err ==> outcome_of(result) is Err && outcome_of(result)->Err_0
            == result->Err_0.view(),
        list is Ok ==> list_outcome_of(list) is Ok && list_outcome_of(list)->Ok_0
            == list->Ok_0@,
        list is Err ==> list_outcome_of(list) is Err && list_outcome_of(list)->Err_0
            == list->Err_0.view(),
        read is Ok ==> list_read(read) is Ok && list_read(read)->Ok_0 == read->Ok_0@,
        read is Err ==> list_read(read) is Err && list_read(read)->Err_0 == read->Err_0,
{
}

/// A reply stands for all that was read.
pub proof fn law_a_reply_is_what_was_read(reply: Reply)
    ensures
        match reply {
            Reply::ProgramHeaders(Ok(headers)) => reply@ == ReplyView::ProgramHeaders(Ok(headers@)),
            Reply::ProgramHeaders(Err(error)) => reply@ == ReplyView::ProgramHeaders(Err(error)),
            Reply::ElfHeader(read) => reply@ == ReplyView::ElfHeader(read),
            Reply::DynamicSection(Ok(section)) => reply@ == ReplyView::DynamicSection(Ok(section@)),
            Reply::DynamicSection(Err(error)) => reply@ == ReplyView::DynamicSection(Err(error)),
            Reply::DebuggerRendezvous(read, distrusted) => reply@ == ReplyView::DebuggerRendezvous(
                read,
                distrusted,
            ),
            Reply::LinkMap(read) => reply@ == ReplyView::LinkMap(read),
            Reply::ModuleName(Ok(name)) => reply@ == ReplyView::ModuleName(Ok(name@)),
            Reply::ModuleName(Err(error)) => reply@ == ReplyView::ModuleName(Err(error)),
            Reply::ExecutableName(Some(name)) => reply@ == ReplyView::ExecutableName(Some(name@)),
            Reply::ExecutableName(None) => reply@ == ReplyView::ExecutableName(None),
        },
{
}

/// A listing stands for each of its modules, or its error, and for each of its soft
/// errors.
pub proof fn law_a_listing_is_all_that_was_listed(listing: Listing)
    ensures
        listing.result matches Ok(modules) ==> {
            &&& listing@.result is Ok
            &&& listing@.result->Ok_0.len() == modules@.len()
            &&& forall|i: int|
                0 <= i < modules@.len() ==> #[trigger] listing@.result->Ok_0[i] == modules@[i]@
        },
        listing.result matches Err(error) ==> listing@.result is Err && listing@.result->Err_0
            == error.view(),
        listing@.soft_errors.len() == listing.soft_errors@.len(),
        forall|i: int|
            0 <= i < listing.soft_errors@.len() ==> #[trigger] listing@.soft_errors[i]
                == listing.soft_errors@[i].view(),
{
}

/// A walk that is over stands for its listing, and a module that was read for its
/// extent or error.
pub proof fn law_an_end_is_what_it_came_to(
    walk: RendezvousWalk,
    phase: RendezvousPhase,
    links: LinkProgress,
    read: ModuleProgress,
)
    ensures
        walk@.setting == walk.setting,
        walk@.phase == walk.phase@,
        phase matches RendezvousPhase::Done(listing) ==> phase@ == RendezvousPhaseView::Done(
            listing@,
        ),
        phase@ is Done ==> phase is Done,
        links matches LinkProgress::Done(listing) ==> links@ == LinkProgressView::Done(listing@),
        links@ is Done ==> links is Done,
        read matches ModuleProgress::Done(Ok(extent)) ==> read@ == ModuleProgressView::Done(
            Ok(extent),
        ),
        read matches ModuleProgress::Done(Err(error)) ==> read@ == ModuleProgressView::Done(
            Err(error.view()),
        ),
        read matches ModuleProgress::Reading(next) ==> read@ == ModuleProgressView::Reading(next),
{
}

} // verus!

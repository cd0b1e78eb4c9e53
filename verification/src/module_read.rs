//! Reading a single module out of its program header table.

use vstd::prelude::*;

use crate::align::{aligned_up, law_alignment_brackets};
use crate::elf::{
    dynamic_entries, dynamic_entry_count, elf_header_outcome, find_segment,
    has_packed_relocations, packs_relocations_outcome, program_headers_outcome, read_elf_header,
    read_program_headers, segment_of_type, ElfHeader, ProgramHeader, ET_DYN, PF_X, PT_DYNAMIC,
    PT_LOAD,
};
use crate::error::{DebuggerRendezvousError, DebuggerRendezvousErrorView};
use crate::process::{Reply, ReplyView, Request, StillProcess};
use crate::segment::{
    check_segments_fit, law_a_module_spans_its_loadable_segments, law_a_span_covers_its_segments,
    law_the_order_of_headers_does_not_matter, lowest_offset_is_clear, lowest_segment,
    lemma_loadable_segments, loadable_segments, module_span, segment_end, segment_of,
    segment_start, segments_fit, span_of, ModuleSpan, Segment,
};

verus! {

/// Where a module is read from.
#[derive(Debug, Clone, Copy, PartialEq, Eq, Structural)]
pub struct ModulePlace {
    /// Address of the module's ELF header.
    pub elf_header_address: usize,
    /// What has to be added to the module's virtual addresses.
    pub load_bias: usize,
    /// The size that segments are rounded out to.
    pub page_size: usize,
}

/// How far a module spans, and from where in its file.
#[derive(Debug, Clone, Copy, PartialEq, Eq, Structural)]
pub struct ModuleExtent {
    pub base_address: usize,
    pub end_address: usize,
    /// End of the object's last executable segment, or `base_address` if none.
    pub code_end: usize,
    pub file_offset: usize,
}

/// The extent of a module that spans `span` and is based at `base_address`.
pub open spec fn extent_of(span: ModuleSpan, base_address: usize) -> ModuleExtent {
    ModuleExtent {
        base_address,
        end_address: span.end,
        code_end: match span.code_end {
            Some(end) => end,
            None => base_address,
        },
        file_offset: span.file_offset,
    }
}

/// The address against which all addresses in a module are resolved.
pub open spec fn base_address_of(
    elf_header: ElfHeader,
    load_bias: usize,
    lowest_segment_start: usize,
    packed: bool,
) -> usize {
    if lowest_segment_start != load_bias && elf_header.e_type == ET_DYN && packed {
        load_bias
    } else {
        lowest_segment_start
    }
}

/// The dynamic section to look into before the base address is known: its
/// address, and how many entries it has.
pub open spec fn relocations_to_check(
    elf_header: ElfHeader,
    headers: Seq<ProgramHeader>,
    load_bias: usize,
    lowest_segment_start: usize,
) -> Option<(usize, usize)> {
    if lowest_segment_start != load_bias && elf_header.e_type == ET_DYN {
        match segment_of_type(headers, PT_DYNAMIC) {
            Some((vaddr, size)) => match dynamic_entries(size) {
                Ok(count) => Some(((load_bias + vaddr) as usize, count)),
                Err(_) => None,
            },
            None => None,
        }
    } else {
        None
    }
}

/// Whether the object's dynamic section, if it has one, starts within the
/// address space.
pub open spec fn dynamic_section_fits(
    elf_header: ElfHeader,
    headers: Seq<ProgramHeader>,
    load_bias: usize,
    lowest_segment_start: usize,
) -> bool {
    lowest_segment_start != load_bias && elf_header.e_type == ET_DYN ==> (segment_of_type(
        headers,
        PT_DYNAMIC,
    ) matches Some((vaddr, _)) ==> load_bias + vaddr <= usize::MAX)
}

/// What of a module has been read so far.
#[derive(Debug, Clone, Copy)]
pub enum ModulePhase {
    /// Nothing yet.
    ElfHeader,
    /// The ELF header, which says where the program headers are.
    ProgramHeaders { elf_header: ElfHeader, address: usize },
    /// The program headers too, but the base address depends on the dynamic
    /// section.
    DynamicSection { elf_header: ElfHeader, span: ModuleSpan, address: usize, count: usize },
}

/// A module that is being read.
#[derive(Debug, Clone, Copy)]
pub struct ModuleRead {
    pub place: ModulePlace,
    pub phase: ModulePhase,
}

/// What reading a module has come to.
#[derive(Debug)]
pub enum ModuleProgress {
    /// There is more to read.
    Reading(ModuleRead),
    /// The extent is known, or why it cannot be.
    Done(Result<ModuleExtent, DebuggerRendezvousError>),
}

/// What a [`ModuleProgress`] stands for.
pub enum ModuleProgressView {
    Reading(ModuleRead),
    Done(Result<ModuleExtent, DebuggerRendezvousErrorView>),
}

impl View for ModuleProgress {
    type V = ModuleProgressView;

    open spec fn view(&self) -> ModuleProgressView {
        match self {
            ModuleProgress::Reading(read) => ModuleProgressView::Reading(*read),
            ModuleProgress::Done(Ok(extent)) => ModuleProgressView::Done(Ok(*extent)),
            ModuleProgress::Done(Err(error)) => ModuleProgressView::Done(Err(error.view())),
        }
    }
}

impl ModuleProgressView {
    /// A module that is being read keeps its invariant, and one that was read
    /// does not end before it starts.
    pub open spec fn wf(self) -> bool {
        match self {
            ModuleProgressView::Reading(read) => read.wf(),
            ModuleProgressView::Done(Ok(extent)) => extent.base_address <= extent.end_address,
            ModuleProgressView::Done(Err(_)) => true,
        }
    }
}

impl ModuleRead {
    /// Pages are not empty, and whichever base address the module gets lies
    /// below its end.
    pub open spec fn wf(self) -> bool {
        &&& self.place.page_size > 0
        &&& self.phase matches ModulePhase::DynamicSection { span, .. } ==> span.start <= span.end
            && self.place.load_bias <= span.end
    }

    /// What to read next.
    pub open spec fn wanted(self) -> Request {
        match self.phase {
            ModulePhase::ElfHeader => Request::ElfHeader {
                address: self.place.elf_header_address,
            },
            ModulePhase::ProgramHeaders { elf_header, address } => Request::ProgramHeaders {
                address,
                count: elf_header.e_phnum as usize,
            },
            ModulePhase::DynamicSection { address, count, .. } => Request::DynamicSection {
                address,
                count,
            },
        }
    }

    /// Whether all addresses that follow from a reply lie within the address
    /// space.
    pub open spec fn accepts(self, reply: ReplyView) -> bool {
        match (self.phase, reply) {
            (ModulePhase::ElfHeader, ReplyView::ElfHeader(read)) => elf_header_outcome(
                read,
            ) matches Ok(elf_header) ==> self.place.elf_header_address + elf_header.e_phoff
                <= usize::MAX,
            (
                ModulePhase::ProgramHeaders { elf_header, .. },
                ReplyView::ProgramHeaders(read),
            ) => match program_headers_outcome(read) {
                Ok(headers) => {
                    let place = self.place;
                    &&& segments_fit(headers, place.load_bias, place.page_size)
                    &&& span_of(
                        loadable_segments(headers, place.load_bias, place.page_size),
                    ) matches Some(span) ==> dynamic_section_fits(
                        elf_header,
                        headers,
                        place.load_bias,
                        span.start,
                    )
                },
                Err(_) => true,
            },
            _ => true,
        }
    }

    /// What a reply makes of the module.
    pub open spec fn stepped(self, reply: ReplyView) -> ModuleProgressView {
        match (self.phase, reply) {
            (ModulePhase::ElfHeader, ReplyView::ElfHeader(read)) => self.stepped_elf_header(
                elf_header_outcome(read),
            ),
            (
                ModulePhase::ProgramHeaders { elf_header, .. },
                ReplyView::ProgramHeaders(read),
            ) => self.stepped_program_headers(elf_header, program_headers_outcome(read)),
            (
                ModulePhase::DynamicSection { elf_header, span, .. },
                ReplyView::DynamicSection(read),
            ) => ModuleProgressView::Done(
                Ok(
                    extent_of(
                        span,
                        base_address_of(
                            elf_header,
                            self.place.load_bias,
                            span.start,
                            packs_relocations_outcome(read),
                        ),
                    ),
                ),
            ),
            _ => ModuleProgressView::Reading(self),
        }
    }

    /// What the ELF header makes of the module.
    pub open spec fn stepped_elf_header(
        self,
        outcome: Result<ElfHeader, DebuggerRendezvousErrorView>,
    ) -> ModuleProgressView {
        match outcome {
            Ok(elf_header) => ModuleProgressView::Reading(
                ModuleRead {
                    phase: ModulePhase::ProgramHeaders {
                        elf_header,
                        address: (self.place.elf_header_address + elf_header.e_phoff) as usize,
                    },
                    ..self
                },
            ),
            Err(error) => ModuleProgressView::Done(Err(error)),
        }
    }

    /// What the program headers make of the module.
    pub open spec fn stepped_program_headers(
        self,
        elf_header: ElfHeader,
        outcome: Result<Seq<ProgramHeader>, DebuggerRendezvousErrorView>,
    ) -> ModuleProgressView {
        let place = self.place;
        match outcome {
            Ok(headers) => match span_of(
                loadable_segments(headers, place.load_bias, place.page_size),
            ) {
                Some(span) => match relocations_to_check(
                    elf_header,
                    headers,
                    place.load_bias,
                    span.start,
                ) {
                    Some((address, count)) => ModuleProgressView::Reading(
                        ModuleRead {
                            phase: ModulePhase::DynamicSection {
                                elf_header,
                                span,
                                address,
                                count,
                            },
                            ..self
                        },
                    ),
                    None => ModuleProgressView::Done(Ok(extent_of(span, span.start))),
                },
                None => ModuleProgressView::Done(
                    Err(DebuggerRendezvousErrorView::ProgramHeaderTableNoLoad),
                ),
            },
            Err(error) => ModuleProgressView::Done(Err(error)),
        }
    }

    /// What to read next.
    pub fn request(&self) -> (request: Request)
        ensures
            request == self.wanted(),
    {
        match self.phase {
            ModulePhase::ElfHeader => Request::ElfHeader {
                address: self.place.elf_header_address,
            },
            ModulePhase::ProgramHeaders { elf_header, address } => Request::ProgramHeaders {
                address,
                count: elf_header.e_phnum as usize,
            },
            ModulePhase::DynamicSection { address, count, .. } => Request::DynamicSection {
                address,
                count,
            },
        }
    }

    /// Whether all addresses that follow from a reply lie within the address
    /// space.
    pub fn fits(&self, reply: &Reply) -> (fits: bool)
        requires
            self.wf(),
        ensures
            fits == self.accepts(reply@),
    {
        let place: ModulePlace = self.place;
        match (&self.phase, reply) {
            (ModulePhase::ElfHeader, Reply::ElfHeader(read)) => {
                match read_elf_header(*read) {
                    Ok(elf_header) => elf_header.e_phoff <= usize::MAX - place.elf_header_address,
                    Err(_) => true,
                }
            },
            (ModulePhase::ProgramHeaders { elf_header, .. }, Reply::ProgramHeaders(read)) => {
                match read {
                    Ok(headers) => {
                        if !check_segments_fit(
                            headers.as_slice(),
                            place.load_bias,
                            place.page_size,
                        ) {
                            return false;
                        }
                        match module_span(headers.as_slice(), place.load_bias, place.page_size) {
                            Some(span) => {
                                if span.start == place.load_bias || elf_header.e_type != ET_DYN {
                                    return true;
                                }
                                match find_segment(headers.as_slice(), PT_DYNAMIC) {
                                    Some((vaddr, _)) => vaddr <= usize::MAX - place.load_bias,
                                    None => true,
                                }
                            },
                            None => true,
                        }
                    },
                    Err(_) => true,
                }
            },
            _ => true,
        }
    }

    /// Takes what was read for the present request.
    pub fn step(self, reply: Reply) -> (progress: ModuleProgress)
        requires
            self.wf(),
            reply@.answers(self.wanted()),
            self.accepts(reply@),
        ensures
            progress@ == self.stepped(reply@),
            progress@.wf(),
    {
        let place: ModulePlace = self.place;
        match (self.phase, reply) {
            (ModulePhase::ElfHeader, Reply::ElfHeader(read)) => {
                match read_elf_header(read) {
                    Ok(elf_header) => ModuleProgress::Reading(
                        ModuleRead {
                            place,
                            phase: ModulePhase::ProgramHeaders {
                                elf_header,
                                address: place.elf_header_address + elf_header.e_phoff,
                            },
                        },
                    ),
                    Err(error) => ModuleProgress::Done(Err(error)),
                }
            },
            (ModulePhase::ProgramHeaders { elf_header, .. }, Reply::ProgramHeaders(read)) => {
                match read_program_headers(read) {
                    Ok(headers) => read_segments(place, elf_header, headers.as_slice()),
                    Err(error) => ModuleProgress::Done(Err(error)),
                }
            },
            (
                ModulePhase::DynamicSection { elf_header, span, .. },
                Reply::DynamicSection(read),
            ) => {
                let base: usize = base_address(
                    &elf_header,
                    place.load_bias,
                    span.start,
                    has_packed_relocations(read),
                );
                ModuleProgress::Done(Ok(extent(span, base)))
            },
            _ => ModuleProgress::Reading(self),
        }
    }
}

/// Starts reading a single module out of its program header table.
///
/// A module is one entry, spanning all of its `PT_LOAD` segments. Overlap with
/// other entries of the module list is resolved afterwards, once the whole list
/// is known.
pub fn read_module(elf_header_address: usize, load_bias: usize, page_size: usize) -> (read:
    ModuleRead)
    requires
        page_size > 0,
    ensures
        read.wf(),
        read == (ModuleRead {
            place: ModulePlace { elf_header_address, load_bias, page_size },
            phase: ModulePhase::ElfHeader,
        }),
{
    ModuleRead {
        place: ModulePlace { elf_header_address, load_bias, page_size },
        phase: ModulePhase::ElfHeader,
    }
}

/// Takes a module's program headers.
fn read_segments(
    place: ModulePlace,
    elf_header: ElfHeader,
    program_headers: &[ProgramHeader],
) -> (progress: ModuleProgress)
    requires
        place.page_size > 0,
        segments_fit(program_headers@, place.load_bias, place.page_size),
        span_of(
            loadable_segments(program_headers@, place.load_bias, place.page_size),
        ) matches Some(span) ==> dynamic_section_fits(
            elf_header,
            program_headers@,
            place.load_bias,
            span.start,
        ),
    ensures
        forall|phase: ModulePhase|
            progress@ == (#[trigger] (ModuleRead { place, phase }).stepped_program_headers(
                elf_header,
                Ok(program_headers@),
            )),
        progress@.wf(),
{
    let span: ModuleSpan = match module_span(program_headers, place.load_bias, place.page_size) {
        Some(span) => span,
        None => {
            return ModuleProgress::Done(Err(DebuggerRendezvousError::ProgramHeaderTableNoLoad));
        },
    };
    proof {
        let segments = loadable_segments(program_headers@, place.load_bias, place.page_size);
        lemma_loadable_segments(program_headers@, place.load_bias, place.page_size);
        law_a_span_covers_its_segments(segments);
        assert(segments[0].end <= span.end);
    }
    // It's usually the start of the lowest segment, except for shared libraries
    // that use Android packed relocations (according to the Breakpad sources)
    if span.start != place.load_bias && elf_header.e_type == ET_DYN {
        if let Some((vaddr, size)) = find_segment(program_headers, PT_DYNAMIC) {
            let address: usize = place.load_bias + vaddr;
            if let Ok(count) = dynamic_entry_count(size) {
                return ModuleProgress::Reading(
                    ModuleRead {
                        place,
                        phase: ModulePhase::DynamicSection { elf_header, span, address, count },
                    },
                );
            }
        }
    }
    ModuleProgress::Done(Ok(extent(span, span.start)))
}

/// The extent of a module that spans `span` and is based at `base_address`.
fn extent(span: ModuleSpan, base_address: usize) -> (extent: ModuleExtent)
    ensures
        extent == extent_of(span, base_address),
{
    ModuleExtent {
        base_address,
        end_address: span.end,
        code_end: match span.code_end {
            Some(end) => end,
            None => base_address,
        },
        file_offset: span.file_offset,
    }
}

/// Get the base address of a given module, that is the address against which all
/// addresses in a module are resolved.
pub fn base_address(
    elf_header: &ElfHeader,
    load_bias: usize,
    lowest_segment_start: usize,
    packed: bool,
) -> (address: usize)
    ensures
        address == base_address_of(*elf_header, load_bias, lowest_segment_start, packed),
{
    if lowest_segment_start != load_bias && elf_header.e_type == ET_DYN && packed {
        load_bias
    } else {
        lowest_segment_start
    }
}

/// Whether a process's object carries Android's packed relocation tags.
pub open spec fn object_packs_relocations(
    process: StillProcess,
    headers: Seq<ProgramHeader>,
    load_bias: usize,
) -> bool {
    match segment_of_type(headers, PT_DYNAMIC) {
        Some((vaddr, size)) => match dynamic_entries(size) {
            Ok(count) => packs_relocations_outcome(
                (process.dynamic_section)((load_bias + vaddr) as usize, count),
            ),
            Err(_) => false,
        },
        None => false,
    }
}

/// The extent of a process's module whose program headers are known.
pub open spec fn extent_with_headers(
    process: StillProcess,
    place: ModulePlace,
    elf_header: ElfHeader,
    headers: Seq<ProgramHeader>,
) -> Result<ModuleExtent, DebuggerRendezvousErrorView> {
    match span_of(loadable_segments(headers, place.load_bias, place.page_size)) {
        Some(span) => Ok(
            extent_of(
                span,
                base_address_of(
                    elf_header,
                    place.load_bias,
                    span.start,
                    object_packs_relocations(process, headers, place.load_bias),
                ),
            ),
        ),
        None => Err(DebuggerRendezvousErrorView::ProgramHeaderTableNoLoad),
    }
}

/// The extent of a process's module whose ELF header is known.
pub open spec fn extent_with_header(
    process: StillProcess,
    place: ModulePlace,
    elf_header: ElfHeader,
) -> Result<ModuleExtent, DebuggerRendezvousErrorView> {
    let address = (place.elf_header_address + elf_header.e_phoff) as usize;
    match program_headers_outcome((process.program_headers)(address, elf_header.e_phnum as usize)) {
        Ok(headers) => extent_with_headers(process, place, elf_header, headers),
        Err(error) => Err(error),
    }
}

/// The extent of a process's module.
pub open spec fn extent_at(process: StillProcess, place: ModulePlace) -> Result<
    ModuleExtent,
    DebuggerRendezvousErrorView,
> {
    match elf_header_outcome((process.elf_header)(place.elf_header_address)) {
        Ok(elf_header) => extent_with_header(process, place, elf_header),
        Err(error) => Err(error),
    }
}

/// The extent of a process's module that is being read.
pub open spec fn extent_ahead(process: StillProcess, read: ModuleRead) -> Result<
    ModuleExtent,
    DebuggerRendezvousErrorView,
> {
    match read.phase {
        ModulePhase::ElfHeader => extent_at(process, read.place),
        ModulePhase::ProgramHeaders { elf_header, address } => match program_headers_outcome(
            (process.program_headers)(address, elf_header.e_phnum as usize),
        ) {
            Ok(headers) => extent_with_headers(process, read.place, elf_header, headers),
            Err(error) => Err(error),
        },
        ModulePhase::DynamicSection { elf_header, span, address, count } => Ok(
            extent_of(
                span,
                base_address_of(
                    elf_header,
                    read.place.load_bias,
                    span.start,
                    packs_relocations_outcome((process.dynamic_section)(address, count)),
                ),
            ),
        ),
    }
}

/// How many replies a module is away from its end at most.
pub open spec fn module_reads_left(read: ModuleRead) -> nat {
    match read.phase {
        ModulePhase::ElfHeader => 3,
        ModulePhase::ProgramHeaders { .. } => 2,
        ModulePhase::DynamicSection { .. } => 1,
    }
}

/// Each of a process's answers brings a module closer to its end, and the end is
/// the extent that the process's memory tells.
pub proof fn law_answers_lead_to_the_extent(process: StillProcess, read: ModuleRead)
    ensures
        process.answer(read.wanted()).answers(read.wanted()),
        match read.stepped(process.answer(read.wanted())) {
            ModuleProgressView::Reading(next) => {
                &&& module_reads_left(next) < module_reads_left(read)
                &&& extent_ahead(process, next) == extent_ahead(process, read)
                &&& next.place == read.place
            },
            ModuleProgressView::Done(outcome) => outcome == extent_ahead(process, read),
        },
{
}

/// Whatever its base address, a module that was read ends behind each of its
/// loadable segments, and starts before it, at the lowest of them or at its load
/// bias.
pub proof fn law_a_module_that_was_read_spans_its_segments(
    process: StillProcess,
    place: ModulePlace,
    elf_header: ElfHeader,
    headers: Seq<ProgramHeader>,
    i: int,
)
    requires
        place.page_size > 0,
        segments_fit(headers, place.load_bias, place.page_size),
        0 <= i < headers.len(),
        headers[i].p_type == PT_LOAD,
    ensures
        extent_with_headers(process, place, elf_header, headers) is Ok,
        ({
            let extent = extent_with_headers(process, place, elf_header, headers)->Ok_0;
            &&& extent.base_address <= segment_start(headers[i], place.load_bias)
            &&& segment_end(headers[i], place.load_bias) <= extent.end_address
            &&& headers[i].p_flags & PF_X != 0 ==> segment_end(headers[i], place.load_bias)
                <= extent.code_end
        }),
{
    law_a_module_spans_its_loadable_segments(headers, place.load_bias, place.page_size, i);
}

/// A module reaches no further than its segments: it ends where one of them does,
/// and its code where an executable one does, if there is one, rounded up to
/// whole pages.
pub proof fn law_a_module_ends_where_a_segment_does(
    process: StillProcess,
    place: ModulePlace,
    elf_header: ElfHeader,
    headers: Seq<ProgramHeader>,
)
    requires
        place.page_size > 0,
        segments_fit(headers, place.load_bias, place.page_size),
        extent_with_headers(process, place, elf_header, headers) is Ok,
    ensures
        ({
            let extent = extent_with_headers(process, place, elf_header, headers)->Ok_0;
            &&& exists|i: int|
                0 <= i < headers.len() && (#[trigger] headers[i]).p_type == PT_LOAD
                    && extent.end_address == aligned_up(
                    segment_end(headers[i], place.load_bias),
                    place.page_size as int,
                )
            &&& (exists|i: int|
                0 <= i < headers.len() && (#[trigger] headers[i]).p_type == PT_LOAD
                    && headers[i].p_flags & PF_X != 0) ==> exists|i: int|
                0 <= i < headers.len() && (#[trigger] headers[i]).p_type == PT_LOAD
                    && headers[i].p_flags & PF_X != 0 && extent.code_end == aligned_up(
                    segment_end(headers[i], place.load_bias),
                    place.page_size as int,
                )
        }),
{
    let segments = loadable_segments(headers, place.load_bias, place.page_size);
    lemma_loadable_segments(headers, place.load_bias, place.page_size);
    law_a_span_covers_its_segments(segments);
    let span = span_of(segments)->0;
    let high = choose|k: int| 0 <= k < segments.len() && (#[trigger] segments[k]).end == span.end;
    assert(segments.contains(segments[high]));
    lemma_rounded_end(headers, place, segments[high]);
    if exists|i: int|
        0 <= i < headers.len() && (#[trigger] headers[i]).p_type == PT_LOAD && headers[i].p_flags
            & PF_X != 0 {
        let i = choose|i: int|
            0 <= i < headers.len() && (#[trigger] headers[i]).p_type == PT_LOAD
                && headers[i].p_flags & PF_X != 0;
        law_a_module_spans_its_loadable_segments(headers, place.load_bias, place.page_size, i);
        let code = choose|k: int|
            0 <= k < segments.len() && (#[trigger] segments[k]).executable && segments[k].end
                == span.code_end->0;
        assert(segments.contains(segments[code]));
        lemma_rounded_end(headers, place, segments[code]);
    }
}

/// A loadable segment ends where its program header says, rounded up.
proof fn lemma_rounded_end(headers: Seq<ProgramHeader>, place: ModulePlace, segment: Segment)
    requires
        place.page_size > 0,
        segments_fit(headers, place.load_bias, place.page_size),
        loadable_segments(headers, place.load_bias, place.page_size).contains(segment),
    ensures
        exists|i: int|
            0 <= i < headers.len() && (#[trigger] headers[i]).p_type == PT_LOAD && (
            headers[i].p_flags & PF_X != 0) == segment.executable && segment.end == aligned_up(
                segment_end(headers[i], place.load_bias),
                place.page_size as int,
            ),
{
    lemma_loadable_segments(headers, place.load_bias, place.page_size);
    let i = choose|i: int|
        0 <= i < headers.len() && (#[trigger] headers[i]).p_type == PT_LOAD && segment
            == segment_of(headers[i], place.load_bias, place.page_size);
    law_alignment_brackets(segment_end(headers[i], place.load_bias), place.page_size as int);
    assert(headers[i].p_type == PT_LOAD);
}

/// How far a module extends does not depend on the order of its program headers,
/// as long as the order does not decide between several dynamic sections which
/// one tells about packed relocations. Nor does its file offset, unless several
/// segments start lowest and disagree on it.
pub proof fn law_the_extent_does_not_depend_on_the_order_of_headers(
    process: StillProcess,
    place: ModulePlace,
    elf_header: ElfHeader,
    headers: Seq<ProgramHeader>,
    others: Seq<ProgramHeader>,
)
    requires
        place.page_size > 0,
        segments_fit(headers, place.load_bias, place.page_size),
        forall|header: ProgramHeader| #[trigger]
            headers.contains(header) <==> others.contains(header),
        ({
            let segments = loadable_segments(headers, place.load_bias, place.page_size);
            segments.len() > 0 && lowest_segment(segments).start != place.load_bias
                && elf_header.e_type == ET_DYN ==> object_packs_relocations(
                process,
                headers,
                place.load_bias,
            ) == object_packs_relocations(process, others, place.load_bias)
        }),
    ensures
        ({
            let segments = loadable_segments(headers, place.load_bias, place.page_size);
            let extent = extent_with_headers(process, place, elf_header, headers);
            let other = extent_with_headers(process, place, elf_header, others);
            match extent {
                Ok(found) => {
                    &&& other is Ok
                    &&& other->Ok_0 == (ModuleExtent {
                        file_offset: other->Ok_0.file_offset,
                        ..found
                    })
                    &&& lowest_offset_is_clear(segments) ==> other == extent
                },
                Err(_) => other == extent,
            }
        }),
{
    law_the_order_of_headers_does_not_matter(headers, others, place.load_bias, place.page_size);
}

/// A module without an executable segment has no code: its code ends where it
/// starts.
pub proof fn law_data_only_modules_have_no_code(
    process: StillProcess,
    place: ModulePlace,
    elf_header: ElfHeader,
    headers: Seq<ProgramHeader>,
)
    requires
        place.page_size > 0,
        segments_fit(headers, place.load_bias, place.page_size),
        extent_with_headers(process, place, elf_header, headers) is Ok,
        forall|i: int|
            0 <= i < headers.len() && (#[trigger] headers[i]).p_type == PT_LOAD
                ==> headers[i].p_flags & PF_X == 0,
    ensures
        ({
            let extent = extent_with_headers(process, place, elf_header, headers)->Ok_0;
            extent.code_end == extent.base_address
        }),
{
    let segments = loadable_segments(headers, place.load_bias, place.page_size);
    lemma_loadable_segments(headers, place.load_bias, place.page_size);
    law_a_span_covers_its_segments(segments);
    assert forall|k: int| 0 <= k < segments.len() implies !(#[trigger] segments[k]).executable by {
        assert(segments.contains(segments[k]));
    }
}

} // verus!

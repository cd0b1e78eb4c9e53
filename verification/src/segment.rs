//! The loadable segments of an object, and what they span together.

use vstd::prelude::*;

use crate::align::{
    align_down, align_up, aligned_down, aligned_up, law_alignment_brackets,
};
use crate::elf::{ProgramHeader, PF_X, PT_LOAD};

verus! {

/// One `PT_LOAD` segment, as the kernel would have mapped it.
#[derive(Debug, Clone, Copy, PartialEq, Eq, Structural)]
pub struct Segment {
    pub start: usize,
    pub end: usize,
    pub file_offset: usize,
    pub executable: bool,
}

/// The first address of a header's segment, before rounding.
pub open spec fn segment_start(header: ProgramHeader, load_bias: usize) -> int {
    load_bias + header.p_vaddr
}

/// The address right behind a header's segment, before rounding.
pub open spec fn segment_end(header: ProgramHeader, load_bias: usize) -> int {
    segment_start(header, load_bias) + header.p_memsz
}

/// The segment that a program header describes, rounded out to whole pages,
/// since that's the granularity the kernel actually mapped the segment at.
pub open spec fn segment_of(header: ProgramHeader, load_bias: usize, page_size: usize) -> Segment {
    Segment {
        start: aligned_down(segment_start(header, load_bias), page_size as int) as usize,
        end: aligned_up(segment_end(header, load_bias), page_size as int) as usize,
        file_offset: aligned_down(header.p_offset as int, page_size as int) as usize,
        executable: header.p_flags & PF_X != 0,
    }
}

/// The loadable segments of a program header table, in its order.
pub open spec fn loadable_segments(
    headers: Seq<ProgramHeader>,
    load_bias: usize,
    page_size: usize,
) -> Seq<Segment>
    decreases headers.len(),
{
    if headers.len() == 0 {
        Seq::empty()
    } else {
        let segments = loadable_segments(headers.drop_last(), load_bias, page_size);
        if headers.last().p_type == PT_LOAD {
            segments.push(segment_of(headers.last(), load_bias, page_size))
        } else {
            segments
        }
    }
}

/// Whether every loadable segment ends within the address space.
pub open spec fn segments_fit(
    headers: Seq<ProgramHeader>,
    load_bias: usize,
    page_size: usize,
) -> bool {
    forall|i: int|
        0 <= i < headers.len() && (#[trigger] headers[i]).p_type == PT_LOAD ==> aligned_up(
            segment_end(headers[i], load_bias),
            page_size as int,
        ) <= usize::MAX
}

/// The segment that starts lowest, the first one if several do.
pub open spec fn lowest_segment(segments: Seq<Segment>) -> Segment
    decreases segments.len(),
{
    if segments.len() <= 1 {
        segments[0]
    } else {
        let lowest = lowest_segment(segments.drop_last());
        if segments.last().start < lowest.start {
            segments.last()
        } else {
            lowest
        }
    }
}

/// The highest end of any segment.
pub open spec fn highest_end(segments: Seq<Segment>) -> usize
    decreases segments.len(),
{
    if segments.len() <= 1 {
        segments[0].end
    } else {
        let highest = highest_end(segments.drop_last());
        if segments.last().end > highest {
            segments.last().end
        } else {
            highest
        }
    }
}

/// The highest end of any executable segment, if there is one.
pub open spec fn highest_code_end(segments: Seq<Segment>) -> Option<usize>
    decreases segments.len(),
{
    if segments.len() == 0 {
        None
    } else {
        let highest = highest_code_end(segments.drop_last());
        if segments.last().executable && (highest matches Some(end) ==> segments.last().end
            > end) {
            Some(segments.last().end)
        } else {
            highest
        }
    }
}

/// What the loadable segments of an object span together, holes included.
#[derive(Debug, Clone, Copy, PartialEq, Eq, Structural)]
pub struct ModuleSpan {
    /// Where the lowest segment starts.
    pub start: usize,
    /// Where the segment that reaches highest ends.
    pub end: usize,
    /// Where the last executable segment ends, if there is one.
    pub code_end: Option<usize>,
    /// Where the lowest segment starts within the object's file.
    pub file_offset: usize,
}

/// What the segments span together, if there are any.
pub open spec fn span_of(segments: Seq<Segment>) -> Option<ModuleSpan> {
    if segments.len() == 0 {
        None
    } else {
        Some(
            ModuleSpan {
                start: lowest_segment(segments).start,
                end: highest_end(segments),
                code_end: highest_code_end(segments),
                file_offset: lowest_segment(segments).file_offset,
            },
        )
    }
}

/// The segment that a program header describes.
///
/// `p_vaddr` is relative to the module's load bias, which is zero for a
/// non-PIE main executable and the load address for everything else.
pub fn load_segment(header: &ProgramHeader, load_bias: usize, page_size: usize) -> (segment:
    Segment)
    requires
        page_size > 0,
        aligned_up(segment_end(*header, load_bias), page_size as int) <= usize::MAX,
    ensures
        segment == segment_of(*header, load_bias, page_size),
        segment.start <= segment.end,
{
    proof {
        law_alignment_brackets(segment_end(*header, load_bias), page_size as int);
        law_alignment_brackets(segment_start(*header, load_bias), page_size as int);
    }
    let start: usize = load_bias + header.p_vaddr;
    let end: usize = start + header.p_memsz;
    Segment {
        start: align_down(start, page_size),
        end: align_up(end, page_size),
        file_offset: align_down(header.p_offset, page_size),
        executable: header.p_flags & PF_X != 0,
    }
}

/// Whether every loadable segment ends within the address space.
pub fn check_segments_fit(
    program_headers: &[ProgramHeader],
    load_bias: usize,
    page_size: usize,
) -> (fit: bool)
    requires
        page_size > 0,
    ensures
        fit == segments_fit(program_headers@, load_bias, page_size),
{
    for i in 0..program_headers.len()
        invariant
            page_size > 0,
            segments_fit(program_headers@.take(i as int), load_bias, page_size),
    {
        let header: ProgramHeader = program_headers[i];
        let ghost seen = program_headers@.take(i as int);
        let ghost now = program_headers@.take(i + 1);
        if header.p_type == PT_LOAD {
            let ghost end = segment_end(header, load_bias);
            proof {
                law_alignment_brackets(end, page_size as int);
            }
            if header.p_vaddr > usize::MAX - load_bias {
                assert(program_headers@[i as int] == header);
                return false;
            }
            let start: usize = load_bias + header.p_vaddr;
            if header.p_memsz > usize::MAX - start {
                assert(program_headers@[i as int] == header);
                return false;
            }
            let last: usize = start + header.p_memsz;
            if last % page_size != 0 && align_down(last, page_size) > usize::MAX - page_size {
                assert(program_headers@[i as int] == header);
                return false;
            }
        }
        assert forall|k: int|
            0 <= k < now.len() && (#[trigger] now[k]).p_type == PT_LOAD implies aligned_up(
            segment_end(now[k], load_bias),
            page_size as int,
        ) <= usize::MAX by {
            if k < i {
                assert(now[k] == seen[k]);
            }
        }
    }
    assert(program_headers@.take(program_headers@.len() as int) =~= program_headers@);
    true
}

/// What the loadable segments of a program header table span together.
///
/// A module spans all of its segments, holes included. Whether a hole
/// belongs to the object isn't knowable from here -- the dynamic linker
/// reserves the whole range and pads the holes with PROT_NONE, while the
/// kernel, which maps the main executable and the interpreter, leaves them
/// unmapped -- and covering one costs nothing on its own. What must not
/// happen is a module swallowing another entry of the module list, and that
/// is resolved once the whole list is known, not here.
pub fn module_span(
    program_headers: &[ProgramHeader],
    load_bias: usize,
    page_size: usize,
) -> (span: Option<ModuleSpan>)
    requires
        page_size > 0,
        segments_fit(program_headers@, load_bias, page_size),
    ensures
        span == span_of(loadable_segments(program_headers@, load_bias, page_size)),
{
    let mut span: Option<ModuleSpan> = None;
    assert(program_headers@.take(0) =~= Seq::empty());
    for i in 0..program_headers.len()
        invariant
            page_size > 0,
            segments_fit(program_headers@, load_bias, page_size),
            span == span_of(
                loadable_segments(program_headers@.take(i as int), load_bias, page_size),
            ),
    {
        let header: ProgramHeader = program_headers[i];
        let ghost segments = loadable_segments(
            program_headers@.take(i as int),
            load_bias,
            page_size,
        );
        assert(program_headers@.take(i + 1).drop_last() =~= program_headers@.take(i as int));
        assert(program_headers@.take(i + 1).last() == header);
        if header.p_type == PT_LOAD {
            assert(program_headers@[i as int] == header);
            let segment: Segment = load_segment(&header, load_bias, page_size);
            let ghost grown = segments.push(segment);
            assert(grown.drop_last() =~= segments);
            assert(grown.last() == segment);
            let code_end: Option<usize> = if segment.executable {
                Some(segment.end)
            } else {
                None
            };
            proof {
                if segments.len() == 0 {
                    assert(highest_code_end(segments) is None);
                }
            }
            span = match span {
                None => Some(
                    ModuleSpan {
                        start: segment.start,
                        end: segment.end,
                        code_end,
                        file_offset: segment.file_offset,
                    },
                ),
                Some(so_far) => Some(
                    ModuleSpan {
                        start: if segment.start < so_far.start {
                            segment.start
                        } else {
                            so_far.start
                        },
                        end: if segment.end > so_far.end {
                            segment.end
                        } else {
                            so_far.end
                        },
                        code_end: match so_far.code_end {
                            Some(end) => if segment.executable && segment.end > end {
                                Some(segment.end)
                            } else {
                                Some(end)
                            },
                            None => code_end,
                        },
                        file_offset: if segment.start < so_far.start {
                            segment.file_offset
                        } else {
                            so_far.file_offset
                        },
                    },
                ),
            };
        }
    }
    assert(program_headers@.take(program_headers@.len() as int) =~= program_headers@);
    span
}

/// The span of an object covers each of its loadable segments, and its code ends
/// where the last executable one does, all of it within the span.
pub proof fn law_a_span_covers_its_segments(segments: Seq<Segment>)
    requires
        segments.len() > 0,
        forall|i: int|
            0 <= i < segments.len() ==> (#[trigger] segments[i]).start <= segments[i].end,
    ensures
        span_of(segments) is Some,
        ({
            let span = span_of(segments)->0;
            &&& forall|i: int|
                0 <= i < segments.len() ==> span.start <= (#[trigger] segments[i]).start
                    && segments[i].end <= span.end
            &&& forall|i: int|
                0 <= i < segments.len() && (#[trigger] segments[i]).executable
                    ==> span.code_end is Some && segments[i].end <= span.code_end->0
            &&& span.code_end is Some ==> span.start <= span.code_end->0 <= span.end
            &&& span.start <= span.end
            &&& span.code_end is Some <==> exists|i: int|
                0 <= i < segments.len() && (#[trigger] segments[i]).executable
            &&& span.code_end is Some ==> exists|i: int|
                0 <= i < segments.len() && (#[trigger] segments[i]).executable && segments[i].end
                    == span.code_end->0
            &&& exists|i: int|
                0 <= i < segments.len() && (#[trigger] segments[i]).start == span.start
                    && segments[i].file_offset == span.file_offset
            &&& exists|i: int| 0 <= i < segments.len() && (#[trigger] segments[i]).end == span.end
        }),
    decreases segments.len(),
{
    if segments.len() > 1 {
        let rest = segments.drop_last();
        assert forall|i: int| 0 <= i < rest.len() implies (#[trigger] rest[i]).start
            <= rest[i].end by {
            assert(segments[i].start <= segments[i].end);
        }
        law_a_span_covers_its_segments(rest);
        assert(forall|i: int| 0 <= i < rest.len() ==> #[trigger] segments[i] == rest[i]);
        let last = segments.len() - 1;
        assert(segments[last] == segments.last());
        let before = span_of(rest)->0;
        let low = choose|i: int|
            0 <= i < rest.len() && (#[trigger] rest[i]).start == before.start
                && rest[i].file_offset == before.file_offset;
        assert(segments[low] == rest[low]);
        let high = choose|i: int| 0 <= i < rest.len() && (#[trigger] rest[i]).end == before.end;
        assert(segments[high] == rest[high]);
        if before.code_end is Some {
            let code = choose|i: int|
                0 <= i < rest.len() && (#[trigger] rest[i]).executable && rest[i].end
                    == before.code_end->0;
            assert(segments[code] == rest[code]);
        }
    } else {
        assert(segments.drop_last() =~= Seq::empty());
        assert(highest_code_end(segments.drop_last()) is None);
        assert(segments[0] == segments.last());
    }
}

/// Where the loadable segments lie, as long as they end within the address
/// space.
pub proof fn lemma_loadable_segments(
    headers: Seq<ProgramHeader>,
    load_bias: usize,
    page_size: usize,
)
    requires
        page_size > 0,
        segments_fit(headers, load_bias, page_size),
    ensures
        ({
            let segments = loadable_segments(headers, load_bias, page_size);
            &&& forall|i: int|
                0 <= i < segments.len() ==> (#[trigger] segments[i]).start <= segments[i].end
                    && load_bias <= segments[i].end
            &&& forall|i: int|
                0 <= i < headers.len() && (#[trigger] headers[i]).p_type == PT_LOAD
                    ==> segments.contains(segment_of(headers[i], load_bias, page_size))
            &&& forall|segment: Segment| #[trigger]
                segments.contains(segment) ==> exists|i: int|
                    0 <= i < headers.len() && (#[trigger] headers[i]).p_type == PT_LOAD && segment
                        == segment_of(headers[i], load_bias, page_size)
        }),
    decreases headers.len(),
{
    let segments = loadable_segments(headers, load_bias, page_size);
    if headers.len() > 0 {
        let rest = headers.drop_last();
        let last = headers.last();
        assert forall|i: int| 0 <= i < rest.len() && (#[trigger] rest[i]).p_type == PT_LOAD implies
        aligned_up(segment_end(rest[i], load_bias), page_size as int) <= usize::MAX by {
            assert(headers[i] == rest[i]);
        }
        lemma_loadable_segments(rest, load_bias, page_size);
        let before = loadable_segments(rest, load_bias, page_size);
        let here = segment_of(last, load_bias, page_size);
        assert(headers[headers.len() - 1] == last);
        assert(forall|i: int| 0 <= i < rest.len() ==> #[trigger] headers[i] == rest[i]);
        if last.p_type == PT_LOAD {
            law_alignment_brackets(segment_end(last, load_bias), page_size as int);
            law_alignment_brackets(segment_start(last, load_bias), page_size as int);
            assert(segments[before.len() as int] == here);
            assert(forall|i: int| 0 <= i < before.len() ==> #[trigger] segments[i] == before[i]);
        }
        assert forall|i: int|
            0 <= i < headers.len() && (#[trigger] headers[i]).p_type == PT_LOAD implies
        segments.contains(segment_of(headers[i], load_bias, page_size)) by {
            if i < rest.len() {
                let segment = segment_of(rest[i], load_bias, page_size);
                assert(before.contains(segment));
                let k = choose|k: int| 0 <= k < before.len() && before[k] == segment;
                assert(segments[k] == segment);
            }
        }
        assert forall|segment: Segment| #[trigger] segments.contains(segment) implies exists|
            i: int,
        |
            0 <= i < headers.len() && (#[trigger] headers[i]).p_type == PT_LOAD && segment
                == segment_of(headers[i], load_bias, page_size) by {
            let k = choose|k: int| 0 <= k < segments.len() && segments[k] == segment;
            if k < before.len() {
                assert(before.contains(before[k]));
                let i = choose|i: int|
                    0 <= i < rest.len() && (#[trigger] rest[i]).p_type == PT_LOAD && segment
                        == segment_of(rest[i], load_bias, page_size);
                assert(headers[i] == rest[i]);
            } else {
                assert(headers[headers.len() - 1].p_type == PT_LOAD);
            }
        }
    }
}

/// A module spans all of its `PT_LOAD` segments: every byte that one of them
/// takes in memory lies within the span, and so does every executable one
/// within the module's code.
pub proof fn law_a_module_spans_its_loadable_segments(
    headers: Seq<ProgramHeader>,
    load_bias: usize,
    page_size: usize,
    i: int,
)
    requires
        page_size > 0,
        segments_fit(headers, load_bias, page_size),
        0 <= i < headers.len(),
        headers[i].p_type == PT_LOAD,
    ensures
        span_of(loadable_segments(headers, load_bias, page_size)) is Some,
        ({
            let span = span_of(loadable_segments(headers, load_bias, page_size))->0;
            &&& span.start <= segment_start(headers[i], load_bias)
            &&& segment_end(headers[i], load_bias) <= span.end
            &&& load_bias <= span.end
            &&& headers[i].p_flags & PF_X != 0 ==> span.code_end is Some && segment_end(
                headers[i],
                load_bias,
            ) <= span.code_end->0
        }),
{
    let segments = loadable_segments(headers, load_bias, page_size);
    let here = segment_of(headers[i], load_bias, page_size);
    lemma_loadable_segments(headers, load_bias, page_size);
    assert(segments.contains(here));
    law_a_span_covers_its_segments(segments);
    law_alignment_brackets(segment_end(headers[i], load_bias), page_size as int);
    law_alignment_brackets(segment_start(headers[i], load_bias), page_size as int);
    let k = choose|k: int| 0 <= k < segments.len() && segments[k] == here;
    assert(segments[k].executable == here.executable);
}

/// An object has no span exactly if none of its program headers is loadable.
pub proof fn law_only_objects_without_segments_have_no_span(
    headers: Seq<ProgramHeader>,
    load_bias: usize,
    page_size: usize,
)
    ensures
        span_of(loadable_segments(headers, load_bias, page_size)) is None <==> forall|i: int|
            0 <= i < headers.len() ==> (#[trigger] headers[i]).p_type != PT_LOAD,
    decreases headers.len(),
{
    if headers.len() > 0 {
        let rest = headers.drop_last();
        law_only_objects_without_segments_have_no_span(rest, load_bias, page_size);
        assert(forall|i: int| 0 <= i < rest.len() ==> #[trigger] headers[i] == rest[i]);
        assert(headers[headers.len() - 1] == headers.last());
        if span_of(loadable_segments(rest, load_bias, page_size)) is Some {
            let i = choose|i: int| 0 <= i < rest.len() && (#[trigger] rest[i]).p_type == PT_LOAD;
            assert(headers[i] == rest[i]);
        }
    }
}

/// Program header tables with the same headers have the same loadable segments.
proof fn lemma_same_headers_same_segments(
    headers: Seq<ProgramHeader>,
    others: Seq<ProgramHeader>,
    load_bias: usize,
    page_size: usize,
)
    requires
        page_size > 0,
        segments_fit(headers, load_bias, page_size),
        forall|header: ProgramHeader| #[trigger]
            headers.contains(header) <==> others.contains(header),
    ensures
        segments_fit(others, load_bias, page_size),
        forall|segment: Segment| #[trigger]
            loadable_segments(headers, load_bias, page_size).contains(segment)
                <==> loadable_segments(others, load_bias, page_size).contains(segment),
{
    assert forall|i: int| 0 <= i < others.len() && (#[trigger] others[i]).p_type == PT_LOAD implies
    aligned_up(segment_end(others[i], load_bias), page_size as int) <= usize::MAX by {
        assert(others.contains(others[i]));
        assert(headers.contains(others[i]));
        let k = choose|k: int| 0 <= k < headers.len() && headers[k] == others[i];
        assert(headers[k].p_type == PT_LOAD);
    }
    lemma_segments_follow(headers, others, load_bias, page_size);
    lemma_segments_follow(others, headers, load_bias, page_size);
}

/// The loadable segments of some headers are among those of more headers.
proof fn lemma_segments_follow(
    headers: Seq<ProgramHeader>,
    others: Seq<ProgramHeader>,
    load_bias: usize,
    page_size: usize,
)
    requires
        page_size > 0,
        segments_fit(headers, load_bias, page_size),
        segments_fit(others, load_bias, page_size),
        forall|header: ProgramHeader| #[trigger]
            headers.contains(header) ==> others.contains(header),
    ensures
        forall|segment: Segment| #[trigger]
            loadable_segments(headers, load_bias, page_size).contains(segment)
                ==> loadable_segments(others, load_bias, page_size).contains(segment),
{
    lemma_loadable_segments(headers, load_bias, page_size);
    lemma_loadable_segments(others, load_bias, page_size);
    assert forall|segment: Segment| #[trigger]
        loadable_segments(headers, load_bias, page_size).contains(
            segment,
        ) implies loadable_segments(others, load_bias, page_size).contains(segment) by {
        let i = choose|i: int|
            0 <= i < headers.len() && (#[trigger] headers[i]).p_type == PT_LOAD && segment
                == segment_of(headers[i], load_bias, page_size);
        assert(headers.contains(headers[i]));
        let k = choose|k: int| 0 <= k < others.len() && others[k] == headers[i];
        assert(others[k].p_type == PT_LOAD);
    }
}

/// Spans of the same segments agree as far as one is no wider than the other.
proof fn lemma_span_bounds(segments: Seq<Segment>, others: Seq<Segment>)
    requires
        segments.len() > 0,
        others.len() > 0,
        forall|i: int|
            0 <= i < segments.len() ==> (#[trigger] segments[i]).start <= segments[i].end,
        forall|i: int| 0 <= i < others.len() ==> (#[trigger] others[i]).start <= others[i].end,
        forall|segment: Segment| #[trigger]
            segments.contains(segment) ==> others.contains(segment),
    ensures
        ({
            let span = span_of(segments)->0;
            let wider = span_of(others)->0;
            &&& wider.start <= span.start
            &&& span.end <= wider.end
            &&& span.code_end matches Some(end) ==> wider.code_end is Some && end
                <= wider.code_end->0
        }),
{
    law_a_span_covers_its_segments(segments);
    law_a_span_covers_its_segments(others);
    let span = span_of(segments)->0;
    let low = choose|i: int|
        0 <= i < segments.len() && (#[trigger] segments[i]).start == span.start;
    assert(segments.contains(segments[low]));
    let l = choose|l: int| 0 <= l < others.len() && others[l] == segments[low];
    assert(others[l].start == span.start);
    let high = choose|i: int| 0 <= i < segments.len() && (#[trigger] segments[i]).end == span.end;
    assert(segments.contains(segments[high]));
    let h = choose|h: int| 0 <= h < others.len() && others[h] == segments[high];
    assert(others[h].end == span.end);
    if span.code_end is Some {
        let code = choose|i: int|
            0 <= i < segments.len() && (#[trigger] segments[i]).executable && segments[i].end
                == span.code_end->0;
        assert(segments.contains(segments[code]));
        let c = choose|c: int| 0 <= c < others.len() && others[c] == segments[code];
        assert(others[c].executable);
    }
}

/// Whether all loadable segments that start where the lowest one does start at
/// the same place of the object's file, so that none of them has to be the first.
pub open spec fn lowest_offset_is_clear(segments: Seq<Segment>) -> bool {
    forall|i: int, j: int|
        0 <= i < segments.len() && 0 <= j < segments.len() && (#[trigger] segments[i]).start
            == lowest_segment(segments).start && (#[trigger] segments[j]).start == lowest_segment(
            segments,
        ).start ==> segments[i].file_offset == segments[j].file_offset
}

/// What an object spans does not depend on the order of its program headers. Nor
/// does its file offset, unless several segments start lowest and disagree on it:
/// then the first of them decides.
pub proof fn law_the_order_of_headers_does_not_matter(
    headers: Seq<ProgramHeader>,
    others: Seq<ProgramHeader>,
    load_bias: usize,
    page_size: usize,
)
    requires
        page_size > 0,
        segments_fit(headers, load_bias, page_size),
        forall|header: ProgramHeader| #[trigger]
            headers.contains(header) <==> others.contains(header),
    ensures
        segments_fit(others, load_bias, page_size),
        ({
            let segments = loadable_segments(headers, load_bias, page_size);
            let span = span_of(segments);
            let other = span_of(loadable_segments(others, load_bias, page_size));
            &&& span is Some <==> other is Some
            &&& span is Some ==> other == Some(
                ModuleSpan { file_offset: other->0.file_offset, ..span->0 },
            )
            &&& lowest_offset_is_clear(segments) ==> other == span
        }),
{
    lemma_same_headers_same_segments(headers, others, load_bias, page_size);
    lemma_loadable_segments(headers, load_bias, page_size);
    lemma_loadable_segments(others, load_bias, page_size);
    let segments = loadable_segments(headers, load_bias, page_size);
    let other_segments = loadable_segments(others, load_bias, page_size);
    if segments.len() > 0 {
        assert(segments.contains(segments[0]));
    }
    if other_segments.len() > 0 {
        assert(other_segments.contains(other_segments[0]));
        assert(segments.contains(other_segments[0]));
    }
    if segments.len() > 0 && other_segments.len() > 0 {
        lemma_span_bounds(segments, other_segments);
        lemma_span_bounds(other_segments, segments);
        law_a_span_covers_its_segments(segments);
        law_a_span_covers_its_segments(other_segments);
        let span = span_of(segments)->0;
        let other = span_of(other_segments)->0;
        let i = choose|i: int|
            0 <= i < segments.len() && (#[trigger] segments[i]).start == span.start
                && segments[i].file_offset == span.file_offset;
        let j = choose|j: int|
            0 <= j < other_segments.len() && (#[trigger] other_segments[j]).start == other.start
                && other_segments[j].file_offset == other.file_offset;
        assert(other_segments.contains(other_segments[j]));
        assert(segments.contains(other_segments[j]));
        let k = choose|k: int| 0 <= k < segments.len() && segments[k] == other_segments[j];
        assert(segments[i].start == segments[k].start);
    }
}

} // verus!

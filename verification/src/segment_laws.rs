//! What an object spans, as its program headers tell it.

use vstd::prelude::*;

use crate::align::{aligned_down, aligned_up, law_alignment_brackets};
use crate::elf::{ProgramHeader, PF_X, PT_LOAD};
use crate::segment::{
    law_a_span_covers_its_segments, lemma_loadable_segments, loadable_segments, lowest_segment,
    segment_end, segment_of, segment_start, segments_fit, span_of,
};

verus! {

/// The start of the page that holds an address.
pub open spec fn page_of(address: int, page_size: int) -> int {
    address - address % page_size
}

/// The address itself if a page starts there, or else the start of the next page.
pub open spec fn next_page(address: int, page_size: int) -> int {
    if address % page_size == 0 {
        address
    } else {
        address - address % page_size + page_size
    }
}

/// Rounding goes to the start of a page.
pub proof fn law_rounding_goes_to_pages(address: int, page_size: int)
    requires
        page_size > 0,
        address >= 0,
    ensures
        aligned_down(address, page_size) == page_of(address, page_size),
        aligned_up(address, page_size) == next_page(address, page_size),
        0 <= page_of(address, page_size) <= address <= next_page(address, page_size),
{
    law_alignment_brackets(address, page_size);
    vstd::arithmetic::div_mod::lemma_fundamental_div_mod(address, page_size);
    vstd::arithmetic::mul::lemma_mul_is_commutative(page_size, address / page_size);
    vstd::arithmetic::div_mod::lemma_mod_bound(address, page_size);
}

/// Segments fit exactly if each loadable one, rounded out to whole pages, ends at an
/// address.
pub proof fn law_segments_fit_if_their_ends_are_addresses(
    headers: Seq<ProgramHeader>,
    load_bias: usize,
    page_size: usize,
)
    requires
        page_size > 0,
    ensures
        segments_fit(headers, load_bias, page_size) <==> forall|i: int|
            0 <= i < headers.len() && (#[trigger] headers[i]).p_type == PT_LOAD ==> next_page(
                load_bias + headers[i].p_vaddr + headers[i].p_memsz,
                page_size as int,
            ) <= usize::MAX,
{
    assert forall|i: int|
        0 <= i < headers.len() && (#[trigger] headers[i]).p_type == PT_LOAD implies aligned_up(
        segment_end(headers[i], load_bias),
        page_size as int,
    ) == next_page(
        load_bias + headers[i].p_vaddr + headers[i].p_memsz,
        page_size as int,
    ) by {
        law_rounding_goes_to_pages(
            load_bias + headers[i].p_vaddr + headers[i].p_memsz,
            page_size as int,
        );
    }
}

/// A program header's segment takes whole pages, starts at the load bias and its
/// virtual address, takes its size in memory, and is executable if its flag says so.
pub proof fn law_a_segment_is_what_its_header_says(
    header: ProgramHeader,
    load_bias: usize,
    page_size: usize,
)
    requires
        page_size > 0,
        next_page(load_bias + header.p_vaddr + header.p_memsz, page_size as int) <= usize::MAX,
    ensures
        ({
            let segment = segment_of(header, load_bias, page_size);
            &&& segment.start == page_of(load_bias + header.p_vaddr, page_size as int)
            &&& segment.end == next_page(
                load_bias + header.p_vaddr + header.p_memsz,
                page_size as int,
            )
            &&& segment.file_offset == page_of(header.p_offset as int, page_size as int)
            &&& segment.executable <==> header.p_flags & PF_X != 0
            &&& segment_start(header, load_bias) == load_bias + header.p_vaddr
            &&& segment_end(header, load_bias) == load_bias + header.p_vaddr + header.p_memsz
        }),
{
    law_rounding_goes_to_pages(load_bias + header.p_vaddr, page_size as int);
    law_rounding_goes_to_pages(load_bias + header.p_vaddr + header.p_memsz, page_size as int);
    law_rounding_goes_to_pages(header.p_offset as int, page_size as int);
}

/// An object ends where the loadable segment that reaches highest does, rounded up.
pub proof fn law_an_object_ends_with_its_highest_segment(
    headers: Seq<ProgramHeader>,
    load_bias: usize,
    page_size: usize,
    high: int,
)
    requires
        page_size > 0,
        segments_fit(headers, load_bias, page_size),
        0 <= high < headers.len(),
        headers[high].p_type == PT_LOAD,
        forall|j: int|
            0 <= j < headers.len() && (#[trigger] headers[j]).p_type == PT_LOAD ==> load_bias
                + headers[j].p_vaddr + headers[j].p_memsz <= load_bias + headers[high].p_vaddr
                + headers[high].p_memsz,
    ensures
        span_of(loadable_segments(headers, load_bias, page_size)) matches Some(span) && span.end
            == next_page(
            load_bias + headers[high].p_vaddr + headers[high].p_memsz,
            page_size as int,
        ),
{
    let segments = loadable_segments(headers, load_bias, page_size);
    law_segments_fit_if_their_ends_are_addresses(headers, load_bias, page_size);
    lemma_loadable_segments(headers, load_bias, page_size);
    law_a_segment_is_what_its_header_says(headers[high], load_bias, page_size);
    let top = segment_of(headers[high], load_bias, page_size);
    assert(segments.contains(top));
    let t = choose|t: int| 0 <= t < segments.len() && segments[t] == top;
    assert(segments[t].end == top.end);
    law_a_span_covers_its_segments(segments);
    let span = span_of(segments)->0;
    let k = choose|k: int| 0 <= k < segments.len() && (#[trigger] segments[k]).end == span.end;
    assert(segments.contains(segments[k]));
    let j = choose|j: int|
        0 <= j < headers.len() && (#[trigger] headers[j]).p_type == PT_LOAD && segments[k]
            == segment_of(headers[j], load_bias, page_size);
    law_a_segment_is_what_its_header_says(headers[j], load_bias, page_size);
    crate::align::law_alignment_is_monotonic(
        load_bias + headers[j].p_vaddr + headers[j].p_memsz,
        load_bias + headers[high].p_vaddr + headers[high].p_memsz,
        page_size as int,
    );
}

/// An object's code ends where the executable loadable segment that reaches highest
/// does, rounded up.
pub proof fn law_code_ends_with_the_highest_executable_segment(
    headers: Seq<ProgramHeader>,
    load_bias: usize,
    page_size: usize,
    high: int,
)
    requires
        page_size > 0,
        segments_fit(headers, load_bias, page_size),
        0 <= high < headers.len(),
        headers[high].p_type == PT_LOAD,
        headers[high].p_flags & PF_X != 0,
        forall|j: int|
            0 <= j < headers.len() && (#[trigger] headers[j]).p_type == PT_LOAD
                && headers[j].p_flags & PF_X != 0 ==> load_bias + headers[j].p_vaddr
                + headers[j].p_memsz <= load_bias + headers[high].p_vaddr + headers[high].p_memsz,
    ensures
        span_of(loadable_segments(headers, load_bias, page_size)) matches Some(span)
            && span.code_end is Some && span.code_end->0 == next_page(
            load_bias + headers[high].p_vaddr + headers[high].p_memsz,
            page_size as int,
        ),
{
    let segments = loadable_segments(headers, load_bias, page_size);
    law_segments_fit_if_their_ends_are_addresses(headers, load_bias, page_size);
    lemma_loadable_segments(headers, load_bias, page_size);
    law_a_segment_is_what_its_header_says(headers[high], load_bias, page_size);
    let top = segment_of(headers[high], load_bias, page_size);
    assert(segments.contains(top));
    let t = choose|t: int| 0 <= t < segments.len() && segments[t] == top;
    assert(segments[t].executable);
    law_a_span_covers_its_segments(segments);
    let span = span_of(segments)->0;
    let k = choose|k: int|
        0 <= k < segments.len() && (#[trigger] segments[k]).executable && segments[k].end
            == span.code_end->0;
    assert(segments.contains(segments[k]));
    let j = choose|j: int|
        0 <= j < headers.len() && (#[trigger] headers[j]).p_type == PT_LOAD && segments[k]
            == segment_of(headers[j], load_bias, page_size);
    law_a_segment_is_what_its_header_says(headers[j], load_bias, page_size);
    crate::align::law_alignment_is_monotonic(
        load_bias + headers[j].p_vaddr + headers[j].p_memsz,
        load_bias + headers[high].p_vaddr + headers[high].p_memsz,
        page_size as int,
    );
}

/// An object without an executable loadable segment has no code.
pub proof fn law_no_executable_segment_no_code(
    headers: Seq<ProgramHeader>,
    load_bias: usize,
    page_size: usize,
)
    requires
        page_size > 0,
        segments_fit(headers, load_bias, page_size),
        forall|j: int|
            0 <= j < headers.len() && (#[trigger] headers[j]).p_type == PT_LOAD
                ==> headers[j].p_flags & PF_X == 0,
    ensures
        span_of(loadable_segments(headers, load_bias, page_size)) matches Some(span)
            ==> span.code_end is None,
{
    let segments = loadable_segments(headers, load_bias, page_size);
    law_segments_fit_if_their_ends_are_addresses(headers, load_bias, page_size);
    lemma_loadable_segments(headers, load_bias, page_size);
    if segments.len() > 0 {
        law_a_span_covers_its_segments(segments);
        assert forall|k: int| 0 <= k < segments.len() implies !(
        #[trigger] segments[k]).executable by {
            assert(segments.contains(segments[k]));
            let j = choose|j: int|
                0 <= j < headers.len() && (#[trigger] headers[j]).p_type == PT_LOAD && segments[k]
                    == segment_of(headers[j], load_bias, page_size);
            law_a_segment_is_what_its_header_says(headers[j], load_bias, page_size);
        }
    }
}

/// Which segment is the lowest.
proof fn lemma_lowest_segment(
    headers: Seq<ProgramHeader>,
    load_bias: usize,
    page_size: usize,
    low: int,
)
    requires
        page_size > 0,
        segments_fit(headers, load_bias, page_size),
        0 <= low < headers.len(),
        headers[low].p_type == PT_LOAD,
        forall|j: int|
            0 <= j < headers.len() && (#[trigger] headers[j]).p_type == PT_LOAD ==> page_of(
                load_bias + headers[low].p_vaddr,
                page_size as int,
            ) <= page_of(load_bias + headers[j].p_vaddr, page_size as int) && (j < low ==> page_of(
                load_bias + headers[low].p_vaddr,
                page_size as int,
            ) < page_of(load_bias + headers[j].p_vaddr, page_size as int)),
    ensures
        loadable_segments(headers, load_bias, page_size).len() > 0,
        lowest_segment(loadable_segments(headers, load_bias, page_size)) == segment_of(
            headers[low],
            load_bias,
            page_size,
        ),
    decreases headers.len(),
{
    let segments = loadable_segments(headers, load_bias, page_size);
    let rest = headers.drop_last();
    let last = headers[headers.len() - 1];
    let before = loadable_segments(rest, load_bias, page_size);
    law_segments_fit_if_their_ends_are_addresses(headers, load_bias, page_size);
    assert forall|j: int| 0 <= j < rest.len() && (#[trigger] rest[j]).p_type == PT_LOAD implies
    next_page(load_bias + rest[j].p_vaddr + rest[j].p_memsz, page_size as int) <= usize::MAX by {
        assert(rest[j] == headers[j]);
    }
    law_segments_fit_if_their_ends_are_addresses(rest, load_bias, page_size);
    law_a_segment_is_what_its_header_says(headers[low], load_bias, page_size);
    if low < rest.len() {
        assert(rest[low] == headers[low]);
        assert forall|j: int| 0 <= j < rest.len() && (#[trigger] rest[j]).p_type
            == PT_LOAD implies page_of(load_bias + rest[low].p_vaddr, page_size as int) <= page_of(
            load_bias + rest[j].p_vaddr,
            page_size as int,
        ) && (j < low ==> page_of(load_bias + rest[low].p_vaddr, page_size as int) < page_of(
            load_bias + rest[j].p_vaddr,
            page_size as int,
        )) by {
            assert(rest[j] == headers[j]);
        }
        lemma_lowest_segment(rest, load_bias, page_size, low);
        if last.p_type == PT_LOAD {
            law_a_segment_is_what_its_header_says(last, load_bias, page_size);
            assert(segments.drop_last() =~= before);
        }
    } else {
        assert(segments == before.push(segment_of(last, load_bias, page_size)));
        assert(segments.drop_last() =~= before);
        if before.len() > 0 {
            lemma_loadable_segments(rest, load_bias, page_size);
            law_a_span_covers_its_segments(before);
            let span = span_of(before)->0;
            let k = choose|k: int|
                0 <= k < before.len() && (#[trigger] before[k]).start == span.start
                    && before[k].file_offset == span.file_offset;
            assert(before.contains(before[k]));
            let j = choose|j: int|
                0 <= j < rest.len() && (#[trigger] rest[j]).p_type == PT_LOAD && before[k]
                    == segment_of(rest[j], load_bias, page_size);
            assert(headers[j] == rest[j]);
            law_a_segment_is_what_its_header_says(headers[j], load_bias, page_size);
        }
    }
}

/// An object starts at the page of its lowest loadable segment, the first one if
/// several start there, which also gives the place in the object's file.
pub proof fn law_an_object_starts_with_its_lowest_segment(
    headers: Seq<ProgramHeader>,
    load_bias: usize,
    page_size: usize,
    low: int,
)
    requires
        page_size > 0,
        segments_fit(headers, load_bias, page_size),
        0 <= low < headers.len(),
        headers[low].p_type == PT_LOAD,
        forall|j: int|
            0 <= j < headers.len() && (#[trigger] headers[j]).p_type == PT_LOAD ==> page_of(
                load_bias + headers[low].p_vaddr,
                page_size as int,
            ) <= page_of(load_bias + headers[j].p_vaddr, page_size as int) && (j < low ==> page_of(
                load_bias + headers[low].p_vaddr,
                page_size as int,
            ) < page_of(load_bias + headers[j].p_vaddr, page_size as int)),
    ensures
        span_of(loadable_segments(headers, load_bias, page_size)) matches Some(span) && span.start
            == page_of(load_bias + headers[low].p_vaddr, page_size as int) && span.file_offset
            == page_of(headers[low].p_offset as int, page_size as int),
{
    lemma_lowest_segment(headers, load_bias, page_size, low);
    law_segments_fit_if_their_ends_are_addresses(headers, load_bias, page_size);
    law_a_segment_is_what_its_header_says(headers[low], load_bias, page_size);
}

} // verus!

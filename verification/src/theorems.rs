//! What holds of scans whatever the notation, the wildcards at the ends of
//! a signature, and the number of threads.

use vstd::prelude::*;
use crate::matching::{
    leading_wildcards, lemma_leading_wildcards, lemma_leading_wildcards_bound,
    lemma_trailing_wildcards, lemma_trailing_wildcards_bound, lemma_trimmed_core,
    trailing_wildcards, trim_back, trim_front, trimmed, window_matches,
};
use crate::notation::{code_mask, ida_slots, slot_bytes, slot_mask};
use crate::pattern::{
    chunk_bytes, chunk_end, chunk_holds, chunk_origin, chunk_start, lemma_chunks_cover,
    lemma_window_in_chunk, scan_trace, Pattern, PatternView,
};
use crate::sink::MatchSink;

verus! {

/// What the scan of chunk `index` alone reports, when a buffer is divided
/// among the threads of a pattern.
pub open spec fn chunk_reports(view: PatternView, data: Seq<u8>, index: int, offset: int) -> bool {
    view.reports_in(
        chunk_bytes(view, data, index),
        chunk_origin(view, data.len() as int, index),
        offset,
    )
}

/// The bytes in the wildcard slots of a signature are of no account: two
/// signatures with one mask that agree in the fixed slots report the same
/// offsets.
pub proof fn lemma_wildcard_bytes_are_free(
    first: Seq<u8>,
    second: Seq<u8>,
    mask: Seq<bool>,
    first_threads: nat,
    second_threads: nat,
    data: Seq<u8>,
    offset: int,
)
    requires
        first.len() == mask.len(),
        second.len() == mask.len(),
        forall|i: int| 0 <= i < mask.len() && #[trigger] mask[i] ==> first[i] == second[i],
    ensures
        PatternView::build(first, mask, first_threads).reports(data, offset) == PatternView::build(
            second,
            mask,
            second_threads,
        ).reports(data, offset),
{
    let front = trim_front(mask) as int;
    let core_mask = trimmed(mask, mask);
    let first_core = trimmed(first, mask);
    let second_core = trimmed(second, mask);
    lemma_leading_wildcards_bound(mask);
    lemma_trailing_wildcards_bound(mask);
    if leading_wildcards(mask) != mask.len() {
        lemma_trimmed_core(mask);
    }
    assert(first_core.len() == second_core.len());
    assert forall|j: int| 0 <= j < core_mask.len() && #[trigger] core_mask[j] implies first_core[j]
        == second_core[j] by {
        assert(mask[front + j]);
    }
}

/// A signature written in the code style and one written in the IDA style
/// that have the same wildcard slots and the same bytes in the fixed ones
/// give patterns that report the same offsets in every buffer, whatever
/// their thread counts.
pub proof fn lemma_notations_agree(
    code_signature: Seq<u8>,
    code_text: Seq<char>,
    ida_text: Seq<char>,
    code_threads: nat,
    ida_threads: nat,
    data: Seq<u8>,
    offset: int,
)
    requires
        code_signature.len() == code_text.len(),
        code_text.len() == ida_slots(ida_text).len(),
        forall|i: int|
            0 <= i < code_text.len() ==> (code_text[i] != '?') == (#[trigger] ida_slots(
                ida_text,
            )[i]).fixed(),
        forall|i: int|
            0 <= i < code_text.len() && (#[trigger] ida_slots(ida_text)[i]).fixed()
                ==> code_signature[i] == ida_slots(ida_text)[i].byte(),
    ensures
        PatternView::build(code_signature, code_mask(code_text), code_threads).reports(data, offset)
            == PatternView::build(
            slot_bytes(ida_slots(ida_text)),
            slot_mask(ida_slots(ida_text)),
            ida_threads,
        ).reports(data, offset),
{
    let slots = ida_slots(ida_text);
    assert(code_mask(code_text) =~= slot_mask(slots));
    assert forall|i: int|
        0 <= i < slot_mask(slots).len() && #[trigger] slot_mask(slots)[i] implies code_signature[i]
        == slot_bytes(slots)[i] by {
        assert(slots[i].fixed());
    }
    lemma_wildcard_bytes_are_free(
        code_signature,
        slot_bytes(slots),
        slot_mask(slots),
        code_threads,
        ida_threads,
        data,
        offset,
    );
}

/// Trimming a trimmed signature changes nothing.
pub proof fn lemma_trimming_is_idempotent(signature: Seq<u8>, mask: Seq<bool>)
    requires
        signature.len() == mask.len(),
    ensures
        trim_front(trimmed(mask, mask)) == 0,
        trim_back(trimmed(mask, mask)) == 0,
        trimmed(trimmed(signature, mask), trimmed(mask, mask)) == trimmed(signature, mask),
        trimmed(trimmed(mask, mask), trimmed(mask, mask)) == trimmed(mask, mask),
{
    let core_mask = trimmed(mask, mask);
    let core = trimmed(signature, mask);
    lemma_leading_wildcards_bound(mask);
    lemma_trailing_wildcards_bound(mask);
    if leading_wildcards(mask) != mask.len() {
        lemma_trimmed_core(mask);
        lemma_leading_wildcards(core_mask, 0);
        lemma_trailing_wildcards(core_mask, 0);
    } else {
        assert(core_mask =~= mask);
    }
    assert(core.len() == core_mask.len());
    assert(trimmed(core, core_mask) =~= core);
    assert(trimmed(core_mask, core_mask) =~= core_mask);
}

/// Trimming is invisible in what a scan reports: a signature with
/// wildcards at its ends reports an offset exactly when its trimmed core,
/// taken as a signature of its own, reports the offset moved on by the
/// number of leading wildcards. With no leading wildcard the two report
/// the same offsets.
pub proof fn lemma_trimming_is_transparent(
    signature: Seq<u8>,
    mask: Seq<bool>,
    threads: nat,
    data: Seq<u8>,
    offset: int,
)
    requires
        signature.len() == mask.len(),
    ensures
        PatternView::build(signature, mask, threads).reports(data, offset) <==> 0 <= offset
            && PatternView::build(trimmed(signature, mask), trimmed(mask, mask), threads).reports(
            data,
            offset + trim_front(mask),
        ),
{
    lemma_trimming_is_idempotent(signature, mask);
}

/// A scan for the trimmed signature finds what a search for the whole
/// signature would: every window that the whole signature matches is
/// reported, and a reported offset at which the whole signature fits in
/// the buffer is a match of it.
pub proof fn lemma_trimmed_scan_is_faithful(
    signature: Seq<u8>,
    mask: Seq<bool>,
    threads: nat,
    data: Seq<u8>,
    offset: int,
)
    requires
        signature.len() == mask.len(),
    ensures
        window_matches(signature, mask, data, offset) ==> PatternView::build(
            signature,
            mask,
            threads,
        ).reports(data, offset),
        PatternView::build(signature, mask, threads).reports(data, offset) && offset
            + signature.len() <= data.len() ==> window_matches(signature, mask, data, offset),
{
    let front = trim_front(mask) as int;
    let back = trim_back(mask) as int;
    let core = trimmed(signature, mask);
    let core_mask = trimmed(mask, mask);
    lemma_leading_wildcards_bound(mask);
    lemma_trailing_wildcards_bound(mask);
    if leading_wildcards(mask) != mask.len() {
        lemma_trimmed_core(mask);
    }
    assert(trailing_wildcards(mask) <= mask.len());
    if window_matches(signature, mask, data, offset) {
        assert forall|j: int| 0 <= j < core.len() && #[trigger] core_mask[j] implies data[offset
            + front + j] == core[j] by {
            assert(mask[front + j]);
        }
    }
    if PatternView::build(signature, mask, threads).reports(data, offset) && offset
        + signature.len() <= data.len() {
        assert forall|j: int| 0 <= j < signature.len() && #[trigger] mask[j] implies data[offset
            + j] == signature[j] by {
            assert(front <= j < mask.len() - back);
            assert(core_mask[j - front]);
        }
    }
}

/// The number of threads is invisible in what a scan reports: an offset
/// is reported by the scan of the whole buffer exactly when it is reported
/// by the scan of one of the chunks that the buffer is divided into.
pub proof fn lemma_threads_report_the_same(view: PatternView, data: Seq<u8>, offset: int)
    requires
        Pattern::valid(view),
    ensures
        view.reports(data, offset) <==> exists|index: int|
            0 <= index < view.threads && #[trigger] chunk_reports(view, data, index, offset),
{
    let size = data.len() as int;
    let len = view.signature.len() as int;
    let chunks = view.threads as int;
    let at = offset + view.leading_trim;
    assert forall|index: int| 0 <= index < chunks implies (#[trigger] chunk_reports(
        view,
        data,
        index,
        offset,
    ) <==> view.reports(data, offset) && chunk_holds(size, chunks, len, index, at)) by {
        let start = chunk_start(size, chunks, len - 1, index);
        let end = chunk_end(size, chunks, len - 1, index);
        lemma_chunk_in_buffer(size, chunks, len - 1, index);
        lemma_window_in_chunk(view.signature, view.mask, data, start, end, at);
    }
    if view.reports(data, offset) {
        lemma_chunks_cover(size, chunks, len, at);
        let index = choose|index: int|
            0 <= index < chunks && #[trigger] chunk_holds(size, chunks, len, index, at);
        assert(chunk_reports(view, data, index, offset));
    }
}

/// A scan that is never asked to stop hands over exactly the offsets that
/// it reports, whatever the number of threads: two scans of one buffer for
/// one signature hand over the same set of offsets.
pub proof fn lemma_unstopped_scan_hands_every_match<S: MatchSink>(
    view: PatternView,
    data: Seq<u8>,
    sink: S,
    trace: Seq<usize>,
)
    requires
        scan_trace(view, data, sink, trace),
        forall|offset: usize| !#[trigger] sink.answers(offset, false),
    ensures
        forall|offset: usize| trace.contains(offset) <==> #[trigger] view.reports(data, offset as int),
{
    assert forall|offset: usize| trace.contains(offset) implies #[trigger] view.reports(
        data,
        offset as int,
    ) by {
        let at = choose|at: int| 0 <= at < trace.len() && trace[at] == offset;
        assert(view.reports(data, trace[at] as int));
    }
    if trace.len() > 0 {
        assert(!sink.answers(trace.last(), false));
    }
}

/// A signature that lies in a buffer is found: where the whole signature
/// matches at an offset, a scan that is never asked to stop hands that
/// offset over, whatever the number of threads.
pub proof fn lemma_planted_signature_is_found<S: MatchSink>(
    signature: Seq<u8>,
    mask: Seq<bool>,
    threads: nat,
    data: Seq<u8>,
    offset: usize,
    sink: S,
    trace: Seq<usize>,
)
    requires
        signature.len() == mask.len(),
        window_matches(signature, mask, data, offset as int),
        scan_trace(PatternView::build(signature, mask, threads), data, sink, trace),
        forall|other: usize| !#[trigger] sink.answers(other, false),
    ensures
        trace.contains(offset),
{
    let view = PatternView::build(signature, mask, threads);
    lemma_trimmed_scan_is_faithful(signature, mask, threads, data, offset as int);
    lemma_unstopped_scan_hands_every_match(view, data, sink, trace);
    assert(view.reports(data, offset as int));
}

/// A sink that does not answer `true` to the first offset it is handed is
/// handed no other.
pub proof fn lemma_first_refusal_ends_the_scan<S: MatchSink>(
    view: PatternView,
    data: Seq<u8>,
    sink: S,
    trace: Seq<usize>,
)
    requires
        scan_trace(view, data, sink, trace),
        trace.len() > 0,
        !sink.answers(trace[0], true),
    ensures
        trace.len() == 1,
{
    if trace.len() > 1 {
        assert(sink.answers(trace[0], true));
    }
}

/// In a buffer without a match a scan hands nothing over.
pub proof fn lemma_no_match_hands_nothing<S: MatchSink>(
    view: PatternView,
    data: Seq<u8>,
    sink: S,
    trace: Seq<usize>,
)
    requires
        scan_trace(view, data, sink, trace),
        forall|offset: usize| !#[trigger] view.reports(data, offset as int),
    ensures
        trace.len() == 0,
{
    if trace.len() > 0 {
        assert(view.reports(data, trace[0] as int));
    }
}

/// Every chunk lies inside the buffer.
pub proof fn lemma_chunk_in_buffer(data_size: int, chunks: int, overlap: int, index: int)
    requires
        0 <= data_size,
        1 <= chunks,
        0 <= overlap,
        0 <= index < chunks,
    ensures
        0 <= chunk_start(data_size, chunks, overlap, index) <= chunk_end(
            data_size,
            chunks,
            overlap,
            index,
        ) <= data_size,
{
    crate::pattern::lemma_segments_fit(data_size, chunks, index);
}

} // verus!

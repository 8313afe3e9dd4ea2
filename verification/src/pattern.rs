//! The optimized matcher: a trimmed signature, the offsets it reports in a
//! buffer, and the partition of a buffer into overlapping chunks.

use vstd::prelude::*;
use vstd::slice::slice_subrange;
use crate::matching::{
    lemma_leading_wildcards, lemma_trailing_wildcards, trim_front, trimmed, window_matches,
};
use crate::sink::{handed_since, same_sink, MatchSink, OffsetSink};
use crate::text::{pattern_text, push_decimal, push_slot_text, slots_text};
use vstd::string::StringExecFns;

verus! {

/// What a [`Pattern`] is, mathematically.
pub struct PatternView {
    /// The bytes of the trimmed signature.
    pub signature: Seq<u8>,
    /// Which slots of the trimmed signature are fixed (`true`) or wildcards.
    pub mask: Seq<bool>,
    /// How many leading wildcard slots trimming removed.
    pub leading_trim: nat,
    /// The number of partitions a scan works on.
    pub threads: nat,
}

impl PatternView {
    /// The pattern that a signature, its mask and a thread count give.
    pub open spec fn build(signature: Seq<u8>, mask: Seq<bool>, threads: nat) -> PatternView {
        PatternView {
            signature: trimmed(signature, mask),
            mask: trimmed(mask, mask),
            leading_trim: trim_front(mask),
            threads,
        }
    }

    /// A complete scan of the chunk `chunk`, which begins at `chunk_offset`
    /// in its buffer, reports `offset`: the trimmed signature matches inside
    /// the chunk, `leading_trim` bytes after `offset`.
    pub open spec fn reports_in(self, chunk: Seq<u8>, chunk_offset: int, offset: int) -> bool {
        &&& 0 <= offset
        &&& window_matches(self.signature, self.mask, chunk, offset + self.leading_trim - chunk_offset)
    }

    /// A complete scan of `data` reports `offset`.
    pub open spec fn reports(self, data: Seq<u8>, offset: int) -> bool {
        self.reports_in(data, 0, offset)
    }
}

/// Where chunk `index` of `chunks` begins in a buffer of `data_size` bytes:
/// `overlap` bytes before its own segment, or at the buffer's start.
pub open spec fn chunk_start(data_size: int, chunks: int, overlap: int, index: int) -> int {
    let base = index * (data_size / chunks);
    if base >= overlap {
        base - overlap
    } else {
        0
    }
}

/// Where chunk `index` of `chunks` ends (exclusive): `overlap` bytes after
/// its own segment, or at the buffer's end. The last segment takes the
/// remainder of the division.
pub open spec fn chunk_end(data_size: int, chunks: int, overlap: int, index: int) -> int {
    let base = if index == chunks - 1 {
        data_size
    } else {
        (index + 1) * (data_size / chunks)
    };
    if base + overlap <= data_size {
        base + overlap
    } else {
        data_size
    }
}

/// The window of `len` bytes at `at` lies inside chunk `index` of `chunks`,
/// where the chunks overlap by `len - 1` bytes.
pub open spec fn chunk_holds(data_size: int, chunks: int, len: int, index: int, at: int) -> bool {
    &&& chunk_start(data_size, chunks, len - 1, index) <= at
    &&& at + len <= chunk_end(data_size, chunks, len - 1, index)
}

/// The window that stands for `offset` lies inside chunk `index` of the
/// partition that a scan of `data_size` bytes by this pattern works on.
pub open spec fn in_chunk(view: PatternView, data_size: int, index: int, offset: int) -> bool {
    chunk_holds(
        data_size,
        view.threads as int,
        view.signature.len() as int,
        index,
        offset + view.leading_trim,
    )
}

/// The sink answered `false` at an offset, no greater than `limit`, that a
/// scan of the chunk reports.
pub open spec fn stopped_by<S: MatchSink>(
    view: PatternView,
    chunk: Seq<u8>,
    chunk_offset: int,
    sink: S,
    limit: int,
) -> bool {
    exists|stop: usize|
        stop <= limit && #[trigger] view.reports_in(chunk, chunk_offset, stop as int) && sink.answers(
            stop,
            false,
        )
}

/// What the scan of one chunk hands to a sink: the offsets that it
/// reports, in ascending order, each answered `true`; where the sink
/// stopped the scan, up to the offset that it answered `false`.
pub open spec fn chunk_trace<S: MatchSink>(
    view: PatternView,
    chunk: Seq<u8>,
    chunk_offset: int,
    sink: S,
    trace: Seq<usize>,
    stopped: bool,
) -> bool {
    &&& forall|first: int, second: int|
        0 <= first < second < trace.len() ==> #[trigger] trace[first] < #[trigger] trace[second]
    &&& forall|at: int|
        0 <= at < trace.len() ==> view.reports_in(chunk, chunk_offset, #[trigger] trace[at] as int)
    &&& forall|at: int|
        0 <= at < trace.len() ==> sink.answers(
            #[trigger] trace[at],
            !(stopped && at == trace.len() - 1),
        )
    &&& forall|offset: usize| #[trigger]
        view.reports_in(chunk, chunk_offset, offset as int) ==> trace.contains(offset) || (stopped
            && offset > trace.last())
    &&& stopped ==> trace.len() > 0
}

/// What the scan of one chunk hands to a sink that may have halted it: the
/// offsets that it reports, in ascending order and without a gap, all but
/// the last answered `true`; all of them where the scan did not end early.
pub open spec fn chunk_run<S: MatchSink>(
    view: PatternView,
    chunk: Seq<u8>,
    chunk_offset: int,
    sink: S,
    trace: Seq<usize>,
    ended: bool,
) -> bool {
    &&& forall|first: int, second: int|
        0 <= first < second < trace.len() ==> #[trigger] trace[first] < #[trigger] trace[second]
    &&& forall|at: int|
        0 <= at < trace.len() ==> view.reports_in(chunk, chunk_offset, #[trigger] trace[at] as int)
    &&& forall|at: int| 0 <= at < trace.len() - 1 ==> sink.answers(#[trigger] trace[at], true)
    &&& trace.len() > 0 ==> sink.answers(trace.last(), true) || (ended && sink.answers(
        trace.last(),
        false,
    ))
    &&& forall|offset: usize| #[trigger]
        view.reports_in(chunk, chunk_offset, offset as int) ==> trace.contains(offset) || (ended
            && (trace.len() == 0 || offset > trace.last()))
}

/// What a scan of a whole buffer hands to a sink, whatever the number of
/// threads: offsets that it reports, all but the last answered `true`; and
/// every offset that it reports, unless the last was answered `false`.
pub open spec fn scan_trace<S: MatchSink>(
    view: PatternView,
    data: Seq<u8>,
    sink: S,
    trace: Seq<usize>,
) -> bool {
    &&& forall|at: int| 0 <= at < trace.len() ==> view.reports(data, #[trigger] trace[at] as int)
    &&& forall|at: int| 0 <= at < trace.len() - 1 ==> sink.answers(#[trigger] trace[at], true)
    &&& trace.len() > 0 ==> sink.answers(trace.last(), true) || sink.answers(trace.last(), false)
    &&& {
        ||| forall|offset: usize| #[trigger] view.reports(data, offset as int) ==> trace.contains(offset)
        ||| trace.len() > 0 && sink.answers(trace.last(), false)
    }
}

/// Where chunk `index` begins when a buffer of `data_size` bytes is divided
/// among the threads of a pattern.
pub open spec fn chunk_origin(view: PatternView, data_size: int, index: int) -> int {
    chunk_start(data_size, view.threads as int, view.signature.len() - 1, index)
}

/// The bytes of chunk `index` when a buffer is divided among the threads
/// of a pattern.
pub open spec fn chunk_bytes(view: PatternView, data: Seq<u8>, index: int) -> Seq<u8> {
    data.subrange(
        chunk_origin(view, data.len() as int, index),
        chunk_end(data.len() as int, view.threads as int, view.signature.len() - 1, index),
    )
}

/// What a scan of a whole buffer hands to a sink, chunk by chunk: the
/// chunks are scanned in order, each as [`chunk_trace`] says; all of them
/// where the sink never stopped the scan, else those up to the chunk in
/// which it did.
pub open spec fn partition_trace<S: MatchSink>(
    view: PatternView,
    data: Seq<u8>,
    sink: S,
    parts: Seq<Seq<usize>>,
    stopped: bool,
) -> bool {
    &&& if stopped {
        1 <= parts.len() <= view.threads
    } else {
        parts.len() == view.threads
    }
    &&& forall|index: int|
        0 <= index < parts.len() ==> chunk_trace(
            view,
            chunk_bytes(view, data, index),
            chunk_origin(view, data.len() as int, index),
            sink,
            #[trigger] parts[index],
            stopped && index == parts.len() - 1,
        )
}

/// A signature prepared for scanning: leading and trailing wildcards are
/// trimmed away, and the number of trimmed leading slots is kept so that
/// reported offsets refer to the signature as it was given.
#[derive(Debug, PartialEq, Eq)]
pub struct Pattern {
    signature: Vec<u8>,
    mask: Vec<bool>,
    threads: usize,
    start_offset: usize,
}

impl View for Pattern {
    type V = PatternView;

    closed spec fn view(&self) -> PatternView {
        PatternView {
            signature: self.signature@,
            mask: self.mask@,
            leading_trim: self.start_offset as nat,
            threads: self.threads as nat,
        }
    }
}

impl Clone for Pattern {
    fn clone(&self) -> (copy: Pattern)
        ensures
            copy@ == self@,
    {
        proof {
            use_type_invariant(self);
        }
        let signature = self.signature.clone();
        let mask = self.mask.clone();
        Pattern { signature, mask, threads: self.threads, start_offset: self.start_offset }
    }
}

impl Pattern {
    #[verifier::type_invariant]
    spec fn well_formed(&self) -> bool {
        &&& self.signature@.len() == self.mask@.len()
        &&& self.signature@.len() >= 1
        &&& self.threads >= 1
        &&& self.start_offset + self.signature@.len() <= usize::MAX
    }

    /// What holds of every pattern.
    pub open spec fn valid(view: PatternView) -> bool {
        &&& view.signature.len() == view.mask.len()
        &&& view.signature.len() >= 1
        &&& view.threads >= 1
        &&& view.leading_trim + view.signature.len() <= usize::MAX
    }

    /// Creates a pattern from a signature, its mask (`false` marks a
    /// wildcard) and a thread count, trimming the wildcards at both ends.
    /// A signature without any fixed slot is kept whole.
    pub fn new(signature: Vec<u8>, mask: Vec<bool>, threads: usize) -> (pattern: Pattern)
        requires
            signature@.len() == mask@.len(),
            signature@.len() >= 1,
            threads >= 1,
        ensures
            pattern@ == PatternView::build(signature@, mask@, threads as nat),
            Self::valid(pattern@),
    {
        let len = mask.len();
        let mut start_offset: usize = 0;
        while start_offset < len && !mask[start_offset]
            invariant
                len == mask@.len(),
                start_offset <= len,
                forall|j: int| 0 <= j < start_offset ==> !#[trigger] mask@[j],
            decreases len - start_offset,
        {
            start_offset += 1;
        }
        proof {
            lemma_leading_wildcards(mask@, start_offset as int);
        }
        if start_offset == len {
            assert(signature@ =~= trimmed(signature@, mask@));
            assert(mask@ =~= trimmed(mask@, mask@));
            return Pattern { signature, mask, threads, start_offset: 0 };
        }
        let mut end_offset: usize = 0;
        while end_offset < len && !mask[len - 1 - end_offset]
            invariant
                len == mask@.len(),
                end_offset <= len,
                forall|j: int| len - end_offset <= j < len ==> !#[trigger] mask@[j],
            decreases len - end_offset,
        {
            end_offset += 1;
        }
        proof {
            lemma_trailing_wildcards(mask@, end_offset as int);
        }
        let stop = len - end_offset;
        let mut core_signature: Vec<u8> = Vec::new();
        let mut core_mask: Vec<bool> = Vec::new();
        let mut i: usize = start_offset;
        while i < stop
            invariant
                len == mask@.len(),
                len == signature@.len(),
                start_offset <= i <= stop <= len,
                core_signature@ == signature@.subrange(start_offset as int, i as int),
                core_mask@ == mask@.subrange(start_offset as int, i as int),
            decreases stop - i,
        {
            core_signature.push(signature[i]);
            core_mask.push(mask[i]);
            i += 1;
        }
        Pattern { signature: core_signature, mask: core_mask, threads, start_offset }
    }

    /// The number of partitions that a scan of this pattern works on.
    /// The call also makes known what holds of every pattern.
    pub fn get_threads(&self) -> (threads: usize)
        ensures
            threads == self@.threads,
            Self::valid(self@),
    {
        proof {
            use_type_invariant(self);
        }
        self.threads
    }

    /// Writes the pattern out: the slots of the trimmed signature, each
    /// as two hexadecimal digits or `?`, and the thread count, as in
    /// `[ 48 8B ? 00 ] [t=4]`.
    pub fn describe(&self) -> (text: String)
        ensures
            text@ == pattern_text(self@.signature, self@.mask, self@.threads),
    {
        proof {
            use_type_invariant(self);
        }
        let mut text = String::new();
        text.append("[ ");
        let ghost head = text@;
        let len = self.signature.len();
        let mut i: usize = 0;
        while i < len
            invariant
                len == self.signature@.len(),
                len == self.mask@.len(),
                i <= len,
                text@ == head + slots_text(self.signature@, self.mask@, i as nat),
            decreases len - i,
        {
            push_slot_text(&mut text, self.signature[i], self.mask[i]);
            i += 1;
        }
        text.append("] [t=");
        push_decimal(&mut text, self.threads);
        text.append("]");
        proof {
            reveal_strlit("[ ");
            reveal_strlit("] [t=");
            reveal_strlit("]");
        }
        text
    }

    /// Computes the byte range `(start, end)`, end-exclusive, of chunk
    /// `index` when a buffer of `data_size` bytes is divided among the
    /// threads of this pattern.
    pub fn chunk_for(&self, data_size: usize, index: usize) -> (range: (usize, usize))
        requires
            index < self@.threads,
        ensures
            range.0 == chunk_start(
                data_size as int,
                self@.threads as int,
                self@.signature.len() - 1,
                index as int,
            ),
            range.1 == chunk_end(
                data_size as int,
                self@.threads as int,
                self@.signature.len() - 1,
                index as int,
            ),
            range.0 <= range.1 <= data_size,
    {
        proof {
            use_type_invariant(self);
        }
        Self::get_chunk_range(data_size, self.threads, self.signature.len() - 1, index)
    }

    /// Tells whether the trimmed signature matches at the very start of
    /// `data`. A buffer shorter than the trimmed signature never matches.
    pub fn compare_byte_array(&self, data: &[u8]) -> (matched: bool)
        ensures
            matched == window_matches(self@.signature, self@.mask, data@, 0),
    {
        proof {
            use_type_invariant(self);
        }
        let len = self.signature.len();
        if data.len() < len {
            return false;
        }
        let mut i: usize = 0;
        while i < len
            invariant
                len == self.signature@.len(),
                len == self.mask@.len(),
                len <= data@.len(),
                i <= len,
                forall|j: int| 0 <= j < i && #[trigger] self.mask@[j] ==> data@[j] == self.signature@[j],
            decreases len - i,
        {
            if self.mask[i] && data[i] != self.signature[i] {
                return false;
            }
            i += 1;
        }
        true
    }

    /// Scans one chunk of a buffer, which begins at `chunk_offset` in it,
    /// from its first byte on. Each offset at which the signature matches is
    /// handed to `sink`, in ascending order, until it answers `false`;
    /// `finished` is then set, and nothing more is handed over. Before each
    /// candidate the sink is asked whether the scan has been halted; if so,
    /// `finished` is set and the scan ends. With `finished` set on entry
    /// nothing is done. The result tells whether a match was seen.
    pub fn scan_chunk<S: MatchSink>(
        &self,
        data: &[u8],
        chunk_offset: usize,
        finished: &mut bool,
        sink: &mut S,
    ) -> (found: bool)
        requires
            chunk_offset + data@.len() <= usize::MAX,
            forall|offset: usize| #[trigger]
                self@.reports_in(data@, chunk_offset as int, offset as int) ==> old(sink).accepts(
                    offset,
                ),
        ensures
            same_sink(*final(sink), *old(sink)),
            final(sink).blank() == old(sink).blank(),
            final(sink).handed() == old(sink).handed() + handed_since(
                old(sink).handed(),
                final(sink).handed(),
            ),
            final(sink).halts() == old(sink).halts() || (final(sink).halts() == old(sink).halts() + 1
                && *final(finished)),
            *old(finished) ==> *final(finished) && final(sink).handed() == old(sink).handed()
                && final(sink).halts() == old(sink).halts(),
            !*old(finished) ==> chunk_run(
                self@,
                data@,
                chunk_offset as int,
                *old(sink),
                handed_since(old(sink).handed(), final(sink).handed()),
                *final(finished),
            ),
            !*old(finished) && final(sink).halts() == old(sink).halts() ==> chunk_trace(
                self@,
                data@,
                chunk_offset as int,
                *old(sink),
                handed_since(old(sink).handed(), final(sink).handed()),
                *final(finished),
            ),
            found <==> final(sink).handed().len() > old(sink).handed().len(),
    {
        proof {
            use_type_invariant(self);
        }
        let ghost base = sink.handed();
        if *finished {
            return false;
        }
        let len = self.signature.len();
        if data.len() < len {
            return false;
        }
        let last = data.len() - len;
        let trim = self.start_offset;
        let first_byte = self.signature[0];
        let first_mask = self.mask[0];
        let ghost mut trace: Seq<usize> = Seq::empty();
        let mut found = false;
        let mut i: usize = 0;
        while i <= last
            invariant
                len == self.signature@.len(),
                len == self.mask@.len(),
                len >= 1,
                last + len == data@.len(),
                trim == self.start_offset,
                first_byte == self.signature@[0],
                first_mask == self.mask@[0],
                chunk_offset + data@.len() <= usize::MAX,
                i <= last + 1,
                !*finished,
                !*old(finished),
                base == old(sink).handed(),
                same_sink(*sink, *old(sink)),
                sink.blank() == old(sink).blank(),
                sink.halts() == old(sink).halts(),
                forall|offset: usize| #[trigger]
                    self@.reports_in(data@, chunk_offset as int, offset as int) ==> old(sink).accepts(
                        offset,
                    ),
                sink.handed() == base + trace,
                found <==> trace.len() > 0,
                forall|first: int, second: int|
                    0 <= first < second < trace.len() ==> #[trigger] trace[first]
                        < #[trigger] trace[second],
                forall|at: int|
                    0 <= at < trace.len() ==> self@.reports_in(
                        data@,
                        chunk_offset as int,
                        #[trigger] trace[at] as int,
                    ) && trace[at] + trim - chunk_offset < i,
                forall|at: int| 0 <= at < trace.len() ==> old(sink).answers(#[trigger] trace[at], true),
                forall|offset: usize| #[trigger]
                    self@.reports_in(data@, chunk_offset as int, offset as int) && offset + trim
                        - chunk_offset < i ==> trace.contains(offset),
            decreases last + 1 - i,
        {
            if sink.halted() {
                *finished = true;
                proof {
                    assert(handed_since(base, sink.handed()) =~= trace);
                    assert forall|offset: usize| #[trigger]
                        self@.reports_in(
                            data@,
                            chunk_offset as int,
                            offset as int,
                        ) implies trace.contains(offset) || trace.len() == 0 || offset > trace.last() by {
                        if offset + trim - chunk_offset >= i && trace.len() > 0 {
                            assert(trace[trace.len() - 1] + trim - chunk_offset < i);
                        }
                    }
                }
                return found;
            }
            let mut hit = false;
            if (!first_mask || data[i] == first_byte) && chunk_offset + i >= trim {
                let window = slice_subrange(data, i, data.len());
                hit = self.compare_byte_array(window);
                proof {
                    lemma_window_in_chunk(
                        self@.signature,
                        self@.mask,
                        data@,
                        i as int,
                        data@.len() as int,
                        i as int,
                    );
                }
            }
            if hit {
                let offset = chunk_offset + i - trim;
                assert(self@.reports_in(data@, chunk_offset as int, offset as int));
                let ghost before = trace;
                found = true;
                let keep = sink.report(offset);
                proof {
                    trace = before.push(offset);
                    assert(trace[before.len() as int] == offset);
                    assert forall|other: usize| #[trigger]
                        self@.reports_in(data@, chunk_offset as int, other as int) && other + trim
                            - chunk_offset < i + 1 implies trace.contains(other) by {
                        if other + trim - chunk_offset < i {
                            let at = choose|at: int| 0 <= at < before.len() && before[at] == other;
                            assert(trace[at] == other);
                        }
                    }
                }
                if !keep {
                    *finished = true;
                    proof {
                        assert(handed_since(base, sink.handed()) =~= trace);
                    }
                    return true;
                }
            }
            i += 1;
        }
        proof {
            assert(handed_since(base, sink.handed()) =~= trace);
        }
        found
    }

    /// Scans a buffer for the signature and hands each offset at which it
    /// matches to `sink`, until it answers `false`; after that nothing more
    /// is handed over. The result tells whether the buffer holds a match.
    ///
    /// With one thread the buffer is scanned whole, and the offsets come in
    /// ascending order. With more, it is divided into that many overlapping
    /// chunks, which are worked through one after another, each in
    /// ascending order; a match that lies in the overlap of two chunks is
    /// handed out once for each.
    ///
    /// A sink can halt the scan before any candidate; of a scan that was
    /// halted only what [`Pattern::scan_chunk`] states of each chunk holds.
    pub fn scan_into<S: MatchSink>(&self, data: &[u8], sink: &mut S) -> (found: bool)
        requires
            forall|offset: usize| #[trigger]
                self@.reports(data@, offset as int) ==> old(sink).accepts(offset),
        ensures
            same_sink(*final(sink), *old(sink)),
            final(sink).blank() == old(sink).blank(),
            final(sink).handed() == old(sink).handed() + handed_since(
                old(sink).handed(),
                final(sink).handed(),
            ),
            final(sink).halts() >= old(sink).halts(),
            found <==> final(sink).handed().len() > old(sink).handed().len(),
            final(sink).halts() == old(sink).halts() ==> (found <==> exists|offset: usize| #[trigger]
                self@.reports(data@, offset as int)),
            final(sink).halts() == old(sink).halts() ==> scan_trace(
                self@,
                data@,
                *old(sink),
                handed_since(old(sink).handed(), final(sink).handed()),
            ),
            final(sink).halts() == old(sink).halts() && self@.threads == 1 ==> exists|
                stopped: bool,
            | #[trigger]
                chunk_trace(
                    self@,
                    data@,
                    0,
                    *old(sink),
                    handed_since(old(sink).handed(), final(sink).handed()),
                    stopped,
                ),
            final(sink).halts() == old(sink).halts() ==> exists|
                parts: Seq<Seq<usize>>,
                stopped: bool,
            | #[trigger]
                partition_trace(self@, data@, *old(sink), parts, stopped) && handed_since(
                    old(sink).handed(),
                    final(sink).handed(),
                ) == parts.flatten(),
    {
        proof {
            use_type_invariant(self);
        }
        let ghost base = sink.handed();
        let ghost rested = sink.halts();
        let mut finished = false;
        let size = data.len();
        if self.threads == 1 {
            proof {
                assert forall|offset: usize| #[trigger]
                    self@.reports_in(data@, 0, offset as int) implies sink.accepts(offset) by {
                    assert(self@.reports(data@, offset as int));
                }
            }
            let found = self.scan_chunk(data, 0, &mut finished, sink);
            proof {
                if sink.halts() == rested {
                    let trace = handed_since(base, sink.handed());
                    let parts = seq![trace];
                    assert(chunk_bytes(self@, data@, 0) =~= data@);
                    assert(chunk_trace(self@, data@, 0, *old(sink), parts[0], finished));
                    assert(partition_trace(self@, data@, *old(sink), parts, finished));
                    parts.lemma_flatten_one_element();
                    if found {
                        assert(self@.reports(data@, trace[0] as int));
                    }
                    assert forall|offset: usize| #[trigger]
                        self@.reports(data@, offset as int) implies found by {
                        assert(self@.reports_in(data@, 0, offset as int));
                        if trace.contains(offset) {
                            let at = choose|at: int| 0 <= at < trace.len() && trace[at] == offset;
                            assert(trace.len() > 0);
                        }
                    }
                }
            }
            return found;
        }
        let ghost mut trace: Seq<usize> = Seq::empty();
        let ghost mut parts: Seq<Seq<usize>> = Seq::empty();
        let mut found = false;
        let mut tc: usize = 0;
        while tc < self.threads
            invariant
                Pattern::valid(self@),
                rested == old(sink).halts(),
                sink.halts() >= rested,
                sink.halts() == rested ==> trace == parts.flatten(),
                sink.halts() == rested ==> if finished {
                    1 <= parts.len() <= tc
                } else {
                    parts.len() == tc
                },
                sink.halts() == rested ==> forall|index: int|
                    0 <= index < parts.len() ==> chunk_trace(
                        self@,
                        chunk_bytes(self@, data@, index),
                        chunk_origin(self@, size as int, index),
                        *old(sink),
                        #[trigger] parts[index],
                        finished && index == parts.len() - 1,
                    ),
                size == data@.len(),
                self.threads == self@.threads,
                tc <= self.threads,
                base == old(sink).handed(),
                same_sink(*sink, *old(sink)),
                sink.blank() == old(sink).blank(),
                forall|offset: usize| #[trigger]
                    self@.reports(data@, offset as int) ==> old(sink).accepts(offset),
                sink.handed() == base + trace,
                found <==> trace.len() > 0,
                sink.halts() == rested ==> forall|at: int|
                    0 <= at < trace.len() ==> self@.reports(data@, #[trigger] trace[at] as int),
                sink.halts() == rested ==> forall|at: int|
                    0 <= at < trace.len() - 1 ==> old(sink).answers(#[trigger] trace[at], true),
                sink.halts() == rested && !finished ==> forall|at: int|
                    0 <= at < trace.len() ==> old(sink).answers(#[trigger] trace[at], true),
                sink.halts() == rested && finished ==> trace.len() > 0 && old(sink).answers(trace.last(), false),
                sink.halts() == rested && !finished ==> forall|index: int, offset: usize|
                    0 <= index < tc && self@.reports(data@, offset as int) && #[trigger] in_chunk(
                        self@,
                        size as int,
                        index,
                        offset as int,
                    ) ==> trace.contains(offset),
            decreases self.threads - tc,
        {
            let range = self.chunk_for(size, tc);
            let chunk = slice_subrange(data, range.0, range.1);
            proof {
                assert forall|offset: usize| #[trigger]
                    self@.reports_in(chunk@, range.0 as int, offset as int) implies sink.accepts(
                    offset,
                ) by {
                    lemma_window_in_chunk(
                        self@.signature,
                        self@.mask,
                        data@,
                        range.0 as int,
                        range.1 as int,
                        offset + self@.leading_trim,
                    );
                    assert(self@.reports(data@, offset as int));
                }
            }
            let ghost was_finished = finished;
            let ghost before = *sink;
            let ghost earlier = trace;
            let ghost scanned = parts;
            let seen = self.scan_chunk(chunk, range.0, &mut finished, sink);
            proof {
                let part = handed_since(before.handed(), sink.handed());
                trace = earlier + part;
                if was_finished {
                    assert(trace =~= earlier);
                } else if sink.halts() == rested {
                    parts = scanned.push(part);
                    scanned.lemma_flatten_push(part);
                    assert(chunk@ == chunk_bytes(self@, data@, tc as int));
                    assert(chunk_trace(
                        self@,
                        chunk@,
                        range.0 as int,
                        *old(sink),
                        part,
                        finished,
                    )) by {
                        assert(chunk_trace(self@, chunk@, range.0 as int, before, part, finished));
                        assert forall|at: int| 0 <= at < part.len() implies old(sink).answers(
                            #[trigger] part[at],
                            !(finished && at == part.len() - 1),
                        ) by {
                            assert(before.answers(part[at], !(finished && at == part.len() - 1)));
                        }
                    }
                    assert forall|index: int| 0 <= index < parts.len() implies chunk_trace(
                        self@,
                        chunk_bytes(self@, data@, index),
                        chunk_origin(self@, size as int, index),
                        *old(sink),
                        #[trigger] parts[index],
                        finished && index == parts.len() - 1,
                    ) by {
                        if index < scanned.len() {
                            assert(parts[index] == scanned[index]);
                        }
                    }
                }
                if sink.halts() == rested && !finished {
                    assert forall|index: int, offset: usize|
                        0 <= index < tc + 1 && self@.reports(data@, offset as int)
                            && #[trigger] in_chunk(
                            self@,
                            size as int,
                            index,
                            offset as int,
                        ) implies trace.contains(offset) by {
                        if index == tc {
                            assert(self@.reports_in(chunk@, range.0 as int, offset as int));
                            let at = choose|at: int| 0 <= at < part.len() && part[at] == offset;
                            assert(trace[earlier.len() + at] == offset);
                        } else {
                            let at = choose|at: int| 0 <= at < earlier.len() && earlier[at] == offset;
                            assert(trace[at] == offset);
                        }
                    }
                }
            }
            if seen {
                found = true;
            }
            tc += 1;
        }
        proof {
            assert(handed_since(base, sink.handed()) =~= trace);
            if sink.halts() == rested {
                assert(partition_trace(self@, data@, *old(sink), parts, finished));
                if found {
                    assert(self@.reports(data@, trace[0] as int));
                }
            }
            if sink.halts() == rested && !finished {
                assert forall|offset: usize| #[trigger]
                    self@.reports(data@, offset as int) implies trace.contains(offset) by {
                    lemma_chunks_cover(
                        size as int,
                        self@.threads as int,
                        self@.signature.len() as int,
                        offset + self@.leading_trim,
                    );
                    let index = choose|index: int|
                        0 <= index < self@.threads && #[trigger] chunk_holds(
                            size as int,
                            self@.threads as int,
                            self@.signature.len() as int,
                            index,
                            offset + self@.leading_trim,
                        );
                    assert(in_chunk(self@, size as int, index, offset as int));
                }
                assert forall|offset: usize| #[trigger]
                    self@.reports(data@, offset as int) implies found by {
                    let at = choose|at: int| 0 <= at < trace.len() && trace[at] == offset;
                    assert(trace.len() > 0);
                }
            }
        }
        found
    }

    /// Scans a buffer for the signature. Each offset at which it matches
    /// is handed to `callback` until it answers `false`; the callback is
    /// handed nothing else. The result tells whether the buffer holds a
    /// match. The offsets come as [`Pattern::scan_into`] hands them over.
    pub fn scan<F: FnMut(usize) -> bool>(&self, data: &[u8], callback: F) -> (found: bool)
        requires
            forall|offset: usize| #[trigger]
                self@.reports(data@, offset as int) ==> call_requires(callback, (offset,)),
        ensures
            found <==> exists|offset: usize| #[trigger] self@.reports(data@, offset as int),
            forall|offset: usize| #[trigger]
                self@.reports(data@, offset as int) ==> call_ensures(callback, (offset,), true)
                    || stopped_by(self@, data@, 0, OffsetSink::over(callback), usize::MAX as int),
            self@.threads == 1 ==> forall|offset: usize| #[trigger]
                self@.reports(data@, offset as int) ==> call_ensures(callback, (offset,), true)
                    || stopped_by(self@, data@, 0, OffsetSink::over(callback), offset as int),
    {
        let mut sink = OffsetSink::new(callback);
        let ghost start = sink;
        let found = self.scan_into(data, &mut sink);
        proof {
            let trace = handed_since(start.handed(), sink.handed());
            assert(scan_trace(self@, data@, start, trace));
            assert forall|offset: usize| #[trigger]
                self@.reports(data@, offset as int) implies call_ensures(callback, (offset,), true)
                || stopped_by(self@, data@, 0, start, usize::MAX as int) by {
                if trace.len() > 0 && start.answers(trace.last(), false) {
                    assert(self@.reports(data@, trace[trace.len() - 1] as int));
                    assert(self@.reports_in(data@, 0, trace.last() as int));
                } else {
                    let at = choose|at: int| 0 <= at < trace.len() && trace[at] == offset;
                    if at < trace.len() - 1 {
                        assert(start.answers(trace[at], true));
                    }
                }
            }
            if self@.threads == 1 {
                let stopped = choose|stopped: bool| #[trigger]
                    chunk_trace(self@, data@, 0, start, trace, stopped);
                assert forall|offset: usize| #[trigger]
                    self@.reports(data@, offset as int) implies call_ensures(
                    callback,
                    (offset,),
                    true,
                ) || stopped_by(self@, data@, 0, start, offset as int) by {
                    assert(self@.reports_in(data@, 0, offset as int));
                    if trace.contains(offset) {
                        let at = choose|at: int| 0 <= at < trace.len() && trace[at] == offset;
                        assert(start.answers(trace[at], !(stopped && at == trace.len() - 1)));
                        assert(self@.reports_in(data@, 0, trace[at] as int));
                    } else {
                        assert(start.answers(
                            trace[trace.len() - 1],
                            !(stopped && trace.len() - 1 == trace.len() - 1),
                        ));
                        assert(self@.reports_in(data@, 0, trace[trace.len() - 1] as int));
                    }
                }
            }
        }
        found
    }

    /// Computes the byte range `(start, end)`, end-exclusive, of chunk
    /// `index` when a buffer of `data_size` bytes is split into `chunks`
    /// segments that each reach `overlap` bytes into their neighbours.
    pub fn get_chunk_range(data_size: usize, chunks: usize, overlap: usize, index: usize) -> (range: (
        usize,
        usize,
    ))
        requires
            chunks >= 1,
            index < chunks,
        ensures
            range.0 == chunk_start(data_size as int, chunks as int, overlap as int, index as int),
            range.1 == chunk_end(data_size as int, chunks as int, overlap as int, index as int),
            range.0 <= range.1 <= data_size,
    {
        let chunk_size = data_size / chunks;
        proof {
            lemma_segments_fit(data_size as int, chunks as int, index as int);
        }
        let base_start = index * chunk_size;
        let base_end = if index == chunks - 1 {
            data_size
        } else {
            base_start + chunk_size
        };
        let start = if base_start >= overlap {
            base_start - overlap
        } else {
            0
        };
        let end = if overlap <= data_size - base_end {
            base_end + overlap
        } else {
            data_size
        };
        (start, end)
    }
}

/// A window lies inside the chunk `[start, end)` of a buffer and matches
/// there exactly when it matches in the chunk taken by itself.
pub proof fn lemma_window_in_chunk(
    signature: Seq<u8>,
    mask: Seq<bool>,
    data: Seq<u8>,
    start: int,
    end: int,
    at: int,
)
    requires
        0 <= start <= end <= data.len(),
    ensures
        window_matches(signature, mask, data.subrange(start, end), at - start) <==> (start <= at
            && at + signature.len() <= end && window_matches(signature, mask, data, at)),
{
    let chunk = data.subrange(start, end);
    if start <= at && at + signature.len() <= end {
        assert forall|j: int| 0 <= j < signature.len() && #[trigger] mask[j] implies (chunk[at
            - start + j] == signature[j] <==> data[at + j] == signature[j]) by {
            assert(chunk[at - start + j] == data[at + j]);
        }
    }
}

/// Every window of `len` bytes of a buffer lies whole inside one of the
/// chunks that overlap by `len - 1` bytes, whatever their number: no match
/// is lost by partitioning.
pub proof fn lemma_chunks_cover(data_size: int, chunks: int, len: int, at: int)
    requires
        1 <= chunks,
        1 <= len,
        0 <= at,
        at + len <= data_size,
    ensures
        exists|index: int|
            0 <= index < chunks && #[trigger] chunk_holds(data_size, chunks, len, index, at),
{
    let size = data_size / chunks;
    assert(0 <= size) by (nonlinear_arith)
        requires
            size == data_size / chunks,
            0 <= data_size,
            1 <= chunks,
    ;
    if size == 0 || at / size >= chunks - 1 {
        let index = chunks - 1;
        lemma_segments_fit(data_size, chunks, index);
        if size > 0 {
            assert(index * size <= at) by (nonlinear_arith)
                requires
                    size > 0,
                    at / size >= index,
                    0 <= at,
                    index >= 0,
            ;
        } else {
            assert(index * size == 0) by (nonlinear_arith)
                requires
                    size == 0,
            ;
        }
        assert(chunk_holds(data_size, chunks, len, index, at));
    } else {
        let index = at / size;
        assert(0 <= index && index * size <= at < (index + 1) * size) by (nonlinear_arith)
            requires
                size > 0,
                index == at / size,
                0 <= at,
        ;
        lemma_segments_fit(data_size, chunks, index);
        assert(chunk_holds(data_size, chunks, len, index, at));
    }
}

/// The segments that a buffer is divided into lie inside it, one after
/// another.
pub proof fn lemma_segments_fit(data_size: int, chunks: int, index: int)
    requires
        0 <= data_size,
        1 <= chunks,
        0 <= index < chunks,
    ensures
        0 <= index * (data_size / chunks),
        (index + 1) * (data_size / chunks) == index * (data_size / chunks) + data_size / chunks,
        (index + 1) * (data_size / chunks) <= data_size,
{
    let size = data_size / chunks;
    assert(0 <= size && chunks * size <= data_size) by (nonlinear_arith)
        requires
            size == data_size / chunks,
            0 <= data_size,
            1 <= chunks,
    ;
    assert(0 <= index * size && (index + 1) * size == index * size + size && (index + 1) * size
        <= chunks * size) by (nonlinear_arith)
        requires
            0 <= size,
            0 <= index < chunks,
    ;
}

} // verus!

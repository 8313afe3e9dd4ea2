//! Where a scan hands its matches.

use vstd::prelude::*;

verus! {

/// A receiver of match offsets, which answers each with whether the scan
/// is to go on, keeps count of what it was handed, and tells before each
/// candidate whether the scan has been halted from elsewhere.
pub trait MatchSink: Sized {
    /// The sink can be handed `offset`.
    spec fn accepts(&self, offset: usize) -> bool;

    /// `keep` is an answer that the sink gives when it is handed `offset`.
    spec fn answers(&self, offset: usize, keep: bool) -> bool;

    /// The offsets that the sink has been handed so far, in order.
    spec fn handed(&self) -> Seq<usize>;

    /// The sink as it was before it was handed anything.
    spec fn blank(&self) -> Self;

    /// How often the sink has halted a scan.
    spec fn halts(&self) -> nat;

    /// Tells whether the scan is to end here, before its next candidate.
    fn halted(&mut self) -> (halt: bool)
        ensures
            final(self).halts() == old(self).halts() + if halt {
                1nat
            } else {
                0nat
            },
            final(self).handed() == old(self).handed(),
            final(self).blank() == old(self).blank(),
            forall|other: usize| #[trigger] final(self).accepts(other) == old(self).accepts(other),
            forall|other: usize, answer: bool| #[trigger]
                final(self).answers(other, answer) == old(self).answers(other, answer),
    ;

    /// Hands one match offset to the sink; `false` asks the scan to stop.
    fn report(&mut self, offset: usize) -> (keep: bool)
        requires
            old(self).accepts(offset),
        ensures
            old(self).answers(offset, keep),
            final(self).handed() == old(self).handed().push(offset),
            final(self).blank() == old(self).blank(),
            final(self).halts() == old(self).halts(),
            forall|other: usize| #[trigger] final(self).accepts(other) == old(self).accepts(other),
            forall|other: usize, answer: bool| #[trigger]
                final(self).answers(other, answer) == old(self).answers(other, answer),
    ;
}

/// The first sink accepts and answers as the second does.
pub open spec fn same_sink<S: MatchSink>(first: S, second: S) -> bool {
    &&& forall|offset: usize| #[trigger] first.accepts(offset) == second.accepts(offset)
    &&& forall|offset: usize, keep: bool| #[trigger]
        first.answers(offset, keep) == second.answers(offset, keep)
}

/// What was handed to a sink between two moments, given what it had been
/// handed at each.
pub open spec fn handed_since(before: Seq<usize>, after: Seq<usize>) -> Seq<usize> {
    after.skip(before.len() as int)
}

/// The sink that hands each offset to a callback as it is.
pub struct OffsetSink<F> {
    /// The callback.
    pub callback: F,
    /// The offsets that the callback was handed.
    pub handed: Ghost<Seq<usize>>,
}

impl<F> OffsetSink<F> {
    /// The sink over `callback` that has been handed nothing yet.
    pub open spec fn over(callback: F) -> OffsetSink<F> {
        OffsetSink { callback, handed: Ghost(Seq::empty()) }
    }

    /// Makes a sink over `callback`.
    pub fn new(callback: F) -> (sink: OffsetSink<F>)
        ensures
            sink == Self::over(callback),
    {
        OffsetSink { callback, handed: Ghost(Seq::empty()) }
    }
}

/// What a sink over a callback accepts and answers is what the callback
/// does; it never halts a scan.
pub proof fn lemma_offset_sink<F: FnMut(usize) -> bool>(sink: OffsetSink<F>)
    ensures
        forall|offset: usize| #[trigger]
            sink.accepts(offset) == call_requires(sink.callback, (offset,)),
        forall|offset: usize, keep: bool| #[trigger]
            sink.answers(offset, keep) == call_ensures(sink.callback, (offset,), keep),
        sink.handed() == sink.handed@,
        sink.halts() == 0,
{
}

impl<F: FnMut(usize) -> bool> MatchSink for OffsetSink<F> {
    open spec fn accepts(&self, offset: usize) -> bool {
        call_requires(self.callback, (offset,))
    }

    open spec fn answers(&self, offset: usize, keep: bool) -> bool {
        call_ensures(self.callback, (offset,), keep)
    }

    open spec fn handed(&self) -> Seq<usize> {
        self.handed@
    }

    open spec fn blank(&self) -> Self {
        Self::over(self.callback)
    }

    open spec fn halts(&self) -> nat {
        0
    }

    fn halted(&mut self) -> (halt: bool) {
        false
    }

    fn report(&mut self, offset: usize) -> (keep: bool) {
        let keep = (self.callback)(offset);
        self.handed = Ghost(self.handed@.push(offset));
        keep
    }
}

} // verus!

//! A sink for one of several scans that run side by side and stop
//! together.

use vstd::prelude::*;
use std::sync::atomic::{AtomicBool, Ordering};
use crate::sink::MatchSink;

verus! {

/// The sink of one worker among several: it hands each offset to a
/// callback, sets the stop flag that the workers share when the callback
/// answers `false`, and halts its scan once the flag is set. Nothing is
/// known of the flag but what a look at it shows: another worker may set it
/// at any time.
pub struct SharedSink<'a, F> {
    /// The callback.
    pub callback: F,
    /// The stop flag that the workers share.
    pub stop: &'a AtomicBool,
    /// The offsets that the callback was handed.
    pub handed: Ghost<Seq<usize>>,
    /// How often the flag was found set.
    pub halts: Ghost<nat>,
}

impl<'a, F> SharedSink<'a, F> {
    /// The sink over `callback` and `stop` that has been handed nothing
    /// yet.
    pub open spec fn over(callback: F, stop: &'a AtomicBool) -> SharedSink<'a, F> {
        SharedSink { callback, stop, handed: Ghost(Seq::empty()), halts: Ghost(0) }
    }

    /// Makes a sink over `callback` and `stop`.
    pub fn new(callback: F, stop: &'a AtomicBool) -> (sink: SharedSink<'a, F>)
        ensures
            sink == Self::over(callback, stop),
    {
        SharedSink { callback, stop, handed: Ghost(Seq::empty()), halts: Ghost(0) }
    }
}

/// What a shared sink accepts and answers is what its callback does.
pub proof fn lemma_shared_sink<'a, F: FnMut(usize) -> bool>(sink: SharedSink<'a, F>)
    ensures
        forall|offset: usize| #[trigger]
            sink.accepts(offset) == call_requires(sink.callback, (offset,)),
        forall|offset: usize, keep: bool| #[trigger]
            sink.answers(offset, keep) == call_ensures(sink.callback, (offset,), keep),
        sink.handed() == sink.handed@,
        sink.halts() == sink.halts@,
{
}

impl<'a, F: FnMut(usize) -> bool> MatchSink for SharedSink<'a, F> {
    open spec fn accepts(&self, offset: usize) -> bool {
        call_requires(self.callback, (offset,))
    }

    open spec fn answers(&self, offset: usize, keep: bool) -> bool {
        call_ensures(self.callback, (offset,), keep)
    }

    open spec fn handed(&self) -> Seq<usize> {
        self.handed@
    }

    open spec fn blank(&self) -> Self {
        Self::over(self.callback, self.stop)
    }

    open spec fn halts(&self) -> nat {
        self.halts@
    }

    fn halted(&mut self) -> (halt: bool) {
        let halt = self.stop.load(Ordering::SeqCst);
        if halt {
            self.halts = Ghost(self.halts@ + 1);
        }
        halt
    }

    fn report(&mut self, offset: usize) -> (keep: bool) {
        let keep = (self.callback)(offset);
        if !keep {
            self.stop.store(true, Ordering::SeqCst);
        }
        self.handed = Ghost(self.handed@.push(offset));
        keep
    }
}

} // verus!

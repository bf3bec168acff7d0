//! The log sink model: the serialization point for log lines. Lines are
//! appended in the order they are emitted and drained in that same order, so
//! the written log preserves each producer's send order.
use vstd::prelude::*;
use crate::bytes::views_of;

verus! {

/// The buffered log: every line emitted so far, oldest first.
pub struct LogSink {
    lines: Vec<Vec<u8>>,
}

impl View for LogSink {
    type V = Seq<Seq<u8>>;

    closed spec fn view(&self) -> Seq<Seq<u8>> {
        views_of(self.lines@)
    }
}

impl LogSink {
    /// An empty sink.
    pub fn new() -> (r: LogSink)
        ensures
            r@ == Seq::<Seq<u8>>::empty(),
    {
        let r = LogSink { lines: Vec::new() };
        assert(r@ =~= Seq::<Seq<u8>>::empty());
        r
    }

    /// How many lines are buffered.
    pub fn len(&self) -> (r: usize)
        ensures
            r == self@.len(),
    {
        self.lines.len()
    }

    /// Appends one line after everything emitted before.
    pub fn emit(&mut self, line: Vec<u8>)
        ensures
            final(self)@ == old(self)@.push(line@),
    {
        let ghost before = self@;
        self.lines.push(line);
        assert(self@ =~= before.push(line@));
    }

    /// Removes and returns every buffered line, oldest first.
    pub fn drain(&mut self) -> (r: Vec<Vec<u8>>)
        ensures
            views_of(r@) == old(self)@,
            final(self)@ == Seq::<Seq<u8>>::empty(),
    {
        let mut out: Vec<Vec<u8>> = Vec::new();
        core::mem::swap(&mut out, &mut self.lines);
        assert(self@ =~= Seq::<Seq<u8>>::empty());
        out
    }

    /// The buffered lines, oldest first.
    pub fn lines(&self) -> (r: &Vec<Vec<u8>>)
        ensures
            views_of(r@) == self@,
    {
        &self.lines
    }
}

/// Messages emitted in order stand in the log in that order: after a producer
/// emits `msgs` one after another, the sink holds them contiguously, in send
/// order, after everything that stood there before.
pub proof fn lemma_single_producer_order(before: Seq<Seq<u8>>, msgs: Seq<Seq<u8>>, i: int, j: int)
    requires
        0 <= i < j < msgs.len(),
    ensures
        (before + msgs)[before.len() + i] == msgs[i],
        (before + msgs)[before.len() + j] == msgs[j],
        before.len() + i < before.len() + j < (before + msgs).len(),
{
}

} // verus!

//! Where reading stands in the watched file: the offset read so far and the
//! line that has begun but not ended.
use vstd::prelude::*;
use crate::lines::{
    byte_lines, complete_lines, fragment, lemma_unterminated, unterminated, LineSplitter,
};

verus! {

/// A model of [`TailState`].
pub struct TailView {
    /// The number of bytes of the file read so far.
    pub offset: nat,
    /// The bytes of a line that has not ended yet.
    pub pending: Seq<u8>,
}

/// A tail state never holds a terminator in its pending bytes.
pub open spec fn well_formed(t: TailView) -> bool {
    unterminated(t.pending)
}

/// The state right after opening a file of `len` bytes: reading starts at
/// its end, so nothing written before is ever looked at.
pub open spec fn opened_at(len: nat) -> TailView {
    TailView { offset: len, pending: seq![] }
}

/// The state in which a read begins once the file is `len` bytes long. A
/// file shorter than what was read has been truncated or replaced: it is
/// read again from its start, as a file just opened, and the pending bytes
/// are dropped.
pub open spec fn before_read(t: TailView, len: nat) -> TailView {
    if len < t.offset {
        opened_at(0)
    } else {
        t
    }
}

/// The state after `data` was read at `t.offset`.
pub open spec fn after_read(t: TailView, data: Seq<u8>) -> TailView {
    TailView { offset: t.offset + data.len(), pending: fragment(t.pending + data) }
}

/// The lines that reading `data` in state `t` completes.
pub open spec fn lines_read(t: TailView, data: Seq<u8>) -> Seq<Seq<u8>> {
    complete_lines(t.pending + data)
}

/// A file that held `len` bytes when it was opened and then grew by `data`
/// yields the lines of `data` alone: reading starts at the old end.
pub proof fn lemma_no_backfill(len: nat, data: Seq<u8>)
    ensures
        before_read(opened_at(len), len + data.len()) == opened_at(len),
        lines_read(opened_at(len), data) == complete_lines(data),
        after_read(opened_at(len), data).pending == fragment(data),
{
    assert(opened_at(len).pending + data =~= data);
}

/// A wake-up on which nothing was appended completes no line and leaves the
/// state as it was.
pub proof fn lemma_empty_wakeup(t: TailView)
    requires
        well_formed(t),
    ensures
        before_read(t, t.offset) == t,
        lines_read(t, seq![]) == Seq::<Seq<u8>>::empty(),
        after_read(t, seq![]) == t,
{
    assert(t.pending + seq![] =~= t.pending);
    lemma_unterminated(t.pending);
}

/// A file found shorter than what was read is taken up as a file just
/// opened at its start: nothing of the pending bytes survives, and the next
/// data yields exactly its own lines.
pub proof fn lemma_truncation(t: TailView, len: nat, data: Seq<u8>)
    requires
        len < t.offset,
    ensures
        before_read(t, len) == opened_at(0),
        lines_read(before_read(t, len), data) == complete_lines(data),
        after_read(before_read(t, len), data) == (TailView {
            offset: data.len(),
            pending: fragment(data),
        }),
{
    assert(opened_at(0).pending + data =~= data);
}

/// A read never begins past the end of the file.
pub proof fn lemma_read_within_file(t: TailView, len: nat)
    ensures
        before_read(t, len).offset <= len,
{
}

/// The read position in the watched file and the line not yet ended.
pub struct TailState {
    offset: u64,
    splitter: LineSplitter,
}

impl View for TailState {
    type V = TailView;

    closed spec fn view(&self) -> TailView {
        TailView { offset: self.offset as nat, pending: self.splitter@ }
    }
}

impl TailState {
    /// The state for a file that is `len` bytes long when watching starts.
    pub fn open(len: u64) -> (r: TailState)
        ensures
            r@ == opened_at(len as nat),
            well_formed(r@),
    {
        TailState { offset: len, splitter: LineSplitter::new() }
    }

    /// The number of bytes read so far.
    pub fn offset(&self) -> (r: u64)
        ensures
            r == self@.offset,
    {
        self.offset
    }

    /// Prepares a read of a file that is now `len` bytes long and returns the
    /// offset to read from; resets the state when the file shrank.
    pub fn begin_read(&mut self, len: u64) -> (start: u64)
        requires
            well_formed(old(self)@),
        ensures
            final(self)@ == before_read(old(self)@, len as nat),
            start == final(self)@.offset,
            start <= len,
            well_formed(final(self)@),
    {
        if len < self.offset {
            self.offset = 0;
            self.splitter = LineSplitter::new();
            assert(self@.pending =~= Seq::<u8>::empty());
        }
        self.offset
    }

    /// Takes the bytes read at the current offset and returns the lines
    /// they complete, in order.
    pub fn finish_read(&mut self, data: &[u8]) -> (lines: Vec<Vec<u8>>)
        requires
            well_formed(old(self)@),
            old(self)@.offset + data@.len() <= u64::MAX,
        ensures
            final(self)@ == after_read(old(self)@, data@),
            byte_lines(lines@) == lines_read(old(self)@, data@),
            well_formed(final(self)@),
    {
        let lines = self.splitter.feed(data);
        self.offset = self.offset + data.len() as u64;
        lines
    }
}

} // verus!

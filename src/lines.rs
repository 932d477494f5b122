//! Reassembly of complete lines from bytes that arrive in arbitrary pieces.
use vstd::prelude::*;

verus! {

/// The byte that ends a line (`\n`).
pub const NEWLINE: u8 = 0x0a;

/// True when `s` holds no line terminator.
pub open spec fn unterminated(s: Seq<u8>) -> bool {
    forall|i: int| 0 <= i < s.len() ==> s[i] != NEWLINE
}

/// The complete lines of `s`, in order and without their terminators.
pub open spec fn complete_lines(s: Seq<u8>) -> Seq<Seq<u8>>
    decreases s.len(),
{
    if s.len() == 0 {
        seq![]
    } else if s.last() == NEWLINE {
        complete_lines(s.drop_last()).push(fragment(s.drop_last()))
    } else {
        complete_lines(s.drop_last())
    }
}

/// The bytes of `s` after its last terminator: a line that has not ended yet.
pub open spec fn fragment(s: Seq<u8>) -> Seq<u8>
    decreases s.len(),
{
    if s.len() == 0 {
        seq![]
    } else if s.last() == NEWLINE {
        seq![]
    } else {
        fragment(s.drop_last()).push(s.last())
    }
}

/// The number of line terminators in `s`.
pub open spec fn terminators(s: Seq<u8>) -> nat
    decreases s.len(),
{
    if s.len() == 0 {
        0
    } else if s.last() == NEWLINE {
        terminators(s.drop_last()) + 1
    } else {
        terminators(s.drop_last())
    }
}

/// The contents of a list of byte buffers.
pub open spec fn byte_lines(v: Seq<Vec<u8>>) -> Seq<Seq<u8>> {
    v.map_values(|l: Vec<u8>| l@)
}

/// All the pieces of `chunks`, one after the other.
pub open spec fn joined(chunks: Seq<Seq<u8>>) -> Seq<u8>
    decreases chunks.len(),
{
    if chunks.len() == 0 {
        seq![]
    } else {
        joined(chunks.drop_last()) + chunks.last()
    }
}

/// What a splitter that starts empty emits, and then holds, after it was fed
/// `chunks` one call at a time.
pub open spec fn fed_in_pieces(chunks: Seq<Seq<u8>>) -> (Seq<Seq<u8>>, Seq<u8>)
    decreases chunks.len(),
{
    if chunks.len() == 0 {
        (seq![], seq![])
    } else {
        let (emitted, held) = fed_in_pieces(chunks.drop_last());
        (
            emitted + complete_lines(held + chunks.last()),
            fragment(held + chunks.last()),
        )
    }
}

/// A fragment never holds a terminator.
pub proof fn lemma_fragment_unterminated(s: Seq<u8>)
    ensures
        unterminated(fragment(s)),
    decreases s.len(),
{
    if s.len() > 0 && s.last() != NEWLINE {
        lemma_fragment_unterminated(s.drop_last());
    }
}

/// Bytes without a terminator hold no complete line and are all fragment.
pub proof fn lemma_unterminated(s: Seq<u8>)
    requires
        unterminated(s),
    ensures
        complete_lines(s) == Seq::<Seq<u8>>::empty(),
        fragment(s) == s,
    decreases s.len(),
{
    if s.len() > 0 {
        assert(s.last() == s[s.len() - 1]);
        assert(unterminated(s.drop_last()));
        lemma_unterminated(s.drop_last());
        assert(s.drop_last().push(s.last()) =~= s);
    }
}

/// Feeding `a` and then `b` emits the lines of `a + b`, in order, and leaves
/// the same fragment as feeding `a + b` at once.
pub proof fn lemma_reassembly(a: Seq<u8>, b: Seq<u8>)
    ensures
        complete_lines(a) + complete_lines(fragment(a) + b) == complete_lines(a + b),
        fragment(fragment(a) + b) == fragment(a + b),
    decreases b.len(),
{
    if b.len() == 0 {
        assert(a + b =~= a);
        assert(fragment(a) + b =~= fragment(a));
        lemma_fragment_unterminated(a);
        lemma_unterminated(fragment(a));
        assert(complete_lines(a) + complete_lines(fragment(a) + b) =~= complete_lines(a));
    } else {
        let b0 = b.drop_last();
        lemma_reassembly(a, b0);
        assert((a + b).drop_last() =~= a + b0);
        assert((fragment(a) + b).drop_last() =~= fragment(a) + b0);
        assert((a + b).last() == b.last());
        assert((fragment(a) + b).last() == b.last());
        if b.last() == NEWLINE {
            assert(complete_lines(a) + complete_lines(fragment(a) + b) =~= (complete_lines(a)
                + complete_lines(fragment(a) + b0)).push(fragment(fragment(a) + b0)));
        }
    }
}

/// Feeding the pieces of a byte stream one call at a time emits exactly the
/// complete lines of the whole stream, in order, and holds its fragment.
pub proof fn lemma_split_anywhere(chunks: Seq<Seq<u8>>)
    ensures
        fed_in_pieces(chunks) == (complete_lines(joined(chunks)), fragment(joined(chunks))),
    decreases chunks.len(),
{
    if chunks.len() > 0 {
        let rest = chunks.drop_last();
        lemma_split_anywhere(rest);
        lemma_reassembly(joined(rest), chunks.last());
    } else {
        assert(complete_lines(joined(chunks)) =~= Seq::<Seq<u8>>::empty());
    }
}

/// A stream with `K` terminators holds exactly `K` complete lines.
pub proof fn lemma_line_count(s: Seq<u8>)
    ensures
        complete_lines(s).len() == terminators(s),
    decreases s.len(),
{
    if s.len() > 0 {
        lemma_line_count(s.drop_last());
    }
}

/// The bytes that writing each of `lines` followed by a terminator gives.
pub open spec fn terminated_lines(lines: Seq<Seq<u8>>) -> Seq<u8>
    decreases lines.len(),
{
    if lines.len() == 0 {
        seq![]
    } else {
        terminated_lines(lines.drop_last()) + lines.last().push(NEWLINE)
    }
}

/// Lines written one after the other, each followed by a terminator, come
/// back as they were written, and nothing is held back.
pub proof fn lemma_written_lines_come_back(lines: Seq<Seq<u8>>)
    requires
        forall|i: int| 0 <= i < lines.len() ==> unterminated(#[trigger] lines[i]),
    ensures
        complete_lines(terminated_lines(lines)) == lines,
        fragment(terminated_lines(lines)) == Seq::<u8>::empty(),
    decreases lines.len(),
{
    if lines.len() > 0 {
        let rest = lines.drop_last();
        let last = lines.last();
        assert(unterminated(last));
        assert forall|i: int| 0 <= i < rest.len() implies unterminated(#[trigger] rest[i]) by {
            assert(rest[i] == lines[i]);
        }
        lemma_written_lines_come_back(rest);
        let before = terminated_lines(rest);
        let written = last.push(NEWLINE);
        lemma_reassembly(before, written);
        assert(fragment(before) + written =~= written);
        assert(written.drop_last() =~= last);
        lemma_unterminated(last);
        assert(complete_lines(written) =~= seq![last]);
        assert(lines =~= rest.push(last));
    } else {
        assert(complete_lines(terminated_lines(lines)) =~= lines);
    }
}

/// Turns appended bytes into complete lines, holding back a line that has
/// not ended yet until its terminator arrives.
pub struct LineSplitter {
    pending: Vec<u8>,
}

impl View for LineSplitter {
    type V = Seq<u8>;

    /// The bytes held back: the start of a line without its terminator.
    closed spec fn view(&self) -> Seq<u8> {
        self.pending@
    }
}

impl LineSplitter {
    /// A splitter that holds nothing.
    pub fn new() -> (r: LineSplitter)
        ensures
            r@ == Seq::<u8>::empty(),
    {
        LineSplitter { pending: Vec::new() }
    }

    /// The bytes held back, a copy.
    pub fn pending(&self) -> (r: Vec<u8>)
        ensures
            r@ == self@,
    {
        self.pending.clone()
    }

    /// Appends `bytes` to what is held back and returns, in order, every line
    /// that is now complete; keeps what follows the last terminator.
    pub fn feed(&mut self, bytes: &[u8]) -> (lines: Vec<Vec<u8>>)
        requires
            unterminated(old(self)@),
        ensures
            byte_lines(lines@) == complete_lines(old(self)@ + bytes@),
            final(self)@ == fragment(old(self)@ + bytes@),
            unterminated(final(self)@),
    {
        let ghost start = self@;
        let mut cur: Vec<u8> = Vec::new();
        std::mem::swap(&mut cur, &mut self.pending);
        proof {
            lemma_unterminated(start);
            assert(start + bytes@.subrange(0, 0) =~= start);
        }
        let mut lines: Vec<Vec<u8>> = Vec::new();
        let n = bytes.len();
        for i in 0..n
            invariant
                n == bytes@.len(),
                byte_lines(lines@) == complete_lines(start + bytes@.subrange(0, i as int)),
                cur@ == fragment(start + bytes@.subrange(0, i as int)),
        {
            let ghost seen = start + bytes@.subrange(0, i as int);
            let ghost next = start + bytes@.subrange(0, i + 1);
            assert(next.drop_last() =~= seen);
            assert(next.last() == bytes@[i as int]);
            let b = bytes[i];
            if b == NEWLINE {
                let mut done: Vec<u8> = Vec::new();
                std::mem::swap(&mut done, &mut cur);
                let ghost before = lines@;
                lines.push(done);
                assert(byte_lines(lines@) =~= byte_lines(before).push(done@));
            } else {
                cur.push(b);
            }
        }
        assert(bytes@.subrange(0, n as int) =~= bytes@);
        proof {
            lemma_fragment_unterminated(start + bytes@);
        }
        self.pending = cur;
        lines
    }
}

} // verus!

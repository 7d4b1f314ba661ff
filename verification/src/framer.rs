//! Incremental line framer: turns an arbitrary sequence of byte chunks into
//! the newline-delimited, whitespace-trimmed, non-empty lines of their
//! concatenation, however the bytes were split across chunks.
//!
//! Framing and trimming work on bytes, before any decoding, so that the
//! whole pipeline is a pure function of the received bytes and the
//! chunking-invariance law can be stated over them. Trimming therefore
//! removes the ASCII whitespace bytes only: a line padded with a non-ASCII
//! whitespace character keeps it, and such a line counts as non-empty and
//! is forwarded rather than dropped — a deliberate narrowing against a
//! character-level trim, which would put an unspecified decoding between
//! the wire bytes and the framing.

use vstd::prelude::*;

verus! {

/// A newline byte ends a line in the progress stream.
pub open spec fn is_line_break(b: u8) -> bool {
    b == 10u8
}

/// ASCII whitespace, the set trimmed from the ends of each extracted
/// line; non-ASCII whitespace is kept (see the module note).
pub open spec fn is_ws(b: u8) -> bool {
    b == 32u8 || b == 9u8 || b == 10u8 || b == 13u8 || b == 11u8 || b == 12u8
}

/// Executable test for the whitespace set used when trimming lines.
pub fn is_ws_byte(b: u8) -> (r: bool)
    ensures
        r == is_ws(b),
{
    b == 32u8 || b == 9u8 || b == 10u8 || b == 13u8 || b == 11u8 || b == 12u8
}

/// The suffix of `s` after its leading whitespace.
pub open spec fn drop_leading_ws(s: Seq<u8>) -> Seq<u8>
    decreases s.len(),
{
    if s.len() > 0 && is_ws(s[0]) {
        drop_leading_ws(s.drop_first())
    } else {
        s
    }
}

/// The prefix of `s` before its trailing whitespace.
pub open spec fn drop_trailing_ws(s: Seq<u8>) -> Seq<u8>
    decreases s.len(),
{
    if s.len() > 0 && is_ws(s[s.len() - 1]) {
        drop_trailing_ws(s.drop_last())
    } else {
        s
    }
}

/// `s` with whitespace removed from both ends.
pub open spec fn trim_bytes(s: Seq<u8>) -> Seq<u8> {
    drop_trailing_ws(drop_leading_ws(s))
}

/// Index of the first newline byte of `s`, or `s.len()` if there is none.
pub open spec fn first_break(s: Seq<u8>) -> int
    decreases s.len(),
{
    if s.len() == 0 {
        0
    } else if is_line_break(s[0]) {
        0
    } else {
        1 + first_break(s.drop_first())
    }
}

pub proof fn lemma_first_break(s: Seq<u8>)
    ensures
        0 <= first_break(s) <= s.len(),
        forall|i: int| 0 <= i < first_break(s) ==> !is_line_break(s[i]),
        first_break(s) < s.len() ==> is_line_break(s[first_break(s)]),
    decreases s.len(),
{
    if s.len() == 0 {
    } else if is_line_break(s[0]) {
    } else {
        lemma_first_break(s.drop_first());
        assert forall|i: int| 0 <= i < first_break(s) implies !is_line_break(s[i]) by {
            if i > 0 {
                assert(s[i] == s.drop_first()[i - 1]);
            }
        }
    }
}

pub proof fn lemma_first_break_is(s: Seq<u8>, p: int)
    requires
        0 <= p <= s.len(),
        forall|i: int| 0 <= i < p ==> !is_line_break(s[i]),
        p < s.len() ==> is_line_break(s[p]),
    ensures
        first_break(s) == p,
    decreases s.len(),
{
    if s.len() == 0 {
    } else if is_line_break(s[0]) {
    } else {
        assert forall|i: int| 0 <= i < p - 1 implies !is_line_break(s.drop_first()[i]) by {
            assert(s.drop_first()[i] == s[i + 1]);
        }
        if p < s.len() {
            assert(s.drop_first()[p - 1] == s[p]);
        }
        lemma_first_break_is(s.drop_first(), p - 1);
    }
}

/// The trimmed, non-empty lines before each newline of `s`, in order.
pub open spec fn complete_lines(s: Seq<u8>) -> Seq<Seq<u8>>
    decreases s.len(),
{
    let p = first_break(s);
    if p < 0 || p >= s.len() {
        Seq::empty()
    } else {
        let line = trim_bytes(s.subrange(0, p));
        let rest = complete_lines(s.subrange(p + 1, s.len() as int));
        if line.len() > 0 {
            seq![line] + rest
        } else {
            rest
        }
    }
}

/// What remains of `s` after its last newline.
pub open spec fn tail_bytes(s: Seq<u8>) -> Seq<u8>
    decreases s.len(),
{
    let p = first_break(s);
    if p < 0 || p >= s.len() {
        s
    } else {
        tail_bytes(s.subrange(p + 1, s.len() as int))
    }
}

/// The line the framer yields when flushed with buffered content `buf`.
pub open spec fn flush_lines(buf: Seq<u8>) -> Seq<Seq<u8>> {
    if trim_bytes(buf).len() > 0 {
        seq![trim_bytes(buf)]
    } else {
        Seq::empty()
    }
}

/// Every trimmed, non-empty, newline-delimited segment of a whole stream,
/// including the unterminated final one.
pub open spec fn all_lines(input: Seq<u8>) -> Seq<Seq<u8>> {
    complete_lines(input) + flush_lines(tail_bytes(input))
}

/// Draining distributes over appending a chunk `c` to already-seen input `u`:
/// the new lines are exactly those framed from the old remainder plus `c`.
pub proof fn lemma_lines_concat(u: Seq<u8>, c: Seq<u8>)
    ensures
        complete_lines(u + c) == complete_lines(u) + complete_lines(tail_bytes(u) + c),
        tail_bytes(u + c) == tail_bytes(tail_bytes(u) + c),
    decreases u.len(),
{
    lemma_first_break(u);
    let p = first_break(u);
    if p >= u.len() {
        // `u` holds no newline: nothing is framed from `u` alone.
        assert(tail_bytes(u) == u);
        assert(complete_lines(u) == Seq::<Seq<u8>>::empty());
        assert(complete_lines(u + c) =~= complete_lines(u) + complete_lines(tail_bytes(u) + c));
    } else {
        lemma_first_break(u + c);
        assert forall|i: int| 0 <= i < p implies !is_line_break((u + c)[i]) by {
            assert((u + c)[i] == u[i]);
        }
        assert((u + c)[p] == u[p]);
        lemma_first_break_is(u + c, p);
        let u1 = u.subrange(p + 1, u.len() as int);
        assert((u + c).subrange(0, p) =~= u.subrange(0, p));
        assert((u + c).subrange(p + 1, (u + c).len() as int) =~= u1 + c);
        lemma_lines_concat(u1, c);
        assert(complete_lines(u + c) =~= complete_lines(u) + complete_lines(tail_bytes(u) + c));
    }
}

/// The concatenation of a sequence of byte chunks.
pub open spec fn concat_chunks(chunks: Seq<Seq<u8>>) -> Seq<u8>
    decreases chunks.len(),
{
    if chunks.len() == 0 {
        Seq::empty()
    } else {
        concat_chunks(chunks.drop_last()) + chunks.last()
    }
}

/// The lines drained after each chunk when the chunks are fed one at a time.
pub open spec fn run_lines(chunks: Seq<Seq<u8>>) -> Seq<Seq<u8>>
    decreases chunks.len(),
{
    if chunks.len() == 0 {
        Seq::empty()
    } else {
        run_lines(chunks.drop_last()) + complete_lines(
            run_buffer(chunks.drop_last()) + chunks.last(),
        )
    }
}

/// The buffered remainder after the chunks are fed one at a time.
pub open spec fn run_buffer(chunks: Seq<Seq<u8>>) -> Seq<u8>
    decreases chunks.len(),
{
    if chunks.len() == 0 {
        Seq::empty()
    } else {
        tail_bytes(run_buffer(chunks.drop_last()) + chunks.last())
    }
}

/// Law: however a byte stream is split into chunks, feeding each chunk and
/// draining after it, then flushing the remainder, emits exactly the trimmed
/// non-empty newline-delimited segments of the whole stream, in their
/// original order.
pub proof fn lemma_chunking_invariance(chunks: Seq<Seq<u8>>)
    ensures
        run_lines(chunks) == complete_lines(concat_chunks(chunks)),
        run_buffer(chunks) == tail_bytes(concat_chunks(chunks)),
        run_lines(chunks) + flush_lines(run_buffer(chunks)) == all_lines(concat_chunks(chunks)),
    decreases chunks.len(),
{
    if chunks.len() == 0 {
        assert(complete_lines(concat_chunks(chunks)) == Seq::<Seq<u8>>::empty());
        assert(run_lines(chunks) + flush_lines(run_buffer(chunks)) =~= all_lines(
            concat_chunks(chunks),
        ));
    } else {
        let prefix = chunks.drop_last();
        lemma_chunking_invariance(prefix);
        lemma_lines_concat(concat_chunks(prefix), chunks.last());
        assert(run_lines(chunks) + flush_lines(run_buffer(chunks)) =~= all_lines(
            concat_chunks(chunks),
        ));
    }
}

/// Growable buffer of bytes received but not yet terminated by a newline.
pub struct LineFramer {
    buffer: Vec<u8>,
}

impl View for LineFramer {
    type V = Seq<u8>;

    closed spec fn view(&self) -> Seq<u8> {
        self.buffer@
    }
}

/// Index of the first newline byte in `buf`, if any.
fn find_break(buf: &Vec<u8>) -> (r: Option<usize>)
    ensures
        match r {
            Some(p) => p == first_break(buf@) && p < buf@.len(),
            None => first_break(buf@) == buf@.len(),
        },
{
    let n = buf.len();
    let mut i: usize = 0;
    while i < n
        invariant
            0 <= i <= n,
            n == buf@.len(),
            forall|j: int| 0 <= j < i ==> !is_line_break(buf@[j]),
        decreases n - i,
    {
        if buf[i] == 10u8 {
            proof {
                lemma_first_break_is(buf@, i as int);
            }
            return Some(i);
        }
        i = i + 1;
    }
    proof {
        lemma_first_break_is(buf@, n as int);
    }
    None
}

/// Copy of `buf[..end]` with whitespace removed from both ends.
fn trim_range(buf: &Vec<u8>, end: usize) -> (r: Vec<u8>)
    requires
        end <= buf@.len(),
    ensures
        r@ == trim_bytes(buf@.subrange(0, end as int)),
{
    let ghost s = buf@.subrange(0, end as int);
    proof {
        assert(s.subrange(0, end as int) =~= s);
    }
    let mut lo: usize = 0;
    while lo < end && is_ws_byte(buf[lo])
        invariant
            0 <= lo <= end <= buf@.len(),
            s == buf@.subrange(0, end as int),
            drop_leading_ws(s) == drop_leading_ws(s.subrange(lo as int, end as int)),
        decreases end - lo,
    {
        proof {
            assert(s.subrange(lo as int, end as int).drop_first() =~= s.subrange(
                lo as int + 1,
                end as int,
            ));
        }
        lo = lo + 1;
    }
    proof {
        assert(drop_leading_ws(s) == s.subrange(lo as int, end as int));
    }
    let ghost t = s.subrange(lo as int, end as int);
    let mut hi: usize = end;
    while hi > lo && is_ws_byte(buf[hi - 1])
        invariant
            0 <= lo <= hi <= end <= buf@.len(),
            t == s.subrange(lo as int, end as int),
            s == buf@.subrange(0, end as int),
            drop_trailing_ws(t) == drop_trailing_ws(s.subrange(lo as int, hi as int)),
        decreases hi,
    {
        proof {
            assert(s.subrange(lo as int, hi as int).drop_last() =~= s.subrange(
                lo as int,
                hi as int - 1,
            ));
        }
        hi = hi - 1;
    }
    proof {
        assert(drop_trailing_ws(t) == s.subrange(lo as int, hi as int));
    }
    let sl = vstd::slice::slice_subrange(buf.as_slice(), lo, hi);
    let r = vstd::slice::slice_to_vec(sl);
    proof {
        assert(r@ =~= trim_bytes(s));
    }
    r
}

impl LineFramer {
    /// A framer with an empty buffer.
    pub fn new() -> (r: Self)
        ensures
            r@ == Seq::<u8>::empty(),
    {
        LineFramer { buffer: Vec::new() }
    }

    /// Append a received chunk to the buffer, byte for byte.
    pub fn feed(&mut self, chunk: &[u8])
        ensures
            final(self)@ == old(self)@ + chunk@,
    {
        let mut incoming = vstd::slice::slice_to_vec(chunk);
        self.buffer.append(&mut incoming);
    }

    /// Extract every complete line from the buffer: the trimmed content
    /// before each newline, empty lines discarded, the unterminated
    /// remainder kept for later calls.
    pub fn drain(&mut self) -> (lines: Vec<Vec<u8>>)
        ensures
            lines@.map_values(|l: Vec<u8>| l@) == complete_lines(old(self)@),
            final(self)@ == tail_bytes(old(self)@),
    {
        let ghost orig = self.buffer@;
        let mut lines: Vec<Vec<u8>> = Vec::new();
        proof {
            assert(lines@.map_values(|l: Vec<u8>| l@) + complete_lines(self.buffer@)
                =~= complete_lines(orig));
        }
        loop
            invariant
                lines@.map_values(|l: Vec<u8>| l@) + complete_lines(self.buffer@)
                    == complete_lines(orig),
                tail_bytes(self.buffer@) == tail_bytes(orig),
            ensures
                lines@.map_values(|l: Vec<u8>| l@) == complete_lines(orig),
                self.buffer@ == tail_bytes(orig),
            decreases self.buffer@.len(),
        {
            let ghost pre = self.buffer@;
            match find_break(&self.buffer) {
                Some(p) => {
                    let line = trim_range(&self.buffer, p);
                    let n = self.buffer.len();
                    proof {
                        assert(p < n);
                    }
                    let rest = self.buffer.split_off(p + 1);
                    self.buffer = rest;
                    proof {
                        assert(pre.subrange(p + 1, pre.len() as int) =~= self.buffer@);
                        assert(complete_lines(pre) == if trim_bytes(pre.subrange(0, p as int)).len()
                            > 0 {
                            seq![trim_bytes(pre.subrange(0, p as int))] + complete_lines(
                                self.buffer@,
                            )
                        } else {
                            complete_lines(self.buffer@)
                        });
                    }
                    if line.len() > 0 {
                        let ghost before = lines@;
                        lines.push(line);
                        proof {
                            assert(lines@.map_values(|l: Vec<u8>| l@) =~= before.map_values(
                                |l: Vec<u8>| l@,
                            ).push(line@));
                            assert(lines@.map_values(|l: Vec<u8>| l@) + complete_lines(
                                self.buffer@,
                            ) =~= complete_lines(orig));
                        }
                    } else {
                        proof {
                            assert(lines@.map_values(|l: Vec<u8>| l@) + complete_lines(
                                self.buffer@,
                            ) =~= complete_lines(orig));
                        }
                    }
                },
                None => {
                    break ;
                },
            }
        }
        lines
    }

    /// Hand back the trimmed remainder, if non-empty, and leave the buffer
    /// empty; called once after the byte source is exhausted.
    pub fn flush_remainder(&mut self) -> (r: Option<Vec<u8>>)
        ensures
            final(self)@ == Seq::<u8>::empty(),
            match r {
                Some(l) => l@ == trim_bytes(old(self)@) && trim_bytes(old(self)@).len() > 0,
                None => trim_bytes(old(self)@).len() == 0,
            },
    {
        proof {
            assert(self.buffer@.subrange(0, self.buffer@.len() as int) =~= self.buffer@);
        }
        let line = trim_range(&self.buffer, self.buffer.len());
        self.buffer = Vec::new();
        if line.len() > 0 {
            Some(line)
        } else {
            None
        }
    }
}

} // verus!

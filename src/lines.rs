use vstd::prelude::*;
use vstd::slice::{slice_subrange, slice_to_vec};

verus! {

/// The byte that ends a line.
pub const NEWLINE: u8 = 10;

/// The pieces of `s` that line framing yields when scanning resumes at `from`
/// and the current piece began at `start`: every piece ends just after a
/// newline, except a last one that runs to the end of `s` without one.
pub open spec fn pieces_from(s: Seq<u8>, from: int, start: int) -> Seq<Seq<u8>>
    decreases s.len() - from,
{
    if from >= s.len() {
        if start < s.len() {
            seq![s.subrange(start, s.len() as int)]
        } else {
            Seq::empty()
        }
    } else if s[from] == NEWLINE {
        seq![s.subrange(start, from + 1)] + pieces_from(s, from + 1, from + 1)
    } else {
        pieces_from(s, from + 1, start)
    }
}

/// `s` cut into lines, each keeping its newline; a last unterminated
/// fragment is a piece of its own.
pub open spec fn pieces(s: Seq<u8>) -> Seq<Seq<u8>> {
    pieces_from(s, 0, 0)
}

/// How many bytes of `s` belong to complete lines: everything up to and
/// including the last newline, or nothing when `s` holds no newline.
pub open spec fn complete_len(s: Seq<u8>) -> nat
    decreases s.len(),
{
    if s.len() == 0 {
        0
    } else if s.last() == NEWLINE {
        s.len()
    } else {
        complete_len(s.drop_last())
    }
}

/// The contents of a list of byte buffers.
pub open spec fn contents(v: Seq<Vec<u8>>) -> Seq<Seq<u8>> {
    v.map_values(|b: Vec<u8>| b@)
}

/// The complete lines of `pending + chunk`, as line framing hands them on.
pub open spec fn framed_lines(pending: Seq<u8>, chunk: Seq<u8>) -> Seq<Seq<u8>> {
    let s = pending + chunk;
    pieces(s.take(complete_len(s) as int))
}

/// What stays pending after `chunk` arrives while `pending` waits.
pub open spec fn framed_rest(pending: Seq<u8>, chunk: Seq<u8>) -> Seq<u8> {
    let s = pending + chunk;
    s.skip(complete_len(s) as int)
}

/// The lines written for a whole stream delivered as `chunks`, before the
/// stream ends, with what is pending afterwards.
pub open spec fn stream_lines(chunks: Seq<Seq<u8>>) -> (Seq<Seq<u8>>, Seq<u8>)
    decreases chunks.len(),
{
    if chunks.len() == 0 {
        (Seq::empty(), Seq::empty())
    } else {
        let (lines, pending) = stream_lines(chunks.drop_last());
        (lines + framed_lines(pending, chunks.last()), framed_rest(pending, chunks.last()))
    }
}

/// Every line written for `chunks`: the complete lines, then the pending
/// fragment as a final line when the stream ends with one.
pub open spec fn stream_written(chunks: Seq<Seq<u8>>) -> Seq<Seq<u8>> {
    let (lines, pending) = stream_lines(chunks);
    if pending.len() > 0 {
        lines.push(pending)
    } else {
        lines
    }
}

proof fn lemma_pieces_from_flatten(s: Seq<u8>, from: int, start: int)
    requires
        0 <= start <= from <= s.len(),
    ensures
        pieces_from(s, from, start).flatten() == s.subrange(start, s.len() as int),
    decreases s.len() - from,
{
    if from >= s.len() {
        if start < s.len() {
            seq![s.subrange(start, s.len() as int)].lemma_flatten_singleton();
        } else {
            assert(s.subrange(start, s.len() as int) =~= Seq::<u8>::empty());
        }
    } else if s[from] == NEWLINE {
        let first = seq![s.subrange(start, from + 1)];
        lemma_pieces_from_flatten(s, from + 1, from + 1);
        vstd::seq_lib::lemma_flatten_concat(first, pieces_from(s, from + 1, from + 1));
        first.lemma_flatten_singleton();
        assert(s.subrange(start, from + 1) + s.subrange(from + 1, s.len() as int) =~= s.subrange(
            start,
            s.len() as int,
        ));
    } else {
        lemma_pieces_from_flatten(s, from + 1, start);
    }
}

/// Framing loses and adds nothing: the pieces of `s` put together are `s`.
pub proof fn lemma_pieces_flatten(s: Seq<u8>)
    ensures
        pieces(s).flatten() == s,
{
    lemma_pieces_from_flatten(s, 0, 0);
    assert(s.subrange(0, s.len() as int) =~= s);
}

proof fn lemma_pieces_from_terminated(s: Seq<u8>, from: int, start: int)
    requires
        0 <= start <= from <= s.len(),
        s.len() == 0 || s.last() == NEWLINE,
    ensures
        forall|i: int|
            0 <= i < pieces_from(s, from, start).len() ==> {
                let p = #[trigger] pieces_from(s, from, start)[i];
                p.len() > 0 && p.last() == NEWLINE
            },
    decreases s.len() - from,
{
    if from >= s.len() {
        if start < s.len() {
            let only = s.subrange(start, s.len() as int);
            assert(only.last() == s.last());
            assert(pieces_from(s, from, start) == seq![only]);
            assert(seq![only][0] == only);
        }
    } else if s[from] == NEWLINE {
        lemma_pieces_from_terminated(s, from + 1, from + 1);
        let first = seq![s.subrange(start, from + 1)];
        let rest = pieces_from(s, from + 1, from + 1);
        assert forall|i: int| 0 <= i < (first + rest).len() implies {
            let p = #[trigger] (first + rest)[i];
            p.len() > 0 && p.last() == NEWLINE
        } by {
            assert(pieces_from(s, from, start) == first + rest);
            if i > 0 {
                assert((first + rest)[i] == rest[i - 1]);
            } else {
                assert(s.subrange(start, from + 1).last() == s[from]);
            }
        }
    } else {
        lemma_pieces_from_terminated(s, from + 1, start);
        assert(pieces_from(s, from, start) == pieces_from(s, from + 1, start));
    }
}

proof fn lemma_complete_len(s: Seq<u8>)
    ensures
        complete_len(s) <= s.len(),
        complete_len(s) == 0 || s[complete_len(s) - 1] == NEWLINE,
        forall|i: int| complete_len(s) <= i < s.len() ==> s[i] != NEWLINE,
    decreases s.len(),
{
    if s.len() > 0 && s.last() != NEWLINE {
        let d = s.drop_last();
        lemma_complete_len(d);
        assert forall|i: int| complete_len(s) <= i < s.len() implies s[i] != NEWLINE by {
            if i < d.len() {
                assert(s[i] == d[i]);
            }
        }
    }
}

/// Each framed line is whole: it is not empty and ends with a newline.
pub proof fn lemma_framed_lines_terminated(pending: Seq<u8>, chunk: Seq<u8>)
    ensures
        forall|i: int|
            0 <= i < framed_lines(pending, chunk).len() ==> {
                let p = #[trigger] framed_lines(pending, chunk)[i];
                p.len() > 0 && p.last() == NEWLINE
            },
{
    let s = pending + chunk;
    lemma_complete_len(s);
    lemma_pieces_from_terminated(s.take(complete_len(s) as int), 0, 0);
}

/// One delivery keeps every byte: the framed lines followed by the new
/// pending fragment are the old pending fragment followed by the chunk.
pub proof fn lemma_framing_keeps_bytes(pending: Seq<u8>, chunk: Seq<u8>)
    ensures
        framed_lines(pending, chunk).flatten() + framed_rest(pending, chunk) == pending + chunk,
{
    let s = pending + chunk;
    lemma_complete_len(s);
    lemma_pieces_flatten(s.take(complete_len(s) as int));
    assert(s.take(complete_len(s) as int) + s.skip(complete_len(s) as int) =~= s);
}

proof fn lemma_stream_lines_keep_bytes(chunks: Seq<Seq<u8>>)
    ensures
        stream_lines(chunks).0.flatten() + stream_lines(chunks).1 == chunks.flatten(),
    decreases chunks.len(),
{
    if chunks.len() > 0 {
        let (lines, pending) = stream_lines(chunks.drop_last());
        let c = chunks.last();
        lemma_stream_lines_keep_bytes(chunks.drop_last());
        lemma_framing_keeps_bytes(pending, c);
        vstd::seq_lib::lemma_flatten_concat(lines, framed_lines(pending, c));
        assert(chunks.drop_last().push(c) =~= chunks);
        chunks.drop_last().lemma_flatten_push(c);
        assert(lines.flatten() + framed_lines(pending, c).flatten() + framed_rest(pending, c)
            =~= lines.flatten() + (pending + c));
    }
}

/// However a byte stream is cut into chunks, the lines written for it, the
/// final fragment included, put together give back exactly the stream.
pub proof fn lemma_any_chunking_keeps_stream(chunks: Seq<Seq<u8>>)
    ensures
        stream_written(chunks).flatten() == chunks.flatten(),
{
    lemma_stream_lines_keep_bytes(chunks);
    let (lines, pending) = stream_lines(chunks);
    if pending.len() > 0 {
        lines.lemma_flatten_push(pending);
    } else {
        assert(lines.flatten() + pending =~= lines.flatten());
    }
}

/// Two chunkings of one stream write the same lines, in the same order.
pub proof fn lemma_chunking_irrelevant(a: Seq<Seq<u8>>, b: Seq<Seq<u8>>)
    requires
        a.flatten() == b.flatten(),
    ensures
        stream_written(a) == stream_written(b),
        stream_written(a).flatten() == a.flatten(),
{
    lemma_written_is_framing(a);
    lemma_written_is_framing(b);
    lemma_any_chunking_keeps_stream(a);
}

proof fn lemma_pieces_shift(x: Seq<u8>, y: Seq<u8>, from: int, start: int)
    requires
        0 <= start <= from <= y.len(),
    ensures
        pieces_from(x + y, x.len() + from, x.len() + start) == pieces_from(y, from, start),
    decreases y.len() - from,
{
    let s = x + y;
    if from < y.len() {
        assert(s[x.len() + from] == y[from]);
        if y[from] == NEWLINE {
            lemma_pieces_shift(x, y, from + 1, from + 1);
            assert(s.subrange(x.len() + start, x.len() + from + 1) =~= y.subrange(start, from + 1));
        } else {
            lemma_pieces_shift(x, y, from + 1, start);
        }
    } else if start < y.len() {
        assert(s.subrange(x.len() + start, s.len() as int) =~= y.subrange(start, y.len() as int));
    }
}

proof fn lemma_pieces_from_append(x: Seq<u8>, y: Seq<u8>, from: int, start: int)
    requires
        0 <= start <= from <= x.len(),
        x.len() == 0 || x.last() == NEWLINE,
        forall|k: int| start <= k < from ==> x[k] != NEWLINE,
    ensures
        pieces_from(x + y, from, start) == pieces_from(x, from, start) + pieces(y),
    decreases x.len() - from,
{
    let s = x + y;
    if from == x.len() {
        if start < from {
            assert(x[from - 1] == x.last());
        }
        lemma_pieces_shift(x, y, 0, 0);
        assert(pieces_from(x, from, start) =~= Seq::<Seq<u8>>::empty());
        assert(pieces_from(x, from, start) + pieces(y) =~= pieces(y));
    } else {
        assert(s[from] == x[from]);
        if x[from] == NEWLINE {
            lemma_pieces_from_append(x, y, from + 1, from + 1);
            assert(s.subrange(start, from + 1) =~= x.subrange(start, from + 1));
            let head = seq![x.subrange(start, from + 1)];
            assert(head + (pieces_from(x, from + 1, from + 1) + pieces(y)) =~= head
                + pieces_from(x, from + 1, from + 1) + pieces(y));
        } else {
            lemma_pieces_from_append(x, y, from + 1, start);
        }
    }
}

/// Framing is compositional at line ends: when `x` is empty or ends with a
/// newline, the lines of `x + y` are those of `x` followed by those of `y`.
pub proof fn lemma_pieces_append(x: Seq<u8>, y: Seq<u8>)
    requires
        x.len() == 0 || x.last() == NEWLINE,
    ensures
        pieces(x + y) == pieces(x) + pieces(y),
{
    lemma_pieces_from_append(x, y, 0, 0);
}

proof fn lemma_pieces_from_no_newline(t: Seq<u8>, from: int)
    requires
        0 <= from <= t.len(),
        forall|k: int| 0 <= k < t.len() ==> t[k] != NEWLINE,
    ensures
        pieces_from(t, from, 0) == (if t.len() > 0 {
            seq![t]
        } else {
            Seq::<Seq<u8>>::empty()
        }),
    decreases t.len() - from,
{
    if from < t.len() {
        lemma_pieces_from_no_newline(t, from + 1);
    } else if t.len() > 0 {
        assert(t.subrange(0, t.len() as int) =~= t);
    }
}

proof fn lemma_complete_len_unique(s: Seq<u8>, m: int)
    requires
        0 <= m <= s.len(),
        m == 0 || s[m - 1] == NEWLINE,
        forall|i: int| m <= i < s.len() ==> s[i] != NEWLINE,
    ensures
        complete_len(s) == m,
{
    lemma_complete_len(s);
    let c = complete_len(s) as int;
    if c < m {
        assert(s[m - 1] != NEWLINE);
    } else if m < c {
        assert(s[c - 1] != NEWLINE);
    }
}

proof fn lemma_stream_lines_closed_form(chunks: Seq<Seq<u8>>)
    ensures
        ({
            let s = chunks.flatten();
            let k = complete_len(s) as int;
            stream_lines(chunks) == (pieces(s.take(k)), s.skip(k))
        }),
    decreases chunks.len(),
{
    let s = chunks.flatten();
    if chunks.len() == 0 {
        assert(s.take(0) =~= Seq::<u8>::empty());
        assert(s.skip(0) =~= Seq::<u8>::empty());
        assert(pieces(Seq::<u8>::empty()) =~= Seq::<Seq<u8>>::empty());
    } else {
        let init = chunks.drop_last();
        let c = chunks.last();
        let t = init.flatten();
        lemma_stream_lines_closed_form(init);
        assert(init.push(c) =~= chunks);
        init.lemma_flatten_push(c);
        let k = complete_len(t) as int;
        lemma_complete_len(t);
        let x = t.take(k);
        let rest = t.skip(k);
        let u = rest + c;
        let k2 = complete_len(u) as int;
        lemma_complete_len(u);
        let y = u.take(k2);
        assert(t =~= x + rest);
        assert(s =~= x + u);
        // the complete part of the whole stream ends where that of `u` ends
        assert forall|i: int| k + k2 <= i < s.len() implies s[i] != NEWLINE by {
            assert(s[i] == u[i - k]);
        }
        if k2 > 0 {
            assert(s[k + k2 - 1] == u[k2 - 1]);
        } else if k > 0 {
            assert(s[k - 1] == t[k - 1]);
        }
        lemma_complete_len_unique(s, k + k2);
        assert(s.take(k + k2) =~= x + y);
        assert(s.skip(k + k2) =~= u.skip(k2));
        if k > 0 {
            assert(x.last() == t[k - 1]);
        }
        lemma_pieces_append(x, y);
    }
}

/// The lines written for a stream are its framing, whatever the chunking:
/// the complete lines of the whole stream, then its unterminated end.
pub proof fn lemma_written_is_framing(chunks: Seq<Seq<u8>>)
    ensures
        stream_written(chunks) == pieces(chunks.flatten()),
{
    let s = chunks.flatten();
    let k = complete_len(s) as int;
    lemma_stream_lines_closed_form(chunks);
    lemma_complete_len(s);
    let x = s.take(k);
    let tail = s.skip(k);
    assert(s =~= x + tail);
    if k > 0 {
        assert(x.last() == s[k - 1]);
    }
    lemma_pieces_append(x, tail);
    assert forall|i: int| 0 <= i < tail.len() implies tail[i] != NEWLINE by {
        assert(tail[i] == s[k + i]);
    }
    lemma_pieces_from_no_newline(tail, 0);
    if tail.len() == 0 {
        assert(pieces(x) + pieces(tail) =~= pieces(x));
    }
}

proof fn lemma_pieces_from_lines(s: Seq<u8>, from: int, start: int)
    requires
        0 <= start <= from <= s.len(),
        forall|k: int| start <= k < from ==> s[k] != NEWLINE,
    ensures
        forall|i: int|
            0 <= i < pieces_from(s, from, start).len() ==> {
                let p = #[trigger] pieces_from(s, from, start)[i];
                &&& p.len() > 0
                &&& forall|j: int| 0 <= j < p.len() - 1 ==> p[j] != NEWLINE
                &&& i < pieces_from(s, from, start).len() - 1 ==> p.last() == NEWLINE
            },
    decreases s.len() - from,
{
    let ps = pieces_from(s, from, start);
    if from >= s.len() {
        if start < s.len() {
            let p = s.subrange(start, s.len() as int);
            assert(ps == seq![p]);
            assert(seq![p][0] == p);
            assert forall|j: int| 0 <= j < p.len() - 1 implies p[j] != NEWLINE by {
                assert(p[j] == s[start + j]);
            }
        }
    } else if s[from] == NEWLINE {
        lemma_pieces_from_lines(s, from + 1, from + 1);
        let p = s.subrange(start, from + 1);
        let rest = pieces_from(s, from + 1, from + 1);
        assert(ps == seq![p] + rest);
        assert forall|i: int| 0 <= i < ps.len() implies {
            let q = #[trigger] ps[i];
            &&& q.len() > 0
            &&& forall|j: int| 0 <= j < q.len() - 1 ==> q[j] != NEWLINE
            &&& i < ps.len() - 1 ==> q.last() == NEWLINE
        } by {
            if i == 0 {
                assert(ps[0] == p);
                assert forall|j: int| 0 <= j < p.len() - 1 implies p[j] != NEWLINE by {
                    assert(p[j] == s[start + j]);
                }
                assert(p.last() == s[from]);
            } else {
                assert(ps[i] == rest[i - 1]);
            }
        }
    } else {
        lemma_pieces_from_lines(s, from + 1, start);
        assert(ps == pieces_from(s, from + 1, start));
    }
}

/// Every piece of the framing is one line: not empty, with no newline but
/// possibly its last byte, and every piece but the last ends with a newline.
pub proof fn lemma_pieces_are_lines(s: Seq<u8>)
    ensures
        forall|i: int|
            0 <= i < pieces(s).len() ==> {
                let p = #[trigger] pieces(s)[i];
                &&& p.len() > 0
                &&& forall|j: int| 0 <= j < p.len() - 1 ==> p[j] != NEWLINE
                &&& i < pieces(s).len() - 1 ==> p.last() == NEWLINE
            },
{
    lemma_pieces_from_lines(s, 0, 0);
}

/// Walks a byte slice line by line; each line keeps its newline, and a last
/// unterminated fragment is returned as it is.
pub struct Lines<'a> {
    data: &'a [u8],
    pos: usize,
}

impl<'a> Lines<'a> {
    /// The bytes being walked.
    pub closed spec fn data(&self) -> Seq<u8> {
        self.data@
    }

    /// The lines not yet returned.
    pub closed spec fn remaining(&self) -> Seq<Seq<u8>> {
        pieces_from(self.data@, self.pos as int, self.pos as int)
    }

    pub fn new(data: &'a [u8]) -> (r: Self)
        ensures
            r.data() == data@,
            r.remaining() == pieces(data@),
    {
        Lines { data, pos: 0 }
    }

    /// The next line, or `None` when the bytes are used up.
    pub fn next(&mut self) -> (r: Option<&'a [u8]>)
        ensures
            final(self).data() == old(self).data(),
            old(self).remaining().len() == 0 ==> r is None && final(self).remaining() == old(
                self,
            ).remaining(),
            old(self).remaining().len() > 0 ==> r is Some && r->0@ == old(self).remaining()[0]
                && final(self).remaining() == old(self).remaining().drop_first(),
    {
        let len = self.data.len();
        if self.pos >= len {
            return None;
        }
        let start = self.pos;
        let mut i = start;
        while i < len && self.data[i] != NEWLINE
            invariant
                start <= i <= len,
                len == self.data@.len(),
                start < len,
                pieces_from(self.data@, start as int, start as int) == pieces_from(
                    self.data@,
                    i as int,
                    start as int,
                ),
            decreases len - i,
        {
            i = i + 1;
        }
        let end = if i < len {
            i + 1
        } else {
            len
        };
        self.pos = end;
        Some(slice_subrange(self.data, start, end))
    }
}

/// Reassembles lines from chunks of a byte stream: an incomplete last line
/// waits here until the rest of it arrives, or until the stream ends.
pub struct LineBuffer {
    tail: Vec<u8>,
}

impl LineBuffer {
    /// The bytes of the incomplete line that wait for the next chunk.
    pub closed spec fn pending(&self) -> Seq<u8> {
        self.tail@
    }

    pub fn new() -> (r: Self)
        ensures
            r.pending() == Seq::<u8>::empty(),
    {
        LineBuffer { tail: Vec::new() }
    }

    /// Takes one chunk of the stream and returns the lines it completes, in
    /// order: what waited is put in front of the chunk, every complete line
    /// is returned whole, and what follows the last newline waits in turn.
    pub fn push(&mut self, chunk: &[u8]) -> (lines: Vec<Vec<u8>>)
        ensures
            contents(lines@) == framed_lines(old(self).pending(), chunk@),
            final(self).pending() == framed_rest(old(self).pending(), chunk@),
    {
        let mut s: Vec<u8> = Vec::new();
        std::mem::swap(&mut s, &mut self.tail);
        let ghost joined = s@ + chunk@;
        let mut j: usize = 0;
        while j < chunk.len()
            invariant
                j <= chunk@.len(),
                s@ == old(self).tail@ + chunk@.take(j as int),
                joined == old(self).tail@ + chunk@,
            decreases chunk@.len() - j,
        {
            s.push(chunk[j]);
            j = j + 1;
            assert(chunk@.take(j as int) =~= chunk@.take(j - 1).push(chunk@[j - 1]));
        }
        assert(chunk@.take(chunk@.len() as int) =~= chunk@);
        assert(s@ == joined);

        let mut k: usize = s.len();
        assert(s@.take(s@.len() as int) =~= s@);
        while k > 0 && s[k - 1] != NEWLINE
            invariant
                k <= s@.len(),
                complete_len(s@) == complete_len(s@.take(k as int)),
            decreases k,
        {
            assert(s@.take(k as int).drop_last() =~= s@.take(k - 1));
            k = k - 1;
        }
        proof {
            if k > 0 {
                assert(s@.take(k as int).last() == NEWLINE);
            }
            assert(complete_len(s@) == k);
        }

        let complete = slice_subrange(s.as_slice(), 0, k);
        let mut lines: Vec<Vec<u8>> = Vec::new();
        let mut walk = Lines::new(complete);
        loop
            invariant
                contents(lines@) + walk.remaining() == pieces(complete@),
            ensures
                contents(lines@) == pieces(complete@),
            decreases walk.remaining().len(),
        {
            let ghost rem = walk.remaining();
            match walk.next() {
                Some(line) => {
                    let ghost before = contents(lines@);
                    lines.push(slice_to_vec(line));
                    assert(contents(lines@) =~= before.push(line@));
                    assert(before + rem =~= before.push(line@) + rem.drop_first());
                },
                None => {
                    assert(contents(lines@) + walk.remaining() =~= contents(lines@));
                    break;
                },
            }
        }
        assert(complete@ == joined.take(k as int));
        self.tail = slice_to_vec(slice_subrange(s.as_slice(), k, s.len()));
        lines
    }

    /// Ends the stream: the waiting fragment, if there is one, comes out as
    /// a final line without a newline.
    pub fn finish(&mut self) -> (r: Option<Vec<u8>>)
        ensures
            final(self).pending() == Seq::<u8>::empty(),
            old(self).pending().len() == 0 ==> r is None,
            old(self).pending().len() > 0 ==> r is Some && r->0@ == old(self).pending(),
    {
        if self.tail.len() == 0 {
            None
        } else {
            let mut out: Vec<u8> = Vec::new();
            std::mem::swap(&mut out, &mut self.tail);
            Some(out)
        }
    }
}

} // verus!

//! The backward line scanner.
//!
//! A line is a maximal run of bytes that ends with a newline byte, or with the
//! end of the input. The scanner walks a byte view from its end to its start
//! and hands out one span per line, last line first.

use vstd::prelude::*;
use vstd::slice::slice_subrange;

verus! {

/// The byte that terminates a line.
pub const NEWLINE: u8 = 10;

/// A half-open byte range `[start, end)` of a byte view: one line, with its
/// terminating newline where it has one.
#[derive(Clone, Copy, Debug, PartialEq, Eq, Structural)]
pub struct LineSpan {
    pub start: usize,
    pub end: usize,
}

impl View for LineSpan {
    type V = (int, int);

    open spec fn view(&self) -> (int, int) {
        (self.start as int, self.end as int)
    }
}

/// Where the last line of a non-empty `s` begins: the greatest offset below
/// `s.len()` that is 0 or follows a newline.
pub open spec fn last_line_start(s: Seq<u8>) -> int
    decreases s.len(),
{
    if s.len() <= 1 {
        0
    } else if s[s.len() - 2] == NEWLINE {
        s.len() - 1
    } else {
        last_line_start(s.drop_last())
    }
}

/// `j` begins the last line of `s`: it lies in `s`, is 0 or follows a newline,
/// and no newline stands between it and the last byte of `s`.
pub open spec fn begins_last_line(s: Seq<u8>, j: int) -> bool {
    &&& 0 <= j < s.len()
    &&& (j == 0 || s[j - 1] == NEWLINE)
    &&& forall|k: int| j <= k < s.len() - 1 ==> s[k] != NEWLINE
}

/// `last_line_start` begins the last line.
pub proof fn lemma_last_line_start(s: Seq<u8>)
    requires
        s.len() > 0,
    ensures
        begins_last_line(s, last_line_start(s)),
    decreases s.len(),
{
    if s.len() > 1 && s[s.len() - 2] != NEWLINE {
        let front = s.drop_last();
        lemma_last_line_start(front);
        let j = last_line_start(front);
        assert forall|k: int| j <= k < s.len() - 1 implies s[k] != NEWLINE by {
            if k < front.len() - 1 {
                assert(front[k] != NEWLINE);
            }
        }
        assert(j == 0 || front[j - 1] == NEWLINE);
    }
}

/// Only one offset begins the last line.
pub proof fn lemma_last_line_unique(s: Seq<u8>, j: int)
    requires
        begins_last_line(s, j),
    ensures
        last_line_start(s) == j,
    decreases s.len(),
{
    if s.len() > 1 && s[s.len() - 2] != NEWLINE {
        let front = s.drop_last();
        assert forall|k: int| j <= k < front.len() - 1 implies front[k] != NEWLINE by {
            assert(s[k] != NEWLINE);
        }
        assert(j == 0 || front[j - 1] == s[j - 1]);
        lemma_last_line_unique(front, j);
    }
}

/// The spans of the lines of `s`, last line first.
pub open spec fn spans_of(s: Seq<u8>) -> Seq<(int, int)>
    decreases s.len(),
{
    if s.len() == 0 {
        Seq::empty()
    } else {
        let k = last_line_start(s);
        proof {
            lemma_last_line_start(s);
        }
        seq![(k, s.len() as int)] + spans_of(s.take(k))
    }
}

/// `s` with the order of its lines reversed: the last line, then the reversal
/// of what stands before it.
pub open spec fn reversed(s: Seq<u8>) -> Seq<u8>
    decreases s.len(),
{
    if s.len() == 0 {
        Seq::empty()
    } else {
        let k = last_line_start(s);
        proof {
            lemma_last_line_start(s);
        }
        s.skip(k) + reversed(s.take(k))
    }
}

/// The bytes of `s` that the spans select, one span after the other.
pub open spec fn select(s: Seq<u8>, spans: Seq<(int, int)>) -> Seq<u8>
    decreases spans.len(),
{
    if spans.len() == 0 {
        Seq::empty()
    } else {
        s.subrange(spans[0].0, spans[0].1) + select(s, spans.skip(1))
    }
}

/// The reversals of the inputs one after the other, with nothing between
/// them.
pub open spec fn reversed_each(inputs: Seq<Seq<u8>>) -> Seq<u8>
    decreases inputs.len(),
{
    if inputs.len() == 0 {
        Seq::empty()
    } else {
        reversed_each(inputs.drop_last()) + reversed(inputs.last())
    }
}

/// A cursor over the lines of a byte view, from the last line to the first.
pub struct Scanner<'a> {
    bytes: &'a [u8],
    pending: usize,
}

impl<'a> Scanner<'a> {
    /// The cursor never stands beyond the end of its view.
    pub closed spec fn wf(&self) -> bool {
        self.pending <= self.bytes@.len()
    }

    /// The whole byte view that the scanner walks.
    pub closed spec fn source(&self) -> Seq<u8> {
        self.bytes@
    }

    /// The prefix of the byte view whose lines have not been handed out yet.
    pub closed spec fn remaining(&self) -> Seq<u8> {
        self.bytes@.take(self.pending as int)
    }

    /// What remains is a prefix of the byte view.
    pub proof fn lemma_remaining_is_prefix(&self)
        requires
            self.wf(),
        ensures
            self.remaining().len() <= self.source().len(),
            self.remaining() == self.source().take(self.remaining().len() as int),
    {
    }

    /// A scanner that has all of `bytes` before it.
    pub fn new(bytes: &'a [u8]) -> (scanner: Self)
        ensures
            scanner.wf(),
            scanner.source() == bytes@,
            scanner.remaining() == bytes@,
    {
        proof {
            assert(bytes@.take(bytes@.len() as int) =~= bytes@);
        }
        Scanner { bytes, pending: bytes.len() }
    }

    /// Hands out the span of the last line that is still pending, and steps
    /// before it; `None` once every line has been handed out.
    pub fn next_span(&mut self) -> (span: Option<LineSpan>)
        requires
            old(self).wf(),
        ensures
            final(self).wf(),
            final(self).source() == old(self).source(),
            old(self).remaining().len() == 0 ==> span.is_none() && final(self).remaining()
                == old(self).remaining(),
            old(self).remaining().len() > 0 ==> span.is_some() && span.unwrap()@ == (
                last_line_start(old(self).remaining()),
                old(self).remaining().len() as int,
            ) && final(self).remaining() == old(self).remaining().take(span.unwrap().start as int),
    {
        let end: usize = self.pending;
        if end == 0 {
            return None;
        }
        let mut start: usize = end - 1;
        while start > 0 && self.bytes[start - 1] != NEWLINE
            invariant
                start < end <= self.bytes@.len(),
                forall|k: int| start <= k < end - 1 ==> self.bytes@[k] != NEWLINE,
            decreases start,
        {
            start -= 1;
        }
        proof {
            let rest = self.bytes@.take(end as int);
            lemma_last_line_unique(rest, start as int);
            assert(rest.take(start as int) =~= self.bytes@.take(start as int));
        }
        self.pending = start;
        Some(LineSpan { start, end })
    }
}

/// The bytes of `bytes` that `span` denotes.
pub fn span_bytes<'a>(bytes: &'a [u8], span: LineSpan) -> (line: &'a [u8])
    requires
        span.start <= span.end <= bytes@.len(),
    ensures
        line@ == bytes@.subrange(span.start as int, span.end as int),
{
    slice_subrange(bytes, span.start, span.end)
}

/// The spans of the lines of `bytes`, from the last line to the first.
pub fn line_spans(bytes: &[u8]) -> (spans: Vec<LineSpan>)
    ensures
        spans@.map_values(|span: LineSpan| span@) == spans_of(bytes@),
{
    let mut spans: Vec<LineSpan> = Vec::new();
    let mut scanner = Scanner::new(bytes);
    let mut next = scanner.next_span();
    assert(spans@.map_values(|span: LineSpan| span@) =~= Seq::<(int, int)>::empty());
    while next.is_some()
        invariant
            scanner.wf(),
            next.is_none() ==> scanner.remaining().len() == 0,
            next.is_some() ==> spans@.map_values(|span: LineSpan| span@) + seq![next.unwrap()@]
                + spans_of(scanner.remaining()) == spans_of(bytes@),
            next.is_none() ==> spans@.map_values(|span: LineSpan| span@) == spans_of(bytes@),
        decreases scanner.remaining().len() + if next.is_some() { 1nat } else { 0nat },
    {
        let span = next.unwrap();
        let ghost before = spans@.map_values(|span: LineSpan| span@);
        spans.push(span);
        assert(spans@.map_values(|span: LineSpan| span@) =~= before + seq![span@]);
        let ghost rest = scanner.remaining();
        next = scanner.next_span();
        proof {
            if rest.len() > 0 {
                lemma_last_line_start(rest);
                assert(spans_of(rest) =~= seq![next.unwrap()@] + spans_of(scanner.remaining()));
                assert(before + seq![span@] + spans_of(rest) =~= before + seq![span@]
                    + seq![next.unwrap()@] + spans_of(scanner.remaining()));
            } else {
                assert(before + seq![span@] + spans_of(rest) =~= before + seq![span@]);
            }
        }
    }
    spans
}

/// The bytes of `bytes` with the order of its lines reversed.
pub fn reverse_lines(bytes: &[u8]) -> (out: Vec<u8>)
    ensures
        out@ == reversed(bytes@),
{
    let mut out: Vec<u8> = Vec::new();
    let mut scanner = Scanner::new(bytes);
    let mut next = scanner.next_span();
    proof {
        if bytes@.len() > 0 {
            lemma_last_line_start(bytes@);
        }
    }
    while next.is_some()
        invariant
            scanner.wf(),
            scanner.source() == bytes@,
            next.is_some() ==> ({
                let span = next.unwrap();
                &&& scanner.remaining().len() == span.start <= span.end <= bytes@.len()
                &&& out@ + bytes@.subrange(span.start as int, span.end as int) + reversed(
                    scanner.remaining(),
                ) == reversed(bytes@)
            }),
            next.is_none() ==> out@ == reversed(bytes@),
        decreases scanner.remaining().len() + if next.is_some() { 1nat } else { 0nat },
    {
        let span = next.unwrap();
        let ghost before = out@;
        out.extend_from_slice(span_bytes(bytes, span));
        assert(out@ =~= before + bytes@.subrange(span.start as int, span.end as int));
        let ghost rest = scanner.remaining();
        next = scanner.next_span();
        proof {
            if rest.len() > 0 {
                lemma_last_line_start(rest);
                scanner.lemma_remaining_is_prefix();
                let later = next.unwrap();
                assert(rest.skip(later.start as int) =~= bytes@.subrange(
                    later.start as int,
                    later.end as int,
                ));
                assert(out@ + rest.skip(later.start as int) + reversed(scanner.remaining())
                    =~= out@ + reversed(rest));
            } else {
                assert(out@ + reversed(rest) =~= out@);
            }
        }
    }
    out
}

/// Each input with the order of its lines reversed, the inputs themselves in
/// the order given.
pub fn reverse_each(inputs: &Vec<Vec<u8>>) -> (out: Vec<u8>)
    ensures
        out@ == reversed_each(inputs@.map_values(|input: Vec<u8>| input@)),
{
    let ghost views = inputs@.map_values(|input: Vec<u8>| input@);
    let mut out: Vec<u8> = Vec::new();
    let mut index: usize = 0;
    assert(views.take(0) =~= Seq::<Seq<u8>>::empty());
    while index < inputs.len()
        invariant
            index <= inputs@.len(),
            views == inputs@.map_values(|input: Vec<u8>| input@),
            out@ == reversed_each(views.take(index as int)),
        decreases inputs.len() - index,
    {
        let ghost before = out@;
        let mut part = reverse_lines(inputs[index].as_slice());
        out.append(&mut part);
        proof {
            let upto = views.take(index + 1);
            assert(upto.drop_last() =~= views.take(index as int));
            assert(upto.last() == inputs@[index as int]@);
        }
        index += 1;
    }
    assert(views.take(index as int) =~= views);
    out
}

} // verus!

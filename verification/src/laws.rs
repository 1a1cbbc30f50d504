//! What holds of the reversal for every input.

use crate::lines::{
    begins_last_line, last_line_start, lemma_last_line_start, lemma_last_line_unique, reversed,
    reversed_each, select, spans_of, NEWLINE,
};
use vstd::prelude::*;

verus! {

/// No byte of `line` is a newline.
pub open spec fn newline_free(line: Seq<u8>) -> bool {
    forall|k: int| 0 <= k < line.len() ==> line[k] != NEWLINE
}

/// `s` is empty or its last byte is a newline.
pub open spec fn ends_lines(s: Seq<u8>) -> bool {
    s.len() == 0 || s.last() == NEWLINE
}

/// The lines one after the other, each followed by a newline.
pub open spec fn terminated(lines: Seq<Seq<u8>>) -> Seq<u8>
    decreases lines.len(),
{
    if lines.len() == 0 {
        Seq::empty()
    } else {
        terminated(lines.drop_last()) + lines.last() + seq![NEWLINE]
    }
}

/// The spans, last line first, tile the input: the first ends where the input
/// ends, each begins where the next one ends, the last begins at 0, and none
/// is empty. Each holds one line: it begins at 0 or behind a newline, and has
/// no newline before its last byte.
pub proof fn law_spans_partition(s: Seq<u8>)
    ensures
        spans_of(s).len() == 0 <==> s.len() == 0,
        s.len() > 0 ==> spans_of(s)[0].1 == s.len() && spans_of(s).last().0 == 0,
        forall|i: int|
            0 <= i < spans_of(s).len() ==> 0 <= (#[trigger] spans_of(s)[i]).0 < spans_of(s)[i].1
                <= s.len(),
        forall|i: int|
            0 <= i < spans_of(s).len() - 1 ==> (#[trigger] spans_of(s)[i + 1]).1 == spans_of(
                s,
            )[i].0,
        forall|i: int|
            0 <= i < spans_of(s).len() ==> begins_last_line(
                s.take((#[trigger] spans_of(s)[i]).1),
                spans_of(s)[i].0,
            ),
    decreases s.len(),
{
    if s.len() > 0 {
        let k = last_line_start(s);
        let t = s.take(k);
        let spans = spans_of(s);
        lemma_last_line_start(s);
        law_spans_partition(t);
        assert(s.take(s.len() as int) =~= s);
        assert forall|i: int| 0 <= i < spans.len() implies 0 <= (#[trigger] spans[i]).0
            < spans[i].1 <= s.len() && begins_last_line(s.take(spans[i].1), spans[i].0) by {
            if i > 0 {
                let span = spans_of(t)[i - 1];
                assert(spans[i] == span);
                assert(t.take(span.1) =~= s.take(span.1));
            }
        }
        assert forall|i: int| 0 <= i < spans.len() - 1 implies (#[trigger] spans[i + 1]).1
            == spans[i].0 by {
            if i > 0 {
                assert(spans[i] == spans_of(t)[i - 1]);
                assert(spans[i + 1] == spans_of(t)[i - 1 + 1]);
            } else {
                assert(spans[1] == spans_of(t)[0]);
            }
        }
        if t.len() > 0 {
            assert(spans.last() == spans_of(t).last());
        }
    }
}

/// Selecting by two lists of spans in turn selects by their concatenation.
pub proof fn lemma_select_concat(s: Seq<u8>, a: Seq<(int, int)>, b: Seq<(int, int)>)
    ensures
        select(s, a + b) == select(s, a) + select(s, b),
    decreases a.len(),
{
    if a.len() == 0 {
        assert(a + b =~= b);
        assert(select(s, a) + select(s, b) =~= select(s, b));
    } else {
        assert((a + b).skip(1) =~= a.skip(1) + b);
        lemma_select_concat(s, a.skip(1), b);
        assert(select(s, a + b) =~= select(s, a) + select(s, b));
    }
}

/// Spans that lie in the first `n` bytes select the same from the prefix of
/// that length.
pub proof fn lemma_select_prefix(s: Seq<u8>, n: int, spans: Seq<(int, int)>)
    requires
        0 <= n <= s.len(),
        forall|i: int| 0 <= i < spans.len() ==> 0 <= (#[trigger] spans[i]).0 <= spans[i].1 <= n,
    ensures
        select(s, spans) == select(s.take(n), spans),
    decreases spans.len(),
{
    if spans.len() > 0 {
        let rest = spans.skip(1);
        assert forall|i: int| 0 <= i < rest.len() implies 0 <= (#[trigger] rest[i]).0
            <= rest[i].1 <= n by {
            assert(rest[i] == spans[i + 1]);
        }
        lemma_select_prefix(s, n, rest);
        assert(s.subrange(spans[0].0, spans[0].1) =~= s.take(n).subrange(spans[0].0, spans[0].1));
    }
}

/// Round trip: the spans, taken from the first line to the last, select the
/// input itself.
pub proof fn law_round_trip(s: Seq<u8>)
    ensures
        select(s, spans_of(s).reverse()) == s,
    decreases s.len(),
{
    if s.len() > 0 {
        let k = last_line_start(s);
        let t = s.take(k);
        let whole = (k, s.len() as int);
        lemma_last_line_start(s);
        law_round_trip(t);
        law_spans_partition(t);
        let earlier = spans_of(t).reverse();
        assert(spans_of(s).reverse() =~= earlier + seq![whole]);
        lemma_select_concat(s, earlier, seq![whole]);
        lemma_select_prefix(s, k, earlier);
        assert(select(s, seq![whole].skip(1)) =~= Seq::<u8>::empty());
        assert(select(s, seq![whole]) =~= s.subrange(k, s.len() as int));
        assert(t + s.subrange(k, s.len() as int) =~= s);
    } else {
        assert(spans_of(s).reverse() =~= Seq::<(int, int)>::empty());
        assert(s =~= Seq::<u8>::empty());
    }
}

/// Emission order: the spans, taken as the scanner hands them out, select the
/// reversal of the input.
pub proof fn law_emission_order(s: Seq<u8>)
    ensures
        select(s, spans_of(s)) == reversed(s),
    decreases s.len(),
{
    if s.len() > 0 {
        let k = last_line_start(s);
        let t = s.take(k);
        lemma_last_line_start(s);
        law_emission_order(t);
        law_spans_partition(t);
        lemma_select_prefix(s, k, spans_of(t));
        assert(spans_of(s).skip(1) =~= spans_of(t));
        assert(s.subrange(k, s.len() as int) =~= s.skip(k));
    }
}

/// The reversal keeps a single line as it is.
pub proof fn law_single_line(line: Seq<u8>)
    requires
        forall|k: int| 0 <= k < line.len() - 1 ==> line[k] != NEWLINE,
    ensures
        reversed(line) == line,
{
    if line.len() > 0 {
        lemma_last_line_unique(line, 0);
        assert(reversed(line.take(0)) =~= Seq::<u8>::empty());
        assert(line.skip(0) + reversed(line.take(0)) =~= line);
    } else {
        assert(line =~= Seq::<u8>::empty());
    }
}

/// Where `a` ends with a line's end, the reversal of `a` followed by `b` is
/// the reversal of `b` followed by that of `a`.
pub proof fn law_reversed_concat(a: Seq<u8>, b: Seq<u8>)
    requires
        ends_lines(a),
    ensures
        reversed(a + b) == reversed(b) + reversed(a),
    decreases b.len(),
{
    if b.len() == 0 {
        assert(a + b =~= a);
        assert(reversed(b) + reversed(a) =~= reversed(a));
    } else {
        let j = last_line_start(b);
        let whole = a + b;
        lemma_last_line_start(b);
        assert(begins_last_line(whole, a.len() + j)) by {
            assert forall|k: int| a.len() + j <= k < whole.len() - 1 implies whole[k]
                != NEWLINE by {
                assert(whole[k] == b[k - a.len()]);
            }
            if j > 0 {
                assert(whole[a.len() + j - 1] == b[j - 1]);
            } else if a.len() > 0 {
                assert(whole[a.len() - 1] == a.last());
            }
        }
        lemma_last_line_unique(whole, a.len() + j);
        assert(whole.skip(a.len() + j) =~= b.skip(j));
        assert(whole.take(a.len() + j) =~= a + b.take(j));
        law_reversed_concat(a, b.take(j));
        assert(b.skip(j) + (reversed(b.take(j)) + reversed(a)) =~= (b.skip(j) + reversed(
            b.take(j),
        )) + reversed(a));
    }
}

/// Terminated lines, with one more line in front.
pub proof fn lemma_terminated_front(line: Seq<u8>, rest: Seq<Seq<u8>>)
    ensures
        terminated(seq![line] + rest) == line + seq![NEWLINE] + terminated(rest),
    decreases rest.len(),
{
    let all = seq![line] + rest;
    if rest.len() == 0 {
        assert(terminated(all.drop_last()) =~= Seq::<u8>::empty());
        assert(terminated(rest) =~= Seq::<u8>::empty());
        assert(terminated(all) =~= line + seq![NEWLINE] + terminated(rest));
    } else {
        assert(all.drop_last() =~= seq![line] + rest.drop_last());
        lemma_terminated_front(line, rest.drop_last());
        assert(terminated(all) =~= line + seq![NEWLINE] + terminated(rest));
    }
}

/// Reversal of whole lines: for lines `l1 .. ln` without a newline in them,
/// the reversal of `l1 \n .. ln \n` is `ln \n .. l1 \n`.
pub proof fn law_reverses_terminated(lines: Seq<Seq<u8>>)
    requires
        forall|i: int| 0 <= i < lines.len() ==> newline_free(#[trigger] lines[i]),
    ensures
        reversed(terminated(lines)) == terminated(lines.reverse()),
    decreases lines.len(),
{
    if lines.len() == 0 {
        assert(lines.reverse() =~= lines);
    } else {
        let front = lines.drop_last();
        let line = lines.last() + seq![NEWLINE];
        assert(newline_free(lines[lines.len() - 1]));
        assert forall|i: int| 0 <= i < front.len() implies newline_free(#[trigger] front[i]) by {
            assert(front[i] == lines[i]);
        }
        law_reverses_terminated(front);
        assert(terminated(lines) =~= terminated(front) + line);
        law_reversed_concat(terminated(front), line);
        law_single_line(line);
        assert(lines.reverse() =~= seq![lines.last()] + front.reverse());
        lemma_terminated_front(lines.last(), front.reverse());
    }
}

/// Reversal with a last line that lacks its newline: that line comes out
/// first, unterminated, and the terminated lines follow it in reverse order.
pub proof fn law_reverses_lines(lines: Seq<Seq<u8>>, tail: Seq<u8>)
    requires
        forall|i: int| 0 <= i < lines.len() ==> newline_free(#[trigger] lines[i]),
        newline_free(tail),
    ensures
        reversed(terminated(lines) + tail) == tail + terminated(lines.reverse()),
{
    law_reverses_terminated(lines);
    law_reversed_concat(terminated(lines), tail);
    law_single_line(tail);
}

/// The reversal of an input that ends with a newline ends with one too.
pub proof fn law_reversed_ends_lines(s: Seq<u8>)
    requires
        ends_lines(s),
    ensures
        ends_lines(reversed(s)),
    decreases s.len(),
{
    if s.len() > 0 {
        let k = last_line_start(s);
        lemma_last_line_start(s);
        let t = s.take(k);
        law_reversed_length(t);
        if k > 0 {
            assert(t.last() == s[k - 1]);
            law_reversed_ends_lines(t);
            assert(reversed(s).last() == reversed(t).last());
        } else {
            assert(reversed(s).last() == s.skip(k).last());
        }
    }
}

/// The reversal is as long as the input.
pub proof fn law_reversed_length(s: Seq<u8>)
    ensures
        reversed(s).len() == s.len(),
    decreases s.len(),
{
    if s.len() > 0 {
        lemma_last_line_start(s);
        law_reversed_length(s.take(last_line_start(s)));
    }
}

/// Double reversal: where the input ends with a newline, or holds none at
/// all, reversing its reversal gives the input back.
pub proof fn law_double_reversal(s: Seq<u8>)
    requires
        ends_lines(s) || newline_free(s),
    ensures
        reversed(reversed(s)) == s,
    decreases s.len(),
{
    if newline_free(s) {
        law_single_line(s);
    } else if s.len() > 0 {
        let k = last_line_start(s);
        let t = s.take(k);
        let line = s.skip(k);
        lemma_last_line_start(s);
        assert(ends_lines(t));
        law_double_reversal(t);
        assert(ends_lines(line));
        law_reversed_concat(line, reversed(t));
        assert forall|i: int| 0 <= i < line.len() - 1 implies line[i] != NEWLINE by {
            assert(line[i] == s[k + i]);
        }
        law_single_line(line);
        assert(t + line =~= s);
    }
}

/// Two inputs: the reversal of the first, and directly behind it the
/// reversal of the second.
pub proof fn law_two_inputs(first: Seq<u8>, second: Seq<u8>)
    ensures
        reversed_each(seq![first, second]) == reversed(first) + reversed(second),
{
    let both = seq![first, second];
    let one = both.drop_last();
    assert(one =~= seq![first]);
    assert(one.drop_last() =~= Seq::<Seq<u8>>::empty());
    assert(reversed_each(one.drop_last()) =~= Seq::<u8>::empty());
    assert(reversed_each(one) =~= reversed(first));
}

} // verus!

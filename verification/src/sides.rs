//! On which side of a delimiter, and in which cell, a place is.

use vstd::prelude::*;
use crate::edges;
use crate::edges::MarkAt;
use crate::marks::InlineMarks;
use crate::node::{Kind, NodeView, Span};
use crate::tables;

verus! {

/// Past the closing delimiters at an offset is where the last of the runs whose text ends
/// there ends.
pub proof fn law_past_the_closing_is_past_all(runs: Seq<MarkAt>, off: int, i: int)
    requires
        0 <= i < runs.len(),
    ensures
        ({
            let to = edges::close_past(runs, off);
            &&& off <= to
            &&& (runs[i].content matches Some(c) && c.end == off) ==> runs[i].span.end <= to
            &&& to == off || exists|k: int|
                0 <= k < runs.len() && (#[trigger] runs[k]).span.end == to && (
                runs[k].content matches Some(c) && c.end == off)
        }),
    decreases runs.len(),
{
    let rest = runs.drop_last();
    let last = runs.len() - 1;
    let best = edges::close_past(rest, off);
    if rest.len() > 0 {
        let j = if i < last {
            i
        } else {
            0
        };
        law_past_the_closing_is_past_all(rest, off, j);
        assert(rest[j] == runs[j]);
        if best != off {
            let k = choose|k: int|
                0 <= k < rest.len() && (#[trigger] rest[k]).span.end == best && (
                rest[k].content matches Some(c) && c.end == off);
            assert(runs[k] == rest[k]);
        }
    }
    assert(runs[last] == runs.last());
}

/// Before the opening delimiters at an offset is where the first of the runs whose text
/// starts there starts.
pub proof fn law_before_the_opening_is_before_all(runs: Seq<MarkAt>, off: int, i: int)
    requires
        0 <= i < runs.len(),
    ensures
        ({
            let to = edges::open_before(runs, off);
            &&& to <= off
            &&& (runs[i].content matches Some(c) && c.start == off) ==> to <= runs[i].span.start
                || off <= runs[i].span.start
            &&& to == off || exists|k: int|
                0 <= k < runs.len() && (#[trigger] runs[k]).span.start == to && (
                runs[k].content matches Some(c) && c.start == off)
        }),
    decreases runs.len(),
{
    let rest = runs.drop_last();
    let last = runs.len() - 1;
    let best = edges::open_before(rest, off);
    if rest.len() > 0 {
        let j = if i < last {
            i
        } else {
            0
        };
        law_before_the_opening_is_before_all(rest, off, j);
        assert(rest[j] == runs[j]);
        if best != off {
            let k = choose|k: int|
                0 <= k < rest.len() && (#[trigger] rest[k]).span.start == best && (
                rest[k].content matches Some(c) && c.start == off);
            assert(runs[k] == rest[k]);
        }
    }
    assert(runs[last] == runs.last());
}

/// In through a closing delimiter is the end of the text of a run that ends at the offset, and
/// of those the furthest right.
pub proof fn law_in_through_the_closing_is_the_nearest(runs: Seq<MarkAt>, off: int, i: int)
    requires
        0 <= i < runs.len(),
        runs[i].span.end == off,
        runs[i].content matches Some(c) && c.end < off,
    ensures
        edges::close_inside(runs, off) matches Some(to) && (runs[i].content->0).end <= to < off,
    decreases runs.len(),
{
    let last = runs.len() - 1;
    lemma_closes_inside(runs.drop_last(), off);
    if i < last {
        assert(runs.drop_last()[i] == runs[i]);
        law_in_through_the_closing_is_the_nearest(runs.drop_last(), off, i);
    }
}

proof fn lemma_closes_inside(runs: Seq<MarkAt>, off: int)
    ensures
        edges::close_inside(runs, off) matches Some(to) ==> to < off,
        edges::open_inside(runs, off) matches Some(to) ==> off < to,
    decreases runs.len(),
{
    if runs.len() > 0 {
        lemma_closes_inside(runs.drop_last(), off);
    }
}

/// In through an opening delimiter is the start of the text of a run that starts at the
/// offset, and of those the furthest left.
pub proof fn law_in_through_the_opening_is_the_nearest(runs: Seq<MarkAt>, off: int, i: int)
    requires
        0 <= i < runs.len(),
        runs[i].span.start == off,
        runs[i].content matches Some(c) && off < c.start,
    ensures
        edges::open_inside(runs, off) matches Some(to) && off < to <= (runs[i].content->0).start,
    decreases runs.len(),
{
    let last = runs.len() - 1;
    lemma_closes_inside(runs.drop_last(), off);
    if i < last {
        assert(runs.drop_last()[i] == runs[i]);
        law_in_through_the_opening_is_the_nearest(runs.drop_last(), off, i);
    }
}

/// To shed marks is to go behind every run of them that the offset is in, and no further than
/// one of them.
pub proof fn law_shedding_goes_past_each_run(
    runs: Seq<MarkAt>,
    off: int,
    shed: InlineMarks,
    i: int,
)
    requires
        0 <= i < runs.len(),
    ensures
        ({
            let to = edges::shed_past(runs, off, shed);
            &&& off <= to
            &&& shed.has(runs[i].kind) ==> runs[i].span.end <= to
            &&& to == off || exists|k: int|
                0 <= k < runs.len() && (#[trigger] runs[k]).span.end == to && shed.has(runs[k].kind)
        }),
    decreases runs.len(),
{
    let rest = runs.drop_last();
    let last = runs.len() - 1;
    let best = edges::shed_past(rest, off, shed);
    if rest.len() > 0 {
        let j = if i < last {
            i
        } else {
            0
        };
        law_shedding_goes_past_each_run(rest, off, shed, j);
        assert(rest[j] == runs[j]);
        if best != off {
            let k = choose|k: int|
                0 <= k < rest.len() && (#[trigger] rest[k]).span.end == best && shed.has(
                    rest[k].kind,
                );
            assert(runs[k] == rest[k]);
        }
    }
    assert(runs[last] == runs.last());
}

// ── tables ─────────────────────────────────────────────────────────────────────
/// The spans of a kind are those of the nodes of that kind, and every one of them.
pub proof fn law_the_spans_of_a_kind(nodes: Seq<NodeView>, kind: Kind, span: Span)
    ensures
        tables::spans_of(nodes, kind).contains(span) <==> exists|i: int|
            0 <= i < nodes.len() && (#[trigger] nodes[i]).kind == kind && nodes[i].span == span,
    decreases nodes.len(),
{
    if nodes.len() > 0 {
        let rest = nodes.drop_last();
        let last = nodes.len() - 1;
        let before = tables::spans_of(rest, kind);
        law_the_spans_of_a_kind(rest, kind, span);
        assert(nodes[last] == nodes.last());
        if before.contains(span) {
            let i = choose|i: int|
                0 <= i < rest.len() && (#[trigger] rest[i]).kind == kind && rest[i].span == span;
            assert(nodes[i] == rest[i]);
            let k = before.index_of(span);
            assert(before[k] == span);
            assert(tables::spans_of(nodes, kind)[k] == span);
        }
        if nodes.last().kind == kind {
            assert(tables::spans_of(nodes, kind)[before.len() as int] == nodes.last().span);
        }
        if tables::spans_of(nodes, kind).contains(span) && !before.contains(span) {
            let k = tables::spans_of(nodes, kind).index_of(span);
            assert(tables::spans_of(nodes, kind)[k] == span);
            if k < before.len() {
                assert(before[k] == span);
            }
        }
        if exists|i: int|
            0 <= i < nodes.len() && (#[trigger] nodes[i]).kind == kind && nodes[i].span == span {
            let i = choose|i: int|
                0 <= i < nodes.len() && (#[trigger] nodes[i]).kind == kind && nodes[i].span == span;
            if i < last {
                assert(rest[i] == nodes[i]);
            }
        }
    }
}

/// The first span that holds a place holds it, and none before it does.
pub proof fn law_the_first_that_holds_a_place(spans: Seq<Span>, off: int, i: int)
    requires
        0 <= i < spans.len(),
        spans[i].start <= off <= spans[i].end,
        forall|k: int| 0 <= k < i ==> !((#[trigger] spans[k]).start <= off <= spans[k].end),
    ensures
        tables::first_holding(spans, off, 0) == Some(i),
{
    lemma_first_holding(spans, off, i, 0);
}

proof fn lemma_first_holding(spans: Seq<Span>, off: int, i: int, from: int)
    requires
        0 <= from <= i < spans.len(),
        spans[i].start <= off <= spans[i].end,
        forall|k: int| 0 <= k < i ==> !((#[trigger] spans[k]).start <= off <= spans[k].end),
    ensures
        tables::first_holding(spans, off, from) == Some(i),
    decreases i - from,
{
    if from < i {
        assert(!(spans[from].start <= off <= spans[from].end));
        lemma_first_holding(spans, off, i, from + 1);
    }
}

/// The last span in another starts in it, and none behind it does.
pub proof fn law_the_last_within_another(spans: Seq<Span>, outer: Span, i: int)
    requires
        0 <= i < spans.len(),
        outer.start <= spans[i].start < outer.end,
        forall|k: int|
            i < k < spans.len() ==> !(outer.start <= (#[trigger] spans[k]).start < outer.end),
    ensures
        tables::last_within(spans, outer) == Some(spans[i]),
    decreases spans.len(),
{
    let last = spans.len() - 1;
    if i < last {
        let rest = spans.drop_last();
        assert(!(outer.start <= spans[last].start < outer.end));
        assert forall|k: int| i < k < rest.len() implies !(outer.start <= (
        #[trigger] rest[k]).start < outer.end) by {
            assert(rest[k] == spans[k]);
        }
        law_the_last_within_another(rest, outer, i);
    }
}

} // verus!

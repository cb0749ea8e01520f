//! Tables in a document's tree, and the cells of a row that was just put in one.

use vstd::prelude::*;
use vstd::utf8::*;
use crate::node;
use crate::node::{Kind, Node, NodeView, Span};
use crate::text;

verus! {

/// The spans of the nodes of a kind, in order.
pub open spec fn spans_of(nodes: Seq<NodeView>, kind: Kind) -> Seq<Span>
    decreases nodes.len(),
{
    if nodes.len() == 0 {
        Seq::empty()
    } else if nodes.last().kind == kind {
        spans_of(nodes.drop_last(), kind).push(nodes.last().span)
    } else {
        spans_of(nodes.drop_last(), kind)
    }
}

/// The first of some spans that an offset stands in, or right behind.
pub open spec fn first_holding(spans: Seq<Span>, off: int, from: int) -> Option<int>
    decreases spans.len() - from,
{
    if !(0 <= from < spans.len()) {
        None
    } else if spans[from].start <= off <= spans[from].end {
        Some(from)
    } else {
        first_holding(spans, off, from + 1)
    }
}

/// The last of some spans that starts in another.
pub open spec fn last_within(spans: Seq<Span>, outer: Span) -> Option<Span>
    decreases spans.len(),
{
    if spans.len() == 0 {
        None
    } else if outer.start <= spans.last().start < outer.end {
        Some(spans.last())
    } else {
        last_within(spans.drop_last(), outer)
    }
}

/// The first bar at or after `from`, no further than `end`.
pub open spec fn bar_from(b: Seq<u8>, from: int, end: int) -> int
    decreases end - from,
{
    if from >= end || b[from] == 124 {
        from
    } else {
        bar_from(b, from + 1, end)
    }
}

/// The bar before the cell of a column, from the bar at `at` before the first: that of the
/// last cell where there are fewer.
pub open spec fn bar_before(b: Seq<u8>, at: int, end: int, col: nat) -> int
    decreases col,
{
    let next = bar_from(b, at + 1, end);
    if col == 0 || next >= end || bar_from(b, next + 1, end) >= end {
        at
    } else {
        bar_before(b, next, end, (col - 1) as nat)
    }
}

/// Where the caret stands in the cell of a column of an empty row: one space behind the
/// bar, and before the next.
pub open spec fn cell_home(b: Seq<u8>, row: Span, col: nat) -> Option<int> {
    let end = text::least(row.end as int, b.len() as int);
    let first = bar_from(b, row.start as int, end);
    if first >= end {
        None
    } else {
        let at = bar_before(b, first, end, col);
        Some(text::least(at + 2, bar_from(b, at + 1, end)))
    }
}

/// The spans of the nodes of a kind, in order.
pub fn find_spans(nodes: &Vec<Node>, kind: Kind) -> (r: Vec<Span>)
    ensures
        r@ == spans_of(node::node_views(nodes@), kind),
{
    let ghost views = node::node_views(nodes@);
    let mut out: Vec<Span> = Vec::new();
    let mut i: usize = 0;
    while i < nodes.len()
        invariant
            i <= nodes@.len(),
            views == node::node_views(nodes@),
            out@ == spans_of(views.take(i as int), kind),
        decreases nodes@.len() - i,
    {
        assert(views.take(i + 1).drop_last() =~= views.take(i as int));
        assert(views.take(i + 1).last() == nodes@[i as int]@);
        if nodes[i].kind == kind {
            out.push(nodes[i].span);
        }
        i = i + 1;
    }
    assert(views.take(i as int) =~= views);
    out
}

/// The first of some spans that an offset stands in, or right behind.
pub fn find_holding(spans: &Vec<Span>, off: usize) -> (r: Option<usize>)
    ensures
        match r {
            Some(i) => first_holding(spans@, off as int, 0) == Some(i as int) && i < spans@.len(),
            None => first_holding(spans@, off as int, 0) is None,
        },
{
    let mut i: usize = 0;
    while i < spans.len()
        invariant
            i <= spans@.len(),
            first_holding(spans@, off as int, 0) == first_holding(spans@, off as int, i as int),
        decreases spans@.len() - i,
    {
        if spans[i].start <= off && off <= spans[i].end {
            return Some(i);
        }
        i = i + 1;
    }
    None
}

/// The last of some spans that starts in another.
pub fn find_last_within(spans: &Vec<Span>, outer: Span) -> (r: Option<Span>)
    ensures
        r == last_within(spans@, outer),
{
    let mut i: usize = spans.len();
    assert(spans@.take(i as int) =~= spans@);
    while i > 0
        invariant
            i <= spans@.len(),
            last_within(spans@, outer) == last_within(spans@.take(i as int), outer),
        decreases i,
    {
        assert(spans@.take(i as int).drop_last() =~= spans@.take(i - 1));
        let span = spans[i - 1];
        if outer.start <= span.start && span.start < outer.end {
            return Some(span);
        }
        i = i - 1;
    }
    None
}

/// The first bar at or after `from`, no further than `end`.
fn find_bar(b: &[u8], from: usize, end: usize) -> (r: usize)
    requires
        end <= b@.len(),
    ensures
        r == bar_from(b@, from as int, end as int),
        from <= r,
        r <= end || r == from,
{
    let mut i: usize = from;
    while i < end && b[i] != 124
        invariant
            from <= i,
            i <= end || i == from,
            end <= b@.len(),
            bar_from(b@, from as int, end as int) == bar_from(b@, i as int, end as int),
        decreases end - i,
    {
        i = i + 1;
    }
    i
}

/// Where the caret stands in the cell of a column of an empty row.
pub fn find_cell_home(source: &str, row: Span, col: usize) -> (r: Option<usize>)
    ensures
        match r {
            Some(home) => cell_home(encode_utf8(source@), row, col as nat) == Some(home as int),
            None => cell_home(encode_utf8(source@), row, col as nat) is None,
        },
{
    let b = source.as_bytes();
    let end: usize = if row.end <= b.len() {
        row.end
    } else {
        b.len()
    };
    let first = find_bar(b, row.start, end);
    if first >= end {
        return None;
    }
    let mut at: usize = first;
    let mut left: usize = col;
    while left > 0
        invariant
            at < end <= b@.len(),
            bar_before(b@, first as int, end as int, col as nat) == bar_before(
                b@,
                at as int,
                end as int,
                left as nat,
            ),
        ensures
            at < end,
            bar_before(b@, first as int, end as int, col as nat) == at,
        decreases left,
    {
        let next = find_bar(b, at + 1, end);
        if next >= end || find_bar(b, next + 1, end) >= end {
            break;
        }
        at = next;
        left = left - 1;
    }
    let next = find_bar(b, at + 1, end);
    if next - at >= 2 {
        Some(at + 2)
    } else {
        Some(next)
    }
}

/// How many bars stand in a text from `from` up to `to`, those behind a backslash aside.
pub open spec fn bars_between(b: Seq<u8>, from: int, to: int) -> int
    decreases to - from,
{
    if from >= to || to > b.len() || from < 0 {
        0
    } else {
        bars_between(b, from, to - 1) + if b[to - 1] == 124 && (to == 1 || b[to - 2] != 92) {
            1int
        } else {
            0
        }
    }
}

/// How many of the first `upto` nodes are cells of the row in a place.
pub open spec fn cells_of_row(nodes: Seq<NodeView>, row: int, upto: int) -> int
    decreases upto,
{
    if upto <= 0 {
        0
    } else {
        cells_of_row(nodes, row, upto - 1) + if nodes[upto - 1].kind == Kind::Cell
            && nodes[upto - 1].parent == Some(row as usize) {
            1int
        } else {
            0
        }
    }
}

/// The most cells of a row of a table, among the first `upto` nodes.
pub open spec fn columns_of(nodes: Seq<NodeView>, table: usize, upto: int) -> int
    decreases upto,
{
    if upto <= 0 {
        0
    } else {
        let before = columns_of(nodes, table, upto - 1);
        let here = cells_of_row(nodes, upto - 1, nodes.len() as int);
        if nodes[upto - 1].kind == Kind::Row && nodes[upto - 1].parent == Some(table) && here
            > before {
            here
        } else {
            before
        }
    }
}

/// Whether the row in a place has an offset in it, or right behind it, that stands behind
/// more bars than its table has columns. The first bar opens the row.
pub open spec fn past_columns(nodes: Seq<NodeView>, b: Seq<u8>, i: int, at: int) -> bool {
    let n = nodes[i];
    n.kind == Kind::Row && n.span.start <= at <= n.span.end && (n.parent matches Some(table)
        && bars_between(b, n.span.start as int, at) > 1 && bars_between(
        b,
        n.span.start as int,
        at,
    ) > columns_of(nodes, table, nodes.len() as int))
}

/// Whether an offset that stands in the row of a table stands in one of its columns, and not
/// behind the last.
pub open spec fn in_a_column(nodes: Seq<NodeView>, b: Seq<u8>, at: int) -> bool {
    forall|i: int| 0 <= i < nodes.len() ==> !#[trigger] past_columns(nodes, b, i, at)
}

/// How many bars stand in a text from `from` up to `to`, those behind a backslash aside.
fn count_bars(b: &[u8], from: usize, to: usize) -> (r: usize)
    ensures
        r == bars_between(b@, from as int, to as int),
{
    if to > b.len() || from >= to {
        return 0;
    }
    let mut n: usize = 0;
    let mut i: usize = from;
    while i < to
        invariant
            from <= i <= to <= b@.len(),
            n <= i - from,
            n == bars_between(b@, from as int, i as int),
        decreases to - i,
    {
        if b[i] == 124 && (i == 0 || b[i - 1] != 92) {
            n = n + 1;
        }
        i = i + 1;
    }
    n
}

/// How many nodes are cells of the row in a place.
fn count_cells(nodes: &Vec<Node>, row: usize) -> (r: usize)
    ensures
        r == cells_of_row(node::node_views(nodes@), row as int, nodes@.len() as int),
        r <= nodes@.len(),
{
    let ghost views = node::node_views(nodes@);
    let mut n: usize = 0;
    let mut i: usize = 0;
    while i < nodes.len()
        invariant
            i <= nodes@.len(),
            views == node::node_views(nodes@),
            n <= i,
            n == cells_of_row(views, row as int, i as int),
        decreases nodes@.len() - i,
    {
        assert(views[i as int] == nodes@[i as int]@);
        let mine = match nodes[i].parent {
            Some(p) => p == row,
            None => false,
        };
        if nodes[i].kind == Kind::Cell && mine {
            n = n + 1;
        }
        i = i + 1;
    }
    n
}

/// The most cells of a row of a table.
fn count_columns(nodes: &Vec<Node>, table: usize) -> (r: usize)
    ensures
        r == columns_of(node::node_views(nodes@), table, nodes@.len() as int),
{
    let ghost views = node::node_views(nodes@);
    let mut most: usize = 0;
    let mut i: usize = 0;
    while i < nodes.len()
        invariant
            i <= nodes@.len(),
            views == node::node_views(nodes@),
            views.len() == nodes@.len(),
            most == columns_of(views, table, i as int),
        decreases nodes@.len() - i,
    {
        assert(views[i as int] == nodes@[i as int]@);
        let mine = match nodes[i].parent {
            Some(p) => p == table,
            None => false,
        };
        if nodes[i].kind == Kind::Row && mine {
            let here = count_cells(nodes, i);
            if here > most {
                most = here;
            }
        }
        i = i + 1;
    }
    most
}

/// Whether an offset that stands in the row of a table stands in one of its columns.
pub fn stands_in_a_column(nodes: &Vec<Node>, b: &[u8], at: usize) -> (r: bool)
    ensures
        r == in_a_column(node::node_views(nodes@), b@, at as int),
{
    let ghost views = node::node_views(nodes@);
    let mut i: usize = 0;
    while i < nodes.len()
        invariant
            i <= nodes@.len(),
            views == node::node_views(nodes@),
            views.len() == nodes@.len(),
            forall|k: int| 0 <= k < i ==> !#[trigger] past_columns(views, b@, k, at as int),
        decreases nodes@.len() - i,
    {
        let n = &nodes[i];
        assert(views[i as int] == n@);
        if n.kind == Kind::Row && n.span.start <= at && at <= n.span.end {
            if let Some(table) = n.parent {
                let bars = count_bars(b, n.span.start, at);
                if bars > 1 && bars > count_columns(nodes, table) {
                    assert(past_columns(views, b@, i as int, at as int));
                    return false;
                }
            }
        }
        i = i + 1;
    }
    true
}

/// The cells of a row, by their contents; one without is where it starts.
pub open spec fn row_cells(nodes: Seq<NodeView>, row: Span) -> Seq<Span>
    decreases nodes.len(),
{
    if nodes.len() == 0 {
        Seq::empty()
    } else {
        let before = row_cells(nodes.drop_last(), row);
        let n = nodes.last();
        if n.kind == Kind::Cell && row.start <= n.span.start < row.end {
            before.push(
                match n.content {
                    Some(c) => c,
                    None => Span { start: n.span.start, end: n.span.start },
                },
            )
        } else {
            before
        }
    }
}

/// The cells of a row, by their contents.
pub fn find_row_cells(nodes: &Vec<Node>, row: Span) -> (r: Vec<Span>)
    ensures
        r@ == row_cells(node::node_views(nodes@), row),
{
    let ghost views = node::node_views(nodes@);
    let mut out: Vec<Span> = Vec::new();
    let mut i: usize = 0;
    while i < nodes.len()
        invariant
            i <= nodes@.len(),
            views == node::node_views(nodes@),
            out@ == row_cells(views.take(i as int), row),
        decreases nodes@.len() - i,
    {
        assert(views.take(i + 1).drop_last() =~= views.take(i as int));
        assert(views.take(i + 1).last() == nodes@[i as int]@);
        let n = &nodes[i];
        if n.kind == Kind::Cell && row.start <= n.span.start && n.span.start < row.end {
            out.push(
                match n.content {
                    Some(c) => c,
                    None => Span { start: n.span.start, end: n.span.start },
                },
            );
        }
        i = i + 1;
    }
    assert(views.take(i as int) =~= views);
    out
}

} // verus!

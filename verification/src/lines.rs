//! Source lines, and the rows and columns of the source view.
//!
//! Lines are counted by newline, so a trailing one leaves a real, empty last line for the
//! caret to sit on.

use std::ops::Range;
use unicode_segmentation::GraphemeCursor;
use vstd::prelude::*;
use vstd::utf8::*;
use crate::text;

verus! {

// ── lines ──────────────────────────────────────────────────────────────────────
/// Where the line that holds `off` starts.
pub open spec fn bol(b: Seq<u8>, off: int) -> int
    decreases off,
{
    if off <= 0 || b[off - 1] == 10 {
        off
    } else {
        bol(b, off - 1)
    }
}

/// Where the line that holds `off` ends, before its newline.
pub open spec fn eol(b: Seq<u8>, off: int) -> int
    decreases b.len() - off,
{
    if off >= b.len() {
        b.len() as int
    } else if b[off] == 10 {
        off
    } else {
        eol(b, off + 1)
    }
}

/// How many newlines stand before `off`.
pub open spec fn newlines(b: Seq<u8>, off: int) -> nat
    decreases off,
{
    if off <= 0 {
        0
    } else {
        newlines(b, off - 1) + (if b[off - 1] == 10 {
            1nat
        } else {
            0nat
        })
    }
}

/// A line's start stands at a newline or at the start of the text, with none after it up
/// to where it was asked from.
pub proof fn lemma_bol(b: Seq<u8>, off: int)
    requires
        0 <= off <= b.len(),
    ensures
        0 <= bol(b, off) <= off,
        bol(b, off) == 0 || b[bol(b, off) - 1] == 10,
        forall|k: int| bol(b, off) <= k < off ==> b[k] != 10,
    decreases off,
{
    if off > 0 && b[off - 1] != 10 {
        lemma_bol(b, off - 1);
    }
}

/// A line's end stands at a newline or at the end of the text, with none before it from
/// where it was asked.
pub proof fn lemma_eol(b: Seq<u8>, off: int)
    requires
        0 <= off <= b.len(),
    ensures
        off <= eol(b, off) <= b.len(),
        eol(b, off) == b.len() || b[eol(b, off)] == 10,
        forall|k: int| off <= k < eol(b, off) ==> b[k] != 10,
    decreases b.len() - off,
{
    if off < b.len() && b[off] != 10 {
        lemma_eol(b, off + 1);
    }
}

/// The ends of a line are boundaries.
pub proof fn lemma_line_boundaries(s: Seq<char>, off: int)
    requires
        0 <= off <= text::byte_len(s),
    ensures
        text::boundary(s, bol(encode_utf8(s), off)) || bol(encode_utf8(s), off) == 0,
        text::boundary(s, bol(encode_utf8(s), off)),
        text::boundary(s, eol(encode_utf8(s), off)),
{
    let b = encode_utf8(s);
    lemma_bol(b, off);
    lemma_eol(b, off);
    text::lemma_boundary_ends(s);
    if bol(b, off) > 0 {
        text::lemma_ascii_boundary(s, bol(b, off) - 1);
    }
    if eol(b, off) < b.len() {
        text::lemma_ascii_boundary(s, eol(b, off));
    }
}

/// Where the line that holds `off` starts.
pub fn start_of_line(s: &str, off: usize) -> (r: usize)
    requires
        off <= text::byte_len(s@),
    ensures
        r == bol(encode_utf8(s@), off as int),
        r <= off,
        text::boundary(s@, r as int),
{
    let b = s.as_bytes();
    let mut i: usize = off;
    while i > 0 && b[i - 1] != 10
        invariant
            i <= off <= b@.len(),
            b@ == encode_utf8(s@),
            bol(b@, off as int) == bol(b@, i as int),
        decreases i,
    {
        i = i - 1;
    }
    proof {
        lemma_line_boundaries(s@, off as int);
    }
    i
}

/// Where the line that holds `start` ends.
pub fn line_end_from(s: &str, start: usize) -> (r: usize)
    requires
        start <= text::byte_len(s@),
    ensures
        r == eol(encode_utf8(s@), start as int),
        start <= r <= text::byte_len(s@),
        text::boundary(s@, r as int),
{
    let b = s.as_bytes();
    let mut i: usize = start;
    while i < b.len() && b[i] != 10
        invariant
            start <= i <= b@.len(),
            b@ == encode_utf8(s@),
            eol(b@, start as int) == eol(b@, i as int),
        decreases b@.len() - i,
    {
        i = i + 1;
    }
    proof {
        lemma_line_boundaries(s@, start as int);
    }
    i
}

/// The byte range of the source line containing `off`, its newline excluded.
pub fn source_line_range(s: &str, off: usize) -> (r: Range<usize>)
    ensures
        r.start == bol(encode_utf8(s@), text::least(off as int, text::byte_len(s@))),
        r.end == eol(encode_utf8(s@), text::least(off as int, text::byte_len(s@))),
        r.start <= r.end <= text::byte_len(s@),
        text::boundary(s@, r.start as int),
        text::boundary(s@, r.end as int),
{
    let len = text::len(s);
    let off: usize = if off <= len {
        off
    } else {
        len
    };
    let start = start_of_line(s, off);
    let end = line_end_from(s, off);
    start..end
}

/// Where the line `row` starts: the end of the text where there is no such line.
pub open spec fn row_start(b: Seq<u8>, row: nat, from: int) -> int
    decreases b.len() - from,
{
    if row == 0 {
        from
    } else if from >= b.len() {
        b.len() as int
    } else if b[from] == 10 {
        row_start(b, (row - 1) as nat, from + 1)
    } else {
        row_start(b, row, from + 1)
    }
}

/// Where the line `row` starts.
pub fn line_start(s: &str, row: usize) -> (r: usize)
    ensures
        r == row_start(encode_utf8(s@), row as nat, 0),
        r <= text::byte_len(s@),
        text::boundary(s@, r as int),
{
    let b = s.as_bytes();
    let mut left: usize = row;
    let mut i: usize = 0;
    proof {
        text::lemma_boundary_ends(s@);
    }
    while left > 0 && i < b.len()
        invariant
            i <= b@.len(),
            b@ == encode_utf8(s@),
            row_start(b@, row as nat, 0) == row_start(b@, left as nat, i as int),
            left == 0 ==> text::boundary(s@, i as int),
        decreases b@.len() - i,
    {
        if b[i] == 10 {
            proof {
                text::lemma_ascii_boundary(s@, i as int);
            }
            left = left - 1;
        }
        i = i + 1;
    }
    i
}

/// How many newlines stand before `off`.
pub fn count_newlines(s: &str, off: usize) -> (r: usize)
    requires
        off <= text::byte_len(s@),
    ensures
        r == newlines(encode_utf8(s@), off as int),
        r <= off,
{
    let b = s.as_bytes();
    let mut n: usize = 0;
    let mut i: usize = 0;
    while i < off
        invariant
            n <= i <= off <= b@.len(),
            b@ == encode_utf8(s@),
            n == newlines(b@, i as int),
        decreases off - i,
    {
        if b[i] == 10 {
            n = n + 1;
        }
        i = i + 1;
    }
    n
}

/// The line below `row`, or `None` when `row` is the last one.
pub fn row_below(s: &str, row: usize) -> (r: Option<usize>)
    ensures
        match r {
            Some(below) => row < newlines(encode_utf8(s@), text::byte_len(s@)) && below == row + 1,
            None => row >= newlines(encode_utf8(s@), text::byte_len(s@)),
        },
{
    let last = count_newlines(s, text::len(s));
    if row < last {
        Some(row + 1)
    } else {
        None
    }
}

proof fn lemma_newlines_step(b: Seq<u8>, from: int)
    requires
        0 <= from < b.len(),
    ensures
        newlines(b, from + 1) == newlines(b, from) + (if b[from] == 10 {
            1int
        } else {
            0int
        }),
{
}

/// The row of a line's start counts the lines before it: asking for the start of the row
/// that an offset is in gives the start of its line.
pub proof fn law_row_of_line(b: Seq<u8>, off: int)
    requires
        0 <= off <= b.len(),
    ensures
        row_start(b, newlines(b, off), 0) == bol(b, off),
    decreases off,
{
    lemma_row_start_bol(b, 0, off);
}

/// From a line's start on, as many newlines as stand before an offset lead to the start of
/// that offset's line.
proof fn lemma_row_start_bol(b: Seq<u8>, from: int, off: int)
    requires
        0 <= from <= off <= b.len(),
        from == 0 || b[from - 1] == 10,
    ensures
        newlines(b, off) >= newlines(b, from),
        row_start(b, (newlines(b, off) - newlines(b, from)) as nat, from) == bol(b, off),
    decreases off - from,
{
    lemma_newlines_grow(b, from, off);
    lemma_bol(b, off);
    let n = (newlines(b, off) - newlines(b, from)) as nat;
    if n == 0 {
        // No newline from here to there: this is the line's start.
        if bol(b, off) != from {
            lemma_newlines_none(b, from, off);
        }
    } else {
        let next = eol(b, from);
        lemma_eol(b, from);
        lemma_row_start_skip(b, n, from, next);
        if next >= off {
            lemma_newlines_none_back(b, from, off);
        } else {
            lemma_newlines_none_back(b, from, next);
            lemma_newlines_step(b, next);
            lemma_row_start_bol(b, next + 1, off);
        }
    }
}

proof fn lemma_newlines_grow(b: Seq<u8>, from: int, off: int)
    requires
        0 <= from <= off <= b.len(),
    ensures
        newlines(b, from) <= newlines(b, off),
    decreases off - from,
{
    if from < off {
        lemma_newlines_grow(b, from, off - 1);
    }
}

/// Without a newline counted between two offsets, none stands between them, and the line's
/// start is no later than the first.
proof fn lemma_newlines_none(b: Seq<u8>, from: int, off: int)
    requires
        0 <= from <= off <= b.len(),
        newlines(b, off) == newlines(b, from),
        from == 0 || b[from - 1] == 10,
    ensures
        bol(b, off) == from,
    decreases off - from,
{
    if from < off {
        lemma_newlines_grow(b, from, off - 1);
        lemma_newlines_none(b, from, off - 1);
    }
}

/// Where no newline stands between two offsets, none is counted.
proof fn lemma_newlines_none_back(b: Seq<u8>, from: int, off: int)
    requires
        0 <= from <= off <= b.len(),
        forall|k: int| from <= k < off ==> b[k] != 10,
    ensures
        newlines(b, off) == newlines(b, from),
    decreases off - from,
{
    if from < off {
        lemma_newlines_none_back(b, from, off - 1);
    }
}

/// Looking for a row steps over what is no newline.
proof fn lemma_row_start_skip(b: Seq<u8>, row: nat, from: int, to: int)
    requires
        0 <= from <= to <= b.len(),
        row > 0,
        forall|k: int| from <= k < to ==> b[k] != 10,
    ensures
        row_start(b, row, from) == row_start(b, row, to),
        to < b.len() && b[to] == 10 ==> row_start(b, row, from) == row_start(
            b,
            (row - 1) as nat,
            to + 1,
        ),
    decreases to - from,
{
    if from < to {
        lemma_row_start_skip(b, row, from + 1, to);
    }
}

// ── clusters and columns ───────────────────────────────────────────────────────
/// The start of the grapheme cluster that ends at or holds the character before a byte
/// offset, or none at the start of the text.
pub uninterp spec fn cluster_before(s: Seq<char>, at: int) -> Option<int>;

/// The end of the grapheme cluster that holds the character at a byte offset, or none at
/// the end of the text.
pub uninterp spec fn cluster_after(s: Seq<char>, at: int) -> Option<int>;

/// How many terminal cells a text takes.
pub uninterp spec fn display_width(s: Seq<char>) -> nat;

/// The view of an optional offset.
pub open spec fn offset_view(off: Option<usize>) -> Option<int> {
    match off {
        Some(off) => Some(off as int),
        None => None,
    }
}

/// `GraphemeCursor::prev_boundary` over the whole text, for extended clusters: the offset
/// called [`cluster_before`], which is a boundary before the one asked from.
#[verifier::external_body]
fn cursor_back(s: &str, at: usize) -> (r: Option<usize>)
    requires
        text::boundary(s@, at as int),
    ensures
        offset_view(r) == cluster_before(s@, at as int),
        r matches Some(p) ==> p < at && text::boundary(s@, p as int),
{
    GraphemeCursor::new(at, s.len(), true).prev_boundary(s, 0).ok().flatten()
}

/// `GraphemeCursor::next_boundary` over the whole text, for extended clusters: the offset
/// called [`cluster_after`], which is a boundary after the one asked from.
#[verifier::external_body]
fn cursor_forward(s: &str, at: usize) -> (r: Option<usize>)
    requires
        text::boundary(s@, at as int),
    ensures
        offset_view(r) == cluster_after(s@, at as int),
        r matches Some(p) ==> p > at && text::boundary(s@, p as int),
{
    GraphemeCursor::new(at, s.len(), true).next_boundary(s, 0).ok().flatten()
}

/// `UnicodeWidthStr::width`: the number of cells called [`display_width`].
#[verifier::external_body]
fn text_width(s: &str) -> (r: usize)
    ensures
        r == display_width(s@),
{
    unicode_width::UnicodeWidthStr::width(s)
}

/// The boundary that a step left from `at` lands on: the start of the text where no
/// cluster precedes it.
pub open spec fn step_left(s: Seq<char>, at: int) -> int {
    match cluster_before(s, at) {
        Some(p) => p,
        None => 0,
    }
}

/// The boundary that a step right from `at` lands on: the end of the text where no
/// cluster follows it.
pub open spec fn step_right(s: Seq<char>, at: int) -> int {
    match cluster_after(s, at) {
        Some(p) => p,
        None => text::byte_len(s),
    }
}

/// The offset a grapheme cluster to the left of `i`, so that an emoji or a letter with its
/// combining marks moves and deletes as the single character a reader sees.
pub fn prev_boundary(s: &str, i: usize) -> (r: usize)
    requires
        text::boundary(s@, i as int),
    ensures
        r == step_left(s@, i as int),
        text::boundary(s@, r as int),
        r <= i,
        i > 0 ==> r < i,
{
    proof {
        text::lemma_boundary_ends(s@);
    }
    match cursor_back(s, i) {
        Some(p) => p,
        None => 0,
    }
}

/// The offset a grapheme cluster to the right of `i`.
pub fn next_boundary(s: &str, i: usize) -> (r: usize)
    requires
        text::boundary(s@, i as int),
    ensures
        r == step_right(s@, i as int),
        text::boundary(s@, r as int),
        i <= r <= text::byte_len(s@),
        i < text::byte_len(s@) ==> i < r,
{
    proof {
        text::lemma_boundary_ends(s@);
        text::lemma_boundary_range(s@, i as int);
    }
    match cursor_forward(s, i) {
        Some(p) => {
            proof {
                text::lemma_boundary_range(s@, p as int);
            }
            p
        },
        None => text::len(s),
    }
}

/// The clusters of a text from `off` up to `end`: the offset behind each, and how many
/// cells it takes.
pub open spec fn cells_between(s: Seq<char>, off: int, end: int) -> Seq<(int, int)>
    decreases end - off,
{
    let next = text::least(step_right(s, off), end);
    if off >= end || next <= off {
        Seq::empty()
    } else {
        seq![(next, display_width(text::slice(s, off, next)) as int)] + cells_between(s, next, end)
    }
}

/// Where a walk over clusters that looks for the cell `col` stops, from the offset `off`
/// and the cell `at` on: at the cluster that holds the cell.
pub open spec fn cell_walk(cells: Seq<(int, int)>, off: int, at: int, col: int) -> int
    decreases cells.len(),
{
    if cells.len() == 0 || at + cells[0].1 > col {
        off
    } else {
        cell_walk(cells.skip(1), cells[0].0, at + cells[0].1, col)
    }
}

/// The offset at the cell `col` of the line from `off` to `end`.
pub open spec fn column_walk(s: Seq<char>, off: int, end: int, col: int) -> int {
    cell_walk(cells_between(s, off, end), off, 0, col)
}

/// How many cells the first `k` clusters take.
pub open spec fn cells_taken(cells: Seq<(int, int)>, k: int) -> int
    decreases k,
{
    if k <= 0 {
        0
    } else {
        cells_taken(cells, k - 1) + cells[k - 1].1
    }
}

/// The offset behind the first `k` clusters of a line that starts at `start`.
pub open spec fn behind_cells(cells: Seq<(int, int)>, start: int, k: int) -> int {
    if k <= 0 {
        start
    } else {
        cells[k - 1].0
    }
}

/// A walk that looks for a cell behind the first `j` clusters goes past them.
proof fn lemma_cell_walk(cells: Seq<(int, int)>, start: int, j: int, col: int)
    requires
        0 <= j <= cells.len(),
        forall|i: int| 0 <= i < cells.len() ==> (#[trigger] cells[i]).1 >= 0,
        cells_taken(cells, j) <= col,
    ensures
        cell_walk(cells, start, 0, col) == cell_walk(
            cells.skip(j),
            behind_cells(cells, start, j),
            cells_taken(cells, j),
            col,
        ),
    decreases j,
{
    if j == 0 {
        assert(cells.skip(0) =~= cells);
    } else {
        lemma_cell_walk(cells, start, j - 1, col);
        assert(cells.skip(j - 1).skip(1) =~= cells.skip(j));
        assert(cells.skip(j - 1)[0] == cells[j - 1]);
    }
}

/// No cluster takes fewer than no cells.
proof fn lemma_cells_between(s: Seq<char>, off: int, end: int)
    ensures
        forall|i: int|
            0 <= i < cells_between(s, off, end).len() ==> (#[trigger] cells_between(
                s,
                off,
                end,
            )[i]).1 >= 0,
    decreases end - off,
{
    let next = text::least(step_right(s, off), end);
    if off < end && off < next {
        lemma_cells_between(s, next, end);
        let rest = cells_between(s, next, end);
        assert forall|i: int| 0 <= i < cells_between(s, off, end).len() implies (
        #[trigger] cells_between(s, off, end)[i]).1 >= 0 by {
            if i > 0 {
                assert(cells_between(s, off, end)[i] == rest[i - 1]);
            }
        }
    }
}

/// How many cells stand before an offset in its line: those of the clusters there.
pub open spec fn column_of(s: Seq<char>, off: int) -> int {
    let cells = cells_between(s, bol(encode_utf8(s), off), off);
    cells_taken(cells, cells.len() as int)
}

/// Whether steps to the right lead from one offset to another: from the start of a line they
/// lead to the boundaries of its clusters.
pub open spec fn steps_lead(s: Seq<char>, from: int, to: int) -> bool
    decreases to - from,
{
    from == to || (from < step_right(s, from) <= to && steps_lead(s, step_right(s, from), to))
}

/// Where steps lead from one offset to another, the clusters up to an end are those up to
/// the other and those from there on.
proof fn lemma_cells_split(s: Seq<char>, from: int, off: int, end: int)
    requires
        from <= off <= end,
        steps_lead(s, from, off),
    ensures
        cells_between(s, from, end) == cells_between(s, from, off) + cells_between(s, off, end),
        behind_cells(
            cells_between(s, from, off),
            from,
            cells_between(s, from, off).len() as int,
        ) == off,
    decreases off - from,
{
    if from < off {
        let next = step_right(s, from);
        lemma_cells_split(s, next, off, end);
        let first = seq![(next, display_width(text::slice(s, from, next)) as int)];
        assert(cells_between(s, from, off) == first + cells_between(s, next, off));
        assert(cells_between(s, from, end) == first + cells_between(s, next, end));
        assert(first + (cells_between(s, next, off) + cells_between(s, off, end)) =~= (first
            + cells_between(s, next, off)) + cells_between(s, off, end));
    } else {
        assert(cells_between(s, from, off) =~= Seq::empty());
        assert(cells_between(s, from, off) + cells_between(s, off, end) =~= cells_between(
            s,
            off,
            end,
        ));
    }
}

/// What the first clusters take does not rest on those behind them.
proof fn lemma_cells_taken(head: Seq<(int, int)>, tail: Seq<(int, int)>, k: int)
    requires
        0 <= k <= head.len(),
    ensures
        cells_taken(head + tail, k) == cells_taken(head, k),
    decreases k,
{
    if k > 0 {
        lemma_cells_taken(head, tail, k - 1);
    }
}

/// The row and the column of an offset at a boundary of its line's clusters lead back to
/// it, and so does every column over the cluster that starts there: both cells of a wide
/// character mean the character. At the end of a line every column from there on does.
pub proof fn law_a_column_leads_back(s: Seq<char>, off: int, col: int)
    requires
        0 <= off <= text::byte_len(s),
        steps_lead(s, bol(encode_utf8(s), off), off),
        column_of(s, off) <= col,
        off < eol(encode_utf8(s), off) ==> col < column_of(s, off) + display_width(
            text::slice(s, off, text::least(step_right(s, off), eol(encode_utf8(s), off))),
        ),
    ensures
        ({
            let start = row_start(encode_utf8(s), newlines(encode_utf8(s), off), 0);
            column_walk(s, start, eol(encode_utf8(s), start), col) == off
        }),
{
    let b = encode_utf8(s);
    let start = bol(b, off);
    let end = eol(b, start);
    let head = cells_between(s, start, off);
    let tail = cells_between(s, off, end);
    let k = head.len() as int;
    law_row_of_line(b, off);
    lemma_bol(b, off);
    lemma_same_eol(b, start, off);
    lemma_eol(b, off);
    lemma_cells_split(s, start, off, end);
    lemma_cells_taken(head, tail, k);
    lemma_cells_between(s, start, end);
    assert(behind_cells(head + tail, start, k) == off);
    lemma_cell_walk(head + tail, start, k, col);
    assert((head + tail).skip(k) =~= tail);
}

/// Offsets with no newline between them have the same end of line.
pub proof fn lemma_same_eol(b: Seq<u8>, from: int, to: int)
    requires
        0 <= from <= to <= b.len(),
        forall|k: int| from <= k < to ==> b[k] != 10,
    ensures
        eol(b, from) == eol(b, to),
    decreases to - from,
{
    if from < to {
        lemma_same_eol(b, from + 1, to);
    }
}

/// The offsets and cells of clusters as numbers without limit.
pub open spec fn cells_view(cells: Seq<(usize, usize)>) -> Seq<(int, int)> {
    Seq::new(cells.len(), |i: int| (cells[i].0 as int, cells[i].1 as int))
}

/// The clusters of a line, for each the offset behind it and how many cells it takes.
fn cells_of(s: &str, start: usize, end: usize) -> (r: Vec<(usize, usize)>)
    requires
        start <= end,
        text::boundary(s@, start as int),
        text::boundary(s@, end as int),
    ensures
        cells_view(r@) == cells_between(s@, start as int, end as int),
        forall|i: int|
            0 <= i < r@.len() ==> start < (#[trigger] r@[i]).0 <= end && text::boundary(
                s@,
                r@[i].0 as int,
            ),
{
    let mut out: Vec<(usize, usize)> = Vec::new();
    let mut off: usize = start;
    proof {
        assert(cells_view(out@) + cells_between(s@, off as int, end as int) =~= cells_between(
            s@,
            off as int,
            end as int,
        ));
    }
    while off < end
        invariant
            start <= off <= end,
            text::boundary(s@, off as int),
            text::boundary(s@, end as int),
            cells_view(out@) + cells_between(s@, off as int, end as int) == cells_between(
                s@,
                start as int,
                end as int,
            ),
            forall|i: int|
                0 <= i < out@.len() ==> start < (#[trigger] out@[i]).0 <= end && text::boundary(
                    s@,
                    out@[i].0 as int,
                ),
        decreases end - off,
    {
        proof {
            text::lemma_boundary_range(s@, end as int);
        }
        let step = next_boundary(s, off);
        let next: usize = if step <= end {
            step
        } else {
            end
        };
        let ghost before = cells_view(out@);
        let cells = text_width(text::substr(s, off, next));
        out.push((next, cells));
        proof {
            assert(cells_view(out@) =~= before.push((next as int, cells as int)));
            assert(cells_view(out@) + cells_between(s@, next as int, end as int) =~= before
                + cells_between(s@, off as int, end as int));
        }
        off = next;
    }
    assert(cells_view(out@) + cells_between(s@, off as int, end as int) =~= cells_view(out@));
    out
}

/// How many cells some clusters take.
fn count_cells(cells: &Vec<(usize, usize)>) -> (r: usize)
    ensures
        r == text::least(
            cells_taken(cells_view(cells@), cells@.len() as int),
            usize::MAX as int,
        ),
{
    let mut total: usize = 0;
    let mut i: usize = 0;
    while i < cells.len()
        invariant
            i <= cells@.len(),
            total == text::least(cells_taken(cells_view(cells@), i as int), usize::MAX as int),
        decreases cells@.len() - i,
    {
        total = total.saturating_add(cells[i].1);
        i = i + 1;
    }
    total
}

/// The row of a byte offset, and its column in terminal cells from the line's start.
pub fn offset_to_row_col(s: &str, off: usize) -> (r: (usize, usize))
    requires
        off <= text::byte_len(s@) ==> text::boundary(s@, off as int),
    ensures
        ({
            let at = text::least(off as int, text::byte_len(s@));
            r.0 == newlines(encode_utf8(s@), at) && r.1 == text::least(
                column_of(s@, at),
                usize::MAX as int,
            )
        }),
{
    proof {
        text::lemma_boundary_ends(s@);
    }
    let len = text::len(s);
    let off: usize = if off <= len {
        off
    } else {
        len
    };
    let row = count_newlines(s, off);
    let start = start_of_line(s, off);
    let cells = cells_of(s, start, off);
    (row, count_cells(&cells))
}

/// The offset of the cluster that holds the cell `col`, given the clusters of a line that
/// starts at `start`. Past the last cell it is the end of the line.
pub fn offset_at_cell(cells: &Vec<(usize, usize)>, start: usize, col: usize) -> (r: usize)
    ensures
        r == cell_walk(cells_view(cells@), start as int, 0, col as int),
        r == start || exists|i: int| 0 <= i < cells@.len() && r == (#[trigger] cells@[i]).0,
{
    let mut off: usize = start;
    let mut at: usize = 0;
    let mut i: usize = 0;
    assert(cells_view(cells@).skip(0) =~= cells_view(cells@));
    while i < cells.len()
        invariant
            i <= cells@.len(),
            at <= col,
            off == start || exists|k: int|
                0 <= k < cells@.len() && off == (#[trigger] cells@[k]).0,
            cell_walk(cells_view(cells@), start as int, 0, col as int) == cell_walk(
                cells_view(cells@).skip(i as int),
                off as int,
                at as int,
                col as int,
            ),
        decreases cells@.len() - i,
    {
        assert(cells_view(cells@).skip(i as int).skip(1) =~= cells_view(cells@).skip(i + 1));
        let (next, width) = cells[i];
        if width > col - at {
            return off;
        }
        at = at + width;
        off = next;
        i = i + 1;
    }
    off
}

/// The byte offset at the cell `col` of `row`, no further than that line's end. A cell
/// inside a character resolves to that character's start.
pub fn row_col_to_offset(s: &str, row: usize, col: usize) -> (r: usize)
    ensures
        ({
            let start = row_start(encode_utf8(s@), row as nat, 0);
            let end = eol(encode_utf8(s@), start);
            &&& start <= r <= end
            &&& text::boundary(s@, r as int)
            &&& r == column_walk(s@, start, end, col as int)
        }),
{
    let start = line_start(s, row);
    let end = line_end_from(s, start);
    let cells = cells_of(s, start, end);
    offset_at_cell(&cells, start, col)
}

} // verus!

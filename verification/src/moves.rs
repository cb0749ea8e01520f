//! Where the caret goes.

use vstd::prelude::*;
use vstd::utf8::*;
use crate::doc;
use crate::doc::DocView;
use crate::gestures::{picked, unpicked};
use crate::lines;
use crate::modes;
use crate::motion;
use crate::text;
use crate::visual;
use crate::words;
use crate::words::Class;

verus! {

/// Whether one document is another with its caret somewhere else: the text is the same, what
/// was selected is stretched to the caret or dropped, and nothing is armed.
pub open spec fn only_moved(d: DocView, f: DocView, extend: bool) -> bool {
    &&& f.source == d.source
    &&& f.bytes == d.bytes
    &&& f.dirty == d.dirty
    &&& f.past == d.past
    &&& f.view == d.view
    &&& f.anchor == (if !extend {
        None
    } else if d.anchor is Some {
        d.anchor
    } else {
        Some(d.caret)
    })
}

/// No motion changes the text. With the selection stretched its fixed end stays; otherwise
/// nothing is selected.
pub proof fn law_a_motion_only_moves_the_caret(
    d: DocView,
    extend: bool,
    row: int,
    col: int,
)
    ensures
        only_moved(d, d.went_left(extend), extend),
        only_moved(d, d.went_right(extend), extend),
        only_moved(d, d.went_word_left(extend), extend),
        only_moved(d, d.went_word_right(extend), extend),
        only_moved(d, d.went_home(extend), extend),
        only_moved(d, d.went_end(extend), extend),
        only_moved(d, d.went_to_start(extend), extend),
        only_moved(d, d.went_to_end(extend), extend),
        only_moved(d, d.clicked(row, col, extend), extend),
        d.went_up(extend) == d || only_moved(d, d.went_up(extend), extend),
        d.went_down(extend) == d || only_moved(d, d.went_down(extend), extend),
{
}

/// A place in the text is one to move to, in the source view.
proof fn lemma_lands(d: DocView, off: int, extend: bool)
    requires
        d.view == modes::View::Source,
        0 <= off <= d.len(),
        text::boundary(d.source, off),
    ensures
        d.aimless().moved_to(off, extend).caret == off,
{
    doc::lemma_settled(d.aimless(), off);
}

/// The arrow keys drop a selection at the end they point to.
pub proof fn law_an_arrow_drops_the_selection_at_its_end(d: DocView, s: int, e: int)
    requires
        d.valid(),
        d.view == modes::View::Source,
        picked(d, s, e),
    ensures
        d.went_left(false).caret == s,
        d.went_right(false).caret == e,
{
    lemma_lands(d, s, false);
    lemma_lands(d, e, false);
}

/// With nothing selected, or the selection stretched, the arrow keys go a character to the
/// left and to the right, as a reader sees characters, and stay at the ends of the text.
pub proof fn law_an_arrow_goes_one_character(d: DocView, extend: bool)
    requires
        d.valid(),
        d.view == modes::View::Source,
        unpicked(d) || extend,
    ensures
        ({
            let s = lines::step_left(d.source, d.caret);
            d.caret > 0 && 0 <= s <= d.len() && text::boundary(d.source, s) ==> d.went_left(
                extend,
            ).caret == s
        }),
        ({
            let e = lines::step_right(d.source, d.caret);
            d.caret < d.len() && 0 <= e <= d.len() && text::boundary(d.source, e) ==> d.went_right(
                extend,
            ).caret == e
        }),
        d.caret == 0 ==> d.went_left(extend).caret == 0,
        d.caret == d.len() ==> d.went_right(extend).caret == d.len(),
{
    text::lemma_boundary_ends(d.source);
    let s = lines::step_left(d.source, d.caret);
    let e = lines::step_right(d.source, d.caret);
    if 0 <= s <= d.len() && text::boundary(d.source, s) {
        lemma_lands(d, s, extend);
    }
    if 0 <= e <= d.len() && text::boundary(d.source, e) {
        lemma_lands(d, e, extend);
    }
    lemma_lands(d, 0, extend);
    lemma_lands(d, d.len(), extend);
}

/// In the rendered view the arrow keys go to the next place that the caret can rest at, and
/// pass none: left to the nearest stop before the caret, right to the nearest behind it.
pub proof fn law_an_arrow_goes_to_the_next_stop(d: DocView, i: int, extend: bool)
    requires
        d.valid(),
        d.view == modes::View::Wysiwyg,
        unpicked(d) || extend,
        0 <= i < d.map.stops.len(),
        d.floor() <= d.map.stops[i].offset <= d.len(),
        text::boundary(d.source, d.map.stops[i].offset as int),
    ensures
        ({
            let at = d.map.stops[i].offset;
            at < d.caret && (forall|k: int|
                0 <= k < d.map.stops.len() ==> !(at < (#[trigger] d.map.stops[k]).offset < d.caret))
                ==> d.went_left(extend).caret == at
        }),
        ({
            let at = d.map.stops[i].offset;
            d.caret < at && (forall|k: int|
                0 <= k < d.map.stops.len() ==> !(d.caret < (#[trigger] d.map.stops[k]).offset < at))
                ==> d.went_right(extend).caret == at
        }),
{
    let at = d.map.stops[i].offset as int;
    visual::lemma_last_before(d.map.stops, d.caret);
    visual::lemma_first_after(d.map.stops, d.caret);
    doc::lemma_settled(d.aimless(), at);
}

/// Home and end lead to the ends of the caret's line in the source view: end to the line's
/// end; home to its first text, past the white space it opens with, and from there to its
/// start.
pub proof fn law_home_and_end_stay_on_the_line(d: DocView, extend: bool)
    requires
        d.valid(),
        d.view == modes::View::Source,
    ensures
        d.went_end(extend).caret == lines::eol(encode_utf8(d.source), d.caret),
        d.caret == d.first_text(
            lines::bol(encode_utf8(d.source), d.caret),
            lines::eol(encode_utf8(d.source), d.caret),
        ) ==> d.went_home(extend).caret == lines::bol(encode_utf8(d.source), d.caret),
        ({
            let first = d.first_text(
                lines::bol(encode_utf8(d.source), d.caret),
                lines::eol(encode_utf8(d.source), d.caret),
            );
            d.caret != first && 0 <= first <= d.len() && text::boundary(d.source, first)
                ==> d.went_home(extend).caret == first
        }),
{
    let b = encode_utf8(d.source);
    let start = lines::bol(b, d.caret);
    lines::law_row_of_line(b, d.caret);
    lines::lemma_bol(b, d.caret);
    lines::lemma_eol(b, d.caret);
    lines::lemma_same_eol(b, start, d.caret);
    lines::lemma_line_boundaries(d.source, d.caret);
    lemma_lands(d, start, extend);
    lemma_lands(d, lines::eol(b, d.caret), extend);
    let first = d.first_text(start, lines::eol(b, d.caret));
    if 0 <= first <= d.len() && text::boundary(d.source, first) {
        lemma_lands(d, first, extend);
    }
}

/// The first text of a line is behind white space only: every place before it that was
/// looked at holds white space, and it holds none, or is the line's end.
pub proof fn law_the_first_text_is_no_space(d: DocView, off: int, end: int)
    requires
        d.view == modes::View::Source,
    ensures
        ({
            let first = d.first_text(off, end);
            &&& off <= end ==> off <= first <= end
            &&& off > end ==> first == end
            &&& first < end ==> d.class_at(first) != Class::Space
            &&& d.class_at(off) != Class::Space && off < end ==> first == off
            &&& d.class_at(off) == Class::Space && off < end && lines::step_right(d.source, off)
                > off ==> first == d.first_text(lines::step_right(d.source, off), end)
        }),
    decreases
            (if end > off {
                end - off
            } else {
                0
            }),
{
    let next = lines::step_right(d.source, off);
    if off < end && d.class_at(off) == Class::Space && next > off {
        law_the_first_text_is_no_space(d, next, end);
    }
}

/// The ends of the document are where the document's ends are.
pub proof fn law_the_ends_of_the_document(d: DocView, extend: bool)
    requires
        d.valid(),
        d.view == modes::View::Source,
    ensures
        d.went_to_start(extend).caret == 0,
        d.went_to_end(extend).caret == d.len(),
        d.all_selected().anchor == Some(0int),
        d.all_selected().caret == d.len(),
        d.all_selected().source == d.source,
{
    text::lemma_boundary_ends(d.source);
    lemma_lands(d, 0, extend);
    lemma_lands(d, d.len(), extend);
    doc::lemma_settled(d, 0);
    doc::lemma_settled(d, d.len());
}

/// A row up and a row down aim for the column that the caret was in when the motion began,
/// and lead to the row above and to the row below.
pub proof fn law_up_and_down_go_one_row(d: DocView, extend: bool)
    requires
        d.valid(),
        d.view == modes::View::Source,
    ensures
        ({
            let b = encode_utf8(d.source);
            let row = lines::newlines(b, d.caret);
            let goal = match d.goal_col {
                Some(col) => col,
                None => text::least(lines::column_of(d.source, d.caret), usize::MAX as int),
            };
            let above = lines::row_start(b, (row - 1) as nat, 0);
            let below = lines::row_start(b, row + 1, 0);
            let up = lines::column_walk(d.source, above, lines::eol(b, above), goal);
            let down = lines::column_walk(d.source, below, lines::eol(b, below), goal);
            &&& row > 0 && up != d.caret && 0 <= up <= d.len() && text::boundary(d.source, up)
                ==> d.went_up(extend).caret == up && d.went_up(extend).goal_col == Some(goal)
            &&& row < lines::newlines(b, d.len()) && down != d.caret && 0 <= down <= d.len()
                && text::boundary(d.source, down) ==> d.went_down(extend).caret == down
                && d.went_down(extend).goal_col == Some(goal)
            &&& row == 0 && d.caret != 0 ==> d.went_up(extend).caret == 0
            &&& row == lines::newlines(b, d.len()) && d.caret != d.len() ==> d.went_down(
                extend,
            ).caret == d.len()
        }),
{
    text::lemma_boundary_ends(d.source);
    let b = encode_utf8(d.source);
    let row = lines::newlines(b, d.caret);
    let goal = d.goal();
    let e = DocView { goal_col: Some(goal), ..d };
    let above = lines::row_start(b, (row - 1) as nat, 0);
    let below = lines::row_start(b, row + 1, 0);
    doc::lemma_settled(e, 0);
    doc::lemma_settled(e, e.len());
    let up = lines::column_walk(d.source, above, lines::eol(b, above), goal);
    let down = lines::column_walk(d.source, below, lines::eol(b, below), goal);
    if up >= 0 {
        doc::lemma_settled(e, up);
    }
    if down >= 0 {
        doc::lemma_settled(e, down);
    }
}

/// A word that is selected by an offset in it is the word around the offset, from end to end.
pub proof fn law_a_word_is_selected_whole(d: DocView, off: int)
    requires
        d.valid(),
        d.view == modes::View::Source,
        0 <= off <= d.len(),
        text::boundary(d.source, off),
    ensures
        ({
            let (s, e) = words::word_around(d.source, off);
            0 <= s <= d.len() && 0 <= e <= d.len() && text::boundary(d.source, s) && text::boundary(
                d.source,
                e,
            ) ==> d.word_selected(off).anchor == Some(s) && d.word_selected(off).caret == e
        }),
        d.word_selected(off).source == d.source,
{
    doc::lemma_settled(d, off);
    let (s, e) = words::word_around(d.source, off);
    if 0 <= s <= d.len() && 0 <= e <= d.len() && text::boundary(d.source, s) && text::boundary(
        d.source,
        e,
    ) {
        doc::lemma_settled(d, s);
        doc::lemma_settled(d, e);
        doc::lemma_settled(d.with_range(s, e), s);
        doc::lemma_settled(d.with_range(s, e), e);
    }
}

/// A click in the source view means the character in whose cells it is, and a place told by
/// its offset means that place.
pub proof fn law_a_click_means_what_it_is_on(
    d: DocView,
    row: int,
    col: int,
    off: int,
    extend: bool,
)
    requires
        d.valid(),
        d.view == modes::View::Source,
        0 <= off <= d.len(),
        text::boundary(d.source, off),
    ensures
        ({
            let b = encode_utf8(d.source);
            let start = lines::row_start(b, row as nat, 0);
            lines::column_walk(d.source, start, lines::eol(b, start), col) == off ==> d.clicked(
                row,
                col,
                extend,
            ).caret == off
        }),
        d.placed(off, extend).caret == off,
        only_moved(d, d.clicked(row, col, extend), extend),
{
    lemma_lands(d, off, extend);
    doc::lemma_settled(d, off);
    doc::lemma_settled(d.aimless().moved_to(off, extend), off);
}

/// The view follows a caret that moved just far enough to show its row, and stays where it
/// is while the caret does.
pub proof fn law_the_view_follows_the_caret(d: DocView, row: int, height: int, rows: int)
    requires
        0 <= d.scroll,
        0 <= row < rows,
        height > 0,
    ensures
        d.drawn_caret != Some(d.caret) ==> d.scrolled(row, height, rows) <= row < d.scrolled(
            row,
            height,
            rows,
        ) + height,
        d.scroll <= row < d.scroll + height ==> d.scrolled(row, height, rows) == d.scroll,
        d.drawn_caret == Some(d.caret) && d.scroll < rows ==> d.scrolled(row, height, rows)
            == d.scroll,
        d.scrolled(row, height, rows) < rows,
{
}

/// In a table Tab leads from a cell to the next of its row, and from the last of a row to
/// the first of the next; back the other way.
pub proof fn law_tab_goes_through_the_cells_in_order(
    grid: Seq<Seq<visual::Cell>>,
    row: int,
    col: int,
)
    requires
        0 <= row < grid.len(),
        0 <= col < grid[row].len(),
    ensures
        col + 1 < grid[row].len() ==> motion::neighbour(grid, row, col, true) == Some(
            grid[row][col + 1],
        ),
        col > 0 ==> motion::neighbour(grid, row, col, false) == Some(grid[row][col - 1]),
        col + 1 == grid[row].len() && row + 1 < grid.len() && grid[row + 1].len() > 0
            ==> motion::neighbour(grid, row, col, true) == Some(grid[row + 1][0]),
        col == 0 && row > 0 && grid[row - 1].len() > 0 ==> motion::neighbour(grid, row, col, false)
            == Some(grid[row - 1].last()),
        row + 1 == grid.len() && col + 1 == grid[row].len() ==> motion::neighbour(
            grid,
            row,
            col,
            true,
        ) is None,
        row == 0 && col == 0 ==> motion::neighbour(grid, row, col, false) is None,
{
    motion::lemma_flat_at(grid, row, col);
    assert(motion::flat(grid, row + 1) == motion::flat(grid, row) + grid[row]);
    if col + 1 < grid[row].len() {
        motion::lemma_flat_at(grid, row, col + 1);
    } else if row + 1 < grid.len() && grid[row + 1].len() > 0 {
        motion::lemma_flat_at(grid, row + 1, 0);
    }
    if col > 0 {
        motion::lemma_flat_at(grid, row, col - 1);
    } else if row > 0 && grid[row - 1].len() > 0 {
        motion::lemma_flat_at(grid, row - 1, grid[row - 1].len() - 1);
        assert(motion::flat(grid, row) == motion::flat(grid, row - 1) + grid[row - 1]);
    }
}

/// Up and down in a table stay in the column: the cell of the next row in it, or in a shorter
/// row the last; at the first row and the last there is none.
pub proof fn law_up_and_down_stay_in_the_column(
    grid: Seq<Seq<visual::Cell>>,
    row: int,
    col: int,
)
    requires
        0 <= row < grid.len(),
        0 <= col < grid[row].len(),
    ensures
        row + 1 < grid.len() && col < grid[row + 1].len() ==> motion::cell_beyond(
            grid,
            row,
            col,
            true,
        ) == Some(grid[row + 1][col]),
        row > 0 && col < grid[row - 1].len() ==> motion::cell_beyond(grid, row, col, false) == Some(
            grid[row - 1][col],
        ),
        row + 1 < grid.len() && 0 < grid[row + 1].len() <= col ==> motion::cell_beyond(
            grid,
            row,
            col,
            true,
        ) == Some(grid[row + 1].last()),
        row + 1 == grid.len() ==> motion::cell_beyond(grid, row, col, true) is None,
        row == 0 ==> motion::cell_beyond(grid, row, col, false) is None,
{
}

} // verus!

//! Where motion can lead in the rendered view: to caret stops, to no dead end, and back
//! again.

use vstd::prelude::*;
use crate::doc::DocView;
use crate::modes;
use crate::motion;
use crate::text;
use crate::visual;
use crate::visual::{Cell, MapView, Stop};
use crate::words::Class;

verus! {

/// Whether the caret can stop at an offset.
pub open spec fn stands(stops: Seq<Stop>, off: int) -> bool {
    exists|i: int| 0 <= i < stops.len() && (#[trigger] stops[i]).offset == off
}

/// Whether a stop belongs to a row.
pub open spec fn stands_in(stops: Seq<Stop>, off: int, row: int) -> bool {
    exists|i: int|
        0 <= i < stops.len() && (#[trigger] stops[i]).offset == off && stops[i].row == row
}

/// What the last stop that is not past an offset is.
proof fn lemma_last_upto(stops: Seq<Stop>, off: int)
    ensures
        match visual::last_upto(stops, off) {
            Some(best) => (exists|i: int|
                0 <= i < stops.len() && (#[trigger] stops[i]).offset == best && stops[i].offset <= off)
                && forall|i: int|
                0 <= i < stops.len() && (#[trigger] stops[i]).offset <= off ==> stops[i].offset
                    <= best,
            None => forall|i: int| 0 <= i < stops.len() ==> !((#[trigger] stops[i]).offset <= off),
        },
    decreases stops.len(),
{
    if stops.len() > 0 {
        let head = stops.drop_last();
        lemma_last_upto(head, off);
        assert(forall|i: int| 0 <= i < head.len() ==> head[i] == stops[i]);
        assert(stops.last() == stops[stops.len() - 1]);
        if visual::last_upto(head, off) is Some {
            let b = visual::last_upto(head, off)->0;
            let k = choose|k: int|
                0 <= k < head.len() && (#[trigger] head[k]).offset == b && head[k].offset <= off;
            assert(stops[k].offset == b);
        }
        assert forall|i: int| 0 <= i < stops.len() implies i < head.len() || stops[i]
            == stops.last() by {}
    }
}

/// What the first stop that is not before an offset is.
proof fn lemma_first_from(stops: Seq<Stop>, off: int)
    ensures
        match visual::first_from(stops, off) {
            Some(best) => (exists|i: int|
                0 <= i < stops.len() && (#[trigger] stops[i]).offset == best && stops[i].offset >= off)
                && forall|i: int|
                0 <= i < stops.len() && (#[trigger] stops[i]).offset >= off ==> stops[i].offset
                    >= best,
            None => forall|i: int| 0 <= i < stops.len() ==> !((#[trigger] stops[i]).offset >= off),
        },
    decreases stops.len(),
{
    if stops.len() > 0 {
        let head = stops.drop_last();
        lemma_first_from(head, off);
        assert(forall|i: int| 0 <= i < head.len() ==> head[i] == stops[i]);
        assert(stops.last() == stops[stops.len() - 1]);
        if visual::first_from(head, off) is Some {
            let b = visual::first_from(head, off)->0;
            let k = choose|k: int|
                0 <= k < head.len() && (#[trigger] head[k]).offset == b && head[k].offset >= off;
            assert(stops[k].offset == b);
        }
        assert forall|i: int| 0 <= i < stops.len() implies i < head.len() || stops[i]
            == stops.last() by {}
    }
}

/// What the nearest row above is.
proof fn lemma_row_over(stops: Seq<Stop>, row: int)
    ensures
        match visual::row_over(stops, row) {
            Some(best) => (exists|i: int|
                0 <= i < stops.len() && (#[trigger] stops[i]).row == best && stops[i].row < row)
                && forall|i: int|
                0 <= i < stops.len() && (#[trigger] stops[i]).row < row ==> stops[i].row
                    <= best,
            None => forall|i: int| 0 <= i < stops.len() ==> !((#[trigger] stops[i]).row < row),
        },
    decreases stops.len(),
{
    if stops.len() > 0 {
        let head = stops.drop_last();
        lemma_row_over(head, row);
        assert(forall|i: int| 0 <= i < head.len() ==> head[i] == stops[i]);
        assert(stops.last() == stops[stops.len() - 1]);
        if visual::row_over(head, row) is Some {
            let b = visual::row_over(head, row)->0;
            let k = choose|k: int|
                0 <= k < head.len() && (#[trigger] head[k]).row == b && head[k].row < row;
            assert(stops[k].row == b);
        }
        assert forall|i: int| 0 <= i < stops.len() implies i < head.len() || stops[i]
            == stops.last() by {}
    }
}

/// What the nearest row below is.
proof fn lemma_row_under(stops: Seq<Stop>, row: int)
    ensures
        match visual::row_under(stops, row) {
            Some(best) => (exists|i: int|
                0 <= i < stops.len() && (#[trigger] stops[i]).row == best && stops[i].row > row)
                && forall|i: int|
                0 <= i < stops.len() && (#[trigger] stops[i]).row > row ==> stops[i].row
                    >= best,
            None => forall|i: int| 0 <= i < stops.len() ==> !((#[trigger] stops[i]).row > row),
        },
    decreases stops.len(),
{
    if stops.len() > 0 {
        let head = stops.drop_last();
        lemma_row_under(head, row);
        assert(forall|i: int| 0 <= i < head.len() ==> head[i] == stops[i]);
        assert(stops.last() == stops[stops.len() - 1]);
        if visual::row_under(head, row) is Some {
            let b = visual::row_under(head, row)->0;
            let k = choose|k: int|
                0 <= k < head.len() && (#[trigger] head[k]).row == b && head[k].row > row;
            assert(stops[k].row == b);
        }
        assert forall|i: int| 0 <= i < stops.len() implies i < head.len() || stops[i]
            == stops.last() by {}
    }
}

/// What the first stop of a row is.
proof fn lemma_first_in_row(stops: Seq<Stop>, row: int)
    ensures
        match visual::first_in_row(stops, row) {
            Some(best) => (exists|i: int|
                0 <= i < stops.len() && (#[trigger] stops[i]).offset == best && stops[i].row == row)
                && forall|i: int|
                0 <= i < stops.len() && (#[trigger] stops[i]).row == row ==> stops[i].offset
                    >= best,
            None => forall|i: int| 0 <= i < stops.len() ==> !((#[trigger] stops[i]).row == row),
        },
    decreases stops.len(),
{
    if stops.len() > 0 {
        let head = stops.drop_last();
        lemma_first_in_row(head, row);
        assert(forall|i: int| 0 <= i < head.len() ==> head[i] == stops[i]);
        assert(stops.last() == stops[stops.len() - 1]);
        if visual::first_in_row(head, row) is Some {
            let b = visual::first_in_row(head, row)->0;
            let k = choose|k: int|
                0 <= k < head.len() && (#[trigger] head[k]).offset == b && head[k].row == row;
            assert(stops[k].offset == b);
        }
        assert forall|i: int| 0 <= i < stops.len() implies i < head.len() || stops[i]
            == stops.last() by {}
    }
}

/// What the last stop of a row up to a column is.
proof fn lemma_last_in_row(stops: Seq<Stop>, row: int, col: int)
    ensures
        match visual::last_in_row(stops, row, col) {
            Some(best) => (exists|i: int|
                0 <= i < stops.len() && (#[trigger] stops[i]).offset == best && stops[i].row == row
                    && stops[i].col <= col) && forall|i: int|
                0 <= i < stops.len() && (#[trigger] stops[i]).row == row && stops[i].col <= col
                    ==> stops[i].offset <= best,
            None => forall|i: int|
                0 <= i < stops.len() ==> !((#[trigger] stops[i]).row == row && stops[i].col <= col),
        },
    decreases stops.len(),
{
    if stops.len() > 0 {
        let head = stops.drop_last();
        lemma_last_in_row(head, row, col);
        assert(forall|i: int| 0 <= i < head.len() ==> head[i] == stops[i]);
        assert(stops.last() == stops[stops.len() - 1]);
        if visual::last_in_row(head, row, col) is Some {
            let b = visual::last_in_row(head, row, col)->0;
            let k = choose|k: int|
                0 <= k < head.len() && (#[trigger] head[k]).offset == b && head[k].row == row
                    && head[k].col <= col;
            assert(stops[k].offset == b);
        }
        assert forall|i: int| 0 <= i < stops.len() implies i < head.len() || stops[i]
            == stops.last() by {}
    }
}

/// Where a stop is drawn is where one is listed at that offset, and none is listed behind
/// it there.
proof fn lemma_drawn_at(stops: Seq<Stop>, off: int) -> (k: int)
    requires
        stands(stops, off),
    ensures
        0 <= k < stops.len(),
        stops[k].offset == off,
        visual::drawn_at(stops, off) == Some((stops[k].row as int, stops[k].col as int)),
        forall|j: int| k < j < stops.len() ==> (#[trigger] stops[j]).offset != off,
    decreases stops.len(),
{
    let i = choose|i: int| 0 <= i < stops.len() && (#[trigger] stops[i]).offset == off;
    if stops.last().offset == off {
        stops.len() - 1
    } else {
        let head = stops.drop_last();
        assert(head[i].offset == off);
        let k = lemma_drawn_at(head, off);
        assert forall|j: int| k < j < stops.len() implies (#[trigger] stops[j]).offset != off by {
            if j < head.len() {
                assert(head[j] == stops[j]);
            }
        }
        k
    }
}

/// A stop belongs to itself, and every offset to some stop where there is one.
proof fn lemma_snapped(map: MapView, off: int)
    requires
        map.stops.len() > 0,
    ensures
        stands(map.stops, map.snapped(off)),
        stands(map.stops, off) ==> map.snapped(off) == off,
{
    lemma_last_upto(map.stops, off);
    lemma_first_from(map.stops, off);
    assert(map.stops[0].offset <= off || map.stops[0].offset >= off);
}

/// A place on screen means a stop where there is one, and one of its own row where that
/// has any.
proof fn lemma_offset_at(map: MapView, row: int, col: int)
    requires
        map.stops.len() > 0,
    ensures
        stands(map.stops, map.offset_at(row, col)),
        visual::first_in_row(map.stops, row) is Some ==> stands_in(
            map.stops,
            map.offset_at(row, col),
            row,
        ),
{
    lemma_last_in_row(map.stops, row, col);
    lemma_first_in_row(map.stops, row);
    if visual::last_in_row(map.stops, row, col) is None && visual::first_in_row(map.stops, row)
        is None {
        assert(map.stops[0].row < row || map.stops[0].row == row || map.stops[0].row > row);
        lemma_row_over(map.stops, row);
        lemma_row_under(map.stops, row);
        if let Some(above) = visual::row_over(map.stops, row) {
            lemma_last_in_row(map.stops, above, usize::MAX as int);
        } else if let Some(below) = visual::row_under(map.stops, row) {
            lemma_first_in_row(map.stops, below);
        }
    }
}

/// The ends of a row are stops.
proof fn lemma_row_bounds(d: DocView, row: int)
    requires
        d.map.stops.len() > 0,
    ensures
        stands(d.map.stops, d.row_bounds(row).0),
        stands(d.map.stops, d.row_bounds(row).1),
        d.row_bounds(row).0 <= d.row_bounds(row).1,
{
    let end = d.row_span(row).1;
    lemma_offset_at(d.map, row, d.map.width(row));
    lemma_offset_at(d.map, row, 0);
    lemma_first_in_row(d.map.stops, row);
    visual::lemma_last_before(d.map.stops, end);
}

/// Looking for the first text of a row ends on a stop.
proof fn lemma_first_text(d: DocView, off: int, end: int)
    requires
        d.view == modes::View::Wysiwyg,
        stands(d.map.stops, off),
        stands(d.map.stops, end),
    ensures
        stands(d.map.stops, d.first_text(off, end)),
    decreases
        (if end > off {
            end - off
        } else {
            0
        }),
{
    if off < end && d.class_at(off) == Class::Space {
        visual::lemma_first_after(d.map.stops, off);
        if let Some(next) = visual::first_after(d.map.stops, off) {
            if next > off {
                lemma_first_text(d, next, end);
            }
        }
    }
}

/// A walk over words to the right ends on a stop.
proof fn lemma_glyphs_right(d: DocView, off: int, in_word: bool)
    requires
        stands(d.map.stops, off),
    ensures
        stands(d.map.stops, d.glyphs_right(off, in_word)),
    decreases usize::MAX - off,
{
    let word = d.class_at(off) == Class::Word;
    visual::lemma_first_after(d.map.stops, off);
    if word || !in_word {
        if let Some(next) = visual::first_after(d.map.stops, off) {
            if off < next <= usize::MAX {
                lemma_glyphs_right(d, next, in_word || word);
            }
        }
    }
}

/// A walk over words to the left ends on a stop.
proof fn lemma_glyphs_left(d: DocView, off: int, in_word: bool)
    requires
        stands(d.map.stops, off),
    ensures
        stands(d.map.stops, d.glyphs_left(off, in_word)),
    decreases off,
{
    visual::lemma_last_before(d.map.stops, off);
    if let Some(prev) = visual::last_before(d.map.stops, off) {
        if 0 <= prev < off {
            let word = d.class_at(prev) == Class::Word;
            if word || !in_word {
                lemma_glyphs_left(d, prev, in_word || word);
            }
        }
    }
}

/// Whether the map of a rendered document fits it: it has stops, and the caret can stand
/// at each of them.
pub open spec fn fits(d: DocView) -> bool {
    &&& d.view == modes::View::Wysiwyg
    &&& d.map.stops.len() > 0
    &&& forall|i: int|
        0 <= i < d.map.stops.len() ==> d.settled(
            d.raised((#[trigger] d.map.stops[i]).offset as int),
        ) == d.map.stops[i].offset
}

/// A motion to a stop puts the caret there.
proof fn lemma_moved(d: DocView, to: int, extend: bool)
    requires
        fits(d),
        stands(d.map.stops, to),
    ensures
        d.moved_to(to, extend).caret == to,
        d.aimless().moved_to(to, extend).caret == to,
{
    let i = choose|i: int| 0 <= i < d.map.stops.len() && (#[trigger] d.map.stops[i]).offset == to;
    assert(d.settled(d.raised(d.map.stops[i].offset as int)) == to);
    assert(d.aimless().settled(d.aimless().raised(to)) == d.settled(d.raised(to)));
}

/// Every motion in the rendered view leads from a stop to a stop: a character or a word
/// to either side, a row up or down, to either end of the line and to its text. So does
/// placing the caret at any offset, and a click anywhere.
pub proof fn law_rendered_motion_lands_on_a_stop(
    d: DocView,
    extend: bool,
    offset: int,
    row: int,
    col: int,
)
    requires
        fits(d),
        stands(d.map.stops, d.caret),
    ensures
        stands(d.map.stops, d.moved_to(d.char_left(), extend).caret),
        stands(d.map.stops, d.moved_to(d.char_right(), extend).caret),
        stands(d.map.stops, d.moved_to(d.word_left(d.caret), extend).caret),
        stands(d.map.stops, d.moved_to(d.word_right(d.caret), extend).caret),
        stands(d.map.stops, d.stepped_to(d.row_above(), extend).caret),
        stands(d.map.stops, d.stepped_to(d.row_below(), extend).caret),
        stands(d.map.stops, d.moved_to(d.line_bounds().0, extend).caret),
        stands(d.map.stops, d.moved_to(d.line_bounds().1, extend).caret),
        stands(
            d.map.stops,
            d.moved_to(d.first_text(d.line_bounds().0, d.line_bounds().1), extend).caret,
        ),
        stands(d.map.stops, d.moved_to(d.hit(offset), extend).caret),
        stands(d.map.stops, d.moved_to(d.map.offset_at(row, col), extend).caret),
{
    let stops = d.map.stops;
    visual::lemma_last_before(stops, d.caret);
    visual::lemma_first_after(stops, d.caret);
    lemma_moved(d, d.char_left(), extend);
    lemma_moved(d, d.char_right(), extend);
    lemma_last_upto(stops, d.caret);
    lemma_first_from(stops, d.caret);
    if let Some(stop) = visual::last_upto(stops, d.caret) {
        lemma_glyphs_left(d, stop, false);
    }
    if let Some(stop) = visual::first_from(stops, d.caret) {
        lemma_glyphs_right(d, stop, false);
    }
    lemma_moved(d, d.word_left(d.caret), extend);
    lemma_moved(d, d.word_right(d.caret), extend);
    lemma_vertical(d, extend);
    let at = d.position().0;
    lemma_row_bounds(d, at);
    lemma_first_text(d, d.line_bounds().0, d.line_bounds().1);
    lemma_moved(d, d.line_bounds().0, extend);
    lemma_moved(d, d.line_bounds().1, extend);
    lemma_moved(d, d.first_text(d.line_bounds().0, d.line_bounds().1), extend);
    lemma_snapped(d.map, text::least(offset, d.len()));
    lemma_moved(d, d.hit(offset), extend);
    lemma_offset_at(d.map, row, col);
    lemma_moved(d, d.map.offset_at(row, col), extend);
}

/// The place that a column of a row means is a stop.
proof fn lemma_row_target(d: DocView, row: int, col: int)
    requires
        d.map.stops.len() > 0,
    ensures
        stands(d.map.stops, d.row_target(row, col)),
        d.row_bounds(row).0 <= d.row_target(row, col) <= d.row_bounds(row).1,
{
    lemma_row_bounds(d, row);
    lemma_offset_at(d.map, row, text::least(col, d.map.width(row)));
}

/// Rows up and down are stops.
proof fn lemma_vertical(d: DocView, extend: bool)
    requires
        fits(d),
        stands(d.map.stops, d.caret),
    ensures
        stands(d.map.stops, d.row_above()),
        stands(d.map.stops, d.row_below()),
        d.stepped_to(d.row_above(), extend).caret == d.row_above(),
        d.stepped_to(d.row_below(), extend).caret == d.row_below(),
{
    let stops = d.map.stops;
    let at = d.position().0;
    if let Some(row) = visual::row_over(stops, at) {
        lemma_row_target(d, row, d.goal());
    }
    if let Some(row) = visual::row_under(stops, at) {
        lemma_row_target(d, row, d.goal());
    }
    lemma_first_from(stops, 0);
    lemma_last_upto(stops, d.len());
    let e = DocView { goal_col: Some(d.goal()), ..d };
    assert(fits(e)) by {
        assert forall|i: int| 0 <= i < e.map.stops.len() implies e.settled(
            e.raised((#[trigger] e.map.stops[i]).offset as int),
        ) == e.map.stops[i].offset by {
            assert(d.settled(d.raised(d.map.stops[i].offset as int)) == d.map.stops[i].offset);
        }
    }
    lemma_moved(e, d.row_above(), extend);
    lemma_moved(e, d.row_below(), extend);
}

/// Whether the columns of a map run as the text does: of two stops of a row, the one
/// further on in the text is drawn further right.
pub open spec fn columns_run(stops: Seq<Stop>) -> bool {
    forall|i: int, j: int|
        0 <= i < stops.len() && 0 <= j < stops.len() && (#[trigger] stops[i]).row == (
        #[trigger] stops[j]).row && stops[i].offset < stops[j].offset ==> stops[i].col
            < stops[j].col
}

/// A stop survives the trip out to the screen and back: what is drawn where the caret is
/// means the caret.
pub proof fn law_a_click_on_the_caret_returns_to_it(map: MapView, off: int)
    requires
        columns_run(map.stops),
        stands(map.stops, off),
    ensures
        map.offset_at(map.position(off).0, map.position(off).1) == off,
{
    lemma_snapped(map, off);
    let k = lemma_drawn_at(map.stops, off);
    let s = map.stops[k];
    assert(map.position(off) == (s.row as int, s.col as int));
    lemma_last_in_row(map.stops, s.row as int, s.col as int);
    let best = visual::last_in_row(map.stops, s.row as int, s.col as int)->0;
    let j = choose|j: int|
        0 <= j < map.stops.len() && (#[trigger] map.stops[j]).offset == best && map.stops[j].row
            == s.row && map.stops[j].col <= s.col;
    assert(map.stops[k].offset <= best);
    assert(map.stops[j].offset <= map.stops[k].offset);
}

/// Whether the rows of a map run as the text does: what is drawn on a later row stands no
/// earlier in the text and is listed later, and a row that ends where the next one starts
/// has a stop before that.
pub open spec fn rows_run(stops: Seq<Stop>) -> bool {
    &&& forall|i: int, j: int|
        0 <= i < stops.len() && 0 <= j < stops.len() && (#[trigger] stops[i]).row < (
        #[trigger] stops[j]).row ==> stops[i].offset <= stops[j].offset && i < j
    &&& forall|i: int, j: int|
        0 <= i < stops.len() && 0 <= j < stops.len() && (#[trigger] stops[i]).row < (
        #[trigger] stops[j]).row && stops[i].offset == stops[j].offset ==> exists|k: int|
            0 <= k < stops.len() && (#[trigger] stops[k]).row == stops[i].row && stops[k].offset
                < stops[i].offset
}

/// A step down is no dead end: while there is a row below, the caret is drawn on a later
/// row than before, and from the last row it goes to the last stop of the document.
pub proof fn law_down_is_no_dead_end(d: DocView, extend: bool)
    requires
        fits(d),
        rows_run(d.map.stops),
        stands(d.map.stops, d.caret),
    ensures
        ({
            let e = d.stepped_to(d.row_below(), extend);
            match visual::row_under(d.map.stops, d.position().0) {
                Some(_) => e.position().0 > d.position().0,
                None => forall|i: int|
                    0 <= i < d.map.stops.len() ==> (#[trigger] d.map.stops[i]).offset <= e.caret,
            }
        }),
{
    let stops = d.map.stops;
    let at = d.position().0;
    lemma_vertical(d, extend);
    let to = d.row_below();
    lemma_row_under(stops, at);
    if let Some(row) = visual::row_under(stops, at) {
        let goal = d.goal();
        lemma_row_target(d, row, goal);
        lemma_first_in_row(stops, row);
        let start = d.row_bounds(row).0;
        lemma_row_start(d, row);
        lemma_snapped(d.map, to);
        let k = lemma_drawn_at(stops, to);
        if stops[k].row < row {
            let f = choose|f: int|
                0 <= f < stops.len() && (#[trigger] stops[f]).offset == start && stops[f].row
                    == row;
            assert(stops[k].offset <= stops[f].offset);
            assert(to == start);
            assert(k < f);
            assert(false);
        }
    } else {
        lemma_last_upto(stops, d.len());
        lemma_stops_in_text(d);
    }
}

/// Stops stand in the text.
proof fn lemma_stops_in_text(d: DocView)
    requires
        fits(d),
    ensures
        forall|i: int| 0 <= i < d.map.stops.len() ==> (#[trigger] d.map.stops[i]).offset <= d.len(),
{
    assert forall|i: int| 0 <= i < d.map.stops.len() implies (#[trigger] d.map.stops[i]).offset
        <= d.len() by {
        assert(d.settled(d.raised(d.map.stops[i].offset as int)) == d.map.stops[i].offset);
        text::lemma_floor_boundary(
            d.source,
            text::least(d.raised(d.map.stops[i].offset as int), d.len()),
        );
    }
}

/// A row with stops starts at its first one.
proof fn lemma_row_start(d: DocView, row: int)
    requires
        d.map.stops.len() > 0,
        visual::first_in_row(d.map.stops, row) is Some,
    ensures
        d.row_bounds(row).0 == visual::first_in_row(d.map.stops, row)->0,
        stands_in(d.map.stops, d.row_bounds(row).0, row),
        stands_in(d.map.stops, d.row_span(row).1, row),
{
    lemma_first_in_row(d.map.stops, row);
    lemma_offset_at(d.map, row, d.map.width(row));
    let end = d.row_span(row).1;
    let j = choose|j: int|
        0 <= j < d.map.stops.len() && (#[trigger] d.map.stops[j]).offset == end
            && d.map.stops[j].row == row;
    assert(d.map.stops[j].offset >= visual::first_in_row(d.map.stops, row)->0);
}

/// A step up is no dead end: while there is a row above, the caret is drawn on an earlier
/// row than before, and from the first row it goes to the first stop of the document.
pub proof fn law_up_is_no_dead_end(d: DocView, extend: bool)
    requires
        fits(d),
        rows_run(d.map.stops),
        stands(d.map.stops, d.caret),
    ensures
        ({
            let e = d.stepped_to(d.row_above(), extend);
            match visual::row_over(d.map.stops, d.position().0) {
                Some(_) => e.position().0 < d.position().0,
                None => forall|i: int|
                    0 <= i < d.map.stops.len() ==> (#[trigger] d.map.stops[i]).offset >= e.caret,
            }
        }),
{
    let stops = d.map.stops;
    let at = d.position().0;
    lemma_vertical(d, extend);
    let to = d.row_above();
    lemma_row_over(stops, at);
    if let Some(row) = visual::row_over(stops, at) {
        lemma_row_target(d, row, d.goal());
        lemma_first_in_row(stops, row);
        lemma_row_start(d, row);
        lemma_snapped(d.map, to);
        let k = lemma_drawn_at(stops, to);
        lemma_shared(d, row, to, k);
    } else {
        lemma_first_from(stops, 0);
    }
}

/// What the caret can stand at on a row is drawn on no later one.
proof fn lemma_shared(d: DocView, row: int, to: int, k: int)
    requires
        d.map.stops.len() > 0,
        rows_run(d.map.stops),
        visual::first_in_row(d.map.stops, row) is Some,
        d.row_bounds(row).0 <= to <= d.row_bounds(row).1,
        0 <= k < d.map.stops.len(),
        d.map.stops[k].offset == to,
    ensures
        d.map.stops[k].row <= row,
{
    if d.map.stops[k].row > row {
        let stops = d.map.stops;
        let start = d.row_bounds(row).0;
        let end = d.row_span(row).1;
        lemma_row_start(d, row);
        lemma_first_in_row(stops, row);
        let e = choose|e: int|
            0 <= e < stops.len() && (#[trigger] stops[e]).offset == end && stops[e].row == row;
        assert(stops[e].offset <= stops[k].offset);
        lemma_row_under(stops, row);
        let below = visual::row_under(stops, row)->0;
        lemma_first_in_row(stops, below);
        let b = choose|b: int| 0 <= b < stops.len() && (#[trigger] stops[b]).row == below;
        let f = visual::first_in_row(stops, below)->0;
        let g = choose|g: int|
            0 <= g < stops.len() && (#[trigger] stops[g]).offset == f && stops[g].row == below;
        assert(stops[e].offset <= stops[g].offset);
        if stops[k].row == below {
            assert(stops[k].offset >= f);
        } else {
            assert(stops[k].row >= below);
            assert(stops[g].offset <= stops[k].offset);
        }
        visual::lemma_last_before(stops, end);
        assert(to <= end || d.row_bounds(row).1 <= start);
        // The shared place belongs to the row below, and the row has a stop before it.
        assert(to == end);
        assert(f == end);
        let h = choose|h: int|
            0 <= h < stops.len() && (#[trigger] stops[h]).row == stops[e].row && stops[h].offset
                < stops[e].offset;
        assert(stops[h].offset >= start);
    }
}

/// Whether a place of a table is a cell.
pub open spec fn is_cell(tables: Seq<Seq<Seq<Cell>>>, at: (int, int, int)) -> bool {
    &&& 0 <= at.0 < tables.len()
    &&& 0 <= at.1 < tables[at.0].len()
    &&& 0 <= at.2 < tables[at.0][at.1].len()
}

/// The cell at a place of a table.
pub open spec fn cell_of(tables: Seq<Seq<Seq<Cell>>>, at: (int, int, int)) -> Cell {
    tables[at.0][at.1][at.2]
}

/// Whether a cell holds an offset.
pub open spec fn holds(cell: Cell, off: int) -> bool {
    cell.start <= off <= cell.end
}

/// Whether cells stand apart: no offset belongs to two of them.
pub open spec fn apart(tables: Seq<Seq<Seq<Cell>>>) -> bool {
    forall|a: (int, int, int), b: (int, int, int), off: int|
        is_cell(tables, a) && is_cell(tables, b) && #[trigger] holds(cell_of(tables, a), off)
            && #[trigger] holds(cell_of(tables, b), off) ==> a == b
}

/// What looking through a row finds holds the offset, and where nothing is found nothing
/// does.
proof fn lemma_cell_at(row: Seq<Cell>, off: int, from: int)
    requires
        0 <= from,
    ensures
        match visual::cell_at(row, off, from) {
            Some(c) => from <= c < row.len() && holds(row[c], off),
            None => forall|c: int| from <= c < row.len() ==> !holds(#[trigger] row[c], off),
        },
    decreases row.len() - from,
{
    if from < row.len() && !holds(row[from], off) {
        lemma_cell_at(row, off, from + 1);
    }
}

/// The same for a table.
proof fn lemma_grid_at(grid: Seq<Seq<Cell>>, off: int, from: int)
    requires
        0 <= from,
    ensures
        match visual::grid_at(grid, off, from) {
            Some((r, c)) => from <= r < grid.len() && 0 <= c < grid[r].len() && holds(
                grid[r][c],
                off,
            ),
            None => forall|r: int, c: int|
                from <= r < grid.len() && 0 <= c < grid[r].len() ==> !holds(
                    #[trigger] grid[r][c],
                    off,
                ),
        },
    decreases grid.len() - from,
{
    if from < grid.len() {
        lemma_cell_at(grid[from], off, 0);
        if visual::cell_at(grid[from], off, 0) is None {
            lemma_grid_at(grid, off, from + 1);
        }
    }
}

/// The same for all tables.
proof fn lemma_table_at(tables: Seq<Seq<Seq<Cell>>>, off: int, from: int)
    requires
        0 <= from,
    ensures
        match visual::table_at(tables, off, from) {
            Some(at) => from <= at.0 && is_cell(tables, at) && holds(cell_of(tables, at), off),
            None => forall|at: (int, int, int)|
                from <= at.0 && is_cell(tables, at) ==> !#[trigger] holds(cell_of(tables, at), off),
        },
    decreases tables.len() - from,
{
    if from < tables.len() {
        lemma_grid_at(tables[from], off, 0);
        if visual::grid_at(tables[from], off, 0) is None {
            lemma_table_at(tables, off, from + 1);
            if visual::table_at(tables, off, from + 1) is None {
                assert forall|at: (int, int, int)| from <= at.0 && is_cell(tables, at) implies
                    !#[trigger] holds(cell_of(tables, at), off) by {
                    if at.0 == from {
                        assert(!holds(tables[from][at.1][at.2], off));
                    }
                }
            }
        }
    }
}

/// Each cell of the list of all cells stands at some place of the table.
proof fn lemma_place(grid: Seq<Seq<Cell>>, rows: int, j: int) -> (at: (int, int))
    requires
        0 <= rows <= grid.len(),
        0 <= j < motion::flat(grid, rows).len(),
    ensures
        0 <= at.0 < rows,
        0 <= at.1 < grid[at.0].len(),
        motion::flat(grid, at.0).len() + at.1 == j,
        motion::flat(grid, rows)[j] == grid[at.0][at.1],
    decreases rows,
{
    let before = motion::flat(grid, rows - 1).len();
    if j >= before {
        (rows - 1, j - before)
    } else {
        lemma_place(grid, rows - 1, j)
    }
}

/// A cell that Tab reaches gives way to the one it came from: going on to the next cell
/// and back selects the cell that the caret was in, and so does going back and on.
pub proof fn law_tab_walks_back(d: DocView, forward: bool)
    requires
        apart(d.map.tables),
        visual::table_at(d.map.tables, d.caret, 0) is Some,
        d.hop(forward) matches Some(cell) ==> cell.start <= cell.end && d.settled(
            d.raised(cell.end as int),
        ) == cell.end,
    ensures
        ({
            let at = visual::table_at(d.map.tables, d.caret, 0)->0;
            d.hop(forward) matches Some(cell) ==> d.with_cell(cell).hop(!forward) == Some(
                cell_of(d.map.tables, at),
            )
        }),
{
    let tables = d.map.tables;
    lemma_table_at(tables, d.caret, 0);
    let at = visual::table_at(tables, d.caret, 0)->0;
    let grid = tables[at.0];
    let all = motion::flat(grid, grid.len() as int);
    let i = motion::flat(grid, at.1).len() + at.2;
    motion::lemma_flat_at(grid, at.1, at.2);
    if let Some(cell) = d.hop(forward) {
        let j = if forward {
            i + 1
        } else {
            i - 1
        };
        let (r, c) = lemma_place(grid, grid.len() as int, j);
        let there = (at.0, r, c);
        assert(is_cell(tables, there) && cell_of(tables, there) == cell);
        let e = d.with_cell(cell);
        assert(e.caret == cell.end);
        lemma_table_at(tables, e.caret, 0);
        assert(holds(cell_of(tables, there), e.caret));
        let found = visual::table_at(tables, e.caret, 0)->0;
        assert(holds(cell_of(tables, found), e.caret));
        assert(found == there);
        assert(all[i] == cell_of(tables, at));
    }
}

} // verus!

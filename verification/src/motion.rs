//! Moving the caret and selecting.

use vstd::prelude::*;
use vstd::utf8::*;
use crate::doc;
use crate::doc::{Doc, DocView};
use crate::editor;
use crate::editor::AncestorView;
use crate::lines;
use crate::modes;
use crate::node::Kind;
use crate::text;
use crate::visual;
use crate::visual::Cell;
use crate::words;
use crate::words::Class;

verus! {

/// The cells of the first rows of a table, one after the other.
pub open spec fn flat(grid: Seq<Seq<Cell>>, rows: int) -> Seq<Cell>
    decreases rows,
{
    if rows <= 0 {
        Seq::empty()
    } else {
        flat(grid, rows - 1) + grid[rows - 1]
    }
}

/// The cell that follows or precedes one, row by row.
pub open spec fn neighbour(grid: Seq<Seq<Cell>>, row: int, col: int, forward: bool) -> Option<Cell> {
    let cells = flat(grid, grid.len() as int);
    let i = flat(grid, row).len() + col;
    let j = if forward {
        i + 1
    } else {
        i - 1
    };
    if 0 <= j < cells.len() {
        Some(cells[j])
    } else {
        None
    }
}

/// The cell above or below one: the one in its column, or in a shorter row the last.
pub open spec fn cell_beyond(grid: Seq<Seq<Cell>>, row: int, col: int, down: bool) -> Option<Cell> {
    let to = if down {
        row + 1
    } else {
        row - 1
    };
    if !(0 <= to < grid.len()) || grid[to].len() == 0 {
        None
    } else if col < grid[to].len() {
        Some(grid[to][col])
    } else {
        Some(grid[to].last())
    }
}

/// The innermost node of a chain that is a block and no mere container of blocks.
pub open spec fn inner_block(chain: Seq<AncestorView>) -> Option<AncestorView>
    decreases chain.len(),
{
    if chain.len() == 0 {
        None
    } else {
        let kind = Kind::named(chain.last().name);
        if !kind.inline() && !kind.contains_blocks() {
            Some(chain.last())
        } else {
            inner_block(chain.drop_last())
        }
    }
}

impl DocView {
    /// The caret at a place, with the selection stretched to it or dropped.
    pub open spec fn moved_to(self, off: int, extend: bool) -> DocView {
        DocView {
            caret: self.settled(self.raised(off)),
            anchor: if !extend {
                None
            } else if self.anchor is None {
                Some(self.caret)
            } else {
                self.anchor
            },
            status: None,
            last_edit: None,
            ..self
        }.unarmed()
    }

    /// The same without the column that vertical motion aims for.
    pub open spec fn aimless(self) -> DocView {
        DocView { goal_col: None, ..self }
    }

    /// The class of the character at an offset; white space where there is none.
    pub open spec fn class_at(self, off: int) -> Class {
        if text::boundary(self.source, off) && off < self.len() {
            words::class_of(text::slice(self.source, off, self.len())[0])
        } else {
            Class::Space
        }
    }

    /// From a stop to the end of the word that it is in or that follows it, over stops.
    pub open spec fn glyphs_right(self, off: int, in_word: bool) -> int
        decreases usize::MAX - off,
    {
        let word = self.class_at(off) == Class::Word;
        if !word && in_word {
            off
        } else {
            match visual::first_after(self.map.stops, off) {
                Some(next) => if off < next <= usize::MAX {
                    self.glyphs_right(next, in_word || word)
                } else {
                    off
                },
                None => off,
            }
        }
    }

    /// From a stop to the start of the word before it, over stops.
    pub open spec fn glyphs_left(self, off: int, in_word: bool) -> int
        decreases off,
    {
        match visual::last_before(self.map.stops, off) {
            Some(prev) => if 0 <= prev < off {
                let word = self.class_at(prev) == Class::Word;
                if !word && in_word {
                    off
                } else {
                    self.glyphs_left(prev, in_word || word)
                }
            } else {
                off
            },
            None => off,
        }
    }

    /// The place a word to the left.
    pub open spec fn word_left(self, off: int) -> int {
        match self.view {
            modes::View::Source => words::word_left(self.source, off),
            modes::View::Wysiwyg => match visual::last_upto(self.map.stops, off) {
                Some(stop) => self.glyphs_left(stop, false),
                None => off,
            },
        }
    }

    /// The place a word to the right.
    pub open spec fn word_right(self, off: int) -> int {
        match self.view {
            modes::View::Source => words::word_right(self.source, off),
            modes::View::Wysiwyg => match visual::first_from(self.map.stops, off) {
                Some(stop) => self.glyphs_right(stop, false),
                None => off,
            },
        }
    }

    /// The place a character to the left of the caret.
    pub open spec fn char_left(self) -> int {
        match self.view {
            modes::View::Source => if self.caret > 0 {
                lines::step_left(self.source, self.caret)
            } else {
                0
            },
            modes::View::Wysiwyg => match visual::last_before(self.map.stops, self.caret) {
                Some(stop) => stop,
                None => self.caret,
            },
        }
    }

    /// The place a character to the right of the caret.
    pub open spec fn char_right(self) -> int {
        match self.view {
            modes::View::Source => if self.caret < self.len() {
                lines::step_right(self.source, self.caret)
            } else {
                self.caret
            },
            modes::View::Wysiwyg => match visual::first_after(self.map.stops, self.caret) {
                Some(stop) => stop,
                None => self.caret,
            },
        }
    }

    /// The row and the display column of the caret.
    pub open spec fn position(self) -> (int, int) {
        match self.view {
            modes::View::Source => {
                let b = encode_utf8(self.source);
                (
                    lines::newlines(b, self.caret) as int,
                    text::least(lines::column_of(self.source, self.caret), usize::MAX as int),
                )
            },
            modes::View::Wysiwyg => self.map.position(self.caret),
        }
    }

    /// The column that vertical motion aims for.
    pub open spec fn goal(self) -> int {
        match self.goal_col {
            Some(col) => col,
            None => self.position().1,
        }
    }

    /// The offset of a display column in a line of the source.
    pub open spec fn line_column(self, row: int, col: int) -> int {
        let b = encode_utf8(self.source);
        let start = lines::row_start(b, row as nat, 0);
        lines::column_walk(self.source, start, lines::eol(b, start), col)
    }

    /// The range that a rendered row spans.
    pub open spec fn row_span(self, row: int) -> (int, int) {
        let end = self.map.offset_at(row, self.map.width(row));
        let start = match visual::first_in_row(self.map.stops, row) {
            Some(stop) => stop,
            None => self.map.offset_at(row, 0),
        };
        (text::least(start, end), end)
    }

    /// The range that the caret can stand in on a rendered row: where the text runs on
    /// into the next row, the shared place belongs to that one.
    pub open spec fn row_bounds(self, row: int) -> (int, int) {
        let (start, end) = self.row_span(row);
        let wraps = match visual::row_under(self.map.stops, row) {
            Some(below) => visual::first_in_row(self.map.stops, below) == Some(end),
            None => false,
        };
        let last = match visual::last_before(self.map.stops, end) {
            Some(stop) => stop,
            None => end,
        };
        (
            start,
            if !wraps {
                end
            } else if last > start {
                last
            } else {
                start
            },
        )
    }

    /// The offset of a display column in a rendered row.
    pub open spec fn row_target(self, row: int, col: int) -> int {
        let (start, end) = self.row_bounds(row);
        let at = self.map.offset_at(row, text::least(col, self.map.width(row)));
        if at < start {
            start
        } else if at > end {
            end
        } else {
            at
        }
    }

    /// The first place of the document that the caret can reach.
    pub open spec fn reachable_start(self) -> int {
        match self.view {
            modes::View::Source => 0,
            modes::View::Wysiwyg => match visual::first_from(self.map.stops, 0) {
                Some(stop) => stop,
                None => self.caret,
            },
        }
    }

    /// The last place of the document that the caret can reach.
    pub open spec fn reachable_end(self) -> int {
        match self.view {
            modes::View::Source => self.len(),
            modes::View::Wysiwyg => match visual::last_upto(self.map.stops, self.len()) {
                Some(stop) => stop,
                None => self.caret,
            },
        }
    }

    /// The place a row above the caret.
    pub open spec fn row_above(self) -> int {
        match self.view {
            modes::View::Source => if self.position().0 > 0 {
                self.line_column(self.position().0 - 1, self.goal())
            } else {
                self.reachable_start()
            },
            modes::View::Wysiwyg => match visual::row_over(self.map.stops, self.position().0) {
                Some(row) => self.row_target(row, self.goal()),
                None => self.reachable_start(),
            },
        }
    }

    /// The place a row below the caret.
    pub open spec fn row_below(self) -> int {
        match self.view {
            modes::View::Source => if self.position().0 < lines::newlines(
                encode_utf8(self.source),
                self.len(),
            ) {
                self.line_column(self.position().0 + 1, self.goal())
            } else {
                self.reachable_end()
            },
            modes::View::Wysiwyg => match visual::row_under(self.map.stops, self.position().0) {
                Some(row) => self.row_target(row, self.goal()),
                None => self.reachable_end(),
            },
        }
    }

    /// A vertical step: it keeps the column it aims for, and where it leads nowhere
    /// nothing changes.
    pub open spec fn stepped_to(self, to: int, extend: bool) -> DocView {
        if to == self.caret {
            self
        } else {
            DocView { goal_col: Some(self.goal()), ..self }.moved_to(to, extend)
        }
    }

    /// The range of the caret's line that the caret can stand in.
    pub open spec fn line_bounds(self) -> (int, int) {
        match self.view {
            modes::View::Source => {
                let b = encode_utf8(self.source);
                let start = lines::row_start(b, self.position().0 as nat, 0);
                (start, lines::eol(b, start))
            },
            modes::View::Wysiwyg => self.row_bounds(self.position().0),
        }
    }

    /// The range of the caret's line.
    pub open spec fn line_span(self) -> (int, int) {
        match self.view {
            modes::View::Source => self.line_bounds(),
            modes::View::Wysiwyg => self.row_span(self.position().0),
        }
    }

    /// The first place from `off` to `end` with something other than white space.
    pub open spec fn first_text(self, off: int, end: int) -> int
        decreases
            (if end > off {
                end - off
            } else {
                0
            }),
    {
        if off >= end {
            end
        } else if self.class_at(off) != Class::Space {
            off
        } else {
            match self.view {
                modes::View::Source => {
                    let next = lines::step_right(self.source, off);
                    if next > off {
                        self.first_text(next, end)
                    } else {
                        end
                    }
                },
                modes::View::Wysiwyg => match visual::first_after(self.map.stops, off) {
                    Some(next) => if next > off {
                        self.first_text(next, end)
                    } else {
                        end
                    },
                    None => end,
                },
            }
        }
    }

    /// The place that a click means.
    pub open spec fn hit(self, off: int) -> int {
        match self.view {
            modes::View::Wysiwyg => self.map.snapped(text::least(off, self.len())),
            modes::View::Source => self.settled(off),
        }
    }

    /// The document with a range selected, its end the caret.
    pub open spec fn with_range(self, start: int, end: int) -> DocView {
        DocView {
            anchor: Some(self.settled(start)),
            caret: self.settled(end),
            goal_col: None,
            last_edit: None,
            status: None,
            ..self
        }
    }

    /// The range of the block at an offset: its content, or else all of it, or else the
    /// line.
    pub open spec fn block_range(self, off: int) -> (int, int) {
        let at = text::least(off, self.len());
        let b = encode_utf8(self.source);
        let line = (lines::bol(b, at), lines::eol(b, at));
        match inner_block(self.chain(at)) {
            None => line,
            Some(m) => match m.content {
                Some(c) => (c.start as int, c.end as int),
                None => (m.span.start as int, m.span.end as int),
            },
        }
    }

    /// The caret a character to the left; a selection is dropped at its start.
    pub open spec fn went_left(self, extend: bool) -> DocView {
        match self.selected() {
            Some((s, _)) => if extend {
                self.aimless().moved_to(self.char_left(), true)
            } else {
                self.aimless().moved_to(s, false)
            },
            None => self.aimless().moved_to(self.char_left(), extend),
        }
    }

    /// The caret a character to the right; a selection is dropped at its end.
    pub open spec fn went_right(self, extend: bool) -> DocView {
        match self.selected() {
            Some((_, e)) => if extend {
                self.aimless().moved_to(self.char_right(), true)
            } else {
                self.aimless().moved_to(e, false)
            },
            None => self.aimless().moved_to(self.char_right(), extend),
        }
    }

    /// The caret a word to the left.
    pub open spec fn went_word_left(self, extend: bool) -> DocView {
        self.aimless().moved_to(self.word_left(self.caret), extend)
    }

    /// The caret a word to the right.
    pub open spec fn went_word_right(self, extend: bool) -> DocView {
        self.aimless().moved_to(self.word_right(self.caret), extend)
    }

    /// The caret a row up.
    pub open spec fn went_up(self, extend: bool) -> DocView {
        self.stepped_to(self.row_above(), extend)
    }

    /// The caret a row down.
    pub open spec fn went_down(self, extend: bool) -> DocView {
        self.stepped_to(self.row_below(), extend)
    }

    /// The caret at the first text of its line, or where it is there at the line's start.
    pub open spec fn went_home(self, extend: bool) -> DocView {
        let (start, end) = self.line_bounds();
        let first = self.first_text(start, end);
        self.aimless().moved_to(
            if self.caret == first {
                start
            } else {
                first
            },
            extend,
        )
    }

    /// The caret at its line's end.
    pub open spec fn went_end(self, extend: bool) -> DocView {
        self.aimless().moved_to(self.line_bounds().1, extend)
    }

    /// The caret at the start of the document.
    pub open spec fn went_to_start(self, extend: bool) -> DocView {
        self.aimless().moved_to(0, extend)
    }

    /// The caret at the end of the document.
    pub open spec fn went_to_end(self, extend: bool) -> DocView {
        self.aimless().moved_to(self.len(), extend)
    }

    /// The caret at the place on screen that was clicked.
    pub open spec fn clicked(self, row: int, col: int, extend: bool) -> DocView {
        self.aimless().moved_to(
            match self.view {
                modes::View::Source => self.line_column(row, col),
                modes::View::Wysiwyg => self.map.offset_at(row, col),
            },
            extend,
        )
    }

    /// The caret at the place that an offset means.
    pub open spec fn placed(self, off: int, extend: bool) -> DocView {
        self.aimless().moved_to(self.hit(off), extend).clamped()
    }

    /// All of the document selected that the caret can reach.
    pub open spec fn all_selected(self) -> DocView {
        self.with_range(self.floor(), self.len())
    }

    /// The word around an offset selected.
    pub open spec fn word_selected(self, off: int) -> DocView {
        let (s, e) = words::word_around(self.source, self.settled(off));
        self.with_range(s, e).clamped()
    }

    /// The block around an offset selected.
    pub open spec fn block_selected(self, off: int) -> DocView {
        let (s, e) = self.block_range(off);
        self.with_range(s, e).clamped()
    }

    /// The document with a cell selected.
    pub open spec fn with_cell(self, cell: Cell) -> DocView {
        DocView {
            anchor: Some(self.settled(self.raised(cell.start as int))),
            caret: self.settled(self.raised(cell.end as int)),
            goal_col: None,
            status: None,
            last_edit: None,
            ..self
        }.unarmed()
    }

    /// The cell that a hop from the caret leads to.
    pub open spec fn hop(self, forward: bool) -> Option<Cell> {
        match visual::table_at(self.map.tables, self.caret, 0) {
            Some((t, row, col)) => neighbour(self.map.tables[t], row, col, forward),
            None => None,
        }
    }

    /// The cell that a step up or down from the caret leads to.
    pub open spec fn hop_vertical(self, down: bool) -> Option<Cell> {
        match visual::table_at(self.map.tables, self.caret, 0) {
            Some((t, row, col)) => cell_beyond(self.map.tables[t], row, col, down),
            None => None,
        }
    }

    /// How far the view is scrolled once it follows a caret that moved, and no further
    /// than the last row.
    pub open spec fn scrolled(self, row: int, height: int, rows: int) -> int {
        let followed = if self.drawn_caret == Some(self.caret) {
            self.scroll
        } else if row < self.scroll {
            row
        } else if height > 0 && row >= self.scroll + height {
            row + 1 - height
        } else {
            self.scroll
        };
        let last = if rows > 0 {
            rows - 1
        } else {
            0
        };
        text::least(followed, last)
    }
}

/// A place moved to is a valid one.
proof fn lemma_moved_valid(d: DocView, off: int, extend: bool)
    requires
        d.valid(),
        0 <= off,
    ensures
        d.moved_to(off, extend).valid(),
{
    doc::lemma_settled(d, d.raised(off));
}

/// A selected range is a valid one.
proof fn lemma_range_valid(d: DocView, start: int, end: int)
    requires
        d.valid(),
        0 <= start,
        0 <= end,
    ensures
        d.with_range(start, end).valid(),
        d.with_range(start, end).clamped().valid(),
{
    doc::lemma_settled(d, start);
    doc::lemma_settled(d, end);
    doc::lemma_clamped_valid(d.with_range(start, end));
}

/// How many cells the first rows of a table have grows by the rows.
proof fn lemma_flat(grid: Seq<Seq<Cell>>, rows: int, all: int)
    requires
        0 <= rows <= all <= grid.len(),
    ensures
        flat(grid, rows).len() <= flat(grid, all).len(),
        forall|k: int| 0 <= k < flat(grid, rows).len() ==> flat(grid, all)[k] == flat(grid, rows)[k],
    decreases all,
{
    if rows < all {
        lemma_flat(grid, rows, all - 1);
    }
}

/// The cells of a table, one after the other, hold the cells of each row in its place.
pub proof fn lemma_flat_at(grid: Seq<Seq<Cell>>, row: int, col: int)
    requires
        0 <= row < grid.len(),
        0 <= col < grid[row].len(),
    ensures
        flat(grid, row).len() + col < flat(grid, grid.len() as int).len(),
        flat(grid, grid.len() as int)[flat(grid, row).len() + col] == grid[row][col],
{
    lemma_flat(grid, row + 1, grid.len() as int);
    assert(flat(grid, row + 1) == flat(grid, row) + grid[row]);
}

impl Doc {
    /// Put the caret at a place, with the selection stretched to it or dropped.
    pub(crate) fn move_to(&mut self, off: usize, extend: bool)
        requires
            old(self).wf(),
        ensures
            final(self)@ == old(self)@.moved_to(off as int, extend),
            final(self).wf(),
            final(self).editor == old(self).editor,
    {
        proof {
            lemma_moved_valid(self@, off as int, extend);
        }
        if extend {
            if self.anchor.is_none() {
                self.anchor = Some(self.caret);
            }
        } else {
            self.anchor = None;
        }
        let to = self.raise(off);
        self.caret = self.settle(to);
        self.status = None;
        self.last_edit_kind = None;
        self.clear_pending();
    }

    /// The class of the character at an offset.
    fn class_at(&self, off: usize) -> (r: Class)
        ensures
            r == self@.class_at(off as int),
    {
        let len = text::len(self.source.as_str());
        if off < len && self.source.as_str().is_char_boundary(off) {
            proof {
                text::lemma_boundary_ends(self@.source);
                text::lemma_slice(self@.source, off as int, len as int);
                text::lemma_empty(text::slice(self@.source, off as int, len as int));
            }
            let rest = text::chars_of(text::substr(self.source.as_str(), off, len));
            words::classify(rest[0])
        } else {
            Class::Space
        }
    }

    /// The place a word to the left.
    pub(crate) fn word_left_from(&self, off: usize) -> (r: usize)
        requires
            off <= self@.len(),
            text::boundary(self@.source, off as int),
        ensures
            r == self@.word_left(off as int),
    {
        match self.view {
            modes::View::Source => words::prev_word(self.source.as_str(), off),
            modes::View::Wysiwyg => match self.vmap.stop_at_or_before(off) {
                Some(stop) => self.glyph_word_left(stop),
                None => off,
            },
        }
    }

    /// From a stop to the start of the word before it, over stops.
    fn glyph_word_left(&self, from: usize) -> (r: usize)
        ensures
            r == self@.glyphs_left(from as int, false),
    {
        let mut off: usize = from;
        let mut in_word = false;
        let mut prev = self.vmap.stop_before(off);
        while prev.is_some()
            invariant
                match prev {
                    Some(p) => visual::last_before(self@.map.stops, off as int) == Some(p as int),
                    None => visual::last_before(self@.map.stops, off as int) is None,
                },
                self@.glyphs_left(from as int, false) == self@.glyphs_left(off as int, in_word),
            decreases off,
        {
            if let Some(p) = prev {
                if p >= off {
                    return off;
                }
                let word = self.class_at(p) == Class::Word;
                if !word && in_word {
                    return off;
                }
                in_word = in_word || word;
                off = p;
                prev = self.vmap.stop_before(off);
            }
        }
        off
    }

    /// The place a word to the right.
    pub(crate) fn word_right_from(&self, off: usize) -> (r: usize)
        requires
            off <= self@.len(),
            text::boundary(self@.source, off as int),
        ensures
            r == self@.word_right(off as int),
    {
        match self.view {
            modes::View::Source => words::next_word(self.source.as_str(), off),
            modes::View::Wysiwyg => match self.vmap.stop_at_or_after(off) {
                Some(stop) => self.glyph_word_right(stop),
                None => off,
            },
        }
    }

    /// From a stop to the end of the word that it is in or that follows it, over stops.
    fn glyph_word_right(&self, from: usize) -> (r: usize)
        ensures
            r == self@.glyphs_right(from as int, false),
    {
        let mut off: usize = from;
        let mut in_word = false;
        loop
            invariant
                self@.glyphs_right(from as int, false) == self@.glyphs_right(off as int, in_word),
            decreases usize::MAX - off,
        {
            let word = self.class_at(off) == Class::Word;
            if !word && in_word {
                return off;
            }
            match self.vmap.stop_after(off) {
                Some(next) => {
                    if next <= off {
                        return off;
                    }
                    in_word = in_word || word;
                    off = next;
                },
                None => {
                    return off;
                },
            }
        }
    }

    /// Move the caret a character to the left, or to the start of what is selected.
    pub fn move_left(&mut self, extend: bool)
        requires
            old(self).wf(),
        ensures
            final(self)@ == old(self)@.went_left(extend),
            final(self).wf(),
            final(self).editor == old(self).editor,
    {
        self.goal_col = None;
        if !extend {
            if let Some((s, _)) = self.selection() {
                self.move_to(s, false);
                return;
            }
        }
        let to: usize = match self.view {
            modes::View::Source => if self.caret > 0 {
                lines::prev_boundary(self.source.as_str(), self.caret)
            } else {
                0
            },
            modes::View::Wysiwyg => match self.vmap.stop_before(self.caret) {
                Some(stop) => stop,
                None => self.caret,
            },
        };
        self.move_to(to, extend);
    }

    /// Move the caret a character to the right, or to the end of what is selected.
    pub fn move_right(&mut self, extend: bool)
        requires
            old(self).wf(),
        ensures
            final(self)@ == old(self)@.went_right(extend),
            final(self).wf(),
            final(self).editor == old(self).editor,
    {
        self.goal_col = None;
        if !extend {
            if let Some((_, e)) = self.selection() {
                self.move_to(e, false);
                return;
            }
        }
        let to: usize = match self.view {
            modes::View::Source => if self.caret < text::len(self.source.as_str()) {
                lines::next_boundary(self.source.as_str(), self.caret)
            } else {
                self.caret
            },
            modes::View::Wysiwyg => match self.vmap.stop_after(self.caret) {
                Some(stop) => stop,
                None => self.caret,
            },
        };
        self.move_to(to, extend);
    }

    /// Move the caret a word to the left.
    pub fn move_word_left(&mut self, extend: bool)
        requires
            old(self).wf(),
        ensures
            final(self)@ == old(self)@.went_word_left(extend),
            final(self).wf(),
            final(self).editor == old(self).editor,
    {
        let to = self.word_left_from(self.caret);
        self.goal_col = None;
        self.move_to(to, extend);
    }

    /// Move the caret a word to the right.
    pub fn move_word_right(&mut self, extend: bool)
        requires
            old(self).wf(),
        ensures
            final(self)@ == old(self)@.went_word_right(extend),
            final(self).wf(),
            final(self).editor == old(self).editor,
    {
        let to = self.word_right_from(self.caret);
        self.goal_col = None;
        self.move_to(to, extend);
    }

    /// The row and the display column of the caret in the active view.
    pub fn caret_pos(&self) -> (r: (usize, usize))
        requires
            self.wf(),
        ensures
            (r.0 as int, r.1 as int) == self@.position(),
    {
        match self.view {
            modes::View::Source => lines::offset_to_row_col(self.source.as_str(), self.caret),
            modes::View::Wysiwyg => self.vmap.pos_of_offset(self.caret),
        }
    }

    /// The range that a rendered row spans.
    fn row_span(&self, row: usize) -> (r: (usize, usize))
        ensures
            (r.0 as int, r.1 as int) == self@.row_span(row as int),
    {
        let end = self.vmap.offset_of_pos(row, self.vmap.row_width(row));
        let start = match self.vmap.row_start(row) {
            Some(stop) => stop,
            None => self.vmap.offset_of_pos(row, 0),
        };
        if start <= end {
            (start, end)
        } else {
            (end, end)
        }
    }

    /// The range that the caret can stand in on a rendered row.
    fn row_bounds(&self, row: usize) -> (r: (usize, usize))
        ensures
            (r.0 as int, r.1 as int) == self@.row_bounds(row as int),
            r.0 <= r.1,
    {
        let (start, end) = self.row_span(row);
        let wraps = match self.vmap.navigable_below(row) {
            Some(below) => match self.vmap.row_start(below) {
                Some(stop) => stop == end,
                None => false,
            },
            None => false,
        };
        if !wraps {
            return (start, end);
        }
        let last = match self.vmap.stop_before(end) {
            Some(stop) => stop,
            None => end,
        };
        if last > start {
            (start, last)
        } else {
            (start, start)
        }
    }

    /// The offset of a display column in a rendered row.
    fn row_target(&self, row: usize, col: usize) -> (r: usize)
        ensures
            r == self@.row_target(row as int, col as int),
    {
        let (start, end) = self.row_bounds(row);
        let width = self.vmap.row_width(row);
        let at = self.vmap.offset_of_pos(
            row,
            if col <= width {
                col
            } else {
                width
            },
        );
        if at < start {
            start
        } else if at > end {
            end
        } else {
            at
        }
    }

    /// The first place of the document that the caret can reach.
    fn reachable_start(&self) -> (r: usize)
        ensures
            r == self@.reachable_start(),
    {
        match self.view {
            modes::View::Source => 0,
            modes::View::Wysiwyg => match self.vmap.stop_at_or_after(0) {
                Some(stop) => stop,
                None => self.caret,
            },
        }
    }

    /// The last place of the document that the caret can reach.
    fn reachable_end(&self) -> (r: usize)
        ensures
            r == self@.reachable_end(),
    {
        let len = text::len(self.source.as_str());
        match self.view {
            modes::View::Source => len,
            modes::View::Wysiwyg => match self.vmap.stop_at_or_before(len) {
                Some(stop) => stop,
                None => self.caret,
            },
        }
    }

    /// A vertical step that aims for the column `goal`.
    fn step_vertical(&mut self, to: usize, goal: usize, extend: bool)
        requires
            old(self).wf(),
            goal == old(self)@.goal(),
        ensures
            final(self)@ == old(self)@.stepped_to(to as int, extend),
            final(self).wf(),
            final(self).editor == old(self).editor,
    {
        if to == self.caret {
            return;
        }
        self.goal_col = Some(goal);
        self.move_to(to, extend);
    }

    /// Move the caret a row up, or from the first row to the start of the document.
    pub fn move_up(&mut self, extend: bool)
        requires
            old(self).wf(),
        ensures
            final(self)@ == old(self)@.went_up(extend),
            final(self).wf(),
            final(self).editor == old(self).editor,
    {
        let (row, col) = self.caret_pos();
        let goal: usize = match self.goal_col {
            Some(goal) => goal,
            None => col,
        };
        let to: usize = match self.view {
            modes::View::Source => if row > 0 {
                lines::row_col_to_offset(self.source.as_str(), row - 1, goal)
            } else {
                self.reachable_start()
            },
            modes::View::Wysiwyg => match self.vmap.navigable_above(row) {
                Some(above) => self.row_target(above, goal),
                None => self.reachable_start(),
            },
        };
        self.step_vertical(to, goal, extend);
    }

    /// Move the caret a row down, or from the last row to the end of the document.
    pub fn move_down(&mut self, extend: bool)
        requires
            old(self).wf(),
        ensures
            final(self)@ == old(self)@.went_down(extend),
            final(self).wf(),
            final(self).editor == old(self).editor,
    {
        let (row, col) = self.caret_pos();
        let goal: usize = match self.goal_col {
            Some(goal) => goal,
            None => col,
        };
        let to: usize = match self.view {
            modes::View::Source => match lines::row_below(self.source.as_str(), row) {
                Some(below) => lines::row_col_to_offset(self.source.as_str(), below, goal),
                None => self.reachable_end(),
            },
            modes::View::Wysiwyg => match self.vmap.navigable_below(row) {
                Some(below) => self.row_target(below, goal),
                None => self.reachable_end(),
            },
        };
        self.step_vertical(to, goal, extend);
    }

    /// The range of the caret's line that the caret can stand in.
    fn line_bounds(&self) -> (r: (usize, usize))
        requires
            self.wf(),
        ensures
            (r.0 as int, r.1 as int) == self@.line_bounds(),
            self@.view == modes::View::Source ==> text::boundary(self@.source, r.0 as int)
                && text::boundary(self@.source, r.1 as int) && r.1 <= self@.len(),
    {
        let (row, _) = self.caret_pos();
        match self.view {
            modes::View::Source => {
                let start = lines::line_start(self.source.as_str(), row);
                (start, lines::line_end_from(self.source.as_str(), start))
            },
            modes::View::Wysiwyg => self.row_bounds(row),
        }
    }

    /// The range of the caret's line.
    pub(crate) fn line_span(&self) -> (r: (usize, usize))
        requires
            self.wf(),
        ensures
            (r.0 as int, r.1 as int) == self@.line_span(),
            self@.view == modes::View::Source ==> text::boundary(self@.source, r.0 as int)
                && text::boundary(self@.source, r.1 as int) && r.1 <= self@.len(),
    {
        let (row, _) = self.caret_pos();
        match self.view {
            modes::View::Source => self.line_bounds(),
            modes::View::Wysiwyg => self.row_span(row),
        }
    }

    /// The first place of a line with something other than white space.
    fn first_non_space(&self, start: usize, end: usize) -> (r: usize)
        requires
            self@.view == modes::View::Source ==> text::boundary(self@.source, start as int),
        ensures
            r == self@.first_text(start as int, end as int),
    {
        let mut off: usize = start;
        while off < end
            invariant
                self@.view == modes::View::Source ==> text::boundary(self@.source, off as int),
                self@.first_text(start as int, end as int) == self@.first_text(
                    off as int,
                    end as int,
                ),
            decreases
                    (if end > off {
                        end - off
                    } else {
                        0
                    }),
        {
            if self.class_at(off) != Class::Space {
                return off;
            }
            let next: usize = match self.view {
                modes::View::Source => lines::next_boundary(self.source.as_str(), off),
                modes::View::Wysiwyg => match self.vmap.stop_after(off) {
                    Some(next) => next,
                    None => {
                        return end;
                    },
                },
            };
            if next <= off {
                return end;
            }
            off = next;
        }
        end
    }

    /// Move the caret to the first character of its line, or from there to the line's
    /// start.
    pub fn move_home(&mut self, extend: bool)
        requires
            old(self).wf(),
        ensures
            final(self)@ == old(self)@.went_home(extend),
            final(self).wf(),
            final(self).editor == old(self).editor,
    {
        let (start, end) = self.line_bounds();
        let first = self.first_non_space(start, end);
        let to: usize = if self.caret == first {
            start
        } else {
            first
        };
        self.goal_col = None;
        self.move_to(to, extend);
    }

    /// Move the caret to the end of its line.
    pub fn move_end(&mut self, extend: bool)
        requires
            old(self).wf(),
        ensures
            final(self)@ == old(self)@.went_end(extend),
            final(self).wf(),
            final(self).editor == old(self).editor,
    {
        let (_, end) = self.line_bounds();
        self.goal_col = None;
        self.move_to(end, extend);
    }

    /// Move the caret to the start of the document.
    pub fn move_doc_start(&mut self, extend: bool)
        requires
            old(self).wf(),
        ensures
            final(self)@ == old(self)@.went_to_start(extend),
            final(self).wf(),
            final(self).editor == old(self).editor,
    {
        self.goal_col = None;
        self.move_to(0, extend);
    }

    /// Move the caret to the end of the document.
    pub fn move_doc_end(&mut self, extend: bool)
        requires
            old(self).wf(),
        ensures
            final(self)@ == old(self)@.went_to_end(extend),
            final(self).wf(),
            final(self).editor == old(self).editor,
    {
        self.goal_col = None;
        let end = text::len(self.source.as_str());
        self.move_to(end, extend);
    }

    /// Put the caret where a row and a display column of the active view are.
    pub fn click(&mut self, row: usize, col: usize, extend: bool)
        requires
            old(self).wf(),
        ensures
            final(self)@ == old(self)@.clicked(row as int, col as int, extend),
            final(self).wf(),
            final(self).editor == old(self).editor,
    {
        let to: usize = match self.view {
            modes::View::Source => lines::row_col_to_offset(self.source.as_str(), row, col),
            modes::View::Wysiwyg => self.vmap.offset_of_pos(row, col),
        };
        self.goal_col = None;
        self.move_to(to, extend);
    }

    /// Put the caret at an offset: in the rendered view at the stop that it belongs to.
    pub fn place_caret(&mut self, offset: usize, extend: bool)
        requires
            old(self).wf(),
        ensures
            final(self)@ == old(self)@.placed(offset as int, extend),
            final(self).wf(),
            final(self).editor == old(self).editor,
    {
        let to: usize = match self.view {
            modes::View::Wysiwyg => {
                let len = text::len(self.source.as_str());
                self.vmap.snap_to_stop(
                    if offset <= len {
                        offset
                    } else {
                        len
                    },
                )
            },
            modes::View::Source => self.settle(offset),
        };
        self.goal_col = None;
        self.move_to(to, extend);
        proof {
            doc::lemma_clamped_valid(self@);
        }
        self.clamp_caret();
    }

    /// Select a range, its end the caret.
    fn select_range(&mut self, start: usize, end: usize)
        requires
            old(self).wf(),
        ensures
            final(self)@ == old(self)@.with_range(start as int, end as int),
            final(self).wf(),
            final(self).editor == old(self).editor,
    {
        proof {
            lemma_range_valid(self@, start as int, end as int);
        }
        let (from, to) = (self.settle(start), self.settle(end));
        self.anchor = Some(from);
        self.caret = to;
        self.goal_col = None;
        self.last_edit_kind = None;
        self.status = None;
    }

    /// Select all that the caret can reach.
    pub fn select_all(&mut self)
        requires
            old(self).wf(),
        ensures
            final(self)@ == old(self)@.all_selected(),
            final(self).wf(),
            final(self).editor == old(self).editor,
    {
        let floor = self.caret_floor();
        let len = text::len(self.source.as_str());
        self.select_range(floor, len);
    }

    /// Select the run of one class of characters around an offset.
    pub fn select_word_at(&mut self, offset: usize)
        requires
            old(self).wf(),
        ensures
            final(self)@ == old(self)@.word_selected(offset as int),
            final(self).wf(),
            final(self).editor == old(self).editor,
    {
        let at = self.settle(offset);
        let (s, e) = words::word_range_at(self.source.as_str(), at);
        self.select_range(s, e);
        proof {
            doc::lemma_clamped_valid(self@);
        }
        self.clamp_caret();
    }

    /// Select the block at an offset, or else its line.
    pub fn select_block_at(&mut self, offset: usize)
        requires
            old(self).wf(),
        ensures
            final(self)@ == old(self)@.block_selected(offset as int),
            final(self).wf(),
    {
        let len = text::len(self.source.as_str());
        let at: usize = if offset <= len {
            offset
        } else {
            len
        };
        let chain = self.chain_at(at);
        let (s, e): (usize, usize) = match find_inner_block(&chain) {
            Some(i) => match chain[i].content {
                Some(c) => (c.start, c.end),
                None => (chain[i].span.start, chain[i].span.end),
            },
            None => {
                let line = lines::source_line_range(self.source.as_str(), at);
                (line.start, line.end)
            },
        };
        self.select_range(s, e);
        proof {
            doc::lemma_clamped_valid(self@);
        }
        self.clamp_caret();
    }

    /// Select a cell.
    pub(crate) fn select_cell(&mut self, cell: Cell)
        requires
            old(self).wf(),
        ensures
            final(self)@ == old(self)@.with_cell(cell),
            final(self).wf(),
            final(self).editor == old(self).editor,
    {
        proof {
            doc::lemma_settled(self@, self@.raised(cell.start as int));
            doc::lemma_settled(self@, self@.raised(cell.end as int));
        }
        let (from, to) = (self.raise(cell.start), self.raise(cell.end));
        let (from, to) = (self.settle(from), self.settle(to));
        self.anchor = Some(from);
        self.caret = to;
        self.goal_col = None;
        self.status = None;
        self.last_edit_kind = None;
        self.clear_pending();
    }

    /// Select the next cell of the table that the caret is in, or the one before. Tells
    /// whether there was one.
    pub fn cell_hop(&mut self, forward: bool) -> (r: bool)
        requires
            old(self).wf(),
        ensures
            match old(self)@.hop(forward) {
                Some(cell) => r && final(self)@ == old(self)@.with_cell(cell),
                None => !r && final(self)@ == old(self)@,
            },
            final(self).wf(),
            final(self).editor == old(self).editor,
    {
        match self.vmap.table_grid_at(self.caret) {
            Some((t, row, col)) => match self.find_neighbour(t, row, col, forward) {
                Some(cell) => {
                    self.select_cell(cell);
                    true
                },
                None => false,
            },
            None => false,
        }
    }

    /// The cell that follows or precedes one of a table.
    fn find_neighbour(&self, t: usize, row: usize, col: usize, forward: bool) -> (r: Option<Cell>)
        requires
            t < self@.map.tables.len(),
            row < self@.map.tables[t as int].len(),
            col < self@.map.tables[t as int][row as int].len(),
        ensures
            r == neighbour(self@.map.tables[t as int], row as int, col as int, forward),
    {
        let grid = &self.vmap.tables[t].grid;
        let ghost cells = self@.map.tables[t as int];
        let ghost all = cells.len() as int;
        assert(forall|k: int| 0 <= k < grid@.len() ==> cells[k] == #[trigger] grid@[k]@);
        proof {
            lemma_flat_at(cells, row as int, col as int);
            lemma_flat(cells, row as int, all);
        }
        let rows: usize = grid.len();
        let width: usize = grid[row].len();
        if forward {
            if col < width - 1 {
                proof {
                    lemma_flat_at(cells, row as int, col + 1);
                }
                return Some(grid[row][col + 1]);
            }
            let mut next: usize = row + 1;
            while next < grid.len()
                invariant
                    row < next <= grid@.len(),
                    t < self@.map.tables.len(),
                    cells == self@.map.tables[t as int],
                    forward,
                    cells.len() == grid@.len(),
                    all == cells.len(),
                    forall|k: int| 0 <= k < grid@.len() ==> cells[k] == #[trigger] grid@[k]@,
                    flat(cells, next as int).len() == flat(cells, row as int).len() + col + 1,
                    neighbour(cells, row as int, col as int, forward) == (if flat(
                        cells,
                        next as int,
                    ).len() < flat(cells, all).len() {
                        Some(flat(cells, all)[flat(cells, next as int).len() as int])
                    } else {
                        None
                    }),
                decreases grid@.len() - next,
            {
                if grid[next].len() > 0 {
                    proof {
                        lemma_flat_at(cells, next as int, 0);
                    }
                    return Some(grid[next][0]);
                }
                assert(flat(cells, next + 1).len() == flat(cells, next as int).len());
                next = next + 1;
            }
            None
        } else {
            if col > 0 {
                proof {
                    lemma_flat_at(cells, row as int, col - 1);
                }
                return Some(grid[row][col - 1]);
            }
            let mut above: usize = row;
            while above > 0
                invariant
                    above <= row < grid@.len(),
                    t < self@.map.tables.len(),
                    cells == self@.map.tables[t as int],
                    !forward,
                    cells.len() == grid@.len(),
                    all == cells.len(),
                    forall|k: int| 0 <= k < grid@.len() ==> cells[k] == #[trigger] grid@[k]@,
                    flat(cells, above as int).len() == flat(cells, row as int).len(),
                    flat(cells, row as int).len() <= flat(cells, all).len(),
                    neighbour(cells, row as int, col as int, forward) == (if flat(
                        cells,
                        above as int,
                    ).len() > 0 {
                        Some(flat(cells, all)[flat(cells, above as int).len() - 1])
                    } else {
                        None
                    }),
                decreases above,
            {
                let width = grid[above - 1].len();
                assert(cells[above - 1] == grid@[above - 1]@);
                if width > 0 {
                    proof {
                        lemma_flat_at(cells, above - 1, width - 1);
                        assert(flat(cells, above as int).len() == flat(cells, above - 1).len()
                            + width);
                    }
                    return Some(grid[above - 1][width - 1]);
                }
                assert(flat(cells, above as int).len() == flat(cells, above - 1).len());
                above = above - 1;
            }
            None
        }
    }

    /// Select the cell below or above the one that the caret is in. Tells whether there
    /// was one.
    pub fn cell_move_vertical(&mut self, down: bool) -> (r: bool)
        requires
            old(self).wf(),
        ensures
            match old(self)@.hop_vertical(down) {
                Some(cell) => r && final(self)@ == old(self)@.with_cell(cell),
                None => !r && final(self)@ == old(self)@,
            },
            final(self).wf(),
            final(self).editor == old(self).editor,
    {
        match self.vmap.table_grid_at(self.caret) {
            Some((t, row, col)) => match self.find_beyond(t, row, col, down) {
                Some(cell) => {
                    self.select_cell(cell);
                    true
                },
                None => false,
            },
            None => false,
        }
    }

    /// The cell below or above one of a table.
    fn find_beyond(&self, t: usize, row: usize, col: usize, down: bool) -> (r: Option<Cell>)
        requires
            t < self@.map.tables.len(),
            row < self@.map.tables[t as int].len(),
        ensures
            r == cell_beyond(self@.map.tables[t as int], row as int, col as int, down),
    {
        let grid = &self.vmap.tables[t].grid;
        let ghost cells = self@.map.tables[t as int];
        assert(forall|k: int| 0 <= k < grid@.len() ==> cells[k] == #[trigger] grid@[k]@);
        if !down && row == 0 {
            return None;
        }
        let rows: usize = grid.len();
        let to: usize = if down {
            row + 1
        } else {
            row - 1
        };
        if to >= grid.len() || grid[to].len() == 0 {
            return None;
        }
        assert(cells[to as int] == grid@[to as int]@);
        if col < grid[to].len() {
            Some(grid[to][col])
        } else {
            Some(grid[to][grid[to].len() - 1])
        }
    }

    /// Scroll the view to a caret that moved since the last frame, and no further than
    /// the last row.
    pub fn follow_caret(&mut self, caret_row: usize, height: usize, rows: usize)
        requires
            old(self).wf(),
        ensures
            final(self)@ == (DocView {
                scroll: old(self)@.scrolled(caret_row as int, height as int, rows as int),
                drawn_caret: Some(old(self)@.caret),
                ..old(self)@
            }),
            final(self).wf(),
            final(self).editor == old(self).editor,
    {
        let drawn = match self.drawn_caret {
            Some(at) => at == self.caret,
            None => false,
        };
        if !drawn {
            if caret_row < self.scroll {
                self.scroll = caret_row;
            } else if height > 0 && caret_row - self.scroll >= height {
                self.scroll = caret_row - (height - 1);
            }
            self.drawn_caret = Some(self.caret);
        }
        let last: usize = if rows > 0 {
            rows - 1
        } else {
            0
        };
        if self.scroll > last {
            self.scroll = last;
        }
    }
}

/// The innermost node of a chain that is a block and no mere container of blocks.
pub(crate) fn find_inner_block(chain: &Vec<crate::editor::Ancestor>) -> (r: Option<usize>)
    ensures
        match r {
            Some(i) => i < chain@.len() && inner_block(editor::chain_view(chain@)) == Some(
                chain@[i as int]@,
            ),
            None => inner_block(editor::chain_view(chain@)) is None,
        },
{
    let ghost views = editor::chain_view(chain@);
    let mut i: usize = chain.len();
    assert(views.take(i as int) =~= views);
    while i > 0
        invariant
            i <= chain@.len(),
            views == editor::chain_view(chain@),
            inner_block(views) == inner_block(views.take(i as int)),
        decreases i,
    {
        assert(views.take(i as int).drop_last() =~= views.take(i - 1));
        assert(views.take(i as int).last() == chain@[i - 1]@);
        i = i - 1;
        let kind = Kind::from_name(chain[i].name.as_str());
        if !kind.is_inline() && !kind.is_block_container() {
            return Some(i);
        }
    }
    None
}

} // verus!

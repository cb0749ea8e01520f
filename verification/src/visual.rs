//! The map of a rendered document: where its caret stops are drawn, and what stands
//! around them.
//!
//! A frontend lays a document out and hands over where things came to stand, as plain
//! data. Motion and clicks read the map to stay in visible space.

use vstd::prelude::*;
use crate::node::Span;

verus! {

/// A place that the caret can rest at, and where it is drawn.
#[derive(Clone, Copy, PartialEq, Eq, Debug, Structural)]
pub struct Stop {
    /// The offset in the source.
    pub offset: usize,
    pub row: usize,
    /// The display column.
    pub col: usize,
}

/// The source range of a table cell's content.
#[derive(Clone, Copy, PartialEq, Eq, Debug, Structural)]
pub struct Cell {
    pub start: usize,
    pub end: usize,
}

/// A table: its cells, row by row.
pub struct TableMap {
    pub grid: Vec<Vec<Cell>>,
}

/// What kind of medium a block shows.
#[derive(Clone, Copy, PartialEq, Eq, Debug, Structural)]
pub enum MediaKind {
    Image,
    Audio,
    Video,
}

/// A block that is one medium and nothing else.
#[derive(Clone, Copy, PartialEq, Eq, Debug, Structural)]
pub struct MediaMap {
    pub kind: MediaKind,
    pub span: Span,
}

/// On which side of a block medium the caret stands.
#[derive(Clone, Copy, PartialEq, Eq, Debug, Structural)]
pub enum MediaStop {
    Before,
    After,
}

/// Where a rendered document came to stand.
pub struct VisualMap {
    /// The first offset that is rendered: what comes before it is never shown.
    pub content_start: usize,
    /// The caret stops.
    pub stops: Vec<Stop>,
    /// The display width of each row.
    pub widths: Vec<usize>,
    pub tables: Vec<TableMap>,
    /// The blocks that are one medium.
    pub media: Vec<MediaMap>,
}

/// What a [`VisualMap`] says.
pub struct MapView {
    pub content_start: usize,
    pub stops: Seq<Stop>,
    pub widths: Seq<usize>,
    pub tables: Seq<Seq<Seq<Cell>>>,
    pub media: Seq<MediaMap>,
}

/// The cells of a table, row by row.
pub open spec fn grid_view(table: TableMap) -> Seq<Seq<Cell>> {
    Seq::new(table.grid@.len(), |r: int| table.grid@[r]@)
}

impl View for VisualMap {
    type V = MapView;

    open spec fn view(&self) -> MapView {
        MapView {
            content_start: self.content_start,
            stops: self.stops@,
            widths: self.widths@,
            tables: Seq::new(self.tables@.len(), |i: int| grid_view(self.tables@[i])),
            media: self.media@,
        }
    }
}

/// The last stop before an offset.
pub open spec fn last_before(stops: Seq<Stop>, off: int) -> Option<int>
    decreases stops.len(),
{
    if stops.len() == 0 {
        None
    } else {
        let best = last_before(stops.drop_last(), off);
        let s = stops.last();
        if s.offset < off && (best is None || s.offset > best->0) {
            Some(s.offset as int)
        } else {
            best
        }
    }
}

/// The first stop after an offset.
pub open spec fn first_after(stops: Seq<Stop>, off: int) -> Option<int>
    decreases stops.len(),
{
    if stops.len() == 0 {
        None
    } else {
        let best = first_after(stops.drop_last(), off);
        let s = stops.last();
        if s.offset > off && (best is None || s.offset < best->0) {
            Some(s.offset as int)
        } else {
            best
        }
    }
}

/// The last stop that is not past an offset.
pub open spec fn last_upto(stops: Seq<Stop>, off: int) -> Option<int>
    decreases stops.len(),
{
    if stops.len() == 0 {
        None
    } else {
        let best = last_upto(stops.drop_last(), off);
        let s = stops.last();
        if s.offset <= off && (best is None || s.offset > best->0) {
            Some(s.offset as int)
        } else {
            best
        }
    }
}

/// The first stop that is not before an offset.
pub open spec fn first_from(stops: Seq<Stop>, off: int) -> Option<int>
    decreases stops.len(),
{
    if stops.len() == 0 {
        None
    } else {
        let best = first_from(stops.drop_last(), off);
        let s = stops.last();
        if s.offset >= off && (best is None || s.offset < best->0) {
            Some(s.offset as int)
        } else {
            best
        }
    }
}

/// The nearest row above a row that the caret can stand in.
pub open spec fn row_over(stops: Seq<Stop>, row: int) -> Option<int>
    decreases stops.len(),
{
    if stops.len() == 0 {
        None
    } else {
        let best = row_over(stops.drop_last(), row);
        let s = stops.last();
        if s.row < row && (best is None || s.row > best->0) {
            Some(s.row as int)
        } else {
            best
        }
    }
}

/// The nearest row below a row that the caret can stand in.
pub open spec fn row_under(stops: Seq<Stop>, row: int) -> Option<int>
    decreases stops.len(),
{
    if stops.len() == 0 {
        None
    } else {
        let best = row_under(stops.drop_last(), row);
        let s = stops.last();
        if s.row > row && (best is None || s.row < best->0) {
            Some(s.row as int)
        } else {
            best
        }
    }
}

/// The first stop of a row.
pub open spec fn first_in_row(stops: Seq<Stop>, row: int) -> Option<int>
    decreases stops.len(),
{
    if stops.len() == 0 {
        None
    } else {
        let best = first_in_row(stops.drop_last(), row);
        let s = stops.last();
        if s.row == row && (best is None || s.offset < best->0) {
            Some(s.offset as int)
        } else {
            best
        }
    }
}

/// The last stop of a row that is drawn no further right than a column.
pub open spec fn last_in_row(stops: Seq<Stop>, row: int, col: int) -> Option<int>
    decreases stops.len(),
{
    if stops.len() == 0 {
        None
    } else {
        let best = last_in_row(stops.drop_last(), row, col);
        let s = stops.last();
        if s.row == row && s.col <= col && (best is None || s.offset > best->0) {
            Some(s.offset as int)
        } else {
            best
        }
    }
}

/// Where a stop is drawn: the place of the last one listed at that offset.
pub open spec fn drawn_at(stops: Seq<Stop>, off: int) -> Option<(int, int)>
    decreases stops.len(),
{
    if stops.len() == 0 {
        None
    } else if stops.last().offset == off {
        Some((stops.last().row as int, stops.last().col as int))
    } else {
        drawn_at(stops.drop_last(), off)
    }
}

/// The first medium, from a place in the list on, that has the offset at one of its ends.
pub open spec fn medium_at(media: Seq<MediaMap>, off: int, from: int) -> Option<(MediaStop, Span)>
    decreases media.len() - from,
{
    if from >= media.len() || from < 0 {
        None
    } else if media[from].span.start == off {
        Some((MediaStop::Before, media[from].span))
    } else if media[from].span.end == off {
        Some((MediaStop::After, media[from].span))
    } else {
        medium_at(media, off, from + 1)
    }
}

/// The first cell of a row, from a column on, that holds an offset.
pub open spec fn cell_at(row: Seq<Cell>, off: int, from: int) -> Option<int>
    decreases row.len() - from,
{
    if from >= row.len() || from < 0 {
        None
    } else if row[from].start <= off <= row[from].end {
        Some(from)
    } else {
        cell_at(row, off, from + 1)
    }
}

/// The first cell of a table, from a row on, that holds an offset: its row and column.
pub open spec fn grid_at(grid: Seq<Seq<Cell>>, off: int, from: int) -> Option<(int, int)>
    decreases grid.len() - from,
{
    if from >= grid.len() || from < 0 {
        None
    } else {
        match cell_at(grid[from], off, 0) {
            Some(col) => Some((from, col)),
            None => grid_at(grid, off, from + 1),
        }
    }
}

/// The first table, from a place in the list on, with a cell that holds an offset: the
/// table, the row and the column.
pub open spec fn table_at(tables: Seq<Seq<Seq<Cell>>>, off: int, from: int) -> Option<
    (int, int, int),
>
    decreases tables.len() - from,
{
    if from >= tables.len() || from < 0 {
        None
    } else {
        match grid_at(tables[from], off, 0) {
            Some((row, col)) => Some((from, row, col)),
            None => table_at(tables, off, from + 1),
        }
    }
}

impl MapView {
    /// The stop that an offset belongs to: the last that is not past it, or else the first.
    pub open spec fn snapped(self, off: int) -> int {
        match last_upto(self.stops, off) {
            Some(stop) => stop,
            None => match first_from(self.stops, off) {
                Some(stop) => stop,
                None => off,
            },
        }
    }

    /// Where the caret at an offset is drawn.
    pub open spec fn position(self, off: int) -> (int, int) {
        match drawn_at(self.stops, self.snapped(off)) {
            Some(place) => place,
            None => (0, 0),
        }
    }

    /// The display width of a row.
    pub open spec fn width(self, row: int) -> int {
        if 0 <= row < self.widths.len() {
            self.widths[row] as int
        } else {
            0
        }
    }

    /// The stop that a row without stops stands for: the last of the row above that has
    /// any, or else the first of the row below, or else the start of what is rendered.
    pub open spec fn beside_row(self, row: int) -> int {
        match row_over(self.stops, row) {
            Some(above) => match last_in_row(self.stops, above, usize::MAX as int) {
                Some(stop) => stop,
                None => self.content_start as int,
            },
            None => match row_under(self.stops, row) {
                Some(below) => match first_in_row(self.stops, below) {
                    Some(stop) => stop,
                    None => self.content_start as int,
                },
                None => self.content_start as int,
            },
        }
    }

    /// The offset of a place on screen: the last stop of the row no further right than
    /// the column, or else the row's first. A row without stops stands for the one beside
    /// it.
    pub open spec fn offset_at(self, row: int, col: int) -> int {
        match last_in_row(self.stops, row, col) {
            Some(stop) => stop,
            None => match first_in_row(self.stops, row) {
                Some(stop) => stop,
                None => self.beside_row(row),
            },
        }
    }
}

impl Default for VisualMap {
    fn default() -> (r: VisualMap)
        ensures
            r@ == empty_map(),
    {
        let r = VisualMap {
            content_start: 0,
            stops: Vec::new(),
            widths: Vec::new(),
            tables: Vec::new(),
            media: Vec::new(),
        };
        assert(r@.tables =~= empty_map().tables);
        r
    }
}

/// The map of nothing.
pub open spec fn empty_map() -> MapView {
    MapView {
        content_start: 0,
        stops: Seq::empty(),
        widths: Seq::empty(),
        tables: Seq::empty(),
        media: Seq::empty(),
    }
}

/// The first medium that has the offset at one of its ends.
pub fn find_medium(media: &Vec<MediaMap>, off: usize) -> (r: Option<(MediaStop, Span)>)
    ensures
        r == medium_at(media@, off as int, 0),
{
    let mut i: usize = 0;
    while i < media.len()
        invariant
            i <= media@.len(),
            medium_at(media@, off as int, 0) == medium_at(media@, off as int, i as int),
        decreases media@.len() - i,
    {
        let m = media[i];
        if m.span.start == off {
            return Some((MediaStop::Before, m.span));
        }
        if m.span.end == off {
            return Some((MediaStop::After, m.span));
        }
        i = i + 1;
    }
    None
}

impl VisualMap {
    /// The last stop before an offset.
    pub fn stop_before(&self, off: usize) -> (r: Option<usize>)
        ensures
            match r {
                Some(found) => last_before(self@.stops, off as int) == Some(found as int),
                None => last_before(self@.stops, off as int) is None,
            },
    {
        let mut best: Option<usize> = None;
        let mut i: usize = 0;
        while i < self.stops.len()
            invariant
                i <= self.stops@.len(),
                match best {
                    Some(found) => last_before(self.stops@.take(i as int), off as int) == Some(found as int),
                    None => last_before(self.stops@.take(i as int), off as int) is None,
                },
            decreases self.stops@.len() - i,
        {
            assert(self.stops@.take(i + 1).drop_last() =~= self.stops@.take(i as int));
            let s = self.stops[i];
            let better = match best {
                Some(b) => s.offset > b,
                None => true,
            };
            if s.offset < off && better {
                best = Some(s.offset);
            }
            i = i + 1;
        }
        assert(self.stops@.take(i as int) =~= self.stops@);
        best
    }

    /// The first stop after an offset.
    pub fn stop_after(&self, off: usize) -> (r: Option<usize>)
        ensures
            match r {
                Some(found) => first_after(self@.stops, off as int) == Some(found as int),
                None => first_after(self@.stops, off as int) is None,
            },
    {
        let mut best: Option<usize> = None;
        let mut i: usize = 0;
        while i < self.stops.len()
            invariant
                i <= self.stops@.len(),
                match best {
                    Some(found) => first_after(self.stops@.take(i as int), off as int) == Some(found as int),
                    None => first_after(self.stops@.take(i as int), off as int) is None,
                },
            decreases self.stops@.len() - i,
        {
            assert(self.stops@.take(i + 1).drop_last() =~= self.stops@.take(i as int));
            let s = self.stops[i];
            let better = match best {
                Some(b) => s.offset < b,
                None => true,
            };
            if s.offset > off && better {
                best = Some(s.offset);
            }
            i = i + 1;
        }
        assert(self.stops@.take(i as int) =~= self.stops@);
        best
    }

    /// The last stop that is not past an offset.
    pub fn stop_at_or_before(&self, off: usize) -> (r: Option<usize>)
        ensures
            match r {
                Some(found) => last_upto(self@.stops, off as int) == Some(found as int),
                None => last_upto(self@.stops, off as int) is None,
            },
    {
        let mut best: Option<usize> = None;
        let mut i: usize = 0;
        while i < self.stops.len()
            invariant
                i <= self.stops@.len(),
                match best {
                    Some(found) => last_upto(self.stops@.take(i as int), off as int) == Some(found as int),
                    None => last_upto(self.stops@.take(i as int), off as int) is None,
                },
            decreases self.stops@.len() - i,
        {
            assert(self.stops@.take(i + 1).drop_last() =~= self.stops@.take(i as int));
            let s = self.stops[i];
            let better = match best {
                Some(b) => s.offset > b,
                None => true,
            };
            if s.offset <= off && better {
                best = Some(s.offset);
            }
            i = i + 1;
        }
        assert(self.stops@.take(i as int) =~= self.stops@);
        best
    }

    /// The first stop that is not before an offset.
    pub fn stop_at_or_after(&self, off: usize) -> (r: Option<usize>)
        ensures
            match r {
                Some(found) => first_from(self@.stops, off as int) == Some(found as int),
                None => first_from(self@.stops, off as int) is None,
            },
    {
        let mut best: Option<usize> = None;
        let mut i: usize = 0;
        while i < self.stops.len()
            invariant
                i <= self.stops@.len(),
                match best {
                    Some(found) => first_from(self.stops@.take(i as int), off as int) == Some(found as int),
                    None => first_from(self.stops@.take(i as int), off as int) is None,
                },
            decreases self.stops@.len() - i,
        {
            assert(self.stops@.take(i + 1).drop_last() =~= self.stops@.take(i as int));
            let s = self.stops[i];
            let better = match best {
                Some(b) => s.offset < b,
                None => true,
            };
            if s.offset >= off && better {
                best = Some(s.offset);
            }
            i = i + 1;
        }
        assert(self.stops@.take(i as int) =~= self.stops@);
        best
    }

    /// The nearest row above a row that the caret can stand in.
    pub fn navigable_above(&self, row: usize) -> (r: Option<usize>)
        ensures
            match r {
                Some(found) => row_over(self@.stops, row as int) == Some(found as int),
                None => row_over(self@.stops, row as int) is None,
            },
    {
        let mut best: Option<usize> = None;
        let mut i: usize = 0;
        while i < self.stops.len()
            invariant
                i <= self.stops@.len(),
                match best {
                    Some(found) => row_over(self.stops@.take(i as int), row as int) == Some(found as int),
                    None => row_over(self.stops@.take(i as int), row as int) is None,
                },
            decreases self.stops@.len() - i,
        {
            assert(self.stops@.take(i + 1).drop_last() =~= self.stops@.take(i as int));
            let s = self.stops[i];
            let better = match best {
                Some(b) => s.row > b,
                None => true,
            };
            if s.row < row && better {
                best = Some(s.row);
            }
            i = i + 1;
        }
        assert(self.stops@.take(i as int) =~= self.stops@);
        best
    }

    /// The nearest row below a row that the caret can stand in.
    pub fn navigable_below(&self, row: usize) -> (r: Option<usize>)
        ensures
            match r {
                Some(found) => row_under(self@.stops, row as int) == Some(found as int),
                None => row_under(self@.stops, row as int) is None,
            },
    {
        let mut best: Option<usize> = None;
        let mut i: usize = 0;
        while i < self.stops.len()
            invariant
                i <= self.stops@.len(),
                match best {
                    Some(found) => row_under(self.stops@.take(i as int), row as int) == Some(found as int),
                    None => row_under(self.stops@.take(i as int), row as int) is None,
                },
            decreases self.stops@.len() - i,
        {
            assert(self.stops@.take(i + 1).drop_last() =~= self.stops@.take(i as int));
            let s = self.stops[i];
            let better = match best {
                Some(b) => s.row < b,
                None => true,
            };
            if s.row > row && better {
                best = Some(s.row);
            }
            i = i + 1;
        }
        assert(self.stops@.take(i as int) =~= self.stops@);
        best
    }

    /// The first stop of a row.
    pub fn row_start(&self, row: usize) -> (r: Option<usize>)
        ensures
            match r {
                Some(found) => first_in_row(self@.stops, row as int) == Some(found as int),
                None => first_in_row(self@.stops, row as int) is None,
            },
    {
        let mut best: Option<usize> = None;
        let mut i: usize = 0;
        while i < self.stops.len()
            invariant
                i <= self.stops@.len(),
                match best {
                    Some(found) => first_in_row(self.stops@.take(i as int), row as int) == Some(found as int),
                    None => first_in_row(self.stops@.take(i as int), row as int) is None,
                },
            decreases self.stops@.len() - i,
        {
            assert(self.stops@.take(i + 1).drop_last() =~= self.stops@.take(i as int));
            let s = self.stops[i];
            let better = match best {
                Some(b) => s.offset < b,
                None => true,
            };
            if s.row == row && better {
                best = Some(s.offset);
            }
            i = i + 1;
        }
        assert(self.stops@.take(i as int) =~= self.stops@);
        best
    }

    /// The last stop of a row that is drawn no further right than a column.
    pub fn stop_in_row(&self, row: usize, col: usize) -> (r: Option<usize>)
        ensures
            match r {
                Some(found) => last_in_row(self@.stops, row as int, col as int) == Some(found as int),
                None => last_in_row(self@.stops, row as int, col as int) is None,
            },
    {
        let mut best: Option<usize> = None;
        let mut i: usize = 0;
        while i < self.stops.len()
            invariant
                i <= self.stops@.len(),
                match best {
                    Some(found) => last_in_row(self.stops@.take(i as int), row as int, col as int)
                        == Some(found as int),
                    None => last_in_row(self.stops@.take(i as int), row as int, col as int) is None,
                },
            decreases self.stops@.len() - i,
        {
            assert(self.stops@.take(i + 1).drop_last() =~= self.stops@.take(i as int));
            let s = self.stops[i];
            let better = match best {
                Some(b) => s.offset > b,
                None => true,
            };
            if s.row == row && s.col <= col && better {
                best = Some(s.offset);
            }
            i = i + 1;
        }
        assert(self.stops@.take(i as int) =~= self.stops@);
        best
    }

    /// Whether an offset is a caret stop.
    pub fn is_stop(&self, off: usize) -> (r: bool)
        ensures
            r == (drawn_at(self@.stops, off as int) is Some),
    {
        self.drawn(off).is_some()
    }

    /// Where the stop at an offset is drawn.
    fn drawn(&self, off: usize) -> (r: Option<(usize, usize)>)
        ensures
            match r {
                Some((row, col)) => drawn_at(self@.stops, off as int) == Some(
                    (row as int, col as int),
                ),
                None => drawn_at(self@.stops, off as int) is None,
            },
    {
        let mut i: usize = self.stops.len();
        assert(self.stops@.take(i as int) =~= self.stops@);
        while i > 0
            invariant
                i <= self.stops@.len(),
                drawn_at(self.stops@, off as int) == drawn_at(
                    self.stops@.take(i as int),
                    off as int,
                ),
            decreases i,
        {
            assert(self.stops@.take(i as int).drop_last() =~= self.stops@.take(i - 1));
            i = i - 1;
            if self.stops[i].offset == off {
                return Some((self.stops[i].row, self.stops[i].col));
            }
        }
        None
    }

    /// The stop that an offset belongs to.
    pub fn snap_to_stop(&self, off: usize) -> (r: usize)
        ensures
            r == self@.snapped(off as int),
    {
        match self.stop_at_or_before(off) {
            Some(stop) => stop,
            None => match self.stop_at_or_after(off) {
                Some(stop) => stop,
                None => off,
            },
        }
    }

    /// Where the caret at an offset is drawn.
    pub fn pos_of_offset(&self, off: usize) -> (r: (usize, usize))
        ensures
            (r.0 as int, r.1 as int) == self@.position(off as int),
    {
        let stop = self.snap_to_stop(off);
        match self.drawn(stop) {
            Some(place) => place,
            None => (0, 0),
        }
    }

    /// How many rows there are.
    pub fn num_rows(&self) -> (r: usize)
        ensures
            r == self@.widths.len(),
    {
        self.widths.len()
    }

    /// The display width of a row.
    pub fn row_width(&self, row: usize) -> (r: usize)
        ensures
            r == self@.width(row as int),
    {
        if row < self.widths.len() {
            self.widths[row]
        } else {
            0
        }
    }

    /// The offset of a place on screen.
    pub fn offset_of_pos(&self, row: usize, col: usize) -> (r: usize)
        ensures
            r == self@.offset_at(row as int, col as int),
    {
        match self.stop_in_row(row, col) {
            Some(stop) => stop,
            None => match self.row_start(row) {
                Some(stop) => stop,
                None => self.stop_beside(row),
            },
        }
    }

    /// The stop that a row without stops stands for.
    fn stop_beside(&self, row: usize) -> (r: usize)
        ensures
            r == self@.beside_row(row as int),
    {
        let near = match self.navigable_above(row) {
            Some(above) => self.stop_in_row(above, usize::MAX),
            None => match self.navigable_below(row) {
                Some(below) => self.row_start(below),
                None => None,
            },
        };
        match near {
            Some(stop) => stop,
            None => self.content_start,
        }
    }

    /// The block medium that has an offset at one of its ends, and which end.
    pub fn block_media_stop(&self, off: usize) -> (r: Option<(MediaStop, Span)>)
        ensures
            r == medium_at(self@.media, off as int, 0),
    {
        find_medium(&self.media, off)
    }

    /// The cell that holds an offset: its table, row and column.
    pub fn table_grid_at(&self, off: usize) -> (r: Option<(usize, usize, usize)>)
        ensures
            match r {
                Some((t, row, col)) => table_at(self@.tables, off as int, 0) == Some(
                    (t as int, row as int, col as int),
                ) && t < self@.tables.len() && row < self@.tables[t as int].len() && col
                    < self@.tables[t as int][row as int].len(),
                None => table_at(self@.tables, off as int, 0) is None,
            },
    {
        let mut t: usize = 0;
        while t < self.tables.len()
            invariant
                t <= self.tables@.len(),
                table_at(self@.tables, off as int, 0) == table_at(
                    self@.tables,
                    off as int,
                    t as int,
                ),
            decreases self.tables@.len() - t,
        {
            if let Some((row, col)) = self.grid_pos(t, off) {
                return Some((t, row, col));
            }
            t = t + 1;
        }
        None
    }

    /// The cell of a table that holds an offset.
    fn grid_pos(&self, t: usize, off: usize) -> (r: Option<(usize, usize)>)
        requires
            t < self@.tables.len(),
        ensures
            match r {
                Some((row, col)) => grid_at(self@.tables[t as int], off as int, 0) == Some(
                    (row as int, col as int),
                ) && row < self@.tables[t as int].len() && col
                    < self@.tables[t as int][row as int].len(),
                None => grid_at(self@.tables[t as int], off as int, 0) is None,
            },
    {
        let grid = &self.tables[t].grid;
        let ghost cells = self@.tables[t as int];
        let mut row: usize = 0;
        while row < grid.len()
            invariant
                row <= grid@.len(),
                t < self@.tables.len(),
                cells == self@.tables[t as int],
                cells.len() == grid@.len(),
                forall|k: int| 0 <= k < grid@.len() ==> cells[k] == #[trigger] grid@[k]@,
                grid_at(cells, off as int, 0) == grid_at(cells, off as int, row as int),
            decreases grid@.len() - row,
        {
            let line = &grid[row];
            assert(cells[row as int] == line@);
            let mut col: usize = 0;
            while col < line.len()
                invariant
                    col <= line@.len(),
                    t < self@.tables.len(),
                    cells == self@.tables[t as int],
                    row < grid@.len(),
                    cells.len() == grid@.len(),
                    cells[row as int] == line@,
                    grid_at(cells, off as int, 0) == grid_at(cells, off as int, row as int),
                    cell_at(line@, off as int, 0) == cell_at(line@, off as int, col as int),
                decreases line@.len() - col,
            {
                let cell = line[col];
                if cell.start <= off && off <= cell.end {
                    return Some((row, col));
                }
                col = col + 1;
            }
            row = row + 1;
        }
        None
    }
}

/// Stepping to the stop before and then to the one after comes back: between two stops
/// that follow each other there is no third.
pub proof fn law_stops_step_back(stops: Seq<Stop>, off: int)
    requires
        exists|i: int| 0 <= i < stops.len() && (#[trigger] stops[i]).offset == off,
        last_before(stops, off) is Some,
    ensures
        first_after(stops, last_before(stops, off)->0) == Some(off),
{
    lemma_last_before(stops, off);
    let prev = last_before(stops, off)->0;
    lemma_first_after(stops, prev);
    let i = choose|i: int| 0 <= i < stops.len() && (#[trigger] stops[i]).offset == off;
    assert(stops[i].offset > prev);
    let next = first_after(stops, prev)->0;
    let j = choose|j: int| 0 <= j < stops.len() && (#[trigger] stops[j]).offset == next;
    assert(stops[j].offset > prev);
}

/// What the stop before an offset is.
pub proof fn lemma_last_before(stops: Seq<Stop>, off: int)
    ensures
        match last_before(stops, off) {
            Some(best) => best < off && (exists|i: int|
                0 <= i < stops.len() && (#[trigger] stops[i]).offset == best) && forall|i: int|
                0 <= i < stops.len() && (#[trigger] stops[i]).offset < off ==> stops[i].offset
                    <= best,
            None => forall|i: int| 0 <= i < stops.len() ==> (#[trigger] stops[i]).offset >= off,
        },
    decreases stops.len(),
{
    if stops.len() > 0 {
        let head = stops.drop_last();
        lemma_last_before(head, off);
        assert(forall|i: int| 0 <= i < head.len() ==> head[i] == stops[i]);
        assert(stops.last() == stops[stops.len() - 1]);
        if last_before(head, off) is Some {
            let b = last_before(head, off)->0;
            let k = choose|k: int| 0 <= k < head.len() && (#[trigger] head[k]).offset == b;
            assert(stops[k].offset == b);
        }
        assert forall|i: int| 0 <= i < stops.len() implies i < head.len() || stops[i]
            == stops.last() by {}
    }
}

/// What the stop after an offset is.
pub proof fn lemma_first_after(stops: Seq<Stop>, off: int)
    ensures
        match first_after(stops, off) {
            Some(best) => best > off && (exists|i: int|
                0 <= i < stops.len() && (#[trigger] stops[i]).offset == best) && forall|i: int|
                0 <= i < stops.len() && (#[trigger] stops[i]).offset > off ==> stops[i].offset
                    >= best,
            None => forall|i: int| 0 <= i < stops.len() ==> (#[trigger] stops[i]).offset <= off,
        },
    decreases stops.len(),
{
    if stops.len() > 0 {
        let head = stops.drop_last();
        lemma_first_after(head, off);
        assert(forall|i: int| 0 <= i < head.len() ==> head[i] == stops[i]);
        assert(stops.last() == stops[stops.len() - 1]);
        if first_after(head, off) is Some {
            let b = first_after(head, off)->0;
            let k = choose|k: int| 0 <= k < head.len() && (#[trigger] head[k]).offset == b;
            assert(stops[k].offset == b);
        }
        assert forall|i: int| 0 <= i < stops.len() implies i < head.len() || stops[i]
            == stops.last() by {}
    }
}

} // verus!

//! What stands within a line: marks, links, images, code languages and table cells.

use vstd::prelude::*;
use vstd::utf8::*;
use crate::blocks;
use crate::doc;
use crate::doc::{Doc, DocView};
use crate::edges::MarkAt;
use crate::editor;
use crate::editor::Fault;
use crate::history;
use crate::html;
use crate::lines;
use crate::marks;
use crate::marks::{InlineKind, InlineMarks};
use crate::modes::EditKind;
use crate::node;
use crate::node::{Kind, Span};
use crate::outline;
use crate::outline::Sought;
use crate::tables;
use crate::text;
use crate::visual;
use crate::visual::{Cell, MediaKind};

verus! {

broadcast use {history::lemma_parsable_stepped, history::lemma_parsable_coalesced};

/// Whether a run with a number is among some marks and reaches past an offset.
pub open spec fn has_run(runs: Seq<MarkAt>, off: int, kind: InlineKind, id: u32) -> bool {
    exists|j: int|
        0 <= j < runs.len() && (#[trigger] runs[j]).kind == kind && runs[j].id == id && off
            < runs[j].span.end
}

/// Whether one run of a mark reaches past both of two offsets.
pub open spec fn spans_both(
    head: Seq<MarkAt>,
    tail: Seq<MarkAt>,
    start: int,
    last: int,
    kind: InlineKind,
) -> bool {
    exists|i: int|
        0 <= i < head.len() && (#[trigger] head[i]).kind == kind && start < head[i].span.end
            && has_run(tail, last, kind, head[i].id)
}

/// The marks of the runs that reach past both of two offsets.
pub open spec fn shared_marks(
    head: Seq<MarkAt>,
    tail: Seq<MarkAt>,
    start: int,
    last: int,
) -> InlineMarks {
    marks::marks_where(|k: InlineKind| spans_both(head, tail, start, last, k))
}

/// The end of the run of fence characters at `i`.
pub open spec fn fence_end(b: Seq<u8>, i: int, fence: u8) -> int
    decreases b.len() - i,
{
    if 0 <= i < b.len() && b[i] == fence {
        fence_end(b, i + 1, fence)
    } else {
        i
    }
}

/// The end of the spaces and tabs at `i`, no further than `to`.
pub open spec fn blanks_upto(b: Seq<u8>, i: int, to: int) -> int
    decreases to - i,
{
    if 0 <= i < to && is_gap(b[i]) {
        blanks_upto(b, i + 1, to)
    } else {
        i
    }
}

/// The start of the spaces and tabs that end at `i`, no earlier than `from`.
pub open spec fn blanks_downto(b: Seq<u8>, i: int, from: int) -> int
    decreases i - from,
{
    if from < i <= b.len() && is_gap(b[i - 1]) {
        blanks_downto(b, i - 1, from)
    } else {
        i
    }
}

/// Whether a byte is a space, a tab or a carriage return.
pub open spec fn is_gap(c: u8) -> bool {
    c == 0x20 || c == 0x09 || c == 0x0d
}

/// The range of the word behind the fence of a code block that starts at an offset: empty
/// behind a bare fence, and none where there is no fence.
pub open spec fn info_span(b: Seq<u8>, start: int) -> Option<(int, int)> {
    let end = if 0 <= start < b.len() {
        fence_end(b, start, b[start])
    } else {
        start
    };
    if !(0 <= start < b.len()) || !(b[start] == 0x60 || b[start] == 0x7e) || end - start < 3 {
        None
    } else {
        let eol = lines::eol(b, end);
        let from = blanks_upto(b, end, eol);
        let to = blanks_downto(b, eol, end);
        if from >= to {
            Some((end, end))
        } else {
            Some((from, to))
        }
    }
}

impl DocView {
    /// The marks in force: at the caret with what is armed there, or over the whole
    /// selection.
    pub open spec fn active_marks(self) -> InlineMarks {
        match self.selected() {
            None => marks::marks_xor(self.marks_at(self.caret), self.pending_here()),
            Some((start, end)) => {
                let last = lines::step_left(self.source, end);
                shared_marks(self.runs(start), self.runs(last), start, last)
            },
        }
    }

    /// The document with a mark flipped for what is typed at the caret.
    pub open spec fn armed(self, kind: InlineKind) -> DocView {
        DocView {
            pending: marks::marks_flip(
                if self.pending_at == Some(self.caret) {
                    self.pending
                } else {
                    marks::no_marks()
                },
                kind,
            ),
            pending_at: Some(self.caret),
            status: None,
            ..self
        }
    }

    /// A range without the white space at its ends.
    pub open spec fn tightened(self, s: int, e: int) -> (int, int) {
        let picked = text::slice(self.source, s, e);
        (
            s + text::byte_len(picked) - text::byte_len(text::trimmed_start(picked)),
            e - (text::byte_len(picked) - text::byte_len(text::trimmed_end(picked))),
        )
    }

    /// The document with a mark toggled: over the selection, which stays, or armed at the
    /// caret.
    pub open spec fn toggled(self, kind: InlineKind) -> DocView {
        match self.selected() {
            None => self.armed(kind),
            Some(range) => {
                let (s, e) = self.tightened(range.0, range.1);
                if s >= e {
                    DocView {
                        status: Some(kind.word() + ": nothing selected to mark"@),
                        ..self
                    }
                } else {
                    match editor::inline_toggled(self.setup, self.bytes, s, e, kind) {
                        Err(fault) => DocView {
                            status: Some(kind.word() + ": "@ + fault.words()),
                            ..self.unarmed().noted()
                        },
                        Ok(effect) => {
                            let d = DocView {
                                last_edit: None,
                                ..self.unarmed().noted().stepped(effect.bytes)
                            }.refreshed();
                            DocView {
                                anchor: Some(d.settled(effect.change.new.start as int)),
                                caret: d.settled(effect.change.new.end as int),
                                status: None,
                                ..d
                            }.rated().noted()
                        },
                    }
                }
            },
        }
    }

    /// The range of the text of the link at an offset.
    pub open spec fn link_text(self, off: int) -> Option<Span> {
        match outline::deepest_at(self.nodes(), Sought::Link, off) {
            Some(i) => self.nodes()[i].content,
            None => None,
        }
    }

    /// The document with the selection made a link, its text selected.
    pub open spec fn linked(self, destination: Seq<char>) -> DocView {
        let (start, end) = self.target();
        match editor::link_inserted(self.setup, self.bytes, start, end, destination) {
            Err(fault) => DocView { status: Some("link: "@ + fault.words()), ..self.noted() },
            Ok(effect) => {
                let d = DocView {
                    last_edit: None,
                    ..self.noted().stepped(effect.bytes)
                }.refreshed();
                DocView {
                    anchor: match d.link_text(effect.change.new.start as int) {
                        Some(t) => if t.start != t.end {
                            Some(d.settled(t.start as int))
                        } else {
                            None
                        },
                        None => None,
                    },
                    caret: match d.link_text(effect.change.new.start as int) {
                        Some(t) => d.settled(t.end as int),
                        None => d.settled(effect.change.new.end as int),
                    },
                    status: None,
                    ..d
                }.rated().clamped().noted()
            },
        }
    }

    /// The document with a range made the alternative text of an image.
    pub open spec fn pictured(self, start: int, end: int, destination: Seq<char>) -> DocView {
        match editor::image_inserted(self.setup, self.bytes, start, end, destination) {
            Err(fault) => DocView { status: Some("image: "@ + fault.words()), ..self },
            Ok(effect) => {
                let d = DocView { last_edit: None, ..self.stepped(effect.bytes) }.refreshed();
                DocView {
                    anchor: None,
                    caret: d.settled(effect.change.new.end as int),
                    status: None,
                    ..d
                }.rated().clamped().noted()
            },
        }
    }

    /// The document with an image put over the selection, or at the caret with an
    /// alternative text, which then takes a step of its own before it.
    pub open spec fn imaged(self, destination: Seq<char>, alt: Seq<char>) -> DocView {
        let (start, end) = self.target();
        let d = self.noted();
        if start == end && alt.len() > 0 {
            match editor::literal_inserted(self.setup, self.bytes, start, alt) {
                Err(fault) => DocView { status: Some("image: "@ + fault.words()), ..d },
                Ok(effect) => d.stepped(effect.bytes).pictured(
                    effect.change.new.start as int,
                    effect.change.new.end as int,
                    destination,
                ),
            }
        } else {
            d.pictured(start, end, destination)
        }
    }

    /// Whether the alternative text of an image is typed and the image then refused: the
    /// text is not read back.
    pub open spec fn image_given_up(self, destination: Seq<char>, alt: Seq<char>) -> bool {
        let (start, end) = self.target();
        start == end && alt.len() > 0 && (editor::literal_inserted(
            self.setup,
            self.bytes,
            start,
            alt,
        ) matches Ok(effect) && editor::image_inserted(
            self.setup,
            effect.bytes,
            effect.change.new.start as int,
            effect.change.new.end as int,
            destination,
        ) is Err)
    }

    /// The markup of a medium that is no image.
    pub open spec fn media_markup(
        self,
        kind: MediaKind,
        destination: Seq<char>,
        alt: Seq<char>,
    ) -> Seq<char> {
        let tag = if kind == MediaKind::Audio {
            "audio"@
        } else {
            "video"@
        };
        let label = match self.selected() {
            Some((s, e)) => text::slice(self.source, s, e),
            None => alt,
        };
        "<"@ + tag + " src=\""@ + destination + "\" controls>"@ + label + "</"@ + tag + ">"@
    }

    /// Where the code block at the caret starts.
    pub open spec fn code_start(self) -> Option<int> {
        match outline::deepest_at(self.nodes(), Sought::CodeBlock, self.caret) {
            Some(i) => Some(self.nodes()[i].span.start as int),
            None => None,
        }
    }

    /// The range of the language of the fenced code block at the caret.
    pub open spec fn code_info(self) -> Option<(int, int)> {
        match self.code_start() {
            Some(start) => info_span(encode_utf8(self.source), start),
            None => None,
        }
    }

    /// The range of the top-level block at an offset.
    pub open spec fn top_block(self, off: int) -> Option<Span> {
        if self.chain(off).len() > 1 {
            Some(self.chain(off)[1].span)
        } else {
            None
        }
    }

    /// Whether a range is part of one block, and not all of it.
    pub open spec fn within_block(self, start: int, end: int) -> bool {
        match (self.top_block(start), self.top_block(self.char_before(end))) {
            (Some(head), Some(tail)) => head == tail && !(start <= head.start && end >= head.end),
            _ => false,
        }
    }

    /// The place in order of the table that the caret is in.
    pub open spec fn table_order(self) -> Option<int> {
        tables::first_holding(tables::spans_of(self.nodes(), Kind::Table), self.caret, 0)
    }

    /// The cell of a column of the last row of a table, where that row is empty.
    pub open spec fn last_cell(self, table: int, col: nat) -> Option<Cell> {
        let found = tables::spans_of(self.nodes(), Kind::Table);
        if 0 <= table < found.len() {
            match tables::last_within(tables::spans_of(self.nodes(), Kind::Row), found[table]) {
                Some(row) => match tables::cell_home(encode_utf8(self.source), row, col) {
                    Some(home) => Some(Cell { start: home as usize, end: home as usize }),
                    None => None,
                },
                None => None,
            }
        } else {
            None
        }
    }

    /// The cell of a column in the last row of the table at the caret, as it stands: by the
    /// map, or where that is of an older text, by the parser's cells. Where the row is
    /// shorter it is the last.
    pub open spec fn bottom_cell(self, col: int) -> Option<Cell> {
        if self.mapped() {
            match visual::table_at(self.map.tables, self.caret, 0) {
                Some((t, _, _)) => {
                    let row = self.map.tables[t].last();
                    if row.len() == 0 {
                        None
                    } else {
                        Some(row[text::least(col, row.len() - 1)])
                    }
                },
                None => None,
            }
        } else {
            match self.table_order() {
                Some(table) => match tables::last_within(
                    tables::spans_of(self.nodes(), Kind::Row),
                    tables::spans_of(self.nodes(), Kind::Table)[table],
                ) {
                    Some(row) => {
                        let cells = tables::row_cells(self.nodes(), row);
                        if cells.len() == 0 {
                            None
                        } else {
                            let cell = cells[text::least(col, cells.len() - 1)];
                            Some(Cell { start: cell.start, end: cell.end })
                        }
                    },
                    None => None,
                },
                None => None,
            }
        }
    }

    /// The document with a row appended to the table at the caret, and the caret in a column
    /// of it. Where the row is refused, the caret goes to the last row that is there.
    pub open spec fn row_appended(self, col: usize) -> DocView {
        let outcome = editor::row_inserted(self.setup, self.bytes, self.caret, true);
        let d = self.tabled(outcome, "table row"@);
        let cell = if outcome is Err {
            d.bottom_cell(col as int)
        } else {
            match self.table_order() {
                Some(table) => d.last_cell(table, col as nat),
                None => None,
            }
        };
        match cell {
            Some(cell) => d.with_cell(cell),
            None => d,
        }
    }

    /// A medium over the selection or at the caret: an image as one, another as an element.
    pub open spec fn with_medium(
        self,
        kind: MediaKind,
        destination: Seq<char>,
        alt: Seq<char>,
    ) -> DocView {
        if kind == MediaKind::Image {
            self.imaged(destination, alt)
        } else {
            self.spliced(
                self.target().0,
                self.target().1,
                self.media_markup(kind, destination, alt),
                EditKind::Other,
            )
        }
    }

    /// The language of the fenced code block at the caret set.
    pub open spec fn with_language(self, lang: Seq<char>) -> DocView {
        match self.code_info() {
            Some((from, to)) => self.spliced(from, to, text::trimmed(lang), EditKind::Other),
            None => self,
        }
    }

    /// Where the link at the caret leads: its destination, or the text of one without.
    pub open spec fn link_target(self) -> Option<Seq<char>> {
        match outline::deepest_at(self.nodes(), Sought::Links, self.caret) {
            Some(i) => match self.nodes()[i].destination {
                Some(to) => Some(to),
                None => self.nodes()[i].text,
            },
            None => None,
        }
    }

    /// Where the image at the caret comes from.
    pub open spec fn image_target(self) -> Option<Seq<char>> {
        match outline::deepest_at(self.nodes(), Sought::Image, self.caret) {
            Some(i) => self.nodes()[i].destination,
            None => None,
        }
    }

    /// The language of the fenced code block at the caret, where it has one.
    pub open spec fn code_language(self) -> Option<Seq<char>> {
        match self.code_info() {
            Some((from, to)) => if from < to {
                Some(text::slice(self.source, from, to))
            } else {
                None
            },
            None => None,
        }
    }

    /// The selection as HTML, for the clipboard.
    pub open spec fn rich_copy(self) -> Option<Seq<char>> {
        match self.selected() {
            Some((s, e)) => match html::published(
                html::rendered(text::slice(self.source, s, e), self.format),
            ) {
                Some(page) => Some(
                    if self.within_block(s, e) {
                        html::lone_paragraph(page)
                    } else {
                        page
                    },
                ),
                None => None,
            },
            None => None,
        }
    }

    /// Tab in a table: the next cell, and from the last one a new row.
    pub open spec fn tabbed(self, forward: bool) -> DocView {
        if !self.in_table() {
            self
        } else {
            match self.hop(forward) {
                Some(cell) => self.with_cell(cell),
                None => if forward {
                    self.row_appended(0)
                } else {
                    self
                },
            }
        }
    }

    /// Return in a table: the cell below, and from the last row a new one.
    pub open spec fn returned(self) -> DocView {
        if !self.in_table() {
            self
        } else {
            match self.hop_vertical(true) {
                Some(cell) => self.with_cell(cell),
                None => self.row_appended(self.table_column() as usize),
            }
        }
    }

    /// The column of the table cell at the caret; the first where there is none.
    pub open spec fn table_column(self) -> int {
        match visual::table_at(self.map.tables, self.caret, 0) {
            Some((_, _, col)) => col,
            None => 0,
        }
    }

    /// The document with a line broken within a table cell.
    pub open spec fn cell_broken(self) -> DocView {
        match editor::break_inserted(self.setup, self.bytes, self.caret) {
            Ok(effect) => {
                let d = DocView {
                    last_edit: None,
                    ..self.noted().stepped(effect.bytes)
                }.refreshed();
                DocView {
                    caret: d.settled(effect.change.new.end as int),
                    anchor: None,
                    goal_col: None,
                    status: None,
                    ..d
                }.clamped().rated().noted()
            },
            Err(fault) => if fault == Fault::UnsupportedFormat {
                DocView {
                    status: Some("in-cell line breaks aren't supported in djot"@),
                    ..self.noted()
                }
            } else {
                self.noted()
            },
        }
    }
}

/// Whether a run with a number is among some marks and reaches past an offset.
fn find_run(runs: &Vec<MarkAt>, off: usize, kind: InlineKind, id: u32) -> (r: bool)
    ensures
        r == has_run(runs@, off as int, kind, id),
{
    let mut i: usize = 0;
    while i < runs.len()
        invariant
            i <= runs@.len(),
            forall|j: int|
                0 <= j < i ==> !((#[trigger] runs@[j]).kind == kind && runs@[j].id == id && off
                    < runs@[j].span.end),
        decreases runs@.len() - i,
    {
        let m = runs[i];
        if m.kind == kind && m.id == id && off < m.span.end {
            return true;
        }
        i = i + 1;
    }
    false
}

/// The marks of the runs that reach past both of two offsets.
fn common_marks(head: &Vec<MarkAt>, tail: &Vec<MarkAt>, start: usize, last: usize) -> (r:
    InlineMarks)
    ensures
        r == shared_marks(head@, tail@, start as int, last as int),
{
    let mut set = InlineMarks::empty();
    let mut i: usize = 0;
    while i < head.len()
        invariant
            i <= head@.len(),
            forall|k: InlineKind| #[trigger]
                set.has(k) == spans_both(
                    head@.take(i as int),
                    tail@,
                    start as int,
                    last as int,
                    k,
                ),
        decreases head@.len() - i,
    {
        let m = head[i];
        let ghost before = set;
        let ghost less = head@.take(i as int);
        let ghost more = head@.take(i + 1);
        let both = start < m.span.end && find_run(tail, last, m.kind, m.id);
        if both {
            set.insert(m.kind);
        }
        assert forall|k: InlineKind| #[trigger]
            set.has(k) == spans_both(more, tail@, start as int, last as int, k) by {
            assert(more[i as int] == m);
            assert(forall|j: int| 0 <= j < i ==> less[j] == more[j]);
            assert(before.has(k) == spans_both(less, tail@, start as int, last as int, k));
            if spans_both(less, tail@, start as int, last as int, k) {
                let j = choose|j: int|
                    0 <= j < less.len() && (#[trigger] less[j]).kind == k && start
                        < less[j].span.end && has_run(tail@, last as int, k, less[j].id);
                assert(more[j].kind == k);
            }
            if spans_both(more, tail@, start as int, last as int, k) {
                let j = choose|j: int|
                    0 <= j < more.len() && (#[trigger] more[j]).kind == k && start
                        < more[j].span.end && has_run(tail@, last as int, k, more[j].id);
                if j < i {
                    assert(less[j].kind == k);
                }
            }
        }
        i = i + 1;
    }
    assert(head@.take(i as int) =~= head@);
    proof {
        marks::lemma_marks_where(
            set,
            |k: InlineKind| spans_both(head@, tail@, start as int, last as int, k),
        );
    }
    set
}

/// The range of the word behind the fence of a code block that starts at an offset.
pub fn code_info_span(source: &str, start: usize) -> (r: Option<(usize, usize)>)
    ensures
        match r {
            Some((from, to)) => info_span(encode_utf8(source@), start as int) == Some(
                (from as int, to as int),
            ) && from <= to <= text::byte_len(source@) && text::boundary(source@, from as int)
                && text::boundary(source@, to as int),
            None => info_span(encode_utf8(source@), start as int) is None,
        },
{
    let b = source.as_bytes();
    if start >= b.len() {
        return None;
    }
    let fence = b[start];
    if !(fence == 0x60 || fence == 0x7e) {
        return None;
    }
    let mut end: usize = start;
    while end < b.len() && b[end] == fence
        invariant
            start <= end <= b@.len(),
            b@ == encode_utf8(source@),
            fence == 0x60 || fence == 0x7e,
            fence_end(b@, start as int, fence) == fence_end(b@, end as int, fence),
            end > start ==> b@[end - 1] == fence,
        decreases b@.len() - end,
    {
        end = end + 1;
    }
    if end - start < 3 {
        return None;
    }
    let eol = lines::line_end_from(source, end);
    let mut from: usize = end;
    while from < eol && (b[from] == 0x20 || b[from] == 0x09 || b[from] == 0x0d)
        invariant
            end <= from <= eol <= b@.len(),
            b@ == encode_utf8(source@),
            from > end ==> b@[from - 1] < 0x80,
            blanks_upto(b@, end as int, eol as int) == blanks_upto(b@, from as int, eol as int),
        decreases eol - from,
    {
        from = from + 1;
    }
    let mut to: usize = eol;
    while to > end && (b[to - 1] == 0x20 || b[to - 1] == 0x09 || b[to - 1] == 0x0d)
        invariant
            end <= to <= eol <= b@.len(),
            b@ == encode_utf8(source@),
            to < eol ==> b@[to as int] < 0x80,
            blanks_downto(b@, eol as int, end as int) == blanks_downto(b@, to as int, end as int),
        decreases to,
    {
        to = to - 1;
    }
    proof {
        text::lemma_ascii_boundary(source@, end - 1);
        if from > end {
            text::lemma_ascii_boundary(source@, from - 1);
        }
        if to < eol {
            text::lemma_ascii_boundary(source@, to as int);
        }
    }
    if from >= to {
        Some((end, end))
    } else {
        Some((from, to))
    }
}

/// Where the text within a text starts and ends that has no white space at its ends.
fn inner_range(picked: &str) -> (r: (usize, usize))
    ensures
        r.0 == text::byte_len(picked@) - text::byte_len(text::trimmed_start(picked@)),
        r.1 == text::byte_len(text::trimmed_end(picked@)),
        r.0 <= text::byte_len(picked@),
        r.1 <= text::byte_len(picked@),
{
    let chars = text::chars_of(picked);
    let n = chars.len();
    let lead = text::skip_space(chars.as_slice(), 0, n);
    let tail = text::skip_space_back(chars.as_slice(), 0, n);
    let head = text::string_of(chars.as_slice(), 0, lead);
    let body = text::string_of(chars.as_slice(), 0, tail);
    proof {
        assert(picked@ =~= head@ + text::trimmed_start(picked@));
        text::lemma_encode_concat(head@, text::trimmed_start(picked@));
        assert(body@ =~= text::trimmed_end(picked@));
        assert(picked@ =~= body@ + picked@.skip(tail as int));
        text::lemma_encode_concat(body@, picked@.skip(tail as int));
    }
    (text::len(head.as_str()), text::len(body.as_str()))
}

impl Doc {
    /// The marks in force at the caret, with what is armed there, or over the whole
    /// selection: what a toolbar lights up.
    pub fn active_inline_marks(&mut self) -> (r: InlineMarks)
        requires
            old(self).wf(),
        ensures
            r == old(self)@.active_marks(),
            final(self)@ == old(self)@,
    {
        match self.selection() {
            None => {
                let base = self.marks_at(self.caret);
                base.xor(self.pending_here())
            },
            Some((start, end)) => {
                let last = lines::prev_boundary(self.source.as_str(), end);
                let head = self.runs_at(start);
                let tail = self.runs_at(last);
                common_marks(&head, &tail, start, last)
            },
        }
    }

    /// A range without the white space at its ends.
    fn tighten(&self, s: usize, e: usize) -> (r: (usize, usize))
        requires
            s <= e <= self@.len(),
            text::boundary(self@.source, s as int),
            text::boundary(self@.source, e as int),
        ensures
            (r.0 as int, r.1 as int) == self@.tightened(s as int, e as int),
            r.0 <= e,
    {
        let (lead, body) = inner_range(text::substr(self.source.as_str(), s, e));
        proof {
            text::lemma_slice(self@.source, s as int, e as int);
        }
        (s + lead, s + body)
    }

    /// Toggle an inline mark over the selection, or arm it at the caret for what is typed
    /// next.
    pub fn toggle(&mut self, kind: InlineKind)
        requires
            old(self).wf(),
        ensures
            final(self)@ == old(self)@.toggled(kind),
            final(self).wf(),
            old(self)@.steady() ==> final(self)@.steady(),
            old(self)@.faithful() ==> final(self)@.faithful(),
    {
        let (s, e) = match self.selection() {
            Some(range) => range,
            None => {
                let here = match self.pending_at {
                    Some(at) => at == self.caret,
                    None => false,
                };
                if !here {
                    self.pending_marks = InlineMarks::empty();
                    self.pending_at = Some(self.caret);
                }
                self.pending_marks.flip(kind);
                self.status = None;
                return;
            },
        };
        let (s, e) = self.tighten(s, e);
        if s >= e {
            self.status = Some(text::concat(kind.label(), ": nothing selected to mark"));
            return;
        }
        self.clear_pending();
        self.record_caret();
        match editor::toggle_inline(&mut self.editor, s, e, kind) {
            Ok(change) => {
                self.last_edit_kind = None;
                self.refresh();
                let (from, to) = (self.settle(change.new.start), self.settle(change.new.end));
                self.anchor = Some(from);
                self.caret = to;
                self.rate();
                self.status = None;
                self.record_caret();
            },
            Err(err) => {
                let fault = editor::fault_of(err);
                self.status = Some(blocks::tell(kind.label(), fault));
            },
        }
    }

    /// The range of the text of the link at an offset.
    fn link_text_span(&mut self, off: usize) -> (r: Option<Span>)
        ensures
            r == old(self)@.link_text(off as int),
            final(self)@ == old(self)@,
    {
        let nodes = editor::nodes(&mut self.editor);
        match outline::find_deepest(&nodes, Sought::Link, off) {
            Some(i) => {
                assert(node::node_views(nodes@)[i as int] == nodes@[i as int]@);
                nodes[i].content
            },
            None => None,
        }
    }

    /// Link the selection to a destination, or point the link there elsewhere, and select
    /// its text.
    pub fn insert_link(&mut self, destination: &str)
        requires
            old(self).wf(),
        ensures
            final(self)@ == old(self)@.linked(destination@),
            final(self).wf(),
            old(self)@.steady() ==> final(self)@.steady(),
            old(self)@.faithful() ==> final(self)@.faithful(),
    {
        let (start, end) = self.selection_or_caret();
        self.record_caret();
        match editor::insert_link(&mut self.editor, start, end, destination) {
            Ok(change) => {
                self.last_edit_kind = None;
                self.refresh();
                match self.link_text_span(change.new.start) {
                    Some(span) => {
                        let (from, to) = (self.settle(span.start), self.settle(span.end));
                        self.anchor = if span.start != span.end {
                            Some(from)
                        } else {
                            None
                        };
                        self.caret = to;
                    },
                    None => {
                        self.anchor = None;
                        self.caret = self.settle(change.new.end);
                    },
                }
                self.rate();
                self.status = None;
                proof {
                    doc::lemma_clamped_valid(self@);
                }
                self.clamp_caret();
                self.record_caret();
            },
            Err(err) => {
                let fault = editor::fault_of(err);
                self.status = Some(text::concat("link: ", fault.message()));
            },
        }
    }

    /// Make a range the alternative text of an image.
    fn picture(&mut self, start: usize, end: usize, destination: &str)
        requires
            old(self).wf(),
        ensures
            final(self)@ == old(self)@.pictured(start as int, end as int, destination@),
            final(self).wf(),
            old(self)@.steady() ==> final(self)@.steady(),
            old(self)@.faithful() ==> final(self)@.faithful(),
            editor::image_inserted(
                old(self)@.setup,
                old(self)@.bytes,
                start as int,
                end as int,
                destination@,
            ) is Ok ==> final(self)@.faithful(),
    {
        match editor::insert_image(&mut self.editor, start, end, destination) {
            Ok(change) => {
                self.last_edit_kind = None;
                self.refresh();
                self.anchor = None;
                self.caret = self.settle(change.new.end);
                self.rate();
                self.status = None;
                proof {
                    doc::lemma_clamped_valid(self@);
                }
                self.clamp_caret();
                self.record_caret();
            },
            Err(err) => {
                let fault = editor::fault_of(err);
                self.status = Some(text::concat("image: ", fault.message()));
            },
        }
    }

    /// Put an image over the selection, whose text becomes its alternative text, or at the
    /// caret with the one given.
    pub fn insert_image(&mut self, destination: &str, alt: &str)
        requires
            old(self).wf(),
        ensures
            final(self)@ == old(self)@.imaged(destination@, alt@),
            final(self).wf(),
            old(self)@.steady() ==> final(self)@.steady(),
            old(self)@.faithful() && !old(self)@.image_given_up(destination@, alt@)
                ==> final(self)@.faithful(),
    {
        let (start, end) = self.selection_or_caret();
        self.record_caret();
        proof {
            text::lemma_empty(alt@);
        }
        if start == end && text::len(alt) > 0 {
            match editor::insert_literal(&mut self.editor, start, alt) {
                Ok(change) => {
                    self.picture(change.new.start, change.new.end, destination);
                },
                Err(err) => {
                    let fault = editor::fault_of(err);
                    self.status = Some(text::concat("image: ", fault.message()));
                },
            }
        } else {
            self.picture(start, end, destination);
        }
    }

    /// Put a medium over the selection or at the caret: an image as one, another as an
    /// HTML element.
    pub fn insert_media(&mut self, kind: MediaKind, destination: &str, alt: &str)
        requires
            old(self).wf(),
        ensures
            final(self)@ == old(self)@.with_medium(kind, destination@, alt@),
            final(self).wf(),
            old(self)@.steady() ==> final(self)@.steady(),
            old(self)@.faithful() && !(kind == MediaKind::Image && old(self)@.image_given_up(
                destination@,
                alt@,
            )) ==> final(self)@.faithful(),
    {
        if kind == MediaKind::Image {
            self.insert_image(destination, alt);
            return;
        }
        let (start, end) = self.selection_or_caret();
        let tag = if kind == MediaKind::Audio {
            "audio"
        } else {
            "video"
        };
        let mut out = text::chars_of("<");
        text::append_str(&mut out, tag);
        text::append_str(&mut out, " src=\"");
        text::append_str(&mut out, destination);
        text::append_str(&mut out, "\" controls>");
        match self.selected_text() {
            Some(picked) => text::append_str(&mut out, picked),
            None => text::append_str(&mut out, alt),
        }
        text::append_str(&mut out, "</");
        text::append_str(&mut out, tag);
        text::append_str(&mut out, ">");
        let markup = text::string_of(out.as_slice(), 0, out.len());
        assert(markup@ =~= self@.media_markup(kind, destination@, alt@));
        self.splice(start, end, markup.as_str(), EditKind::Other);
    }

    /// Where the link at the caret leads: its destination, or the text of one without.
    pub fn link_destination_at_caret(&mut self) -> (r: Option<String>)
        ensures
            doc::words_of(r) == old(self)@.link_target(),
            final(self)@ == old(self)@,
    {
        let nodes = editor::nodes(&mut self.editor);
        match outline::find_deepest(&nodes, Sought::Links, self.caret) {
            Some(i) => {
                assert(node::node_views(nodes@)[i as int] == nodes@[i as int]@);
                match &nodes[i].destination {
                    Some(to) => Some(to.as_str().to_owned()),
                    None => match &nodes[i].text {
                        Some(label) => Some(label.as_str().to_owned()),
                        None => None,
                    },
                }
            },
            None => None,
        }
    }

    /// Where the image at the caret leads.
    pub fn image_destination_at_caret(&mut self) -> (r: Option<String>)
        ensures
            doc::words_of(r) == old(self)@.image_target(),
            final(self)@ == old(self)@,
    {
        let nodes = editor::nodes(&mut self.editor);
        match outline::find_deepest(&nodes, Sought::Image, self.caret) {
            Some(i) => {
                assert(node::node_views(nodes@)[i as int] == nodes@[i as int]@);
                match &nodes[i].destination {
                    Some(to) => Some(to.as_str().to_owned()),
                    None => None,
                }
            },
            None => None,
        }
    }

    /// The range of the language of the fenced code block at the caret.
    fn code_info_at_caret(&mut self) -> (r: Option<(usize, usize)>)
        ensures
            match r {
                Some((from, to)) => old(self)@.code_info() == Some((from as int, to as int)) && from
                    <= to <= old(self)@.len() && text::boundary(old(self)@.source, from as int)
                    && text::boundary(old(self)@.source, to as int),
                None => old(self)@.code_info() is None,
            },
            final(self)@ == old(self)@,
    {
        let nodes = editor::nodes(&mut self.editor);
        match outline::find_deepest(&nodes, Sought::CodeBlock, self.caret) {
            Some(i) => {
                assert(node::node_views(nodes@)[i as int] == nodes@[i as int]@);
                code_info_span(self.source.as_str(), nodes[i].span.start)
            },
            None => None,
        }
    }

    /// The language of the fenced code block at the caret.
    pub fn code_language_at_caret(&mut self) -> (r: Option<String>)
        ensures
            doc::words_of(r) == old(self)@.code_language(),
            final(self)@ == old(self)@,
    {
        match self.code_info_at_caret() {
            Some((from, to)) => if from < to {
                Some(text::substr(self.source.as_str(), from, to).to_owned())
            } else {
                None
            },
            None => None,
        }
    }

    /// Whether the caret is in a fenced code block.
    pub fn caret_in_fenced_code(&mut self) -> (r: bool)
        ensures
            r == (old(self)@.code_info() is Some),
            final(self)@ == old(self)@,
    {
        self.code_info_at_caret().is_some()
    }

    /// Set the language of the fenced code block at the caret, or clear it.
    pub fn set_code_language(&mut self, lang: &str)
        requires
            old(self).wf(),
        ensures
            final(self)@ == old(self)@.with_language(lang@),
            final(self).wf(),
            old(self)@.steady() ==> final(self)@.steady(),
            old(self)@.faithful() ==> final(self)@.faithful(),
    {
        match self.code_info_at_caret() {
            Some((from, to)) => {
                let lang = text::trim(lang);
                self.splice(from, to, lang.as_str(), EditKind::Other);
            },
            None => {},
        }
    }

    /// The names of the nodes that the caret is in, the outermost first.
    pub fn breadcrumb(&mut self) -> (r: String)
        ensures
            r@ == outline::trail(old(self)@.chain(old(self)@.caret)),
            final(self)@ == old(self)@,
    {
        let chain = self.chain_at(self.caret);
        outline::crumbs(&chain)
    }

    /// The range of the top-level block at an offset.
    fn top_block_span(&mut self, off: usize) -> (r: Option<Span>)
        ensures
            r == old(self)@.top_block(off as int),
            final(self)@ == old(self)@,
    {
        let chain = self.chain_at(off);
        if chain.len() > 1 {
            assert(editor::chain_view(chain@)[1] == chain@[1]@);
            Some(chain[1].span)
        } else {
            None
        }
    }

    /// Whether a range is part of one block, and not all of it.
    fn selection_is_inline(&mut self, start: usize, end: usize) -> (r: bool)
        requires
            start < end <= old(self)@.len(),
            text::boundary(old(self)@.source, end as int),
        ensures
            r == old(self)@.within_block(start as int, end as int),
            final(self)@ == old(self)@,
    {
        proof {
            text::lemma_boundary_ends(self@.source);
            text::lemma_slice(self@.source, 0, end as int);
            text::lemma_empty(text::slice(self@.source, 0, end as int));
        }
        let head = text::chars_of(text::substr(self.source.as_str(), 0, end));
        proof {
            text::lemma_next_offset(head@, head@.len() - 1);
            text::lemma_offset_of(head@, head@.len() - 1);
            assert(head@.take(head@.len() as int) =~= head@);
        }
        let last: usize = end - text::char_len(head[head.len() - 1]);
        match (self.top_block_span(start), self.top_block_span(last)) {
            (Some(head), Some(tail)) => head == tail && !(start <= head.start && end >= head.end),
            _ => false,
        }
    }

    /// The selection as HTML for the clipboard: without a paragraph around it where it is
    /// part of a line.
    pub fn selection_html(&mut self) -> (r: Option<String>)
        requires
            old(self).wf(),
        ensures
            doc::words_of(r) == old(self)@.rich_copy(),
            final(self)@ == old(self)@,
    {
        let (s, e) = match self.selection() {
            Some(range) => range,
            None => {
                return None;
            },
        };
        let inline = self.selection_is_inline(s, e);
        let picked = text::substr(self.source.as_str(), s, e);
        match html::render_fragment(picked, self.format) {
            Some(page) => if inline {
                Some(html::strip_sole_paragraph(page))
            } else {
                Some(page)
            },
            None => None,
        }
    }

    /// The cell of a column in the last row of the table at the caret, as it stands.
    fn find_bottom_cell(&mut self, col: usize) -> (r: Option<Cell>)
        requires
            old(self).wf(),
        ensures
            r == old(self)@.bottom_cell(col as int),
            final(self)@ == old(self)@,
    {
        let current = match self.vmap_key {
            Some(key) => key.revision == self.revision,
            None => false,
        };
        if current {
            return match self.vmap.table_grid_at(self.caret) {
                Some((t, _, _)) => {
                    let grid = &self.vmap.tables[t].grid;
                    assert(grid@.len() == self@.map.tables[t as int].len());
                    let row = &grid[grid.len() - 1];
                    assert(row@ == self@.map.tables[t as int].last());
                    if row.len() == 0 {
                        None
                    } else if col < row.len() {
                        Some(row[col])
                    } else {
                        Some(row[row.len() - 1])
                    }
                },
                None => None,
            };
        }
        let nodes = editor::nodes(&mut self.editor);
        let spans = tables::find_spans(&nodes, Kind::Table);
        match tables::find_holding(&spans, self.caret) {
            Some(table) => {
                let rows = tables::find_spans(&nodes, Kind::Row);
                match tables::find_last_within(&rows, spans[table]) {
                    Some(row) => {
                        let cells = tables::find_row_cells(&nodes, row);
                        if cells.len() == 0 {
                            None
                        } else {
                            let last: usize = cells.len() - 1;
                            let cell = cells[if col < last {
                                col
                            } else {
                                last
                            }];
                            Some(Cell { start: cell.start, end: cell.end })
                        }
                    },
                    None => None,
                }
            },
            None => None,
        }
    }

    /// Append a row to the table at the caret, and enter it in a column.
    fn append_row_and_enter(&mut self, col: usize)
        requires
            old(self).wf(),
        ensures
            final(self)@ == old(self)@.row_appended(col),
            final(self).wf(),
            old(self)@.steady() ==> final(self)@.steady(),
            old(self)@.faithful() ==> final(self)@.faithful(),
    {
        let nodes = editor::nodes(&mut self.editor);
        let spans = tables::find_spans(&nodes, Kind::Table);
        let table = tables::find_holding(&spans, self.caret);
        if !self.put_row(true) {
            if let Some(cell) = self.find_bottom_cell(col) {
                self.select_cell(cell);
            }
            return;
        }
        let table = match table {
            Some(table) => table,
            None => {
                return;
            },
        };
        let nodes = editor::nodes(&mut self.editor);
        let spans = tables::find_spans(&nodes, Kind::Table);
        if table >= spans.len() {
            return;
        }
        let rows = tables::find_spans(&nodes, Kind::Row);
        if let Some(row) = tables::find_last_within(&rows, spans[table]) {
            if let Some(home) = tables::find_cell_home(self.source.as_str(), row, col) {
                self.select_cell(Cell { start: home, end: home });
            }
        }
    }

    /// Tab in a table: the next cell, and from the last one a new row. Tells whether the
    /// caret is in a table.
    pub fn cell_tab(&mut self, forward: bool) -> (r: bool)
        requires
            old(self).wf(),
        ensures
            r == old(self)@.in_table(),
            final(self)@ == old(self)@.tabbed(forward),
            final(self).wf(),
            old(self)@.steady() ==> final(self)@.steady(),
            old(self)@.faithful() ==> final(self)@.faithful(),
    {
        if !self.caret_in_table() {
            return false;
        }
        if self.cell_hop(forward) {
            return true;
        }
        if forward {
            self.append_row_and_enter(0);
        }
        true
    }

    /// Return in a table: the cell below, and from the last row a new one. Tells whether
    /// the caret is in a table.
    pub fn cell_return(&mut self) -> (r: bool)
        requires
            old(self).wf(),
        ensures
            r == old(self)@.in_table(),
            final(self)@ == old(self)@.returned(),
            final(self).wf(),
            old(self)@.steady() ==> final(self)@.steady(),
            old(self)@.faithful() ==> final(self)@.faithful(),
    {
        if !self.caret_in_table() {
            return false;
        }
        if self.cell_move_vertical(true) {
            return true;
        }
        let col: usize = match self.vmap.table_grid_at(self.caret) {
            Some((_, _, col)) => col,
            None => 0,
        };
        self.append_row_and_enter(col);
        true
    }

    /// Break the line within the table cell at the caret. Tells whether the caret is in a
    /// table.
    pub fn cell_line_break(&mut self) -> (r: bool)
        requires
            old(self).wf(),
        ensures
            r == old(self)@.in_table(),
            final(self)@ == (if r {
                old(self)@.cell_broken()
            } else {
                old(self)@
            }),
            final(self).wf(),
            old(self)@.steady() ==> final(self)@.steady(),
            old(self)@.faithful() ==> final(self)@.faithful(),
    {
        if !self.caret_in_table() {
            return false;
        }
        self.record_caret();
        match editor::insert_line_break(&mut self.editor, self.caret) {
            Ok(change) => {
                self.last_edit_kind = None;
                self.refresh();
                self.caret = self.settle(change.new.end);
                self.anchor = None;
                self.goal_col = None;
                proof {
                    doc::lemma_clamped_valid(self@.rated());
                }
                self.clamp_caret();
                self.rate();
                self.status = None;
                self.record_caret();
            },
            Err(err) => {
                if editor::fault_of(err) == Fault::UnsupportedFormat {
                    self.status = Some("in-cell line breaks aren't supported in djot".to_owned());
                }
            },
        }
        true
    }
}

} // verus!

//! The block structure of a document: lines, lists, headings, containers and tables.

use vstd::prelude::*;
use vstd::utf8::*;
use crate::doc;
use crate::doc::{Doc, DocView};
use crate::edges;
use crate::edits;
use crate::editor;
use crate::editor::{Effect, Fault};
use crate::format::Format;
use crate::history;
use crate::indent;
use crate::indent::{Reindent, ReindentView};
use crate::lines;
use crate::lists;
use crate::modes;
use crate::modes::{Alignment, BlockContainerKind, BlockKind, EditKind, LineFlow};
use crate::motion;
use crate::node;
use crate::node::{Kind, Span};
use crate::outline;
use crate::tables;
use crate::text;
use crate::typing;

verus! {

broadcast use {history::lemma_parsable_stepped, history::lemma_parsable_coalesced};

impl BlockKind {
    /// The word for a kind of block.
    pub open spec fn word(self) -> Seq<char> {
        match self {
            BlockKind::Paragraph => "Paragraph"@,
            BlockKind::Heading(level) => "Heading("@ + lists::numeral(level as nat) + ")"@,
        }
    }

    /// The word for the kind of block, as a status line shows it.
    pub fn label(self) -> (r: String)
        ensures
            r@ == self.word(),
    {
        match self {
            BlockKind::Paragraph => "Paragraph".to_owned(),
            BlockKind::Heading(level) => {
                let mut out = text::chars_of("Heading(");
                lists::push_numeral(&mut out, level as u128);
                text::append_str(&mut out, ")");
                let r = text::string_of(out.as_slice(), 0, out.len());
                assert(r@ =~= self.word());
                r
            },
        }
    }
}

impl BlockContainerKind {
    /// The word for a kind of container.
    pub open spec fn word(self) -> Seq<char> {
        match self {
            BlockContainerKind::BlockQuote => "BlockQuote"@,
            BlockContainerKind::BulletList => "BulletList"@,
            BlockContainerKind::OrderedList => "OrderedList"@,
        }
    }

    /// The word for the kind of container, as a status line shows it.
    pub fn label(self) -> (r: &'static str)
        ensures
            r@ == self.word(),
    {
        match self {
            BlockContainerKind::BlockQuote => "BlockQuote",
            BlockContainerKind::BulletList => "BulletList",
            BlockContainerKind::OrderedList => "OrderedList",
        }
    }
}

/// The line of a range that the caret is in, counted from the range's start, and how far
/// it stands from that line's end.
pub open spec fn tail_place(b: Seq<u8>, caret: int, old: Span) -> (int, int) {
    let from = text::least(old.start as int, b.len() as int);
    let to = text::least(old.end as int, b.len() as int);
    let at = if caret < from {
        from
    } else if caret > to {
        if to < from {
            from
        } else {
            to
        }
    } else {
        caret
    };
    let end = text::least(lines::eol(b, at), to);
    (
        lines::newlines(b, at) - lines::newlines(b, from),
        if end > at {
            end - at
        } else {
            0
        },
    )
}

/// The start of the line that comes `line` lines after the one at `at`, or of the last
/// line before `stop`.
pub open spec fn line_from(b: Seq<u8>, at: int, stop: int, line: int) -> int
    decreases line,
{
    let end = lines::eol(b, at);
    if line <= 0 || end >= stop {
        at
    } else {
        line_from(b, end + 1, stop, line - 1)
    }
}

/// The offset that stands in a range's line as far from its end as it did before, and no
/// earlier than the line's start.
pub open spec fn tail_offset(b: Seq<u8>, new: Span, line: int, tail: int) -> int {
    let from = text::least(new.start as int, b.len() as int);
    let to = text::least(new.end as int, b.len() as int);
    let start = line_from(b, from, to, line);
    let end = text::least(lines::eol(b, start), to);
    if end - tail > start {
        end - tail
    } else {
        start
    }
}

impl DocView {
    /// The list marker that the line of an offset opens with: where the line and the sign
    /// start, and where the marker ends.
    pub open spec fn marker(self, off: int) -> Option<(int, int, int)> {
        let b = encode_utf8(self.source);
        let start = lines::bol(b, text::least(off, self.len()));
        match lists::marker_at(b, start) {
            Some(m) => Some((start, m.0, m.1)),
            None => None,
        }
    }

    /// Whether an offset is in a list item.
    pub open spec fn in_list(self, off: int) -> bool {
        outline::chain_has(self.chain(off), Kind::ListItem) || outline::chain_has(
            self.chain(off),
            Kind::TaskListItem,
        )
    }

    /// The range of the list marker on the caret's line, where the line is in a list item.
    pub open spec fn item_marker(self) -> Option<(int, int)> {
        match self.marker(self.caret) {
            Some((start, _, end)) => if self.in_list(start) {
                Some((start, end))
            } else {
                None
            },
            None => None,
        }
    }

    /// Whether the line of an offset holds nothing but white space.
    pub open spec fn blank_line(self, off: int) -> bool {
        let b = encode_utf8(self.source);
        text::all_space(text::slice(self.source, lines::bol(b, off), lines::eol(b, off)))
    }

    /// The document with the ordered list at the caret numbered from one, by a step that
    /// joins the one before it.
    pub open spec fn renumbered(self) -> DocView {
        match editor::lists_renumbered(self.setup, self.bytes, self.caret) {
            Err(_) => self,
            Ok(outcome) => {
                let d = (match outcome {
                    Some(bytes) => self.stepped(bytes),
                    None => self,
                }).refreshed();
                if d.source != self.source {
                    d.coalesced().rated().clamped().noted()
                } else {
                    d
                }
            },
        }
    }

    /// Which of the lines that an indent touches are the first item of a list.
    pub open spec fn first_items(self) -> Seq<bool> {
        let b = encode_utf8(self.source);
        let (from, to) = self.target();
        let start = lines::bol(b, from);
        let ls = indent::lines_of(text::slice(self.source, start, lines::eol(b, to)));
        Seq::new(
            ls.len(),
            |i: int|
                outline::first_item(self.nodes(), self.source, start + indent::lines_len(ls, i)),
        )
    }

    /// The rewriting that an indent or an outdent asks for.
    pub open spec fn reindent(self, add: bool) -> Option<ReindentView> {
        indent::reindent_of(
            self.source,
            self.selected(),
            self.caret,
            add,
            if add {
                self.first_items()
            } else {
                Seq::empty()
            },
        )
    }

    /// The document with lines rewritten as planned, as one edit.
    pub open spec fn lines_rewritten(self, plan: ReindentView) -> DocView {
        let d = self.spliced(plan.start, plan.end, plan.text, EditKind::Other);
        if self.refused(plan.start, plan.end, plan.text) is Some {
            d
        } else {
            DocView {
                caret: d.settled(plan.caret),
                anchor: match plan.anchor {
                    Some(a) => Some(d.settled(a)),
                    None => None,
                },
                ..d
            }.clamped().noted()
        }
    }

    /// The document with its lines indented or outdented, as one edit.
    pub open spec fn reindented(self, add: bool) -> DocView {
        match self.reindent(add) {
            None => self,
            Some(plan) => self.lines_rewritten(plan),
        }
    }

    /// Whether an indent or an outdent edits the document.
    pub open spec fn reindents(self, add: bool) -> bool {
        self.reindent(add) matches Some(plan) && self.refused(plan.start, plan.end, plan.text)
            is None
    }

    /// The dash of an empty list item on the caret's line that has turned the line above
    /// it into a heading.
    pub open spec fn collapsing_dash(self) -> Option<int> {
        let b = encode_utf8(self.source);
        match self.marker(self.caret) {
            None => None,
            Some((_, sign, end)) => if b[sign] == 45 && text::all_space(
                text::slice(self.source, end, lines::eol(b, end)),
            ) && outline::chain_has(self.chain(sign), Kind::Heading) {
                Some(sign)
            } else {
                None
            },
        }
    }

    /// The document with such a dash made a star, which can underline nothing.
    pub open spec fn unsetext(self) -> DocView {
        match self.collapsing_dash() {
            None => self,
            Some(dash) => {
                let d = self.spliced(dash, dash + 1, "*"@, EditKind::Other);
                if self.refused(dash, dash + 1, "*"@) is Some {
                    d
                } else {
                    DocView { caret: d.settled(self.caret), ..d.coalesced() }.clamped().noted()
                }
            },
        }
    }

    /// Whether an offset is in a block that is no mere container.
    pub open spec fn has_block(self, off: int) -> bool {
        motion::inner_block(self.chain(off)) is Some
    }

    /// Where the character before an offset starts.
    pub open spec fn char_before(self, off: int) -> int {
        let head = text::slice(self.source, 0, off);
        text::offset_of(head, head.len() - 1)
    }

    /// The offset of the block that the caret is in or right behind.
    pub open spec fn block_offset(self) -> Option<int> {
        let head = text::slice(self.source, 0, self.caret);
        if self.has_block(self.caret) {
            Some(self.caret)
        } else if head.len() > 0 && head.last() != '\n' && self.has_block(
            self.char_before(self.caret),
        ) {
            Some(self.char_before(self.caret))
        } else {
            None
        }
    }

    /// The same, or the caret where there is none.
    pub open spec fn block_or_caret(self) -> int {
        match self.block_offset() {
            Some(off) => off,
            None => self.caret,
        }
    }

    /// The document with its caret past the closing delimiters that stand at it.
    pub open spec fn past_delims(self) -> DocView {
        DocView { caret: edges::close_past(self.runs(self.caret), self.caret), ..self }
    }

    /// A line break in a list item: an empty item ends the list, another is followed by
    /// the next.
    pub open spec fn list_broken(self, start: int, end: int) -> DocView {
        let (from, to, new, kind) = self.list_break(start, end);
        self.spliced(from, to, new, kind)
    }

    /// The edit of a line break in a list item: the range, what replaces it, and the kind.
    pub open spec fn list_break(self, start: int, end: int) -> (int, int, Seq<char>, EditKind) {
        let b = encode_utf8(self.source);
        let to = lines::eol(b, self.caret);
        let rest = text::slice(
            self.source,
            end,
            if to > end {
                to
            } else {
                end
            },
        );
        if text::all_space(rest) {
            (start, self.caret, "\n"@, EditKind::Other)
        } else {
            let new = "\n"@ + lists::marker_after(text::slice(self.source, start, end));
            (self.target().0, self.target().1, new, edits::typed_kind(new))
        }
    }

    /// A new line, where nothing is selected in the rendered view: it continues what the
    /// caret is in.
    pub open spec fn broken(self) -> DocView {
        let chain = self.chain(self.block_or_caret());
        if outline::chain_has(chain, Kind::CodeBlock) {
            self.typed("\n"@)
        } else if let Some((start, end)) = self.item_marker() {
            self.list_broken(start, end).renumbered()
        } else if outline::chain_has(chain, Kind::BlockQuote) {
            self.typed("\n> "@)
        } else if self.blank_line(self.caret) || self.line_flow == LineFlow::Preserve {
            self.typed("\n"@)
        } else {
            self.typed("\n\n"@)
        }
    }

    /// A new line.
    pub open spec fn newlined(self) -> DocView {
        if self.view == modes::View::Source {
            self.typed("\n"@)
        } else {
            match self.selected() {
                Some((s, e)) => self.spliced(s, e, "\n\n"@, EditKind::Other),
                None => self.past_delims().broken(),
            }
        }
    }

    /// The document with the text that a gesture left read back: nothing is selected, and
    /// the next edit starts a step of its own.
    pub open spec fn after_gesture(self) -> DocView {
        let d = DocView { last_edit: None, ..self }.refreshed();
        DocView { anchor: None, status: None, ..d.clamped() }.rated().noted()
    }

    /// The document with the block at the caret made a block of a kind; on an empty line
    /// the kind's prefix is typed.
    pub open spec fn block_made(self, kind: BlockKind) -> DocView {
        match self.block_offset() {
            Some(off) => self.noted().converted(off, kind),
            None => self.noted().prefixed(kind),
        }
    }

    /// The document with the block at an offset made a block of a kind.
    pub open spec fn converted(self, off: int, kind: BlockKind) -> DocView {
        match editor::block_set(self.setup, self.bytes, off, kind) {
            Ok(Some(bytes)) => self.stepped(bytes).after_gesture(),
            Ok(None) => self.after_gesture(),
            Err(fault) => DocView { status: Some(kind.word() + ": "@ + fault.words()), ..self },
        }
    }

    /// The document with the prefix of a kind of block typed on an empty line.
    pub open spec fn prefixed(self, kind: BlockKind) -> DocView {
        match kind {
            BlockKind::Paragraph => self,
            BlockKind::Heading(level) => if self.format == Format::Markdown || self.format
                == Format::Djot {
                self.typed(hashes(level as int) + " "@)
            } else {
                DocView {
                    status: Some(kind.word() + ": nothing to convert on an empty line"@),
                    ..self
                }
            },
        }
    }

    /// The level of the heading that the caret is in.
    pub open spec fn heading_level(self) -> Option<u32> {
        outline::level_at(self.nodes(), self.caret)
    }

    /// Whether the caret is in a table.
    pub open spec fn in_table(self) -> bool {
        outline::chain_has(self.chain(self.caret), Kind::Table)
    }

    /// What a table gesture leaves of the document.
    pub open spec fn tabled(self, outcome: Result<Effect, Fault>, what: Seq<char>) -> DocView {
        match outcome {
            Ok(effect) => self.noted().stepped(effect.bytes).after_gesture(),
            Err(fault) => DocView { status: Some(what + ": "@ + fault.words()), ..self.noted() },
        }
    }

    /// What moving the caret's column does: behind the last column there is none to move,
    /// and no table of a markup language is rewritten.
    pub open spec fn column_move(self, right: bool) -> Result<Effect, Fault> {
        if !right && !tables::in_a_column(self.nodes(), self.bytes, self.caret) {
            Err(
                if self.format == Format::Markdown || self.format == Format::Djot {
                    Fault::NotEditable
                } else {
                    Fault::UnsupportedFormat
                },
            )
        } else {
            editor::column_moved(self.setup, self.bytes, self.caret, right)
        }
    }

    /// What putting blocks in a container or taking them out does: on a blank line that is
    /// in no block there is nothing to put in one.
    pub open spec fn container_outcome(
        self,
        start: int,
        end: int,
        kind: BlockContainerKind,
    ) -> Result<Effect, Fault> {
        if self.selected() is None && self.block_offset() is None && self.blank_line(self.caret) {
            Err(Fault::NotFound)
        } else {
            editor::container_toggled(self.setup, self.bytes, start, end, kind)
        }
    }

    /// What is left after the bytes in a span were put in a container or taken out: the span
    /// selected, or the caret in one of its lines, as far from the line's end as it was.
    pub open spec fn container_left(
        self,
        new: Span,
        selected: bool,
        line: int,
        tail: int,
    ) -> DocView {
        let d = DocView { last_edit: None, ..self }.refreshed();
        DocView {
            anchor: if selected {
                Some(d.settled(new.start as int))
            } else {
                None
            },
            caret: if selected {
                d.settled(new.end as int)
            } else {
                d.settled(tail_offset(encode_utf8(d.source), new, line, tail))
            },
            status: None,
            ..d
        }.rated().clamped().noted()
    }

    /// The document with the selected blocks, or the caret's, put in a container or taken
    /// out. What was selected stays so; otherwise the caret keeps its place in its line,
    /// counted from the line's end.
    pub open spec fn contained(self, kind: BlockContainerKind) -> DocView {
        let (start, end) = match self.selected() {
            Some(range) => range,
            None => (self.block_or_caret(), self.block_or_caret()),
        };
        match self.container_outcome(start, end, kind) {
            Err(fault) => DocView {
                status: Some(kind.word() + ": "@ + fault.words()),
                ..self.noted()
            },
            Ok(effect) => {
                let (line, tail) = tail_place(
                    encode_utf8(self.source),
                    self.caret,
                    effect.change.old,
                );
                self.noted().stepped(effect.bytes).container_left(
                    effect.change.new,
                    self.selected() is Some,
                    line,
                    tail,
                )
            },
        }
    }

    /// The caret's block made a heading of a level, or where it is one a paragraph.
    pub open spec fn heading_toggled(self, level: u32) -> DocView {
        self.block_made(
            if self.heading_level() == Some(level) {
                BlockKind::Paragraph
            } else {
                BlockKind::Heading(level)
            },
        )
    }

    /// The selected blocks, or the caret's, quoted or taken out of the quote.
    pub open spec fn quoted(self) -> DocView {
        self.contained(BlockContainerKind::BlockQuote)
    }

    /// The selected blocks, or the caret's, made a list or taken out of one.
    pub open spec fn listed(self, ordered: bool) -> DocView {
        self.contained(
            if ordered {
                BlockContainerKind::OrderedList
            } else {
                BlockContainerKind::BulletList
            },
        )
    }

    /// The lines indented by a level.
    pub open spec fn indented(self) -> DocView {
        self.reindented(true).renumbered().unsetext()
    }

    /// The lines outdented by a level.
    pub open spec fn outdented(self) -> DocView {
        self.reindented(false).renumbered()
    }

    /// A row put below the caret's, or above it.
    pub open spec fn row_put(self, below: bool) -> DocView {
        self.tabled(
            editor::row_inserted(self.setup, self.bytes, self.caret, below),
            "table row"@,
        )
    }

    /// The caret's row deleted.
    pub open spec fn row_dropped(self) -> DocView {
        self.tabled(editor::row_deleted(self.setup, self.bytes, self.caret), "table row"@)
    }

    /// A column put right of the caret's, or left of it.
    pub open spec fn column_put(self, right: bool) -> DocView {
        self.tabled(
            editor::column_inserted(self.setup, self.bytes, self.caret, right),
            "table column"@,
        )
    }

    /// The caret's column deleted.
    pub open spec fn column_dropped(self) -> DocView {
        self.tabled(editor::column_deleted(self.setup, self.bytes, self.caret), "table column"@)
    }

    /// The caret's column aligned.
    pub open spec fn column_set(self, alignment: Alignment) -> DocView {
        self.tabled(
            editor::column_aligned(self.setup, self.bytes, self.caret, alignment),
            "table alignment"@,
        )
    }

    /// The caret's row moved down, or up.
    pub open spec fn row_shifted(self, down: bool) -> DocView {
        self.tabled(editor::row_moved(self.setup, self.bytes, self.caret, down), "table row"@)
    }

    /// The caret's column moved right, or left.
    pub open spec fn column_shifted(self, right: bool) -> DocView {
        self.tabled(self.column_move(right), "table column"@)
    }

    /// A thematic break at the caret or over the selection.
    pub open spec fn ruled(self) -> DocView {
        let d = self.past_delims();
        if outline::chain_has(d.chain(d.block_or_caret()), Kind::CodeBlock) {
            DocView {
                status: Some("thematic break: not available inside a code block"@),
                ..d
            }
        } else {
            match d.selected() {
                Some((s, e)) => d.spliced(s, e, "\n\n---\n\n"@, EditKind::Other),
                None => if d.blank_line(d.caret) {
                    d.typed("---\n\n"@)
                } else {
                    d.typed("\n\n---\n\n"@)
                },
            }
        }
    }
}

/// Hash signs.
pub open spec fn hashes(n: int) -> Seq<char> {
    Seq::new(n as nat, |i: int| '#')
}

/// How many newlines stand before an offset grows with it.
proof fn lemma_newlines_grow(b: Seq<u8>, from: int, to: int)
    requires
        0 <= from <= to <= b.len(),
    ensures
        lines::newlines(b, from) <= lines::newlines(b, to),
    decreases to,
{
    if from < to {
        lemma_newlines_grow(b, from, to - 1);
    }
}

/// The line of a range that the caret is in, and how far it stands from that line's end.
pub fn caret_line_tail(source: &str, caret: usize, old: Span) -> (r: (usize, usize))
    ensures
        (r.0 as int, r.1 as int) == tail_place(encode_utf8(source@), caret as int, old),
{
    let len = text::len(source);
    let from: usize = if old.start <= len {
        old.start
    } else {
        len
    };
    let to: usize = if old.end <= len {
        old.end
    } else {
        len
    };
    let at: usize = if caret < from {
        from
    } else if caret > to {
        if to < from {
            from
        } else {
            to
        }
    } else {
        caret
    };
    proof {
        lemma_newlines_grow(encode_utf8(source@), from as int, at as int);
    }
    let line: usize = lines::count_newlines(source, at) - lines::count_newlines(source, from);
    let eol = lines::line_end_from(source, at);
    let end: usize = if eol <= to {
        eol
    } else {
        to
    };
    (
        line,
        if end > at {
            end - at
        } else {
            0
        },
    )
}

/// The offset that stands in a range's line as far from its end as it did before.
pub fn line_tail_offset(source: &str, new: Span, line: usize, tail: usize) -> (r: usize)
    ensures
        r == tail_offset(encode_utf8(source@), new, line as int, tail as int),
        r <= text::byte_len(source@),
{
    let len = text::len(source);
    let from: usize = if new.start <= len {
        new.start
    } else {
        len
    };
    let to: usize = if new.end <= len {
        new.end
    } else {
        len
    };
    let ghost b = encode_utf8(source@);
    let mut start: usize = from;
    let mut left: usize = line;
    let mut eol = lines::line_end_from(source, start);
    while left > 0 && eol < to
        invariant
            start <= len,
            to <= len,
            len == text::byte_len(source@),
            b == encode_utf8(source@),
            eol == lines::eol(b, start as int),
            line_from(b, from as int, to as int, line as int) == line_from(
                b,
                start as int,
                to as int,
                left as int,
            ),
        decreases left,
    {
        start = eol + 1;
        left = left - 1;
        eol = lines::line_end_from(source, start);
    }
    let end: usize = if eol <= to {
        eol
    } else {
        to
    };
    if end >= tail && end - tail > start {
        end - tail
    } else {
        start
    }
}

impl Doc {
    /// The list marker on the line of an offset: where the line and the sign start, and
    /// where the marker ends.
    pub(crate) fn marker_on_line(&self, off: usize) -> (r: Option<(usize, usize, usize)>)
        ensures
            match r {
                Some((start, sign, end)) => self@.marker(off as int) == Some(
                    (start as int, sign as int, end as int),
                ) && start <= sign < end <= self@.len() && text::boundary(
                    self@.source,
                    start as int,
                ) && text::boundary(self@.source, sign as int) && text::boundary(
                    self@.source,
                    sign + 1,
                ) && text::boundary(self@.source, end as int),
                None => self@.marker(off as int) is None,
            },
    {
        let src = self.source.as_str();
        let len = text::len(src);
        let off: usize = if off <= len {
            off
        } else {
            len
        };
        let start = lines::start_of_line(src, off);
        match lists::find_marker(src.as_bytes(), start) {
            Some((sign, end)) => {
                proof {
                    lists::lemma_marker_at(encode_utf8(self@.source), start as int);
                    text::lemma_ascii_boundary(self@.source, end - 1);
                    text::lemma_ascii_boundary(self@.source, sign as int);
                }
                Some((start, sign, end))
            },
            None => None,
        }
    }

    /// Whether an offset is in a list item.
    pub(crate) fn is_inside_list(&mut self, off: usize) -> (r: bool)
        ensures
            r == old(self)@.in_list(off as int),
            final(self)@ == old(self)@,
    {
        let chain = self.chain_at(off);
        outline::holds_kind(&chain, Kind::ListItem) || outline::holds_kind(
            &chain,
            Kind::TaskListItem,
        )
    }

    /// Whether the line of an offset holds nothing but white space.
    pub(crate) fn on_blank_line(&self, off: usize) -> (r: bool)
        requires
            off <= self@.len(),
        ensures
            r == self@.blank_line(off as int),
    {
        let src = self.source.as_str();
        let start = lines::start_of_line(src, off);
        let end = lines::line_end_from(src, off);
        text::is_blank(text::substr(src, start, end))
    }

    /// Number the ordered list at the caret from one. It undoes together with the edit
    /// that made it necessary.
    pub(crate) fn renumber_here(&mut self)
        requires
            old(self).wf(),
        ensures
            final(self)@ == old(self)@.renumbered(),
            final(self).wf(),
            old(self)@.steady() ==> final(self)@.steady(),
            old(self)@.faithful() ==> final(self)@.faithful(),
    {
        let before = text::concat(self.source.as_str(), "");
        proof {
            reveal_strlit("");
            assert(before@ =~= self@.source);
        }
        if editor::renumber_ordered_lists(&mut self.editor, self.caret).is_err() {
            return;
        }
        proof {
            typing::lemma_refreshed_valid(self@);
        }
        self.refresh();
        if !text::str_eq(self.source.as_str(), before.as_str()) {
            editor::coalesce_last_undo(&mut self.editor);
            self.rate();
            proof {
                doc::lemma_clamped_valid(self@);
            }
            self.clamp_caret();
            self.record_caret();
        }
    }

    /// Which of the lines that an indent touches are the first item of a list.
    fn first_items_here(&mut self) -> (r: Vec<bool>)
        requires
            old(self).wf(),
        ensures
            r@ == old(self)@.first_items(),
            final(self)@ == old(self)@,
    {
        let nodes = editor::nodes(&mut self.editor);
        let (from, to) = self.selection_or_caret();
        let src = self.source.as_str();
        let start = lines::start_of_line(src, from);
        let end = lines::line_end_from(src, to);
        proof {
            lines::lemma_bol(encode_utf8(self@.source), from as int);
            lines::lemma_eol(encode_utf8(self@.source), to as int);
        }
        let region = text::substr(src, start, end);
        let parts = indent::split_lines(region);
        let ghost ls = indent::views(parts@);
        proof {
            indent::law_lines_join(region@);
            indent::lemma_joined_len(ls);
            text::lemma_slice(self@.source, start as int, end as int);
        }
        let mut out: Vec<bool> = Vec::new();
        let mut at: usize = start;
        let mut i: usize = 0;
        while i < parts.len()
            invariant
                i <= parts@.len(),
                ls == indent::views(parts@),
                src@ == self@.source,
                self@ == old(self)@,
                start + indent::lines_len(ls, ls.len() as int) - 1 == end <= text::byte_len(src@),
                i < parts@.len() ==> at == start + indent::lines_len(ls, i as int),
                node::node_views(nodes@) == self@.nodes(),
                out@.len() == i,
                forall|k: int|
                    0 <= k < i ==> #[trigger] out@[k] == outline::first_item(
                        self@.nodes(),
                        self@.source,
                        start + indent::lines_len(ls, k),
                    ),
            decreases parts@.len() - i,
        {
            out.push(outline::first_item_of_list(&nodes, src, at));
            if i + 1 < parts.len() {
                let width = text::len(parts[i].as_str());
                proof {
                    assert(ls[i as int] == parts@[i as int]@);
                    assert(indent::lines_len(ls, i + 1) == indent::lines_len(ls, i as int)
                        + text::byte_len(ls[i as int]) + 1);
                    indent::lemma_lines_len_grows(ls, i + 2, ls.len() as int);
                    assert(indent::lines_len(ls, i + 2) > indent::lines_len(ls, i + 1));
                }
                at = at + width + 1;
            }
            i = i + 1;
        }
        assert(out@ =~= self@.first_items());
        out
    }

    /// Rewrite lines as planned, as one edit.
    fn rewrite_lines(&mut self, plan: Reindent)
        requires
            old(self).wf(),
            plan.start <= plan.end <= old(self)@.len() ==> text::boundary(
                old(self)@.source,
                plan.start as int,
            ) && text::boundary(old(self)@.source, plan.end as int),
        ensures
            final(self)@ == old(self)@.lines_rewritten(plan@),
            final(self).wf(),
            old(self)@.steady() ==> final(self)@.steady(),
            old(self)@.faithful() ==> final(self)@.faithful(),
    {
        if !self.splice(plan.start, plan.end, plan.text.as_str(), EditKind::Other) {
            return;
        }
        let caret = self.settle(plan.caret);
        let anchor: Option<usize> = match plan.anchor {
            Some(a) => Some(self.settle(a)),
            None => None,
        };
        self.caret = caret;
        self.anchor = anchor;
        proof {
            doc::lemma_clamped_valid(self@);
        }
        self.clamp_caret();
        self.record_caret();
    }

    /// Indent or outdent the lines that the selection touches, or the caret's, as one
    /// edit.
    fn reindent(&mut self, add: bool)
        requires
            old(self).wf(),
        ensures
            final(self)@ == old(self)@.reindented(add),
            final(self).wf(),
            old(self)@.steady() ==> final(self)@.steady(),
            old(self)@.faithful() ==> final(self)@.faithful(),
    {
        let firsts: Vec<bool> = if add {
            self.first_items_here()
        } else {
            Vec::new()
        };
        assert(firsts@ == (if add {
            self@.first_items()
        } else {
            Seq::empty()
        }));
        let selection = self.selection();
        let plan = match indent::plan_reindent(
            self.source.as_str(),
            selection,
            self.caret,
            add,
            &firsts,
        ) {
            Some(plan) => plan,
            None => {
                return;
            },
        };
        self.rewrite_lines(plan);
    }

    /// Indent the selected lines, or the caret's: a list item nests.
    pub fn indent(&mut self)
        requires
            old(self).wf(),
        ensures
            final(self)@ == old(self)@.indented(),
            final(self).wf(),
            old(self)@.steady() ==> final(self)@.steady(),
            old(self)@.faithful() ==> final(self)@.faithful(),
    {
        self.reindent(true);
        self.renumber_here();
        self.avoid_setext_collapse();
    }

    /// Outdent the selected lines, or the caret's: a nested list item comes out one level.
    pub fn outdent(&mut self)
        requires
            old(self).wf(),
        ensures
            final(self)@ == old(self)@.outdented(),
            final(self).wf(),
            old(self)@.steady() ==> final(self)@.steady(),
            old(self)@.faithful() ==> final(self)@.faithful(),
    {
        self.reindent(false);
        self.renumber_here();
    }

    /// Keep an empty list item with a dash from turning the line above it into a heading.
    fn avoid_setext_collapse(&mut self)
        requires
            old(self).wf(),
        ensures
            final(self)@ == old(self)@.unsetext(),
            final(self).wf(),
            old(self)@.steady() ==> final(self)@.steady(),
            old(self)@.faithful() ==> final(self)@.faithful(),
    {
        let (sign, end) = match self.marker_on_line(self.caret) {
            Some((_, sign, end)) => (sign, end),
            None => {
                return;
            },
        };
        if self.source.as_str().as_bytes()[sign] != 45 {
            return;
        }
        let eol = lines::line_end_from(self.source.as_str(), end);
        if !text::is_blank(text::substr(self.source.as_str(), end, eol)) {
            return;
        }
        let chain = self.chain_at(sign);
        if !outline::holds_kind(&chain, Kind::Heading) {
            return;
        }
        let caret = self.caret;
        if self.splice(sign, sign + 1, "*", EditKind::Other) {
            editor::coalesce_last_undo(&mut self.editor);
            self.caret = self.settle(caret);
            proof {
                doc::lemma_clamped_valid(self@);
            }
            self.clamp_caret();
            self.record_caret();
        }
    }

    /// The offset of the block that the caret is in or right behind.
    pub(crate) fn block_offset_for_caret(&mut self) -> (r: Option<usize>)
        requires
            old(self).wf(),
        ensures
            match r {
                Some(off) => old(self)@.block_offset() == Some(off as int) && off <= old(self)@.caret,
                None => old(self)@.block_offset() is None,
            },
            final(self)@ == old(self)@,
    {
        let caret = self.caret;
        let chain = self.chain_at(caret);
        if motion::find_inner_block(&chain).is_some() {
            return Some(caret);
        }
        proof {
            text::lemma_boundary_ends(self@.source);
            text::lemma_slice(self@.source, 0, caret as int);
        }
        let head = text::chars_of(text::substr(self.source.as_str(), 0, caret));
        if head.len() == 0 {
            return None;
        }
        let last = head[head.len() - 1];
        proof {
            text::lemma_next_offset(head@, head@.len() - 1);
            text::lemma_offset_of(head@, head@.len() - 1);
            assert(head@.take(head@.len() as int) =~= head@);
        }
        if last == '\n' {
            return None;
        }
        let at: usize = caret - text::char_len(last);
        let chain = self.chain_at(at);
        if motion::find_inner_block(&chain).is_some() {
            Some(at)
        } else {
            None
        }
    }

    /// The offset of the block that the caret is in or right behind, or the caret.
    fn block_offset_or_caret(&mut self) -> (r: usize)
        requires
            old(self).wf(),
        ensures
            r == old(self)@.block_or_caret(),
            final(self)@ == old(self)@,
    {
        match self.block_offset_for_caret() {
            Some(off) => off,
            None => self.caret,
        }
    }

    /// Put the caret past the closing delimiters that stand at it.
    fn step_past_delims(&mut self)
        requires
            old(self).wf(),
        ensures
            final(self)@ == old(self)@.past_delims(),
            final(self).wf(),
            old(self)@.steady() ==> final(self)@.steady(),
            old(self)@.faithful() ==> final(self)@.faithful(),
    {
        let runs = self.runs_at(self.caret);
        self.caret = edges::skip_trailing_close_delims(self.source.as_str(), &runs, self.caret);
    }

    /// A line break in a list item.
    fn list_newline(&mut self, start: usize, end: usize)
        requires
            old(self).wf(),
            start <= end <= old(self)@.len(),
            start <= old(self)@.caret,
            text::boundary(old(self)@.source, start as int),
            text::boundary(old(self)@.source, end as int),
        ensures
            final(self)@ == old(self)@.list_broken(start as int, end as int),
            final(self).wf(),
            old(self)@.steady() ==> final(self)@.steady(),
            old(self)@.faithful() ==> final(self)@.faithful(),
    {
        let caret = self.caret;
        let eol = lines::line_end_from(self.source.as_str(), caret);
        let to: usize = if eol > end {
            eol
        } else {
            end
        };
        if text::is_blank(text::substr(self.source.as_str(), end, to)) {
            self.splice(start, caret, "\n", EditKind::Other);
        } else {
            let marker = text::substr(self.source.as_str(), start, end);
            let next = lists::next_list_marker(marker);
            let line = text::concat("\n", next.as_str());
            self.insert_raw(line.as_str());
        }
    }

    /// A line break in a list item, and the list numbered anew.
    fn continue_list(&mut self, start: usize, end: usize)
        requires
            old(self).wf(),
            start <= end <= old(self)@.len(),
            start <= old(self)@.caret,
            text::boundary(old(self)@.source, start as int),
            text::boundary(old(self)@.source, end as int),
            old(self)@.item_marker() == Some((start as int, end as int)),
        ensures
            final(self)@ == old(self)@.list_broken(start as int, end as int).renumbered(),
            final(self).wf(),
            old(self)@.steady() ==> final(self)@.steady(),
            old(self)@.faithful() ==> final(self)@.faithful(),
    {
        self.list_newline(start, end);
        self.renumber_here();
    }

    /// Break the line at the caret: a list goes on with its next item, a quote with its
    /// gutter, code with its next line, and prose with a new paragraph.
    #[verifier::rlimit(30)]
    pub fn newline(&mut self)
        requires
            old(self).wf(),
        ensures
            final(self)@ == old(self)@.newlined(),
            final(self).wf(),
            old(self)@.steady() ==> final(self)@.steady(),
            old(self)@.faithful() ==> final(self)@.faithful(),
    {
        if self.view == modes::View::Source {
            self.insert_raw("\n");
            return;
        }
        if let Some((s, e)) = self.selection() {
            self.splice(s, e, "\n\n", EditKind::Other);
            return;
        }
        self.step_past_delims();
        let off = self.block_offset_or_caret();
        let chain = self.chain_at(off);
        if outline::holds_kind(&chain, Kind::CodeBlock) {
            self.insert_raw("\n");
            return;
        }
        if let Some((start, _, end)) = self.marker_on_line(self.caret) {
            proof {
                lines::lemma_bol(encode_utf8(self@.source), self@.caret);
            }
            if self.is_inside_list(start) {
                self.continue_list(start, end);
                return;
            }
        }
        if outline::holds_kind(&chain, Kind::BlockQuote) {
            self.insert_raw("\n> ");
            return;
        }
        if self.on_blank_line(self.caret) || self.line_flow == LineFlow::Preserve {
            self.insert_raw("\n");
            return;
        }
        self.insert_raw("\n\n");
    }

    /// Read back what a gesture left.
    fn finish_gesture(&mut self)
        ensures
            final(self)@ == old(self)@.after_gesture(),
            final(self).wf(),
            old(self)@.steady() ==> final(self)@.steady(),
            final(self)@.faithful(),
    {
        self.last_edit_kind = None;
        proof {
            typing::lemma_refreshed_valid(self@);
            doc::lemma_clamped_valid(self@.refreshed().rated());
        }
        self.refresh();
        self.clamp_caret();
        self.anchor = None;
        self.rate();
        self.status = None;
        self.record_caret();
    }

    /// Make the block at the caret a block of a kind; on an empty line, type the kind's
    /// prefix.
    pub fn set_block(&mut self, kind: BlockKind)
        requires
            old(self).wf(),
        ensures
            final(self)@ == old(self)@.block_made(kind),
            final(self).wf(),
            old(self)@.steady() ==> final(self)@.steady(),
            old(self)@.faithful() ==> final(self)@.faithful(),
    {
        self.record_caret();
        match self.block_offset_for_caret() {
            Some(off) => self.convert_block(off, kind),
            None => self.insert_block_prefix(kind),
        }
    }

    /// Make the block at an offset a block of a kind.
    fn convert_block(&mut self, off: usize, kind: BlockKind)
        requires
            old(self).wf(),
        ensures
            final(self)@ == old(self)@.converted(off as int, kind),
            final(self).wf(),
            old(self)@.steady() ==> final(self)@.steady(),
            old(self)@.faithful() ==> final(self)@.faithful(),
    {
        match editor::set_block(&mut self.editor, off, kind) {
            Ok(_) => {
                self.finish_gesture();
            },
            Err(err) => {
                let fault = editor::fault_of(err);
                let label = kind.label();
                self.status = Some(tell(label.as_str(), fault));
            },
        }
    }

    /// Type the prefix of a kind of block on an empty line.
    fn insert_block_prefix(&mut self, kind: BlockKind)
        requires
            old(self).wf(),
        ensures
            final(self)@ == old(self)@.prefixed(kind),
            final(self).wf(),
            old(self)@.steady() ==> final(self)@.steady(),
            old(self)@.faithful() ==> final(self)@.faithful(),
    {
        match kind {
            BlockKind::Paragraph => {},
            BlockKind::Heading(level) => {
                if matches!(self.format, Format::Markdown | Format::Djot) {
                    let prefix = heading_prefix(level);
                    self.insert_raw(prefix.as_str());
                } else {
                    let label = kind.label();
                    self.status = Some(
                        text::concat(label.as_str(), ": nothing to convert on an empty line"),
                    );
                }
            },
        }
    }

    /// The level of the heading that the caret is in.
    pub fn current_heading_level(&mut self) -> (r: Option<u32>)
        ensures
            r == old(self)@.heading_level(),
            final(self)@ == old(self)@,
    {
        let nodes = editor::nodes(&mut self.editor);
        outline::heading_level(&nodes, self.caret)
    }

    /// Make the caret's block a heading of a level, or where it is one a paragraph.
    pub fn toggle_heading(&mut self, level: u32)
        requires
            old(self).wf(),
        ensures
            final(self)@ == old(self)@.heading_toggled(level),
            final(self).wf(),
            old(self)@.steady() ==> final(self)@.steady(),
            old(self)@.faithful() ==> final(self)@.faithful(),
    {
        let now = self.current_heading_level();
        let same = match now {
            Some(l) => l == level,
            None => false,
        };
        if same {
            self.set_block(BlockKind::Paragraph);
        } else {
            self.set_block(BlockKind::Heading(level));
        }
    }

    /// Read back what putting blocks in a container or taking them out left.
    fn finish_container(&mut self, new: Span, selected: bool, line: usize, tail: usize)
        ensures
            final(self)@ == old(self)@.container_left(new, selected, line as int, tail as int),
            final(self).wf(),
            final(self)@.faithful(),
            old(self)@.steady() ==> final(self)@.steady(),
    {
        self.last_edit_kind = None;
        self.refresh();
        if selected {
            let (from, to) = (self.settle(new.start), self.settle(new.end));
            self.anchor = Some(from);
            self.caret = to;
        } else {
            self.anchor = None;
            let to = line_tail_offset(self.source.as_str(), new, line, tail);
            self.caret = self.settle(to);
        }
        self.rate();
        self.status = None;
        proof {
            doc::lemma_clamped_valid(self@);
        }
        self.clamp_caret();
        self.record_caret();
    }

    /// Put the selected blocks, or the caret's, in a container, or take them out.
    fn toggle_container(&mut self, kind: BlockContainerKind)
        requires
            old(self).wf(),
        ensures
            final(self)@ == old(self)@.contained(kind),
            final(self).wf(),
            old(self)@.steady() ==> final(self)@.steady(),
            old(self)@.faithful() ==> final(self)@.faithful(),
    {
        self.record_caret();
        let selected = self.selection();
        let (start, end): (usize, usize) = match selected {
            Some(range) => range,
            None => match self.block_offset_for_caret() {
                Some(off) => (off, off),
                None => {
                    if self.on_blank_line(self.caret) {
                        self.status = Some(tell(kind.label(), Fault::NotFound));
                        return;
                    }
                    (self.caret, self.caret)
                },
            },
        };
        match editor::toggle_block_container(&mut self.editor, start, end, kind) {
            Ok(change) => {
                let (line, tail) = caret_line_tail(self.source.as_str(), self.caret, change.old);
                self.finish_container(change.new, selected.is_some(), line, tail);
            },
            Err(err) => {
                let fault = editor::fault_of(err);
                self.status = Some(tell(kind.label(), fault));
            },
        }
    }

    /// Quote the selected blocks, or the caret's, or take them out of the quote.
    pub fn toggle_blockquote(&mut self)
        requires
            old(self).wf(),
        ensures
            final(self)@ == old(self)@.quoted(),
            final(self).wf(),
            old(self)@.steady() ==> final(self)@.steady(),
            old(self)@.faithful() ==> final(self)@.faithful(),
    {
        self.toggle_container(BlockContainerKind::BlockQuote);
    }

    /// Make a list of the selected blocks, or of the caret's, or take them out of one.
    pub fn toggle_list(&mut self, ordered: bool)
        requires
            old(self).wf(),
        ensures
            final(self)@ == old(self)@.listed(ordered),
            final(self).wf(),
            old(self)@.steady() ==> final(self)@.steady(),
            old(self)@.faithful() ==> final(self)@.faithful(),
    {
        self.toggle_container(
            if ordered {
                BlockContainerKind::OrderedList
            } else {
                BlockContainerKind::BulletList
            },
        );
    }

    /// Whether the caret is in a table.
    pub fn caret_in_table(&mut self) -> (r: bool)
        ensures
            r == old(self)@.in_table(),
            final(self)@ == old(self)@,
    {
        let chain = self.chain_at(self.caret);
        outline::holds_kind(&chain, Kind::Table)
    }

    /// Insert an empty row below the caret's row, or above it. Tells whether it was.
    pub(crate) fn put_row(&mut self, below: bool) -> (r: bool)
        requires
            old(self).wf(),
        ensures
            final(self)@ == old(self)@.tabled(
                editor::row_inserted(old(self)@.setup, old(self)@.bytes, old(self)@.caret, below),
                "table row"@,
            ),
            final(self).wf(),
            old(self)@.steady() ==> final(self)@.steady(),
            old(self)@.faithful() ==> final(self)@.faithful(),
            r == (editor::row_inserted(
                old(self)@.setup,
                old(self)@.bytes,
                old(self)@.caret,
                below,
            ) is Ok),
    {
        self.record_caret();
        match editor::table_insert_row(&mut self.editor, self.caret, below) {
            Ok(_) => {
                self.finish_gesture();
                true
            },
            Err(err) => {
                let fault = editor::fault_of(err);
                self.status = Some(tell("table row", fault));
                false
            },
        }
    }

    /// Insert an empty row below the caret's row, or above it.
    pub fn table_insert_row(&mut self, below: bool)
        requires
            old(self).wf(),
        ensures
            final(self)@ == old(self)@.row_put(below),
            final(self).wf(),
            old(self)@.steady() ==> final(self)@.steady(),
            old(self)@.faithful() ==> final(self)@.faithful(),
    {
        self.put_row(below);
    }

    /// Delete the caret's row.
    pub fn table_delete_row(&mut self)
        requires
            old(self).wf(),
        ensures
            final(self)@ == old(self)@.row_dropped(),
            final(self).wf(),
            old(self)@.steady() ==> final(self)@.steady(),
            old(self)@.faithful() ==> final(self)@.faithful(),
    {
        self.record_caret();
        match editor::table_delete_row(&mut self.editor, self.caret) {
            Ok(_) => {
                self.finish_gesture();
            },
            Err(err) => {
                let fault = editor::fault_of(err);
                self.status = Some(tell("table row", fault));
            },
        }
    }

    /// Insert an empty column right of the caret's column, or left of it.
    pub fn table_insert_column(&mut self, right: bool)
        requires
            old(self).wf(),
        ensures
            final(self)@ == old(self)@.column_put(right),
            final(self).wf(),
            old(self)@.steady() ==> final(self)@.steady(),
            old(self)@.faithful() ==> final(self)@.faithful(),
    {
        self.record_caret();
        match editor::table_insert_column(&mut self.editor, self.caret, right) {
            Ok(_) => {
                self.finish_gesture();
            },
            Err(err) => {
                let fault = editor::fault_of(err);
                self.status = Some(tell("table column", fault));
            },
        }
    }

    /// Delete the caret's column.
    pub fn table_delete_column(&mut self)
        requires
            old(self).wf(),
        ensures
            final(self)@ == old(self)@.column_dropped(),
            final(self).wf(),
            old(self)@.steady() ==> final(self)@.steady(),
            old(self)@.faithful() ==> final(self)@.faithful(),
    {
        self.record_caret();
        match editor::table_delete_column(&mut self.editor, self.caret) {
            Ok(_) => {
                self.finish_gesture();
            },
            Err(err) => {
                let fault = editor::fault_of(err);
                self.status = Some(tell("table column", fault));
            },
        }
    }

    /// Align the caret's column.
    pub fn table_set_alignment(&mut self, alignment: Alignment)
        requires
            old(self).wf(),
        ensures
            final(self)@ == old(self)@.column_set(alignment),
            final(self).wf(),
            old(self)@.steady() ==> final(self)@.steady(),
            old(self)@.faithful() ==> final(self)@.faithful(),
    {
        self.record_caret();
        match editor::table_set_alignment(&mut self.editor, self.caret, alignment) {
            Ok(_) => {
                self.finish_gesture();
            },
            Err(err) => {
                let fault = editor::fault_of(err);
                self.status = Some(tell("table alignment", fault));
            },
        }
    }

    /// Move the caret's row down or up.
    pub fn table_move_row(&mut self, down: bool)
        requires
            old(self).wf(),
        ensures
            final(self)@ == old(self)@.row_shifted(down),
            final(self).wf(),
            old(self)@.steady() ==> final(self)@.steady(),
            old(self)@.faithful() ==> final(self)@.faithful(),
    {
        self.record_caret();
        match editor::table_move_row(&mut self.editor, self.caret, down) {
            Ok(_) => {
                self.finish_gesture();
            },
            Err(err) => {
                let fault = editor::fault_of(err);
                self.status = Some(tell("table row", fault));
            },
        }
    }

    /// Move the caret's column right or left.
    pub fn table_move_column(&mut self, right: bool)
        requires
            old(self).wf(),
        ensures
            final(self)@ == old(self)@.column_shifted(right),
            final(self).wf(),
            old(self)@.steady() ==> final(self)@.steady(),
            old(self)@.faithful() ==> final(self)@.faithful(),
    {
        self.record_caret();
        let nodes = editor::nodes(&mut self.editor);
        let fits = match editor::source_bytes(&mut self.editor) {
            Some(bytes) => tables::stands_in_a_column(&nodes, bytes.as_slice(), self.caret),
            None => false,
        };
        if !right && !fits {
            let fault = if matches!(self.format, Format::Markdown | Format::Djot) {
                Fault::NotEditable
            } else {
                Fault::UnsupportedFormat
            };
            self.status = Some(tell("table column", fault));
            return;
        }
        match editor::table_move_column(&mut self.editor, self.caret, right) {
            Ok(_) => {
                self.finish_gesture();
            },
            Err(err) => {
                let fault = editor::fault_of(err);
                self.status = Some(tell("table column", fault));
            },
        }
    }

    /// Put a thematic break at the caret or over the selection.
    pub fn insert_thematic_break(&mut self)
        requires
            old(self).wf(),
        ensures
            final(self)@ == old(self)@.ruled(),
            final(self).wf(),
            old(self)@.steady() ==> final(self)@.steady(),
            old(self)@.faithful() ==> final(self)@.faithful(),
    {
        self.step_past_delims();
        let off = self.block_offset_or_caret();
        let chain = self.chain_at(off);
        if outline::holds_kind(&chain, Kind::CodeBlock) {
            self.status = Some("thematic break: not available inside a code block".to_owned());
            return;
        }
        if let Some((s, e)) = self.selection() {
            self.splice(s, e, "\n\n---\n\n", EditKind::Other);
            return;
        }
        if self.on_blank_line(self.caret) {
            self.insert_raw("---\n\n");
        } else {
            self.insert_raw("\n\n---\n\n");
        }
    }
}

/// What a status line says of a refused gesture.
pub(crate) fn tell(what: &str, fault: Fault) -> (r: String)
    ensures
        r@ == what@ + ": "@ + fault.words(),
{
    let head = text::concat(what, ": ");
    text::concat(head.as_str(), fault.message())
}

/// The prefix of a heading of a level.
pub fn heading_prefix(level: u32) -> (r: String)
    ensures
        r@ == hashes(level as int) + " "@,
{
    let mut out: Vec<char> = Vec::new();
    let mut n: u32 = 0;
    while n < level
        invariant
            n <= level,
            out@ =~= hashes(n as int),
        decreases level - n,
    {
        out.push('#');
        n = n + 1;
    }
    text::append_str(&mut out, " ");
    let r = text::string_of(out.as_slice(), 0, out.len());
    assert(r@ =~= hashes(level as int) + " "@);
    r
}

} // verus!

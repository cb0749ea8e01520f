//! Deleting from a document: characters, words and lines, and the delimiters, markers and
//! media that a delete key must not take in part.

use vstd::prelude::*;
use vstd::utf8::*;
use crate::doc;
use crate::doc::{Doc, DocView};
use crate::edges;
use crate::editor;
use crate::lines;
use crate::modes;
use crate::modes::{EditKind, LineFlow};
use crate::node;
use crate::node::{Kind, Node, NodeView, Span};
use crate::outline;
use crate::text;
use crate::visual;
use crate::visual::MediaStop;

verus! {

/// Which side of the caret a delete looks at.
#[derive(Clone, Copy, PartialEq, Eq, Debug, Structural)]
pub enum BreakEdge {
    Backward,
    Forward,
}

/// Whether a node is a line break spelt as a tag, and ends or starts at an offset.
pub open spec fn is_cell_break(n: NodeView, b: Seq<u8>, edge: BreakEdge, at: int) -> bool {
    n.kind == Kind::HardBreak && n.span.start < n.span.end && n.span.start < b.len()
        && b[n.span.start as int] == 0x3c && (match edge {
        BreakEdge::Backward => n.span.end == at,
        BreakEdge::Forward => n.span.start == at,
    })
}

/// The first such break from a place in the list on.
pub open spec fn cell_break(
    nodes: Seq<NodeView>,
    b: Seq<u8>,
    edge: BreakEdge,
    at: int,
    from: int,
) -> Option<Span>
    decreases nodes.len() - from,
{
    if from < 0 || from >= nodes.len() {
        None
    } else if is_cell_break(nodes[from], b, edge, at) {
        Some(nodes[from].span)
    } else {
        cell_break(nodes, b, edge, at, from + 1)
    }
}

/// Whether a byte is ASCII punctuation.
pub open spec fn punctuation(c: u8) -> bool {
    0x21 <= c <= 0x2f || 0x3a <= c <= 0x40 || 0x5b <= c <= 0x60 || 0x7b <= c <= 0x7e
}

/// Whether a backslash that escapes punctuation stands at an offset.
pub open spec fn hidden_escape(b: Seq<u8>, off: int) -> bool {
    0 <= off && off + 1 < b.len() && b[off] == 0x5c && punctuation(b[off + 1])
}

/// The start of the spaces and tabs that end at `at`, no earlier than `from`.
pub open spec fn blanks_before(b: Seq<u8>, at: int, from: int) -> int
    decreases at - from,
{
    if from < at <= b.len() && (b[at - 1] == 0x20 || b[at - 1] == 0x09) {
        blanks_before(b, at - 1, from)
    } else {
        at
    }
}

/// The start of the hash signs that end at `at`, no earlier than `from`.
pub open spec fn hashes_before(b: Seq<u8>, at: int, from: int) -> int
    decreases at - from,
{
    if from < at <= b.len() && b[at - 1] == 0x23 {
        hashes_before(b, at - 1, from)
    } else {
        at
    }
}

/// Whether what follows a heading's content is a closing run of hash signs.
pub open spec fn closing_hashes(s: Seq<char>) -> bool {
    (exists|i: int| 0 <= i < s.len() && #[trigger] s[i] == '#') && forall|i: int|
        0 <= i < s.len() ==> (#[trigger] s[i]) == '#' || text::whitespace(s[i])
}

/// The range of the text of an inline node: its content, or for code and formulas without
/// one what stands behind one delimiter and spells their text.
pub open spec fn inline_text(n: NodeView, source: Seq<char>) -> Option<(int, int)> {
    match n.content {
        Some(c) => Some((c.start as int, c.end as int)),
        None => if n.kind == Kind::Verbatim || n.kind == Kind::InlineMath {
            match n.text {
                Some(t) => {
                    let start = n.span.start + 1;
                    let end = start + text::byte_len(t);
                    if end <= text::byte_len(source) && text::boundary(source, start)
                        && text::boundary(source, end) && text::slice(source, start, end) == t {
                        Some((start, end))
                    } else {
                        None
                    }
                },
                None => None,
            }
        } else {
            None
        },
    }
}

/// Whether a delete of a range leaves an inline node without text, though some of the node
/// is outside the range.
pub open spec fn emptied(n: NodeView, source: Seq<char>, s: int, e: int) -> bool {
    n.kind.inline() && edges::fits(source, n.span) && (inline_text(n, source) matches Some(
        (from, to),
    ) && s <= from && to <= e) && (n.span.start < s || n.span.end > e)
}

/// One pass over the nodes: the range widened over each that it empties.
pub open spec fn widened_once(nodes: Seq<NodeView>, source: Seq<char>, s: int, e: int) -> (int, int)
    decreases nodes.len(),
{
    if nodes.len() == 0 {
        (s, e)
    } else {
        let (s, e) = widened_once(nodes.drop_last(), source, s, e);
        let n = nodes.last();
        if emptied(n, source, s, e) {
            (
                if n.span.start < s {
                    n.span.start as int
                } else {
                    s
                },
                if n.span.end > e {
                    n.span.end as int
                } else {
                    e
                },
            )
        } else {
            (s, e)
        }
    }
}

/// A pass only widens, and keeps the range in the text.
pub proof fn lemma_widened_once(nodes: Seq<NodeView>, source: Seq<char>, s: int, e: int)
    requires
        0 <= s <= e <= text::byte_len(source),
        text::boundary(source, s),
        text::boundary(source, e),
    ensures
        ({
            let (s2, e2) = widened_once(nodes, source, s, e);
            &&& 0 <= s2 <= s
            &&& e <= e2 <= text::byte_len(source)
            &&& text::boundary(source, s2)
            &&& text::boundary(source, e2)
        }),
    decreases nodes.len(),
{
    if nodes.len() > 0 {
        lemma_widened_once(nodes.drop_last(), source, s, e);
    }
}

/// The range widened until no node that it empties reaches out of it.
pub open spec fn widened(nodes: Seq<NodeView>, source: Seq<char>, s: int, e: int) -> (int, int)
    decreases s + text::byte_len(source) - e,
{
    let (s2, e2) = widened_once(nodes, source, s, e);
    if 0 <= s2 <= s && e <= e2 <= text::byte_len(source) && (s2 < s || e2 > e) {
        widened(nodes, source, s2, e2)
    } else {
        (s, e)
    }
}

/// The end of the line breaks that stand at an offset.
pub open spec fn feeds_on(b: Seq<u8>, at: int) -> int
    decreases b.len() - at,
{
    if 0 <= at < b.len() && b[at] == 10 {
        feeds_on(b, at + 1)
    } else {
        at
    }
}

/// The start of the line breaks that end at an offset.
pub open spec fn feeds_back(b: Seq<u8>, at: int) -> int
    decreases at,
{
    if 0 < at <= b.len() && b[at - 1] == 10 {
        feeds_back(b, at - 1)
    } else {
        at
    }
}

impl DocView {
    /// The caret moved over the boundary of a block medium, to a stop.
    pub open spec fn stepped_over(self, to: Option<int>) -> DocView {
        match to {
            Some(off) => if off >= self.floor() {
                DocView { caret: self.settled(off), anchor: None, goal_col: None, ..self }
            } else {
                self
            },
            None => self,
        }
    }

    /// The range that goes with a block medium: the break that held it apart from its
    /// neighbour goes too.
    pub open spec fn medium_range(self, span: Span) -> (int, int) {
        let b = encode_utf8(self.source);
        let start = self.settled(span.start as int);
        let end = self.settled(span.end as int);
        let from = if start >= 2 && b[start - 1] == 10 && b[start - 2] == 10 {
            start - 2
        } else {
            start
        };
        let to = if from == start && end + 2 <= b.len() && b[end] == 10 && b[end + 1] == 10 {
            end + 2
        } else {
            end
        };
        (self.settled(self.raised(from)), to)
    }

    /// The stop next to the caret at an end of a block medium, away from the medium: by the
    /// map, or where that is of an older text, the text across the line breaks.
    pub open spec fn beyond(self, forward: bool) -> Option<int> {
        let b = encode_utf8(self.source);
        if self.mapped() {
            if forward {
                visual::first_after(self.map.stops, self.caret)
            } else {
                visual::last_before(self.map.stops, self.caret)
            }
        } else if forward {
            let to = feeds_on(b, self.caret);
            if self.caret < to < b.len() {
                Some(to)
            } else {
                None
            }
        } else {
            let to = feeds_back(b, self.caret);
            if 0 < to < self.caret {
                Some(to)
            } else {
                None
            }
        }
    }

    /// A delete key at an end of a block medium: aimed at it, it takes the whole; aimed
    /// away, it steps the caret over the boundary.
    pub open spec fn media_deleted(self, forward: bool) -> DocView {
        match self.medium() {
            None => self,
            Some((side, span)) => {
                let aimed = side == (if forward {
                    MediaStop::Before
                } else {
                    MediaStop::After
                });
                if !aimed {
                    self.stepped_over(self.beyond(forward))
                } else {
                    let (from, to) = self.medium_range(span);
                    self.spliced(from, to, Seq::empty(), EditKind::Other)
                }
            },
        }
    }

    /// Whether the caret is right behind the marker of a list item.
    pub open spec fn at_item_start(self) -> bool {
        self.item_marker() matches Some((_, end)) && self.caret == end
    }

    /// Backspace behind a list marker: an indented item comes out one level, another stops
    /// being an item.
    pub open spec fn item_undone(self) -> DocView {
        match self.marker(self.caret) {
            Some((start, sign, _)) => if sign > start {
                self.reindented(false).renumbered()
            } else {
                self.spliced(start, self.caret, Seq::empty(), EditKind::Other).renumbered()
            },
            None => self,
        }
    }

    /// The heading whose content starts at the caret and that hash signs open: where they
    /// start, and the ends of the content and of the heading.
    pub open spec fn heading_start(self) -> Option<(int, int, int)> {
        match outline::heading_opening(self.nodes(), self.source, self.caret, 0) {
            Some((span, end)) => {
                let b = encode_utf8(self.source);
                let gap = blanks_before(b, self.caret, span.start as int);
                let start = hashes_before(b, gap, span.start as int);
                if start == gap {
                    None
                } else {
                    Some((start, end, span.end as int))
                }
            },
            None => None,
        }
    }

    /// Backspace at the start of a heading: its hash signs go, and a closing run of them
    /// too.
    pub open spec fn heading_undone(self) -> DocView {
        match self.heading_start() {
            Some((start, end, last)) => {
                if closing_hashes(text::slice(self.source, end, last)) {
                    let d = self.spliced(
                        start,
                        last,
                        text::slice(self.source, self.caret, end),
                        EditKind::Other,
                    );
                    DocView { caret: d.settled(start), ..d }.noted()
                } else {
                    self.spliced(start, self.caret, Seq::empty(), EditKind::Other)
                }
            },
            None => self,
        }
    }

    /// The last place before the caret that it can rest at, on a blank line: a stop of the
    /// map, or where that is of an older text, a line of those that the line breaks before
    /// the caret leave. Where two of them part one paragraph from the next, only every
    /// second is.
    pub open spec fn line_above(self) -> Option<int> {
        if self.mapped() {
            visual::last_before(self.map.stops, self.caret)
        } else {
            let feeds = self.caret - feeds_back(encode_utf8(self.source), self.caret);
            if feeds <= 0 {
                None
            } else if self.line_flow == LineFlow::Preserve || feeds % 2 == 1 {
                Some(self.caret - 1)
            } else {
                Some(self.caret - 2)
            }
        }
    }

    /// The stop before the caret that a backspace on a blank line deletes to.
    pub open spec fn blank_stop(self) -> Option<int> {
        if self.caret > self.floor() && self.blank_line(self.caret) {
            match self.line_above() {
                Some(stop) => {
                    let to = self.settled(self.raised(stop));
                    if to < self.caret {
                        Some(to)
                    } else {
                        None
                    }
                },
                None => None,
            }
        } else {
            None
        }
    }

    /// The line break in a table cell that a delete takes whole, no earlier than what the
    /// caret can reach.
    pub open spec fn break_range(self, edge: BreakEdge) -> Option<(int, int)> {
        match cell_break(self.nodes(), encode_utf8(self.source), edge, self.caret, 0) {
            Some(span) => {
                let start = self.settled(
                    match edge {
                        BreakEdge::Backward => self.raised(span.start as int),
                        BreakEdge::Forward => span.start as int,
                    },
                );
                let end = self.settled(span.end as int);
                if start < end {
                    Some((start, end))
                } else {
                    None
                }
            },
            None => None,
        }
    }

    /// Where the character that a backspace takes ends: in the rendered view that is past
    /// no delimiter that it cannot see.
    pub open spec fn visible_end(self) -> int {
        match self.view {
            modes::View::Source => self.caret,
            modes::View::Wysiwyg => {
                let inside = self.inside_close(self.caret);
                self.settled(self.raised(edges::open_before(self.runs(inside), inside)))
            },
        }
    }

    /// The range of the character before an offset, its hidden escape included.
    pub open spec fn char_range(self, end: int) -> (int, int) {
        let prev = self.settled(self.raised(lines::step_left(self.source, end)));
        if self.view == modes::View::Wysiwyg && prev > self.floor() && hidden_escape(
            encode_utf8(self.source),
            prev - 1,
        ) {
            (prev - 1, end)
        } else {
            (prev, end)
        }
    }

    /// Backspace past what the rendered view guards.
    pub open spec fn char_erased(self) -> DocView {
        if self.caret <= self.floor() {
            self
        } else if self.view == modes::View::Wysiwyg && self.break_range(
            BreakEdge::Backward,
        ) is Some {
            self.back_over(self.break_range(BreakEdge::Backward)->0)
        } else {
            self.back_over(self.char_range(self.visible_end()))
        }
    }

    /// A range deleted, where it is not empty.
    pub open spec fn back_over(self, range: (int, int)) -> DocView {
        if range.0 < range.1 {
            self.spliced(range.0, range.1, Seq::empty(), EditKind::Delete)
        } else {
            self
        }
    }

    /// The document without what is selected.
    pub open spec fn cut(self) -> DocView {
        match self.selected() {
            Some((s, e)) => self.spliced(s, e, Seq::empty(), EditKind::Other),
            None => self,
        }
    }

    /// Backspace.
    pub open spec fn backspaced(self) -> DocView {
        if self.selected() is Some {
            self.cut()
        } else if self.view == modes::View::Source {
            self.char_erased()
        } else if self.at_item_start() {
            self.item_undone()
        } else if self.heading_start() is Some {
            self.heading_undone()
        } else {
            let d = self.clamped();
            if d.medium() is Some {
                d.media_deleted(false)
            } else {
                match d.blank_stop() {
                    Some(stop) => d.spliced(stop, d.caret, Seq::empty(), EditKind::Delete),
                    None => d.char_erased(),
                }
            }
        }
    }

    /// In through the opening delimiters that start at an offset, one run after the other.
    pub open spec fn inside_open(self, off: int) -> int
        decreases self.len() - off,
    {
        match edges::open_inside(self.runs(off), off) {
            Some(inner) => if off < inner <= self.len() {
                self.inside_open(inner)
            } else {
                off
            },
            None => off,
        }
    }

    /// Where the character that a forward delete takes starts.
    pub open spec fn visible_start(self) -> int {
        match self.view {
            modes::View::Source => self.caret,
            modes::View::Wysiwyg => {
                let inside = self.inside_open(self.caret);
                edges::close_past(self.runs(inside), inside)
            },
        }
    }

    /// The character after the caret deleted.
    pub open spec fn char_taken(self) -> DocView {
        let from = self.visible_start();
        self.back_over((from, lines::step_right(self.source, from)))
    }

    /// Delete forward.
    pub open spec fn deleted_forward(self) -> DocView {
        if self.selected() is Some {
            self.cut()
        } else if self.caret >= self.len() {
            self
        } else if self.view == modes::View::Source {
            self.char_taken()
        } else {
            let d = self.clamped();
            if d.medium() is Some {
                d.media_deleted(true)
            } else {
                match d.break_range(BreakEdge::Forward) {
                    Some((start, end)) => d.spliced(start, end, Seq::empty(), EditKind::Delete),
                    None => d.char_taken(),
                }
            }
        }
    }

    /// The range that a delete takes when it empties what stands in it: in the rendered
    /// view an inline node goes with its text.
    pub open spec fn widened(self, s: int, e: int) -> (int, int) {
        if self.view == modes::View::Source {
            (s, e)
        } else {
            widened(self.nodes(), self.source, s, e)
        }
    }

    /// A range deleted with the inline nodes that it empties.
    pub open spec fn swept(self, s: int, e: int) -> DocView {
        if s < e {
            let (from, to) = self.widened(s, e);
            self.spliced(from, to, Seq::empty(), EditKind::Delete)
        } else {
            self
        }
    }

    /// The word before the caret deleted, or what is selected, or the medium there.
    pub open spec fn word_erased(self) -> DocView {
        if self.selected() is Some {
            self.cut()
        } else {
            let d = if self.view == modes::View::Source {
                self
            } else {
                self.clamped()
            };
            if d.view == modes::View::Wysiwyg && d.medium() is Some {
                d.media_deleted(false)
            } else {
                d.swept(d.settled(d.raised(d.word_left(d.caret))), d.caret)
            }
        }
    }

    /// The word after the caret deleted, or what is selected, or the medium there.
    pub open spec fn word_taken(self) -> DocView {
        if self.selected() is Some {
            self.cut()
        } else {
            let d = if self.view == modes::View::Source {
                self
            } else {
                self.clamped()
            };
            if d.view == modes::View::Wysiwyg && d.medium() is Some {
                d.media_deleted(true)
            } else {
                d.swept(d.caret, d.settled(d.word_right(d.caret)))
            }
        }
    }

    /// The line before the caret deleted, or what is selected.
    pub open spec fn line_erased(self) -> DocView {
        if self.selected() is Some {
            self.cut()
        } else {
            self.swept(self.settled(self.raised(self.line_span().0)), self.caret)
        }
    }

    /// The line after the caret deleted, or what is selected.
    pub open spec fn line_taken(self) -> DocView {
        if self.selected() is Some {
            self.cut()
        } else {
            self.swept(self.caret, self.settled(self.line_span().1))
        }
    }
}

/// The spaces, the tabs and the hash signs before an offset are ASCII.
pub proof fn lemma_before(source: Seq<char>, at: int, from: int)
    requires
        text::boundary(source, at),
        0 <= from <= at,
    ensures
        from <= blanks_before(encode_utf8(source), at, from) <= at,
        text::boundary(source, blanks_before(encode_utf8(source), at, from)),
        from <= hashes_before(encode_utf8(source), at, from) <= at,
        text::boundary(source, hashes_before(encode_utf8(source), at, from)),
    decreases at - from,
{
    let b = encode_utf8(source);
    text::lemma_boundary_range(source, at);
    if from < at {
        if b[at - 1] == 0x20 || b[at - 1] == 0x09 || b[at - 1] == 0x23 {
            text::lemma_ascii_boundary(source, at - 1);
            lemma_before(source, at - 1, from);
        }
    }
}

/// The start of the spaces and tabs that end at `at`, no earlier than `from`.
fn skip_blanks_before(source: &str, at: usize, from: usize) -> (r: usize)
    requires
        text::boundary(source@, at as int),
        from <= at,
    ensures
        r == blanks_before(encode_utf8(source@), at as int, from as int),
        from <= r <= at,
        text::boundary(source@, r as int),
{
    let b = source.as_bytes();
    proof {
        text::lemma_boundary_range(source@, at as int);
        lemma_before(source@, at as int, from as int);
    }
    let mut i: usize = at;
    while i > from && (b[i - 1] == 0x20 || b[i - 1] == 0x09)
        invariant
            from <= i <= at <= b@.len(),
            b@ == encode_utf8(source@),
            blanks_before(b@, at as int, from as int) == blanks_before(b@, i as int, from as int),
        decreases i,
    {
        i = i - 1;
    }
    i
}

/// The start of the hash signs that end at `at`, no earlier than `from`.
fn skip_hashes_before(source: &str, at: usize, from: usize) -> (r: usize)
    requires
        text::boundary(source@, at as int),
        from <= at,
    ensures
        r == hashes_before(encode_utf8(source@), at as int, from as int),
        from <= r <= at,
        text::boundary(source@, r as int),
{
    let b = source.as_bytes();
    proof {
        text::lemma_boundary_range(source@, at as int);
        lemma_before(source@, at as int, from as int);
    }
    let mut i: usize = at;
    while i > from && b[i - 1] == 0x23
        invariant
            from <= i <= at <= b@.len(),
            b@ == encode_utf8(source@),
            hashes_before(b@, at as int, from as int) == hashes_before(b@, i as int, from as int),
        decreases i,
    {
        i = i - 1;
    }
    i
}

/// Whether what follows a heading's content is a closing run of hash signs.
fn is_closing_hashes(tail: &str) -> (r: bool)
    ensures
        r == closing_hashes(tail@),
{
    let chars = text::chars_of(tail);
    let mut found = false;
    let mut i: usize = 0;
    while i < chars.len()
        invariant
            i <= chars@.len(),
            chars@ == tail@,
            found == (exists|k: int| 0 <= k < i && #[trigger] chars@[k] == '#'),
            forall|k: int|
                0 <= k < i ==> (#[trigger] chars@[k]) == '#' || text::whitespace(chars@[k]),
        decreases chars@.len() - i,
    {
        let c = chars[i];
        if c == '#' {
            assert(chars@[i as int] == '#');
            found = true;
        } else if !text::is_whitespace(c) {
            assert(!closing_hashes(tail@)) by {
                assert(tail@[i as int] == c);
            }
            return false;
        }
        i = i + 1;
    }
    found
}

/// The range of the text of an inline node.
pub fn inline_content_span(n: &Node, source: &str) -> (r: Option<(usize, usize)>)
    ensures
        match r {
            Some((from, to)) => inline_text(n@, source@) == Some((from as int, to as int)),
            None => inline_text(n@, source@) is None,
        },
{
    if let Some(c) = n.content {
        return Some((c.start, c.end));
    }
    if !(n.kind == Kind::Verbatim || n.kind == Kind::InlineMath) {
        return None;
    }
    match &n.text {
        Some(t) => {
            let len = text::len(source);
            let width = text::len(t.as_str());
            if n.span.start >= len || width > len - n.span.start - 1 {
                return None;
            }
            let start: usize = n.span.start + 1;
            let end: usize = start + width;
            if !source.is_char_boundary(start) || !source.is_char_boundary(end) {
                return None;
            }
            if text::str_eq(text::substr(source, start, end), t.as_str()) {
                Some((start, end))
            } else {
                None
            }
        },
        None => None,
    }
}

/// One pass over the nodes: the range widened over each that it empties.
fn widen_once(nodes: &Vec<Node>, source: &str, start: usize, end: usize) -> (r: (usize, usize))
    requires
        start <= end <= text::byte_len(source@),
        text::boundary(source@, start as int),
        text::boundary(source@, end as int),
    ensures
        (r.0 as int, r.1 as int) == widened_once(
            node::node_views(nodes@),
            source@,
            start as int,
            end as int,
        ),
{
    let ghost views = node::node_views(nodes@);
    let mut s: usize = start;
    let mut e: usize = end;
    let mut i: usize = 0;
    while i < nodes.len()
        invariant
            i <= nodes@.len(),
            views == node::node_views(nodes@),
            (s as int, e as int) == widened_once(
                views.take(i as int),
                source@,
                start as int,
                end as int,
            ),
        decreases nodes@.len() - i,
    {
        assert(views.take(i + 1).drop_last() =~= views.take(i as int));
        let n = &nodes[i];
        assert(views.take(i + 1).last() == n@);
        if n.kind.is_inline() && edges::span_fits(source, n.span) {
            if let Some((from, to)) = inline_content_span(n, source) {
                if s <= from && to <= e && (n.span.start < s || n.span.end > e) {
                    if n.span.start < s {
                        s = n.span.start;
                    }
                    if n.span.end > e {
                        e = n.span.end;
                    }
                }
            }
        }
        i = i + 1;
    }
    assert(views.take(i as int) =~= views);
    (s, e)
}

/// The range widened until no node that it empties reaches out of it: to empty a run is to
/// delete it.
pub fn widen_over_emptied_inlines(nodes: &Vec<Node>, source: &str, start: usize, end: usize) -> (r:
    (usize, usize))
    requires
        start <= end <= text::byte_len(source@),
        text::boundary(source@, start as int),
        text::boundary(source@, end as int),
    ensures
        (r.0 as int, r.1 as int) == widened(
            node::node_views(nodes@),
            source@,
            start as int,
            end as int,
        ),
        r.0 <= start,
        end <= r.1 <= text::byte_len(source@),
        text::boundary(source@, r.0 as int),
        text::boundary(source@, r.1 as int),
{
    let ghost views = node::node_views(nodes@);
    let mut s: usize = start;
    let mut e: usize = end;
    loop
        invariant
            views == node::node_views(nodes@),
            s <= start <= end <= e <= text::byte_len(source@),
            text::boundary(source@, s as int),
            text::boundary(source@, e as int),
            widened(views, source@, start as int, end as int) == widened(
                views,
                source@,
                s as int,
                e as int,
            ),
        decreases s + text::byte_len(source@) - e,
    {
        let (s2, e2) = widen_once(nodes, source, s, e);
        proof {
            lemma_widened_once(views, source@, s as int, e as int);
        }
        if s2 == s && e2 == e {
            return (s, e);
        }
        s = s2;
        e = e2;
    }
}

impl Doc {
    /// Delete a range.
    fn erase(&mut self, start: usize, end: usize, kind: EditKind)
        requires
            old(self).wf(),
            start <= end <= old(self)@.len() ==> text::boundary(old(self)@.source, start as int)
                && text::boundary(old(self)@.source, end as int),
        ensures
            final(self)@ == old(self)@.spliced(start as int, end as int, Seq::empty(), kind),
            final(self).wf(),
            old(self)@.steady() ==> final(self)@.steady(),
            old(self)@.faithful() ==> final(self)@.faithful(),
    {
        proof {
            reveal_strlit("");
            assert(""@ =~= Seq::<char>::empty());
        }
        self.splice(start, end, "", kind);
    }

    /// Delete what is selected. Tells whether anything was.
    fn delete_selection(&mut self) -> (r: bool)
        requires
            old(self).wf(),
        ensures
            r == (old(self)@.selected() is Some),
            final(self)@ == old(self)@.cut(),
            final(self).wf(),
            old(self)@.steady() ==> final(self)@.steady(),
            old(self)@.faithful() ==> final(self)@.faithful(),
    {
        match self.selection() {
            Some((s, e)) => {
                self.erase(s, e, EditKind::Other);
                true
            },
            None => false,
        }
    }

    /// The stop next to the caret at an end of a block medium, away from the medium.
    fn stop_beyond(&self, forward: bool) -> (r: Option<usize>)
        requires
            self.wf(),
        ensures
            match r {
                Some(off) => self@.beyond(forward) == Some(off as int),
                None => self@.beyond(forward) is None,
            },
    {
        let current = match self.vmap_key {
            Some(key) => key.revision == self.revision,
            None => false,
        };
        if current {
            return if forward {
                self.vmap.stop_after(self.caret)
            } else {
                self.vmap.stop_before(self.caret)
            };
        }
        let b = self.source.as_str().as_bytes();
        let mut at: usize = self.caret;
        if forward {
            while at < b.len() && b[at] == 10
                invariant
                    self.caret <= at <= b@.len(),
                    b@ == encode_utf8(self@.source),
                    feeds_on(b@, self@.caret) == feeds_on(b@, at as int),
                decreases b@.len() - at,
            {
                at = at + 1;
            }
            if self.caret < at && at < b.len() {
                Some(at)
            } else {
                None
            }
        } else {
            while at > 0 && b[at - 1] == 10
                invariant
                    at <= self.caret <= b@.len(),
                    b@ == encode_utf8(self@.source),
                    feeds_back(b@, self@.caret) == feeds_back(b@, at as int),
                decreases at,
            {
                at = at - 1;
            }
            if 0 < at && at < self.caret {
                Some(at)
            } else {
                None
            }
        }
    }

    /// The range that goes with a block medium.
    fn media_range(&self, span: Span) -> (r: (usize, usize))
        requires
            self.wf(),
        ensures
            (r.0 as int, r.1 as int) == self@.medium_range(span),
            r.0 <= self@.len(),
            r.1 <= self@.len(),
            text::boundary(self@.source, r.0 as int),
            text::boundary(self@.source, r.1 as int),
    {
        let b = self.source.as_str().as_bytes();
        let start = self.settle(span.start);
        let end = self.settle(span.end);
        let from: usize = if start >= 2 && b[start - 1] == 10 && b[start - 2] == 10 {
            start - 2
        } else {
            start
        };
        let to: usize = if from == start && b.len() - end >= 2 && b[end] == 10 && b[end + 1] == 10 {
            proof {
                text::lemma_ascii_boundary(self@.source, end + 1);
            }
            end + 2
        } else {
            end
        };
        let from = self.raise(from);
        (self.settle(from), to)
    }

    /// A delete key at an end of a block medium. Tells whether there was one.
    fn delete_around_block_media(&mut self, forward: bool) -> (r: bool)
        requires
            old(self).wf(),
        ensures
            r == (old(self)@.clamped().medium() is Some),
            final(self)@ == old(self)@.clamped().media_deleted(forward),
            final(self).wf(),
            old(self)@.steady() ==> final(self)@.steady(),
            old(self)@.faithful() ==> final(self)@.faithful(),
    {
        proof {
            doc::lemma_clamped_valid(self@);
        }
        self.clamp_caret();
        let (side, span) = match self.medium_here() {
            Some(found) => found,
            None => {
                return false;
            },
        };
        let aimed = if forward {
            side == MediaStop::Before
        } else {
            side == MediaStop::After
        };
        if !aimed {
            let over = self.stop_beyond(forward);
            if let Some(off) = over {
                if off >= self.caret_floor() {
                    self.caret = self.settle(off);
                    self.anchor = None;
                    self.goal_col = None;
                }
            }
            return true;
        }
        let (from, to) = self.media_range(span);
        self.erase(from, to, EditKind::Other);
        true
    }

    /// Backspace behind a list marker. Tells whether the caret was there.
    fn backspace_list_start(&mut self) -> (r: bool)
        requires
            old(self).wf(),
        ensures
            r == old(self)@.at_item_start(),
            final(self)@ == (if r {
                old(self)@.item_undone()
            } else {
                old(self)@
            }),
            final(self).wf(),
            old(self)@.steady() ==> final(self)@.steady(),
            old(self)@.faithful() ==> final(self)@.faithful(),
    {
        let (start, sign, end) = match self.marker_on_line(self.caret) {
            Some(found) => found,
            None => {
                return false;
            },
        };
        if self.caret != end || !self.is_inside_list(start) {
            return false;
        }
        if sign > start {
            self.outdent();
        } else {
            self.erase(start, self.caret, EditKind::Other);
            self.renumber_here();
        }
        true
    }

    /// Backspace at the start of a heading. Tells whether the caret was there.
    #[verifier::rlimit(30)]
    fn backspace_heading_start(&mut self) -> (r: bool)
        requires
            old(self).wf(),
        ensures
            r == (old(self)@.heading_start() is Some),
            final(self)@ == old(self)@.heading_undone(),
            final(self).wf(),
            old(self)@.steady() ==> final(self)@.steady(),
            old(self)@.faithful() ==> final(self)@.faithful(),
    {
        let nodes = editor::nodes(&mut self.editor);
        let caret = self.caret;
        let (span, end) = match outline::find_heading_opening(
            &nodes,
            self.source.as_str(),
            caret,
        ) {
            Some(found) => found,
            None => {
                return false;
            },
        };
        let gap = skip_blanks_before(self.source.as_str(), caret, span.start);
        let start = skip_hashes_before(self.source.as_str(), gap, span.start);
        if start == gap {
            return false;
        }
        if is_closing_hashes(text::substr(self.source.as_str(), end, span.end)) {
            let kept = text::substr(self.source.as_str(), caret, end).to_owned();
            self.splice(start, span.end, kept.as_str(), EditKind::Other);
            let ghost d = self@;
            self.caret = self.settle(start);
            self.record_caret();
            assert(self@ == (DocView { caret: d.settled(start as int), ..d }.noted()));
        } else {
            self.erase(start, caret, EditKind::Other);
        }
        true
    }

    /// The last place before the caret that it can rest at, on a blank line.
    fn place_above(&self) -> (r: Option<usize>)
        requires
            self.wf(),
        ensures
            match r {
                Some(off) => self@.line_above() == Some(off as int),
                None => self@.line_above() is None,
            },
    {
        let current = match self.vmap_key {
            Some(key) => key.revision == self.revision,
            None => false,
        };
        if current {
            return self.vmap.stop_before(self.caret);
        }
        let b = self.source.as_str().as_bytes();
        let mut from: usize = self.caret;
        while from > 0 && b[from - 1] == 10
            invariant
                from <= self.caret <= b@.len(),
                b@ == encode_utf8(self@.source),
                feeds_back(b@, self@.caret) == feeds_back(b@, from as int),
            decreases from,
        {
            from = from - 1;
        }
        let feeds: usize = self.caret - from;
        if feeds == 0 {
            None
        } else if self.line_flow == LineFlow::Preserve || feeds % 2 == 1 {
            Some(self.caret - 1)
        } else {
            Some(self.caret - 2)
        }
    }

    /// The stop before the caret that a backspace on a blank line deletes to.
    fn blank_line_stop(&self) -> (r: Option<usize>)
        requires
            self.wf(),
        ensures
            match r {
                Some(stop) => self@.blank_stop() == Some(stop as int) && stop < self@.caret
                    && text::boundary(self@.source, stop as int),
                None => self@.blank_stop() is None,
            },
    {
        if self.caret <= self.caret_floor() || !self.on_blank_line(self.caret) {
            return None;
        }
        match self.place_above() {
            Some(stop) => {
                let to = self.raise(stop);
                let to = self.settle(to);
                if to < self.caret {
                    Some(to)
                } else {
                    None
                }
            },
            None => None,
        }
    }

    /// The line break in a table cell that a delete takes whole.
    fn cell_break_at(&mut self, edge: BreakEdge) -> (r: Option<(usize, usize)>)
        requires
            old(self).wf(),
        ensures
            match r {
                Some((start, end)) => old(self)@.break_range(edge) == Some(
                    (start as int, end as int),
                ) && start < end <= old(self)@.len() && text::boundary(
                    old(self)@.source,
                    start as int,
                ) && text::boundary(old(self)@.source, end as int),
                None => old(self)@.break_range(edge) is None,
            },
            final(self)@ == old(self)@,
    {
        let nodes = editor::nodes(&mut self.editor);
        let ghost views = node::node_views(nodes@);
        let b = self.source.as_str().as_bytes();
        let at = self.caret;
        let mut i: usize = 0;
        while i < nodes.len()
            invariant
                i <= nodes@.len(),
                views == node::node_views(nodes@),
                b@ == encode_utf8(self@.source),
                at == self@.caret,
                self@ == old(self)@,
                views == self@.nodes(),
                self.wf(),
                cell_break(views, b@, edge, at as int, 0) == cell_break(
                    views,
                    b@,
                    edge,
                    at as int,
                    i as int,
                ),
            decreases nodes@.len() - i,
        {
            let n = &nodes[i];
            assert(views[i as int] == n@);
            let touches = match edge {
                BreakEdge::Backward => n.span.end == at,
                BreakEdge::Forward => n.span.start == at,
            };
            if n.kind == Kind::HardBreak && n.span.start < n.span.end && n.span.start < b.len()
                && b[n.span.start] == 0x3c && touches {
                let start = match edge {
                    BreakEdge::Backward => self.raise(n.span.start),
                    BreakEdge::Forward => n.span.start,
                };
                let start = self.settle(start);
                let end = self.settle(n.span.end);
                if start < end {
                    return Some((start, end));
                }
                return None;
            }
            i = i + 1;
        }
        None
    }

    /// Whether a backslash that escapes punctuation stands at an offset.
    fn is_hidden_escape(&self, off: usize) -> (r: bool)
        ensures
            r == hidden_escape(encode_utf8(self@.source), off as int),
    {
        let b = self.source.as_str().as_bytes();
        if b.len() < 2 || off > b.len() - 2 {
            return false;
        }
        let c = b[off + 1];
        b[off] == 0x5c && ((0x21 <= c && c <= 0x2f) || (0x3a <= c && c <= 0x40) || (0x5b <= c && c
            <= 0x60) || (0x7b <= c && c <= 0x7e))
    }

    /// Delete the character before the caret, past what the rendered view guards.
    fn erase_char(&mut self)
        requires
            old(self).wf(),
        ensures
            final(self)@ == old(self)@.char_erased(),
            final(self).wf(),
            old(self)@.steady() ==> final(self)@.steady(),
            old(self)@.faithful() ==> final(self)@.faithful(),
    {
        let floor = self.caret_floor();
        if self.caret <= floor {
            return;
        }
        let rendered = self.view == modes::View::Wysiwyg;
        if rendered {
            if let Some((start, end)) = self.cell_break_at(BreakEdge::Backward) {
                self.erase(start, end, EditKind::Delete);
                return;
            }
        }
        let end: usize = if !rendered {
            self.caret
        } else {
            let inside = self.step_inside_close_delims(self.caret);
            let runs = self.runs_at(inside);
            let out = edges::skip_leading_open_delims(self.source.as_str(), &runs, inside);
            let out = self.raise(out);
            self.settle(out)
        };
        let prev = lines::prev_boundary(self.source.as_str(), end);
        let prev = self.raise(prev);
        let mut prev = self.settle(prev);
        if rendered && prev > floor && self.is_hidden_escape(prev - 1) {
            proof {
                text::lemma_ascii_boundary(self@.source, prev - 1);
            }
            prev = prev - 1;
        }
        if prev < end {
            self.erase(prev, end, EditKind::Delete);
        }
    }

    /// Delete the character before the caret, or what is selected. In the rendered view a
    /// list marker, the signs of a heading, a medium and a line break in a cell go as
    /// wholes, and no delimiter goes in part.
    pub fn backspace(&mut self)
        requires
            old(self).wf(),
        ensures
            final(self)@ == old(self)@.backspaced(),
            final(self).wf(),
            old(self)@.steady() ==> final(self)@.steady(),
            old(self)@.faithful() ==> final(self)@.faithful(),
    {
        if self.delete_selection() {
            return;
        }
        if self.view == modes::View::Source {
            self.erase_char();
            return;
        }
        if self.backspace_list_start() {
            return;
        }
        if self.backspace_heading_start() {
            return;
        }
        if self.delete_around_block_media(false) {
            return;
        }
        match self.blank_line_stop() {
            Some(stop) => self.erase(stop, self.caret, EditKind::Delete),
            None => self.erase_char(),
        }
    }

    /// In through every run whose opening delimiters start at `off`.
    fn step_inside_open_delims(&mut self, off: usize) -> (r: usize)
        requires
            off <= old(self)@.len(),
            text::boundary(old(self)@.source, off as int),
        ensures
            r == old(self)@.inside_open(off as int),
            off <= r <= old(self)@.len(),
            text::boundary(old(self)@.source, r as int),
            final(self)@ == old(self)@,
    {
        let mut at: usize = off;
        loop
            invariant
                off <= at <= self@.len(),
                text::boundary(self@.source, at as int),
                self@ == old(self)@,
                old(self)@.inside_open(off as int) == self@.inside_open(at as int),
            decreases self@.len() - at,
        {
            let runs = self.runs_at(at);
            match edges::step_inside_open(self.source.as_str(), &runs, at) {
                Some(inner) => {
                    at = inner;
                },
                None => {
                    return at;
                },
            }
        }
    }

    /// Delete the character after the caret.
    fn take_char(&mut self)
        requires
            old(self).wf(),
        ensures
            final(self)@ == old(self)@.char_taken(),
            final(self).wf(),
            old(self)@.steady() ==> final(self)@.steady(),
            old(self)@.faithful() ==> final(self)@.faithful(),
    {
        let from: usize = if self.view == modes::View::Source {
            self.caret
        } else {
            let inside = self.step_inside_open_delims(self.caret);
            let runs = self.runs_at(inside);
            edges::skip_trailing_close_delims(self.source.as_str(), &runs, inside)
        };
        let next = lines::next_boundary(self.source.as_str(), from);
        if from < next {
            self.erase(from, next, EditKind::Delete);
        }
    }

    /// Delete the character after the caret, or what is selected.
    pub fn delete_forward(&mut self)
        requires
            old(self).wf(),
        ensures
            final(self)@ == old(self)@.deleted_forward(),
            final(self).wf(),
            old(self)@.steady() ==> final(self)@.steady(),
            old(self)@.faithful() ==> final(self)@.faithful(),
    {
        if self.delete_selection() {
            return;
        }
        if self.caret >= text::len(self.source.as_str()) {
            return;
        }
        if self.view == modes::View::Source {
            self.take_char();
            return;
        }
        if self.delete_around_block_media(true) {
            return;
        }
        match self.cell_break_at(BreakEdge::Forward) {
            Some((start, end)) => self.erase(start, end, EditKind::Delete),
            None => self.take_char(),
        }
    }

    /// Delete a range with the inline nodes that it empties.
    fn sweep(&mut self, start: usize, end: usize)
        requires
            old(self).wf(),
            start <= old(self)@.len(),
            end <= old(self)@.len(),
            text::boundary(old(self)@.source, start as int),
            text::boundary(old(self)@.source, end as int),
        ensures
            final(self)@ == old(self)@.swept(start as int, end as int),
            final(self).wf(),
            old(self)@.steady() ==> final(self)@.steady(),
            old(self)@.faithful() ==> final(self)@.faithful(),
    {
        if start >= end {
            return;
        }
        if self.view == modes::View::Source {
            self.erase(start, end, EditKind::Delete);
            return;
        }
        let nodes = editor::nodes(&mut self.editor);
        let (from, to) = widen_over_emptied_inlines(&nodes, self.source.as_str(), start, end);
        self.erase(from, to, EditKind::Delete);
    }

    /// Delete the word before the caret, or what is selected.
    pub fn delete_word_back(&mut self)
        requires
            old(self).wf(),
        ensures
            final(self)@ == old(self)@.word_erased(),
            final(self).wf(),
            old(self)@.steady() ==> final(self)@.steady(),
            old(self)@.faithful() ==> final(self)@.faithful(),
    {
        if self.delete_selection() {
            return;
        }
        if self.view != modes::View::Source && self.delete_around_block_media(false) {
            return;
        }
        let start = self.word_left_from(self.caret);
        let start = self.raise(start);
        let start = self.settle(start);
        self.sweep(start, self.caret);
    }

    /// Delete the word after the caret, or what is selected.
    pub fn delete_word_forward(&mut self)
        requires
            old(self).wf(),
        ensures
            final(self)@ == old(self)@.word_taken(),
            final(self).wf(),
            old(self)@.steady() ==> final(self)@.steady(),
            old(self)@.faithful() ==> final(self)@.faithful(),
    {
        if self.delete_selection() {
            return;
        }
        if self.view != modes::View::Source && self.delete_around_block_media(true) {
            return;
        }
        let end = self.word_right_from(self.caret);
        let end = self.settle(end);
        self.sweep(self.caret, end);
    }

    /// Delete from the start of the caret's line to the caret, or what is selected.
    pub fn delete_to_line_start(&mut self)
        requires
            old(self).wf(),
        ensures
            final(self)@ == old(self)@.line_erased(),
            final(self).wf(),
            old(self)@.steady() ==> final(self)@.steady(),
            old(self)@.faithful() ==> final(self)@.faithful(),
    {
        if self.delete_selection() {
            return;
        }
        let (start, _) = self.line_span();
        let start = self.raise(start);
        let start = self.settle(start);
        self.sweep(start, self.caret);
    }

    /// Delete from the caret to the end of its line, or what is selected.
    pub fn delete_to_line_end(&mut self)
        requires
            old(self).wf(),
        ensures
            final(self)@ == old(self)@.line_taken(),
            final(self).wf(),
            old(self)@.steady() ==> final(self)@.steady(),
            old(self)@.faithful() ==> final(self)@.faithful(),
    {
        if self.delete_selection() {
            return;
        }
        let (_, end) = self.line_span();
        let end = self.settle(end);
        self.sweep(self.caret, end);
    }
}

} // verus!

//! Typing into a document: plain text, text that carries armed marks, and text that is to
//! stay literal.

use vstd::prelude::*;
use vstd::utf8::*;
use crate::doc;
use crate::doc::{Doc, DocView};
use crate::edges;
use crate::edits;
use crate::editor;
use crate::format::Format;
use crate::history;
use crate::html;
use crate::lines;
use crate::marks;
use crate::marks::{InlineKind, InlineMarks};
use crate::modes;
use crate::modes::EditKind;
use crate::outline;
use crate::text;
use crate::visual;
use crate::visual::MediaStop;

verus! {

broadcast use {history::lemma_parsable_stepped, history::lemma_parsable_coalesced};

/// The start of the spaces and tabs that end at an offset.
pub open spec fn gap_start(b: Seq<u8>, at: int) -> int
    decreases at,
{
    if 0 < at <= b.len() && (b[at - 1] == 0x20 || b[at - 1] == 0x09) {
        gap_start(b, at - 1)
    } else {
        at
    }
}

/// What a difference leaves, or nothing.
pub open spec fn less(a: int, b: int) -> int {
    if a > b {
        a - b
    } else {
        0
    }
}

impl DocView {
    /// Plain typing: over the selection or at the caret.
    pub open spec fn typed(self, new: Seq<char>) -> DocView {
        self.spliced(self.target().0, self.target().1, new, edits::typed_kind(new))
    }

    /// Whether the map was laid out from the text as it is.
    pub open spec fn mapped(self) -> bool {
        self.map_key matches Some(key) && key.revision == self.revision
    }

    /// The block medium whose one end the caret is at, and which end: by the map, or where
    /// that is of an older text, by the media that the parser reads as blocks.
    pub open spec fn medium(self) -> Option<(MediaStop, crate::node::Span)> {
        visual::medium_at(
            if self.mapped() {
                self.map.media
            } else {
                outline::block_media(self.nodes(), self.nodes().len() as int)
            },
            self.caret,
            0,
        )
    }

    /// The document with a paragraph opened for text that would otherwise join a block
    /// medium and dissolve it, and the caret in that paragraph.
    pub open spec fn opened(self, new: Seq<char>) -> DocView {
        if self.view != modes::View::Wysiwyg || new.len() == 0 || new == "\n"@
            || self.selected() is Some {
            self
        } else {
            let d = self.clamped();
            match d.medium() {
                None => d,
                Some((side, _)) => {
                    let e = d.spliced(d.caret, d.caret, "\n\n"@, EditKind::Other);
                    if d.refused(d.caret, d.caret, "\n\n"@) is Some {
                        e
                    } else {
                        DocView {
                            last_edit: Some(EditKind::Insert),
                            caret: if side == MediaStop::Before {
                                e.settled(d.caret)
                            } else {
                                e.caret
                            },
                            ..e
                        }
                    }
                },
            }
        }
    }

    /// Whether a paragraph is opened for text.
    pub open spec fn opens(self, new: Seq<char>) -> bool {
        let d = self.clamped();
        self.view == modes::View::Wysiwyg && new.len() > 0 && new != "\n"@ && self.selected()
            is None && d.medium() is Some && d.refused(d.caret, d.caret, "\n\n"@) is None
    }

    /// In through the runs whose closing delimiters end at `cut`, and the marks of them.
    pub open spec fn behind(self, cut: int, kinds: InlineMarks) -> (int, InlineMarks)
        decreases cut,
    {
        match edges::first_closing(self.runs(lines::step_left(self.source, cut)), cut) {
            Some((kind, inner)) => if 0 <= inner < cut {
                self.behind(inner, marks::marks_with(kinds, kind))
            } else {
                (cut, kinds)
            },
            None => (cut, kinds),
        }
    }

    /// The document with its caret at `off` inside marks that are in the document: nothing
    /// is selected, nothing is armed there, and the next edit starts a step of its own.
    pub open spec fn resting(self, off: int) -> DocView {
        DocView {
            caret: self.settled(off),
            anchor: None,
            last_edit: None,
            pending: marks::no_marks(),
            pending_at: Some(self.settled(off)),
            ..self
        }.clamped().noted()
    }

    /// Where the text before the gap at an offset ends.
    pub open spec fn gap(self, at: int) -> int {
        gap_start(encode_utf8(self.source), at)
    }

    /// Whether text at `at` carries on the marked run behind it: only spaces stand
    /// between, and the run's marks are exactly `want`.
    pub open spec fn carries_on(self, at: int, new: Seq<char>, want: InlineMarks) -> bool {
        let (cut, kinds) = self.behind(self.gap(at), marks::no_marks());
        new.len() > 0 && text::trimmed(new) == new && cut != self.gap(at) && kinds == want
    }

    /// The tail of a run carried on: the gap, the new text, and the delimiters that used
    /// to close before them.
    pub open spec fn carried(self, at: int, new: Seq<char>) -> Seq<char> {
        let gap = self.gap(at);
        let cut = self.behind(gap, marks::no_marks()).0;
        text::slice(self.source, gap, at) + new + text::slice(self.source, cut, gap)
    }

    /// The document with the marked run behind `at` carried on by new text, where that is
    /// what the text does.
    pub open spec fn rejoined(self, at: int, new: Seq<char>, want: InlineMarks) -> DocView {
        let gap = self.gap(at);
        let cut = self.behind(gap, marks::no_marks()).0;
        let tail = self.carried(at, new);
        if !self.carries_on(at, new, want) {
            self
        } else {
            let d = self.exact(cut, at, tail, EditKind::Other);
            if self.refused(cut, at, tail) is Some {
                d
            } else {
                d.resting(cut + (at - gap) + text::byte_len(new))
            }
        }
    }

    /// Whether a run is carried on.
    pub open spec fn rejoins(self, at: int, new: Seq<char>, want: InlineMarks) -> bool {
        let cut = self.behind(self.gap(at), marks::no_marks()).0;
        self.carries_on(at, new, want) && self.refused(cut, at, self.carried(at, new)) is None
    }

    /// A range wrapped in a mark, and where its content then stands: delimiters come in
    /// pairs of one length, so half of what was added stands on each side.
    pub open spec fn wrapped(self, s: int, e: int, kind: InlineKind) -> (DocView, int, int) {
        match editor::inline_toggled(self.setup, self.bytes, s, e, kind) {
            Ok(effect) => {
                let new = effect.change.new;
                let half = less(less(new.end as int, new.start as int), less(e, s)) / 2;
                (
                    DocView {
                        last_edit: None,
                        ..self.stepped(effect.bytes)
                    }.refreshed().rated(),
                    new.start + half,
                    new.end - half,
                )
            },
            Err(fault) => (
                DocView { status: Some(kind.word() + ": "@ + fault.words()), ..self },
                s,
                e,
            ),
        }
    }

    /// A range wrapped in each of some marks that are not in force, one after the other.
    pub open spec fn all_wrapped(
        self,
        kinds: Seq<InlineKind>,
        base: InlineMarks,
        s: int,
        e: int,
    ) -> (DocView, int, int)
        decreases kinds.len(),
    {
        if kinds.len() == 0 {
            (self, s, e)
        } else {
            let (d, cs, ce) = self.all_wrapped(kinds.drop_last(), base, s, e);
            if base.has(kinds.last()) {
                (d, cs, ce)
            } else {
                d.wrapped(cs, ce, kinds.last())
            }
        }
    }

    /// Text typed with marks armed: a run behind is carried on, or the text goes in past
    /// the runs of the marks it sheds and is wrapped in the marks that it takes on.
    pub open spec fn marked(self, at: int, new: Seq<char>, armed: InlineMarks) -> DocView {
        let base = self.marks_at(at);
        let first = base == marks::no_marks();
        let d = if first {
            self.rejoined(at, new, armed)
        } else {
            self
        };
        if first && self.rejoins(at, new, armed) {
            d
        } else {
            let ins = edges::shed_past(self.runs(at), at, armed);
            let e = d.exact(ins, ins, new, EditKind::Other);
            if d.refused(ins, ins, new) is Some {
                e
            } else {
                let (f, cs, ce) = e.all_wrapped(
                    armed.members(),
                    base,
                    ins,
                    ins + text::byte_len(new),
                );
                f.resting(ce)
            }
        }
    }

    /// White space typed with marks armed: it takes no mark, and they stay armed for the
    /// character behind it.
    pub open spec fn spaced(self, at: int, new: Seq<char>, armed: InlineMarks) -> DocView {
        let want = marks::marks_xor(self.marks_at(at), armed);
        let ins = edges::shed_past(self.runs(at), at, armed);
        let d = self.spliced(ins, ins, new, edits::typed_kind(new));
        if self.refused(ins, ins, new) is Some {
            d
        } else {
            d.rearmed(want).noted()
        }
    }

    /// Text inserted so that it stays literal: what would open markup is escaped. Where
    /// nothing was, a run that the text broke is re-spelt. The step joins the one before it
    /// where `join` says so, or where it continues a run of typing.
    pub open spec fn literal(
        self,
        at: int,
        new: Seq<char>,
        kind: EditKind,
        join: bool,
    ) -> DocView {
        match editor::literal_inserted(self.setup, self.bytes, at, new) {
            Err(fault) => DocView { status: Some("edit: "@ + fault.words()), ..self.noted() },
            Ok(effect) => {
                let c = self.noted().stepped(effect.bytes);
                let d = if join || self.joins(kind) {
                    c.coalesced().refreshed()
                } else {
                    c.refreshed()
                };
                let e = DocView {
                    caret: d.settled(effect.change.new.end as int),
                    anchor: None,
                    goal_col: None,
                    last_edit: Some(kind),
                    status: None,
                    ..d
                }.unarmed().rated().noted();
                let landed = effect.change.new;
                match self.fix_for(at, at, new) {
                    Some(fix) => if landed.end - landed.start == text::byte_len(new) {
                        e.repaired(fix)
                    } else {
                        e
                    },
                    None => e,
                }
            },
        }
    }

    /// Text typed to stay literal, over the selection or at the caret. Typed over a whole
    /// marked run it takes that run's marks.
    pub open spec fn literal_typed(self, new: Seq<char>) -> DocView {
        let kind = edits::typed_kind(new);
        match self.selected() {
            None => self.literal(self.caret, new, kind, false),
            Some((s, e)) => {
                let d = self.spliced(s, e, Seq::empty(), EditKind::Other);
                if self.refused(s, e, Seq::empty()) is Some {
                    d
                } else if d.pending_here() != marks::no_marks() && !text::all_space(new) {
                    d.marked(d.caret, new, d.pending_here())
                } else {
                    d.literal(d.caret, new, kind, true)
                }
            },
        }
    }

    /// Whether typed syntax stays text: in the rendered view, where the mode says so and
    /// the format can spell it.
    pub open spec fn keeps_literal(self) -> bool {
        self.markup_mode == modes::MarkupMode::Hidden && self.view == modes::View::Wysiwyg && (
        self.format == Format::Markdown || self.format == Format::Djot)
    }

    /// Typed text.
    pub open spec fn inserted(self, new: Seq<char>) -> DocView {
        let d = self.opened(new);
        let armed = d.pending_here();
        if armed != marks::no_marks() && d.selected() is None && new.len() > 0 {
            if text::all_space(new) {
                d.spaced(d.caret, new, armed)
            } else {
                d.marked(d.caret, new, armed)
            }
        } else if d.keeps_literal() && new.len() > 0 {
            d.literal_typed(new)
        } else {
            d.typed(new)
        }
    }

    /// Pasted text: always a step of its own.
    pub open spec fn pasted(self, new: Seq<char>) -> DocView {
        let d = self.opened(new);
        d.spliced(d.target().0, d.target().1, new, EditKind::Other)
    }
}

/// The gap before an offset starts between characters, no further right.
proof fn lemma_gap(source: Seq<char>, at: int)
    requires
        text::boundary(source, at),
    ensures
        0 <= gap_start(encode_utf8(source), at) <= at,
        text::boundary(source, gap_start(encode_utf8(source), at)),
    decreases at,
{
    let b = encode_utf8(source);
    text::lemma_boundary_range(source, at);
    if 0 < at <= b.len() && (b[at - 1] == 0x20 || b[at - 1] == 0x09) {
        text::lemma_ascii_boundary(source, at - 1);
        lemma_gap(source, at - 1);
    }
}

/// The start of the spaces and tabs that end at an offset.
pub fn find_gap(source: &str, at: usize) -> (r: usize)
    requires
        text::boundary(source@, at as int),
    ensures
        r == gap_start(encode_utf8(source@), at as int),
        r <= at,
        text::boundary(source@, r as int),
{
    let b = source.as_bytes();
    proof {
        text::lemma_boundary_range(source@, at as int);
        lemma_gap(source@, at as int);
    }
    let mut i: usize = at;
    while i > 0 && (b[i - 1] == 0x20 || b[i - 1] == 0x09)
        invariant
            i <= at <= b@.len(),
            b@ == encode_utf8(source@),
            gap_start(b@, at as int) == gap_start(b@, i as int),
        decreases i,
    {
        i = i - 1;
    }
    i
}

/// A document at rest is valid.
proof fn lemma_resting_valid(d: DocView, off: int)
    requires
        0 <= off,
    ensures
        d.resting(off).valid(),
{
    doc::lemma_settled(d, off);
    doc::lemma_clamped_valid(
        DocView {
            caret: d.settled(off),
            anchor: None,
            last_edit: None,
            pending: marks::no_marks(),
            pending_at: Some(d.settled(off)),
            ..d
        },
    );
}

/// A refreshed and rated document is valid.
pub proof fn lemma_refreshed_valid(d: DocView)
    requires
        0 <= d.caret,
        d.anchor matches Some(a) ==> 0 <= a,
    ensures
        d.refreshed().rated().valid(),
        0 <= d.refreshed().caret,
{
    let e = DocView {
        source: if valid_utf8(d.bytes) {
            decode_utf8(d.bytes)
        } else {
            d.source
        },
        revision: if d.revision == u64::MAX {
            0
        } else {
            (d.revision + 1) as u64
        },
        ..d
    };
    doc::lemma_settled(e, e.raised(e.caret));
    if let Some(a) = e.anchor {
        doc::lemma_settled(e, e.raised(a));
    }
}

impl Doc {
    /// Replace a range of bytes with text, and put the caret behind it. A range that does
    /// not fit, or an edit that the parser refuses, changes nothing but the status.
    pub fn edit(&mut self, start: usize, end: usize, new: &str)
        requires
            old(self).wf(),
            start <= end <= old(self)@.len() ==> text::boundary(old(self)@.source, start as int)
                && text::boundary(old(self)@.source, end as int),
        ensures
            final(self)@ == old(self)@.spliced(start as int, end as int, new@, EditKind::Other),
            final(self).wf(),
            old(self)@.steady() ==> final(self)@.steady(),
            old(self)@.faithful() ==> final(self)@.faithful(),
    {
        self.splice(start, end, new, EditKind::Other);
    }

    /// Replace a range with a step of an input method's composition. The steps of one
    /// composition undo together.
    pub fn edit_composing(&mut self, start: usize, end: usize, new: &str)
        requires
            old(self).wf(),
            start <= end <= old(self)@.len() ==> text::boundary(old(self)@.source, start as int)
                && text::boundary(old(self)@.source, end as int),
        ensures
            final(self)@ == old(self)@.spliced(start as int, end as int, new@, EditKind::Compose),
            final(self).wf(),
            old(self)@.steady() ==> final(self)@.steady(),
            old(self)@.faithful() ==> final(self)@.faithful(),
    {
        self.splice(start, end, new, EditKind::Compose);
    }

    /// End a composition: the next one is a step of its own.
    pub fn end_composition(&mut self)
        requires
            old(self).wf(),
        ensures
            final(self).wf(),
            final(self).editor == old(self).editor,
            final(self)@ == (if old(self)@.last_edit == Some(EditKind::Compose) {
                DocView { last_edit: None, ..old(self)@ }
            } else {
                old(self)@
            }),
    {
        if let Some(EditKind::Compose) = self.last_edit_kind {
            self.last_edit_kind = None;
        }
    }

    /// Insert text as it is, over the selection or at the caret.
    pub(crate) fn insert_raw(&mut self, new: &str)
        requires
            old(self).wf(),
        ensures
            final(self)@ == old(self)@.typed(new@),
            final(self).wf(),
            old(self)@.steady() ==> final(self)@.steady(),
            old(self)@.faithful() ==> final(self)@.faithful(),
    {
        let (s, e) = self.selection_or_caret();
        self.splice(s, e, new, edits::typed_edit_kind(new));
    }

    /// The block medium whose one end the caret is at, and which end.
    pub(crate) fn medium_here(&mut self) -> (r: Option<(MediaStop, crate::node::Span)>)
        ensures
            r == old(self)@.medium(),
            final(self)@ == old(self)@,
    {
        let current = match self.vmap_key {
            Some(key) => key.revision == self.revision,
            None => false,
        };
        if current {
            self.vmap.block_media_stop(self.caret)
        } else {
            let nodes = editor::nodes(&mut self.editor);
            visual::find_medium(&outline::find_block_media(&nodes), self.caret)
        }
    }

    /// Open a paragraph for text that would otherwise join a block medium, and put the
    /// caret in it.
    pub(crate) fn open_paragraph_at_block_media(&mut self, new: &str)
        requires
            old(self).wf(),
        ensures
            final(self)@ == old(self)@.opened(new@),
            final(self).wf(),
            old(self)@.steady() ==> final(self)@.steady(),
            old(self)@.faithful() ==> final(self)@.faithful(),
    {
        proof {
            text::lemma_empty(new@);
        }
        if self.view != modes::View::Wysiwyg || text::len(new) == 0 || text::str_eq(new, "\n") {
            return;
        }
        if self.selection().is_some() {
            return;
        }
        proof {
            doc::lemma_clamped_valid(self@);
        }
        self.clamp_caret();
        let at = self.caret;
        let side = match self.medium_here() {
            Some((side, _)) => side,
            None => {
                return;
            },
        };
        if !self.splice(at, at, "\n\n", EditKind::Other) {
            return;
        }
        self.last_edit_kind = Some(EditKind::Insert);
        if side == MediaStop::Before {
            self.caret = self.settle(at);
        }
    }

    /// In through the runs whose closing delimiters end at `from`, and the marks of them.
    fn walk_behind(&mut self, from: usize) -> (r: (usize, InlineMarks))
        requires
            from <= old(self)@.len(),
            text::boundary(old(self)@.source, from as int),
        ensures
            (r.0 as int, r.1) == old(self)@.behind(from as int, marks::no_marks()),
            r.0 <= from,
            text::boundary(old(self)@.source, r.0 as int),
            final(self)@ == old(self)@,
    {
        let mut cut: usize = from;
        let mut kinds = InlineMarks::empty();
        loop
            invariant
                cut <= from <= self@.len(),
                text::boundary(self@.source, cut as int),
                self@ == old(self)@,
                self@.behind(from as int, marks::no_marks()) == self@.behind(cut as int, kinds),
            decreases cut,
        {
            let left = lines::prev_boundary(self.source.as_str(), cut);
            let runs = self.runs_at(left);
            match edges::closing_at(self.source.as_str(), &runs, cut) {
                Some((kind, inner)) => {
                    if inner >= cut {
                        return (cut, kinds);
                    }
                    kinds.insert(kind);
                    cut = inner;
                },
                None => {
                    return (cut, kinds);
                },
            }
        }
    }

    /// Put the caret at `off` inside marks that are in the document.
    fn rest(&mut self, off: usize)
        ensures
            final(self)@ == old(self)@.resting(off as int),
            final(self).wf(),
            old(self)@.steady() ==> final(self)@.steady(),
            old(self)@.faithful() ==> final(self)@.faithful(),
    {
        proof {
            lemma_resting_valid(self@, off as int);
        }
        self.caret = self.settle(off);
        self.anchor = None;
        self.last_edit_kind = None;
        self.pending_marks = InlineMarks::empty();
        self.pending_at = Some(self.caret);
        self.clamp_caret();
        self.record_caret();
    }

    /// Carry on the marked run just behind `at` instead of opening a second one beside
    /// it. Tells whether it did.
    fn rejoin_run(&mut self, at: usize, new: &str, armed: InlineMarks) -> (r: bool)
        requires
            old(self).wf(),
            at <= old(self)@.len(),
            text::boundary(old(self)@.source, at as int),
        ensures
            final(self)@ == old(self)@.rejoined(at as int, new@, armed),
            final(self).wf(),
            old(self)@.steady() ==> final(self)@.steady(),
            old(self)@.faithful() ==> final(self)@.faithful(),
            r == old(self)@.rejoins(at as int, new@, armed),
    {
        proof {
            text::lemma_empty(new@);
        }
        let trimmed = text::trim(new);
        if text::len(new) == 0 || !text::str_eq(trimmed.as_str(), new) {
            return false;
        }
        let gap = find_gap(self.source.as_str(), at);
        let (cut, kinds) = self.walk_behind(gap);
        if cut == gap || kinds != armed {
            return false;
        }
        let space = text::substr(self.source.as_str(), gap, at);
        let close = text::substr(self.source.as_str(), cut, gap);
        let head = text::concat(space, new);
        let tail = text::concat(head.as_str(), close);
        proof {
            text::lemma_slice(self@.source, gap as int, at as int);
            text::lemma_slice(self@.source, cut as int, gap as int);
            text::lemma_encode_concat(space@ + new@, close@);
            text::lemma_encode_concat(space@, new@);
        }
        let new_len = text::len(new);
        if !self.splice_exact(cut, at, tail.as_str(), EditKind::Other) {
            return false;
        }
        self.rest(cut + (at - gap) + new_len);
        true
    }

    /// Wrap a range in a mark, and tell where its content then stands.
    fn wrap_span(&mut self, s: usize, e: usize, kind: InlineKind) -> (r: (usize, usize))
        requires
            old(self).wf(),
        ensures
            (final(self)@, r.0 as int, r.1 as int) == old(self)@.wrapped(s as int, e as int, kind),
            final(self).wf(),
            old(self)@.steady() ==> final(self)@.steady(),
            old(self)@.faithful() ==> final(self)@.faithful(),
    {
        match editor::toggle_inline(&mut self.editor, s, e, kind) {
            Ok(change) => {
                self.last_edit_kind = None;
                proof {
                    lemma_refreshed_valid(self@);
                }
                self.refresh();
                self.rate();
                let width = minus(change.new.end, change.new.start);
                let half: usize = minus(width, minus(e, s)) / 2;
                (change.new.start + half, change.new.end - half)
            },
            Err(err) => {
                let fault = editor::fault_of(err);
                let head = text::concat(kind.label(), ": ");
                self.status = Some(text::concat(head.as_str(), fault.message()));
                (s, e)
            },
        }
    }

    /// Insert text at `at` that carries the armed marks.
    pub(crate) fn insert_with_marks(&mut self, at: usize, new: &str, armed: InlineMarks)
        requires
            old(self).wf(),
            at <= old(self)@.len(),
            text::boundary(old(self)@.source, at as int),
        ensures
            final(self)@ == old(self)@.marked(at as int, new@, armed),
            final(self).wf(),
            old(self)@.steady() ==> final(self)@.steady(),
            old(self)@.faithful() ==> final(self)@.faithful(),
    {
        let runs = self.runs_at(at);
        let base = edges::marks_in_force(&runs, at);
        let ins = edges::step_past_marks(self.source.as_str(), &runs, at, armed);
        if base.is_empty() && self.rejoin_run(at, new, armed) {
            return;
        }
        let ghost joined = self@;
        if !self.splice_exact(ins, ins, new, EditKind::Other) {
            return;
        }
        let ghost plain = self@;
        let mut cs: usize = ins;
        let mut ce: usize = ins + text::len(new);
        let ghost (start, end) = (cs as int, ce as int);
        let kinds = armed.iter();
        let mut i: usize = 0;
        while i < kinds.len()
            invariant
                i <= kinds@.len(),
                kinds@ == armed.members(),
                self.wf(),
                old(self)@.steady() ==> self@.steady(),
                old(self)@.faithful() ==> self@.faithful(),
                (self@, cs as int, ce as int) == plain.all_wrapped(
                    kinds@.take(i as int),
                    base,
                    start,
                    end,
                ),
            decreases kinds@.len() - i,
        {
            assert(kinds@.take(i + 1).drop_last() =~= kinds@.take(i as int));
            assert(kinds@.take(i + 1).last() == kinds@[i as int]);
            if !base.contains(kinds[i]) {
                let (s, e) = self.wrap_span(cs, ce, kinds[i]);
                cs = s;
                ce = e;
            }
            i = i + 1;
        }
        assert(kinds@.take(i as int) =~= kinds@);
        self.rest(ce);
    }

    /// Insert typed white space at a caret with marks armed.
    fn insert_space_with_marks(&mut self, at: usize, new: &str, armed: InlineMarks)
        requires
            old(self).wf(),
            at <= old(self)@.len(),
            text::boundary(old(self)@.source, at as int),
        ensures
            final(self)@ == old(self)@.spaced(at as int, new@, armed),
            final(self).wf(),
            old(self)@.steady() ==> final(self)@.steady(),
            old(self)@.faithful() ==> final(self)@.faithful(),
    {
        let runs = self.runs_at(at);
        let want = edges::marks_in_force(&runs, at).xor(armed);
        let ins = edges::step_past_marks(self.source.as_str(), &runs, at, armed);
        if !self.splice(ins, ins, new, edits::typed_edit_kind(new)) {
            return;
        }
        self.rearm(want);
        self.record_caret();
    }

    /// Insert text at `at` so that it stays literal. It undoes together with the edit
    /// before it where `join` says so, or where it continues a run of typing.
    pub(crate) fn insert_literal_at(&mut self, at: usize, new: &str, kind: EditKind, join: bool)
        requires
            old(self).wf(),
            at <= old(self)@.len(),
            text::boundary(old(self)@.source, at as int),
        ensures
            final(self)@ == old(self)@.literal(at as int, new@, kind, join),
            final(self).wf(),
            old(self)@.steady() ==> final(self)@.steady(),
            old(self)@.faithful() ==> final(self)@.faithful(),
    {
        let coalesce = join || match self.last_edit_kind {
            Some(last) => kind != EditKind::Other && last == kind,
            None => false,
        };
        let fix = self.mark_edge_fix(at, at, new);
        self.record_caret();
        match editor::insert_literal(&mut self.editor, at, new) {
            Ok(change) => {
                if coalesce {
                    editor::coalesce_last_undo(&mut self.editor);
                }
                self.last_edit_kind = Some(kind);
                self.refresh();
                self.caret = self.settle(change.new.end);
                self.anchor = None;
                self.goal_col = None;
                self.clear_pending();
                self.rate();
                self.status = None;
                self.record_caret();
                if let Some(fix) = fix {
                    if change.new.start <= change.new.end && change.new.end - change.new.start
                        == text::len(new) {
                        self.repair_mark_edges(fix);
                    }
                }
            },
            Err(err) => {
                let fault = editor::fault_of(err);
                self.status = Some(text::concat("edit: ", fault.message()));
            },
        }
    }

    /// Insert typed text so that it stays literal, over the selection or at the caret.
    fn insert_literal_typed(&mut self, new: &str)
        requires
            old(self).wf(),
        ensures
            final(self)@ == old(self)@.literal_typed(new@),
            final(self).wf(),
            old(self)@.steady() ==> final(self)@.steady(),
            old(self)@.faithful() ==> final(self)@.faithful(),
    {
        let kind = edits::typed_edit_kind(new);
        match self.selection() {
            Some((s, e)) => {
                proof {
                    reveal_strlit("");
                    assert(""@ =~= Seq::<char>::empty());
                }
                if !self.splice(s, e, "", EditKind::Other) {
                    return;
                }
                let armed = self.pending_here();
                if !armed.is_empty() && !text::is_blank(new) {
                    self.insert_with_marks(self.caret, new, armed);
                    return;
                }
                self.insert_literal_at(self.caret, new, kind, true);
            },
            None => {
                self.insert_literal_at(self.caret, new, kind, false);
            },
        }
    }

    /// Insert typed text at the caret, over the selection if there is one. A single typed
    /// character undoes together with the run of typing before it. Text from a clipboard
    /// goes through [`paste`](Self::paste).
    #[verifier::rlimit(30)]
    pub fn insert(&mut self, new: &str)
        requires
            old(self).wf(),
        ensures
            final(self)@ == old(self)@.inserted(new@),
            final(self).wf(),
            old(self)@.steady() ==> final(self)@.steady(),
            old(self)@.faithful() ==> final(self)@.faithful(),
    {
        proof {
            text::lemma_empty(new@);
        }
        self.open_paragraph_at_block_media(new);
        let armed = self.pending_here();
        if !armed.is_empty() && self.selection().is_none() && text::len(new) > 0 {
            if text::is_blank(new) {
                self.insert_space_with_marks(self.caret, new, armed);
            } else {
                self.insert_with_marks(self.caret, new, armed);
            }
            return;
        }
        if !self.markup_mode.authors() && self.view == modes::View::Wysiwyg && text::len(new) > 0
            && matches!(self.format, Format::Markdown | Format::Djot) {
            self.insert_literal_typed(new);
            return;
        }
        self.insert_raw(new);
    }

    /// Insert clipboard text at the caret, over the selection if there is one: always a
    /// step of its own.
    pub fn paste(&mut self, new: &str)
        requires
            old(self).wf(),
        ensures
            final(self)@ == old(self)@.pasted(new@),
            final(self).wf(),
            old(self)@.steady() ==> final(self)@.steady(),
            old(self)@.faithful() ==> final(self)@.faithful(),
    {
        self.open_paragraph_at_block_media(new);
        let (s, e) = self.selection_or_caret();
        self.splice(s, e, new, EditKind::Other);
    }

    /// Paste HTML: what it says in the document's format. Tells whether there was
    /// anything to paste.
    pub fn paste_html(&mut self, clip: &str) -> (r: bool)
        requires
            old(self).wf(),
        ensures
            match html::taken(clip@, old(self)@.format) {
                Some(new) => r && final(self)@ == old(self)@.pasted(new),
                None => !r && final(self)@ == old(self)@,
            },
            final(self).wf(),
            old(self)@.steady() ==> final(self)@.steady(),
            old(self)@.faithful() ==> final(self)@.faithful(),
    {
        match html::parse_fragment(clip, self.format) {
            Some(new) => {
                self.paste(new.as_str());
                true
            },
            None => false,
        }
    }
}

/// What a difference leaves, or nothing.
pub(crate) fn minus(a: usize, b: usize) -> (r: usize)
    ensures
        r == less(a as int, b as int),
{
    if a > b {
        a - b
    } else {
        0
    }
}

} // verus!

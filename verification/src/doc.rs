//! The document: an editor over some bytes, with a caret and a selection.
//!
//! A caret moves through the characters, and every mutation is one edit of a range or one
//! gesture of the editor. This file holds the document's state, what is known of it, and
//! the one way by which ordinary edits change it; the other files of the document add
//! typing, deleting, structure, motion and files.

use vstd::prelude::*;
use vstd::utf8::*;
use crate::caret::CaretState;
use crate::edges;
use crate::edges::MarkAt;
use crate::editor;
use crate::editor::{Ancestor, AncestorView, Fault};
use crate::format::Format;
use crate::history;
use crate::lines;
use crate::marks;
use crate::marks::InlineMarks;
use crate::modes;
use crate::modes::{EditKind, LineFlow, MarkupMode};
use crate::node;
use crate::node::{Node, NodeView, Span};
use crate::respell;
use crate::respell::{FixView, MarkEdgeFix};
use crate::text;
use crate::visual::{MapView, VisualMap};

verus! {

broadcast use {history::lemma_parsable_stepped, history::lemma_parsable_coalesced};

/// What a map was laid out from: the text's revision, the width, and the line whose
/// markup it shows.
#[derive(Clone, Copy, PartialEq, Eq, Debug, Structural)]
pub struct MapKey {
    pub revision: u64,
    pub wrap: Option<usize>,
    pub reveal: Option<Span>,
}

/// A document being edited.
pub struct Doc {
    pub editor: twig::Editor,
    pub format: Format,
    /// The path of the file behind the document; empty where there is none.
    pub path: String,
    /// The name of that file, as a title shows it.
    pub file: String,
    /// The text, read back from the editor after every edit.
    pub source: String,
    /// The caret, as a byte offset between two characters.
    pub caret: usize,
    /// The fixed end of the selection; the caret is the moving end.
    pub anchor: Option<usize>,
    pub dirty: bool,
    pub status: Option<String>,
    pub view: modes::View,
    pub markup_mode: MarkupMode,
    pub line_flow: LineFlow,
    /// The kind of the last edit: edits of one kind in a row undo as one.
    pub last_edit_kind: Option<EditKind>,
    /// The marks to flip for text typed at [`pending_at`](Self::pending_at).
    pub pending_marks: InlineMarks,
    pub pending_at: Option<usize>,
    /// The text as of the last open or save.
    pub clean_source: String,
    /// A digest of the bytes last read from the file or written to it.
    pub disk_hash: Option<u64>,
    /// The display column that vertical motion aims for.
    pub goal_col: Option<usize>,
    /// The map of the rendered document.
    pub vmap: VisualMap,
    /// Counts the changes of the text.
    pub revision: u64,
    /// What the map was laid out from.
    pub vmap_key: Option<MapKey>,
    /// How many rows each block medium takes, by its destination.
    pub media_rows: Vec<(String, usize)>,
    pub scroll: usize,
    pub body_origin: (u16, u16),
    pub body_height: u16,
    /// The caret as of the last frame drawn.
    pub drawn_caret: Option<usize>,
}

/// What a [`Doc`] is, with what its editor holds.
pub struct DocView {
    pub setup: int,
    /// The bytes that the editor holds.
    pub bytes: Seq<u8>,
    /// The caret blob on them.
    pub held: Seq<u8>,
    /// The states that undoing leads to, bytes and caret blob, the next one last.
    pub past: Seq<(Seq<u8>, Seq<u8>)>,
    /// The states that redoing leads to, the next one last.
    pub future: Seq<(Seq<u8>, Seq<u8>)>,
    pub format: Format,
    pub path: Seq<char>,
    pub file: Seq<char>,
    pub source: Seq<char>,
    pub caret: int,
    pub anchor: Option<int>,
    pub dirty: bool,
    pub status: Option<Seq<char>>,
    pub view: modes::View,
    pub markup_mode: MarkupMode,
    pub line_flow: LineFlow,
    pub last_edit: Option<EditKind>,
    pub pending: InlineMarks,
    pub pending_at: Option<int>,
    pub clean: Seq<char>,
    pub disk_hash: Option<u64>,
    pub goal_col: Option<int>,
    pub map: MapView,
    pub revision: u64,
    pub map_key: Option<MapKey>,
    pub media_rows: Map<Seq<char>, usize>,
    pub scroll: int,
    pub body_origin: (u16, u16),
    pub body_height: u16,
    pub drawn_caret: Option<int>,
}

/// An optional offset as an integer.
pub open spec fn at_int(off: Option<usize>) -> Option<int> {
    match off {
        Some(off) => Some(off as int),
        None => None,
    }
}

/// The view of an optional text.
pub open spec fn words_of(text: Option<String>) -> Option<Seq<char>> {
    match text {
        Some(text) => Some(text@),
        None => None,
    }
}

/// The heights of some media, by their destinations: of one that is given twice, the later.
pub open spec fn rows_of(rows: Seq<(String, usize)>) -> Map<Seq<char>, usize>
    decreases rows.len(),
{
    if rows.len() == 0 {
        Map::empty()
    } else {
        rows_of(rows.drop_last()).insert(rows.last().0@, rows.last().1)
    }
}

impl View for Doc {
    type V = DocView;

    open spec fn view(&self) -> DocView {
        DocView {
            setup: editor::editor_setup(self.editor),
            bytes: editor::editor_bytes(self.editor),
            held: editor::editor_blob(self.editor),
            past: editor::editor_past(self.editor),
            future: editor::editor_future(self.editor),
            format: self.format,
            path: self.path@,
            file: self.file@,
            source: self.source@,
            caret: self.caret as int,
            anchor: at_int(self.anchor),
            dirty: self.dirty,
            status: words_of(self.status),
            view: self.view,
            markup_mode: self.markup_mode,
            line_flow: self.line_flow,
            last_edit: self.last_edit_kind,
            pending: self.pending_marks,
            pending_at: at_int(self.pending_at),
            clean: self.clean_source@,
            disk_hash: self.disk_hash,
            goal_col: at_int(self.goal_col),
            map: self.vmap@,
            revision: self.revision,
            map_key: self.vmap_key,
            media_rows: rows_of(self.media_rows@),
            scroll: self.scroll as int,
            body_origin: self.body_origin,
            body_height: self.body_height,
            drawn_caret: at_int(self.drawn_caret),
        }
    }
}

impl DocView {
    /// How many bytes the text takes.
    pub open spec fn len(self) -> int {
        text::byte_len(self.source)
    }

    /// Whether the caret and the anchor stand between characters of the text.
    pub open spec fn valid(self) -> bool {
        &&& 0 <= self.caret <= self.len()
        &&& text::boundary(self.source, self.caret)
        &&& (self.anchor matches Some(a) ==> 0 <= a <= self.len() && text::boundary(self.source, a))
    }

    /// The state that an undo would restore: its bytes and its caret blob.
    pub open spec fn undo_step(self) -> Option<(Seq<u8>, Seq<u8>)> {
        if self.past.len() > 0 {
            Some(self.past.last())
        } else {
            None
        }
    }

    /// The state that a redo would restore.
    pub open spec fn redo_step(self) -> Option<(Seq<u8>, Seq<u8>)> {
        if self.future.len() > 0 {
            Some(self.future.last())
        } else {
            None
        }
    }

    /// Whether the parser takes the document as it is and every state of its history: no
    /// undo and no redo is then refused.
    pub open spec fn steady(self) -> bool {
        history::parsable(self.setup, self.bytes, self.past, self.future)
    }

    /// The document with its caret and its anchor put on the state that the editor holds.
    pub open spec fn noted(self) -> DocView {
        DocView { held: self.blob(), ..self }
    }

    /// The document after one step of its editor that made the bytes `bytes`: the state
    /// before it is the next to go back to, and there is nothing to go forward to.
    pub open spec fn stepped(self, bytes: Seq<u8>) -> DocView {
        DocView {
            bytes,
            held: Seq::empty(),
            past: editor::capped(self.past.push((self.bytes, self.held))),
            future: Seq::empty(),
            ..self
        }
    }

    /// The document with its last step folded into the one before it.
    pub open spec fn coalesced(self) -> DocView {
        if self.past.len() < 2 {
            self
        } else {
            DocView { past: self.past.drop_last(), ..self }
        }
    }

    /// Whether the text is what the editor holds.
    pub open spec fn synced(self) -> bool {
        self.bytes == encode_utf8(self.source)
    }

    /// Whether the text is what the editor's bytes spell, where they spell one.
    pub open spec fn faithful(self) -> bool {
        history::mirrored(self.bytes, self.source)
    }

    /// The place in the text that an offset belongs to: no further than the end, and
    /// between two characters.
    pub open spec fn settled(self, off: int) -> int {
        text::floor_boundary(self.source, text::least(off, self.len()))
    }

    /// The first offset that the caret can reach: in the rendered view, what is never
    /// shown is out of reach.
    pub open spec fn floor(self) -> int {
        match self.view {
            modes::View::Wysiwyg => text::least(self.map.content_start as int, self.len()),
            modes::View::Source => 0,
        }
    }

    /// The later of an offset and the first that the caret can reach.
    pub open spec fn raised(self, off: int) -> int {
        if off < self.floor() {
            self.floor()
        } else {
            off
        }
    }

    /// The document with its caret and anchor in reach.
    pub open spec fn clamped(self) -> DocView {
        DocView {
            caret: self.settled(self.raised(self.caret)),
            anchor: match self.anchor {
                Some(a) => Some(self.settled(self.raised(a))),
                None => None,
            },
            ..self
        }
    }

    /// The document with the text read back from the editor. Bytes that are not UTF-8
    /// leave the text as it is.
    pub open spec fn refreshed(self) -> DocView {
        DocView {
            source: if valid_utf8(self.bytes) {
                decode_utf8(self.bytes)
            } else {
                self.source
            },
            revision: if self.revision == u64::MAX {
                0
            } else {
                (self.revision + 1) as u64
            },
            ..self
        }.clamped()
    }

    /// The document with nothing armed.
    pub open spec fn unarmed(self) -> DocView {
        DocView { pending: marks::no_marks(), pending_at: None, ..self }
    }

    /// The document marked as modified where it is not what was last saved.
    pub open spec fn rated(self) -> DocView {
        DocView { dirty: self.source != self.clean, ..self }
    }

    /// The selected range, where one is selected.
    pub open spec fn selected(self) -> Option<(int, int)> {
        match self.anchor {
            Some(a) => if a < self.caret {
                Some((a, self.caret))
            } else if a > self.caret {
                Some((self.caret, a))
            } else {
                None
            },
            None => None,
        }
    }

    /// The selected range, or the caret as an empty one.
    pub open spec fn target(self) -> (int, int) {
        match self.selected() {
            Some(range) => range,
            None => (self.caret, self.caret),
        }
    }

    /// The nodes that an offset lies in.
    pub open spec fn chain(self, off: int) -> Seq<AncestorView> {
        if off <= self.bytes.len() {
            editor::chain_of(self.setup, self.bytes, off)
        } else {
            Seq::empty()
        }
    }

    /// The nodes of the document.
    pub open spec fn nodes(self) -> Seq<NodeView> {
        node::read_all(editor::tree_of(self.setup, self.bytes))
    }

    /// The inline marks that an offset lies in.
    pub open spec fn runs(self, off: int) -> Seq<MarkAt> {
        edges::marks_of(self.chain(off), self.source)
    }

    /// The marks in force for text at an offset.
    pub open spec fn marks_at(self, off: int) -> InlineMarks {
        edges::in_force(self.runs(off), off)
    }

    /// The marks armed at the caret: those toggled there with nothing selected.
    pub open spec fn pending_here(self) -> InlineMarks {
        if self.anchor is None && self.pending_at == Some(self.caret) {
            self.pending
        } else {
            marks::no_marks()
        }
    }

    /// What the caret blob of the document's state holds.
    pub open spec fn blob(self) -> Seq<u8> {
        CaretState {
            caret: self.caret as usize,
            anchor: match self.anchor {
                Some(a) => Some(a as usize),
                None => None,
            },
        }.blob()
    }

    /// Why the editor refuses an edit, where it does.
    pub open spec fn refused(self, start: int, end: int, new: Seq<char>) -> Option<Fault> {
        if start > end || end > self.bytes.len() {
            Some(Fault::InvalidArgument)
        } else if editor::unparsable(
            self.setup,
            editor::spliced(self.bytes, start, end, encode_utf8(new)),
        ) {
            Some(Fault::EditConflict)
        } else {
            None
        }
    }

    /// One edit as asked: the range replaced, the caret behind what was put there, nothing
    /// selected and nothing armed. Refused, the document is as it was and says why.
    pub open spec fn exact(self, start: int, end: int, new: Seq<char>, kind: EditKind) -> DocView {
        match self.refused(start, end, new) {
            Some(fault) => DocView { status: Some("edit: "@ + fault.words()), ..self.noted() },
            None => {
                let c = self.noted().stepped(
                    editor::spliced(self.bytes, start, end, encode_utf8(new)),
                );
                let d = if self.joins(kind) {
                    c.coalesced().refreshed()
                } else {
                    c.refreshed()
                };
                DocView {
                    caret: d.settled(start + text::byte_len(new)),
                    anchor: None,
                    goal_col: None,
                    last_edit: Some(kind),
                    status: None,
                    ..d
                }.unarmed().rated().noted()
            },
        }
    }

    /// Whether an edit of a kind undoes together with the one before it.
    pub open spec fn joins(self, kind: EditKind) -> bool {
        kind != EditKind::Other && self.last_edit == Some(kind)
    }

    /// The document with the marks `want` in force at its caret, by what is armed there.
    pub open spec fn rearmed(self, want: InlineMarks) -> DocView {
        DocView {
            pending: marks::marks_xor(want, self.marks_at(self.caret)),
            pending_at: Some(self.caret),
            ..self
        }
    }

    /// The re-spelling held ready for an edit: in the rendered view, where it would leave
    /// white space against a delimiter.
    pub open spec fn fix_for(self, start: int, end: int, new: Seq<char>) -> Option<FixView> {
        if self.view != modes::View::Wysiwyg {
            None
        } else {
            respell::edge_fix(
                self.source,
                self.runs(start),
                start,
                end,
                new,
                self.pending_here(),
            )
        }
    }

    /// Whether a re-spelling is due: the edit it was held for did break the run.
    pub open spec fn fix_due(self, fix: FixView) -> bool {
        fix.end <= self.len() && !self.marks_at(text::least(fix.probe, self.len())).has(fix.kind)
    }

    /// The document with a run re-spelt, where it is due: by a step that joins the edit that
    /// made it so.
    pub open spec fn repaired(self, fix: FixView) -> DocView {
        if !self.fix_due(fix) {
            self
        } else if self.refused(fix.start, fix.end, fix.text) is Some {
            self.exact(fix.start, fix.end, fix.text, EditKind::Other)
        } else {
            let d = self.exact(fix.start, fix.end, fix.text, EditKind::Other).coalesced();
            DocView { last_edit: self.last_edit, caret: d.settled(fix.caret), ..d }.rearmed(
                fix.want,
            ).clamped().noted()
        }
    }

    /// In through the closing delimiters that end at an offset, one run after the other.
    pub open spec fn inside_close(self, off: int) -> int
        decreases off,
    {
        match edges::close_inside(self.runs(lines::step_left(self.source, off)), off) {
            Some(inner) => if 0 <= inner < off {
                self.inside_close(inner)
            } else {
                off
            },
            None => off,
        }
    }

    /// The document after a delete: a caret past a run's closing delimiters goes back into
    /// the run, in the rendered view.
    pub open spec fn homed(self) -> DocView {
        let at = self.inside_close(self.caret);
        if self.view != modes::View::Wysiwyg || at == self.caret {
            self
        } else {
            DocView { caret: at, ..self }.unarmed().noted()
        }
    }

    /// An ordinary edit: the range replaced, the run it broke re-spelt, and after a delete
    /// the caret back in the run that it stands at.
    pub open spec fn spliced(self, start: int, end: int, new: Seq<char>, kind: EditKind) -> DocView {
        let d = self.exact(start, end, new, kind);
        if self.refused(start, end, new) is Some {
            d
        } else {
            let e = match self.fix_for(start, end, new) {
                Some(fix) => d.repaired(fix),
                None => d,
            };
            if new.len() == 0 && end > start {
                e.homed()
            } else {
                e
            }
        }
    }
}

impl Doc {
    /// Whether the document's state is valid.
    pub open spec fn wf(&self) -> bool {
        self@.valid()
    }
}

/// A place that an offset settles at lies in the text, between characters.
pub proof fn lemma_settled(d: DocView, off: int)
    requires
        0 <= off,
    ensures
        0 <= d.settled(off) <= d.len(),
        text::boundary(d.source, d.settled(off)),
        d.settled(off) <= off,
        off <= d.len() && text::boundary(d.source, off) ==> d.settled(off) == off,
{
    text::lemma_floor_boundary(d.source, text::least(off, d.len()));
}

/// An edit leaves a valid document valid.
pub proof fn lemma_exact_valid(d: DocView, start: int, end: int, new: Seq<char>, kind: EditKind)
    requires
        d.valid(),
        0 <= start,
    ensures
        d.exact(start, end, new, kind).valid(),
{
    if d.refused(start, end, new) is None {
        let c = d.noted().stepped(editor::spliced(d.bytes, start, end, encode_utf8(new)));
        let e = if d.joins(kind) {
            c.coalesced().refreshed()
        } else {
            c.refreshed()
        };
        lemma_settled(e, start + text::byte_len(new));
    }
}

impl Doc {

    /// The place in the text that an offset belongs to.
    pub fn settle(&self, off: usize) -> (r: usize)
        ensures
            r == self@.settled(off as int),
            r <= self@.len(),
            text::boundary(self@.source, r as int),
            off <= self@.len() && text::boundary(self@.source, off as int) ==> r == off,
    {
        let len = text::len(self.source.as_str());
        let at: usize = if off < len {
            off
        } else {
            len
        };
        proof {
            lemma_settled(self@, off as int);
        }
        text::step_to_boundary(self.source.as_str(), at)
    }

    /// The first offset that the caret can reach.
    pub fn caret_floor(&self) -> (r: usize)
        ensures
            r == self@.floor(),
            r <= self@.len(),
    {
        match self.view {
            modes::View::Wysiwyg => {
                let len = text::len(self.source.as_str());
                if self.vmap.content_start < len {
                    self.vmap.content_start
                } else {
                    len
                }
            },
            modes::View::Source => 0,
        }
    }

    /// The later of an offset and the first that the caret can reach.
    pub(crate) fn raise(&self, off: usize) -> (r: usize)
        ensures
            r == self@.raised(off as int),
    {
        let floor = self.caret_floor();
        if off < floor {
            floor
        } else {
            off
        }
    }

    /// Bring the caret and the anchor in reach.
    pub(crate) fn clamp_caret(&mut self)
        ensures
            final(self)@ == old(self)@.clamped(),
            final(self).editor == old(self).editor,
    {
        let caret = self.raise(self.caret);
        let caret = self.settle(caret);
        let anchor: Option<usize> = match self.anchor {
            Some(a) => {
                let a = self.raise(a);
                Some(self.settle(a))
            },
            None => None,
        };
        self.caret = caret;
        self.anchor = anchor;
    }

    /// Read the text back from the editor.
    pub(crate) fn refresh(&mut self)
        ensures
            final(self)@ == old(self)@.refreshed(),
            final(self)@.faithful(),
    {
        proof {
            history::lemma_mirrored(self@.bytes, self@.source);
        }
        if let Some(s) = editor::source_str(&mut self.editor) {
            proof {
                encode_utf8_decode_utf8(s@);
                encode_utf8_valid_utf8(s@);
            }
            self.source = s;
        }
        self.revision = if self.revision == u64::MAX {
            0
        } else {
            self.revision + 1
        };
        self.clamp_caret();
    }

    /// Put the caret and the anchor on the editor's current state, for undo and redo to
    /// give back.
    pub(crate) fn record_caret(&mut self)
        ensures
            final(self)@ == old(self)@.noted(),
    {
        let state = CaretState { caret: self.caret, anchor: self.anchor };
        let blob = state.to_blob();
        assert(state.blob() == self@.blob());
        editor::set_caret_blob(&mut self.editor, blob.as_slice());
    }

    /// Drop what is armed.
    pub(crate) fn clear_pending(&mut self)
        ensures
            final(self)@ == old(self)@.unarmed(),
            final(self).editor == old(self).editor,
    {
        self.pending_marks = InlineMarks::empty();
        self.pending_at = None;
    }

    /// Mark the document as modified where it is not what was last saved.
    pub(crate) fn rate(&mut self)
        ensures
            final(self)@ == old(self)@.rated(),
            final(self).editor == old(self).editor,
    {
        self.dirty = !text::str_eq(self.source.as_str(), self.clean_source.as_str());
    }

    /// One edit as asked, with no run re-spelt. Tells whether it landed.
    pub(crate) fn splice_exact(&mut self, start: usize, end: usize, new: &str, kind: EditKind) -> (r:
        bool)
        requires
            old(self).wf(),
        ensures
            final(self)@ == old(self)@.exact(start as int, end as int, new@, kind),
            final(self).wf(),
            old(self)@.steady() ==> final(self)@.steady(),
            old(self)@.faithful() ==> final(self)@.faithful(),
            r == (old(self)@.refused(start as int, end as int, new@) is None),
            r ==> start + text::byte_len(new@) <= usize::MAX,
    {
        proof {
            lemma_exact_valid(self@, start as int, end as int, new@, kind);
        }
        let coalesce = match self.last_edit_kind {
            Some(last) => kind != EditKind::Other && last == kind,
            None => false,
        };
        self.record_caret();
        match editor::edit_range(&mut self.editor, start, end, new) {
            Ok(change) => {
                if coalesce {
                    editor::coalesce_last_undo(&mut self.editor);
                }
                self.last_edit_kind = Some(kind);
                self.refresh();
                self.caret = self.settle(change.new.end);
                self.anchor = None;
                self.goal_col = None;
                self.clear_pending();
                self.rate();
                self.status = None;
                self.record_caret();
                true
            },
            Err(e) => {
                let fault = editor::fault_of(e);
                self.status = Some(text::concat("edit: ", fault.message()));
                false
            },
        }
    }
}

/// A re-spelling leaves a valid document valid.
pub proof fn lemma_repaired_valid(d: DocView, fix: FixView)
    requires
        d.valid(),
        0 <= fix.start,
        0 <= fix.caret,
    ensures
        d.repaired(fix).valid(),
{
    lemma_exact_valid(d, fix.start, fix.end, fix.text, EditKind::Other);
    let e = d.exact(fix.start, fix.end, fix.text, EditKind::Other).coalesced();
    lemma_settled(e, fix.caret);
    let f = DocView { last_edit: d.last_edit, caret: e.settled(fix.caret), ..e }.rearmed(fix.want);
    lemma_clamped_valid(f);
}

/// A document whose caret and anchor are brought in reach is valid.
pub proof fn lemma_clamped_valid(d: DocView)
    requires
        0 <= d.caret,
        d.anchor matches Some(a) ==> 0 <= a,
    ensures
        d.clamped().valid(),
{
    lemma_settled(d, d.raised(d.caret));
    if let Some(a) = d.anchor {
        lemma_settled(d, d.raised(a));
    }
}

impl Doc {
    /// The nodes of the document's tree.
    pub fn nodes(&mut self) -> (r: Vec<Node>)
        ensures
            node::node_views(r@) == old(self)@.nodes(),
            final(self)@ == old(self)@,
    {
        editor::nodes(&mut self.editor)
    }

    /// The nodes that an offset lies in.
    pub(crate) fn chain_at(&mut self, off: usize) -> (r: Vec<Ancestor>)
        ensures
            editor::chain_view(r@) == old(self)@.chain(off as int),
            final(self)@ == old(self)@,
    {
        match editor::ancestors_at(&mut self.editor, off) {
            Some(chain) => chain,
            None => {
                let none: Vec<Ancestor> = Vec::new();
                assert(editor::chain_view(none@) =~= Seq::<AncestorView>::empty());
                none
            },
        }
    }

    /// The inline marks that an offset lies in.
    pub(crate) fn runs_at(&mut self, off: usize) -> (r: Vec<MarkAt>)
        ensures
            r@ == old(self)@.runs(off as int),
            edges::all_fit(old(self)@.source, r@),
            final(self)@ == old(self)@,
    {
        let chain = self.chain_at(off);
        edges::marks_in(&chain, self.source.as_str())
    }

    /// The marks in force for text at an offset.
    pub(crate) fn marks_at(&mut self, off: usize) -> (r: InlineMarks)
        ensures
            r == old(self)@.marks_at(off as int),
            final(self)@ == old(self)@,
    {
        let runs = self.runs_at(off);
        edges::marks_in_force(&runs, off)
    }

    /// The marks armed at the caret: those toggled there with nothing selected.
    pub(crate) fn pending_here(&self) -> (r: InlineMarks)
        ensures
            r == self@.pending_here(),
    {
        let here = match self.pending_at {
            Some(at) => at == self.caret,
            None => false,
        };
        if self.anchor.is_none() && here {
            self.pending_marks
        } else {
            InlineMarks::empty()
        }
    }

    /// Arm what puts the marks `want` in force at the caret.
    pub(crate) fn rearm(&mut self, want: InlineMarks)
        ensures
            final(self)@ == old(self)@.rearmed(want),
    {
        let here = self.marks_at(self.caret);
        self.pending_marks = want.xor(here);
        self.pending_at = Some(self.caret);
    }

    /// The re-spelling that would keep white space off the delimiters for an edit.
    pub(crate) fn mark_edge_fix(&mut self, start: usize, end: usize, new: &str) -> (r: Option<
        MarkEdgeFix,
    >)
        requires
            start <= end <= old(self)@.len() ==> text::boundary(old(self)@.source, start as int)
                && text::boundary(old(self)@.source, end as int),
        ensures
            match r {
                Some(fix) => old(self)@.fix_for(start as int, end as int, new@) == Some(fix@),
                None => old(self)@.fix_for(start as int, end as int, new@) is None,
            },
            final(self)@ == old(self)@,
    {
        if self.view != modes::View::Wysiwyg {
            return None;
        }
        let runs = self.runs_at(start);
        let pending = self.pending_here();
        respell::mark_edge_fix(self.source.as_str(), &runs, start, end, new, pending)
    }

    /// Re-spell a run, where the edit that the re-spelling was held for did break it. It
    /// undoes together with that edit.
    pub(crate) fn repair_mark_edges(&mut self, fix: MarkEdgeFix)
        requires
            old(self).wf(),
        ensures
            final(self)@ == old(self)@.repaired(fix@),
            final(self).wf(),
            old(self)@.steady() ==> final(self)@.steady(),
            old(self)@.faithful() ==> final(self)@.faithful(),
    {
        proof {
            lemma_repaired_valid(self@, fix@);
        }
        let len = text::len(self.source.as_str());
        if fix.end > len {
            return;
        }
        let probe: usize = if fix.probe < len {
            fix.probe
        } else {
            len
        };
        if self.marks_at(probe).contains(fix.kind) {
            return;
        }
        let resumed = self.last_edit_kind;
        if !self.splice_exact(fix.start, fix.end, fix.text.as_str(), EditKind::Other) {
            return;
        }
        editor::coalesce_last_undo(&mut self.editor);
        self.last_edit_kind = resumed;
        self.caret = self.settle(fix.caret);
        self.anchor = None;
        self.goal_col = None;
        self.rearm(fix.want);
        self.clamp_caret();
        self.record_caret();
    }
}

impl Doc {
    /// In through every run whose closing delimiters end at `off`: the other offset that a
    /// rendered view draws in the same place.
    pub(crate) fn step_inside_close_delims(&mut self, off: usize) -> (r: usize)
        requires
            off <= old(self)@.len(),
            text::boundary(old(self)@.source, off as int),
        ensures
            r == old(self)@.inside_close(off as int),
            r <= off,
            text::boundary(old(self)@.source, r as int),
            final(self)@ == old(self)@,
    {
        let mut at: usize = off;
        loop
            invariant
                at <= off,
                off <= self@.len(),
                text::boundary(self@.source, at as int),
                self@ == old(self)@,
                old(self)@.inside_close(off as int) == self@.inside_close(at as int),
            decreases at,
        {
            let left = lines::prev_boundary(self.source.as_str(), at);
            let runs = self.runs_at(left);
            match edges::step_inside_close(self.source.as_str(), &runs, at) {
                Some(inner) => {
                    at = inner;
                },
                None => {
                    return at;
                },
            }
        }
    }

    /// After a delete, take a caret that stands past a run's closing delimiters back into
    /// the run.
    pub(crate) fn settle_inside_close_delims(&mut self)
        requires
            old(self).wf(),
        ensures
            final(self)@ == old(self)@.homed(),
            final(self).wf(),
            old(self)@.steady() ==> final(self)@.steady(),
            old(self)@.faithful() ==> final(self)@.faithful(),
    {
        if self.view != modes::View::Wysiwyg {
            return;
        }
        let at = self.step_inside_close_delims(self.caret);
        if at != self.caret {
            self.caret = at;
            self.clear_pending();
            self.record_caret();
        }
    }

    /// One ordinary edit, which keeps white space off the delimiters of inline marks.
    /// Tells whether it landed.
    pub(crate) fn splice(&mut self, start: usize, end: usize, new: &str, kind: EditKind) -> (r: bool)
        requires
            old(self).wf(),
            start <= end <= old(self)@.len() ==> text::boundary(old(self)@.source, start as int)
                && text::boundary(old(self)@.source, end as int),
        ensures
            final(self)@ == old(self)@.spliced(start as int, end as int, new@, kind),
            final(self).wf(),
            old(self)@.steady() ==> final(self)@.steady(),
            old(self)@.faithful() ==> final(self)@.faithful(),
            r == (old(self)@.refused(start as int, end as int, new@) is None),
    {
        let fix = self.mark_edge_fix(start, end, new);
        if !self.splice_exact(start, end, new, kind) {
            return false;
        }
        if let Some(fix) = fix {
            self.repair_mark_edges(fix);
        }
        if text::len(new) == 0 && end > start {
            self.settle_inside_close_delims();
        }
        proof {
            text::lemma_empty(new@);
        }
        true
    }

    /// The selected range, or none.
    pub fn selection(&self) -> (r: Option<(usize, usize)>)
        ensures
            match r {
                Some((s, e)) => self@.selected() == Some((s as int, e as int)) && s < e,
                None => self@.selected() is None,
            },
    {
        match self.anchor {
            Some(a) => if a < self.caret {
                Some((a, self.caret))
            } else if a > self.caret {
                Some((self.caret, a))
            } else {
                None
            },
            None => None,
        }
    }

    /// The selected range, or the caret as an empty one.
    pub(crate) fn selection_or_caret(&self) -> (r: (usize, usize))
        ensures
            (r.0 as int, r.1 as int) == self@.target(),
            r.0 <= r.1,
            self.wf() ==> r.1 <= self@.len() && text::boundary(self@.source, r.0 as int)
                && text::boundary(self@.source, r.1 as int),
    {
        match self.selection() {
            Some(range) => range,
            None => (self.caret, self.caret),
        }
    }

    /// The selected text, or none.
    pub fn selected_text(&self) -> (r: Option<&str>)
        requires
            self.wf(),
        ensures
            match r {
                Some(picked) => self@.selected() matches Some(range) && picked@ == text::slice(
                    self@.source,
                    range.0,
                    range.1,
                ),
                None => self@.selected() is None,
            },
    {
        match self.selection() {
            Some((s, e)) => Some(text::substr(self.source.as_str(), s, e)),
            None => None,
        }
    }
}

} // verus!

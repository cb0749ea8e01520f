//! A document's life: opening, showing, saving, reloading, and its history.

use std::collections::hash_map::DefaultHasher;
use std::hash::Hasher;
use vstd::prelude::*;
use vstd::std_specs::hash::*;
use vstd::utf8::*;
use crate::caret::CaretState;
use crate::doc;
use crate::doc::{Doc, DocView, MapKey};
use crate::editor;
use crate::editor::{EditorView, Fault};
use crate::format::Format;
use crate::history;
use crate::lines;
use crate::marks;
use crate::marks::InlineMarks;
use crate::modes;
use crate::modes::{DiskState, LineFlow, MarkupMode};
use crate::node::Span;
use crate::text;
use crate::visual;
use crate::visual::{MapView, VisualMap};

verus! {

/// What the digest of some bytes is.
pub open spec fn digest(bytes: Seq<u8>) -> u64 {
    DefaultHasher::spec_finish(seq![bytes])
}

/// A digest of a file's bytes, to tell whether they changed.
pub fn hash_bytes(bytes: &[u8]) -> (r: u64)
    ensures
        r == digest(bytes@),
{
    let mut hasher = DefaultHasher::new();
    hasher.write(bytes);
    assert(hasher@ =~= seq![bytes@]);
    hasher.finish()
}

/// Why a document could not be opened.
#[derive(Clone, Copy, PartialEq, Eq, Debug, Structural)]
pub enum OpenFault {
    /// No format has the file's extension.
    UnknownExtension,
    /// The parser refuses the bytes.
    Parse(Fault),
    /// The bytes are not UTF-8.
    NotText,
}

/// What came of reading a document's file.
pub enum DiskRead {
    Bytes(Vec<u8>),
    /// There is no such file, in the words of the system.
    Missing(String),
    /// The file is there and cannot be read, in the words of the system.
    Unreadable(String),
}

/// A document as it is opened: in the rendered view, the caret at its start, nothing
/// selected, and nothing to save.
pub open spec fn fresh(
    setup: int,
    form: Format,
    path: Seq<char>,
    file: Seq<char>,
    source: Seq<char>,
    disk_hash: Option<u64>,
) -> DocView {
    DocView {
        setup,
        bytes: encode_utf8(source),
        held: Seq::empty(),
        past: Seq::empty(),
        future: Seq::empty(),
        format: form,
        path,
        file,
        source,
        caret: 0,
        anchor: None,
        dirty: false,
        status: None,
        view: modes::View::Wysiwyg,
        markup_mode: MarkupMode::Hidden,
        line_flow: LineFlow::Fold,
        last_edit: None,
        pending: marks::no_marks(),
        pending_at: None,
        clean: source,
        disk_hash,
        goal_col: None,
        map: visual::empty_map(),
        revision: 0,
        map_key: None,
        media_rows: Map::empty(),
        scroll: 0,
        body_origin: (0u16, 0u16),
        body_height: 0u16,
        drawn_caret: None,
    }
}

/// The setup that an editor over some text has.
pub open spec fn setup_of(form: Format, source: Seq<char>) -> int {
    editor::setup_for(form, editor::features_of(form), encode_utf8(source))
}

/// Why no editor can be made over some bytes, where none can.
pub open spec fn unopened(form: Format, bytes: Seq<u8>) -> Option<Fault> {
    editor::no_editor(form, editor::features_of(form), bytes)
}

impl DocView {
    /// Whether there is no file behind the document.
    pub open spec fn untitled(self) -> bool {
        self.path.len() == 0
    }

    /// The document's title.
    pub open spec fn title(self) -> Seq<char> {
        if self.untitled() {
            "untitled"@
        } else {
            self.file
        }
    }

    /// The line whose markup the rendered view shows.
    pub open spec fn revealed(self) -> Option<(int, int)> {
        if self.markup_mode == MarkupMode::Full && self.view == modes::View::Wysiwyg {
            let b = encode_utf8(self.source);
            Some((lines::bol(b, self.caret), lines::eol(b, self.caret)))
        } else {
            None
        }
    }

    /// The document in its other view.
    pub open spec fn turned(self) -> DocView {
        DocView {
            view: match self.view {
                modes::View::Source => modes::View::Wysiwyg,
                modes::View::Wysiwyg => modes::View::Source,
            },
            scroll: 0,
            status: None,
            ..self
        }.clamped()
    }

    /// The document with a mode set.
    pub open spec fn with_markup(self, mode: MarkupMode) -> DocView {
        if self.markup_mode == mode {
            self
        } else {
            DocView { markup_mode: mode, map_key: None, ..self }
        }
    }

    /// The document with a line flow set.
    pub open spec fn with_flow(self, flow: LineFlow) -> DocView {
        if self.line_flow == flow {
            self
        } else {
            DocView { line_flow: flow, map_key: None, ..self }
        }
    }

    /// The document saved to another file.
    pub open spec fn saved_as(self, path: Seq<char>, file: Seq<char>) -> DocView {
        DocView { path, file, ..self }.saved()
    }

    /// What a map of a width is laid out from now.
    pub open spec fn layout_key(self, wrap: Option<usize>) -> MapKey {
        MapKey {
            revision: self.revision,
            wrap,
            reveal: match self.revealed() {
                Some((start, end)) => Some(Span { start: start as usize, end: end as usize }),
                None => None,
            },
        }
    }

    /// The document with a map laid out for it. A map that the document already has is
    /// kept.
    pub open spec fn laid_out(self, wrap: Option<usize>, map: MapView) -> DocView {
        if self.map_key == Some(self.layout_key(wrap)) {
            self.clamped()
        } else {
            DocView { map, map_key: Some(self.layout_key(wrap)), ..self }.clamped()
        }
    }

    /// The document in the state that a step of its history holds, with the caret and the
    /// selection of that state.
    pub open spec fn restored(self, step: (Seq<u8>, Seq<u8>)) -> DocView {
        let d = DocView { bytes: step.0, held: step.1, ..self }.refreshed();
        let e = match CaretState::of_blob(step.1) {
            Some(state) => DocView {
                caret: state.caret as int,
                anchor: doc::at_int(state.anchor),
                ..d
            },
            None => DocView {
                caret: editor::restored_end(self.bytes, step.0),
                anchor: None,
                ..d
            },
        };
        DocView { goal_col: None, last_edit: None, status: None, ..e }.rated().clamped()
    }

    /// The document one step back in its history, or why it is not: there is nothing to
    /// undo, or the parser refuses the state to restore.
    pub open spec fn undone(self) -> DocView {
        match self.undo_step() {
            None => DocView { status: Some("nothing to undo"@), ..self },
            Some(step) => if editor::unparsable(self.setup, step.0) {
                DocView { status: Some("undo: "@ + Fault::EditConflict.words()), ..self }
            } else {
                DocView {
                    past: self.past.drop_last(),
                    future: self.future.push((self.bytes, self.held)),
                    ..self
                }.restored(step)
            },
        }
    }

    /// The document one step forward in its history, or why it is not.
    pub open spec fn redone(self) -> DocView {
        match self.redo_step() {
            None => DocView { status: Some("nothing to redo"@), ..self },
            Some(step) => if editor::unparsable(self.setup, step.0) {
                DocView { status: Some("redo: "@ + Fault::EditConflict.words()), ..self }
            } else {
                DocView {
                    past: self.past.push((self.bytes, self.held)),
                    future: self.future.drop_last(),
                    ..self
                }.restored(step)
            },
        }
    }

    /// The document saved.
    pub open spec fn saved(self) -> DocView {
        DocView {
            clean: self.source,
            dirty: false,
            disk_hash: Some(digest(encode_utf8(self.source))),
            status: Some("saved "@ + self.title()),
            ..self
        }
    }

    /// How the file stands to what was last read from it or written to it.
    /// Where there is no file, nothing can have changed.
    pub open spec fn disk_state(self, read: DiskRead) -> DiskState {
        match self.disk_hash {
            None => DiskState::Untitled,
            Some(want) => if self.untitled() {
                DiskState::Untitled
            } else {
                match read {
                    DiskRead::Bytes(bytes) => if digest(bytes@) == want {
                        DiskState::Unchanged
                    } else {
                        DiskState::Changed
                    },
                    DiskRead::Missing(_) => DiskState::Missing,
                    DiskRead::Unreadable(_) => DiskState::Unreadable,
                }
            },
        }
    }

    /// The document with the text of its file, and no history.
    pub open spec fn renewed(self, source: Seq<char>) -> DocView {
        DocView {
            setup: setup_of(self.format, source),
            bytes: encode_utf8(source),
            held: Seq::empty(),
            past: Seq::empty(),
            future: Seq::empty(),
            source,
            clean: source,
            disk_hash: Some(digest(encode_utf8(source))),
            revision: if self.revision == u64::MAX {
                0
            } else {
                (self.revision + 1) as u64
            },
            anchor: None,
            goal_col: None,
            last_edit: None,
            dirty: false,
            status: Some("reloaded "@ + self.title()),
            ..self
        }.clamped()
    }

    /// The document reloaded from what was read of its file; where that fails, it says
    /// why and is left as it is.
    pub open spec fn reloaded(self, read: DiskRead) -> DocView {
        if self.untitled() {
            DocView { status: Some("no file to reload"@), ..self }
        } else {
            match read {
                DiskRead::Missing(why) | DiskRead::Unreadable(why) => DocView {
                    status: Some("reload failed: "@ + why@),
                    ..self
                },
                DiskRead::Bytes(bytes) => if !valid_utf8(bytes@) {
                    DocView { status: Some("reload failed: file is not UTF-8"@), ..self }
                } else {
                    match unopened(self.format, bytes@) {
                        Some(fault) => DocView {
                            status: Some("reload failed: twig parse: "@ + fault.words()),
                            ..self
                        },
                        None => self.renewed(decode_utf8(bytes@)),
                    }
                },
            }
        }
    }
}

/// The height of a medium among some, by its destination.
fn height_of(rows: &Vec<(String, usize)>, to: &str) -> (r: Option<usize>)
    ensures
        r == (if doc::rows_of(rows@).dom().contains(to@) {
            Some(doc::rows_of(rows@)[to@])
        } else {
            None
        }),
{
    let mut i: usize = rows.len();
    assert(rows@.take(i as int) =~= rows@);
    while i > 0
        invariant
            i <= rows@.len(),
            doc::rows_of(rows@).dom().contains(to@) == doc::rows_of(
                rows@.take(i as int),
            ).dom().contains(to@),
            doc::rows_of(rows@)[to@] == doc::rows_of(rows@.take(i as int))[to@],
        decreases i,
    {
        assert(rows@.take(i as int).drop_last() =~= rows@.take(i - 1));
        assert(rows@.take(i as int).last() == rows@[i - 1]);
        if text::str_eq(rows[i - 1].0.as_str(), to) {
            return Some(rows[i - 1].1);
        }
        i = i - 1;
    }
    None
}

/// A medium that has a height is one of those that are given one.
proof fn lemma_given(rows: Seq<(String, usize)>, to: Seq<char>)
    requires
        doc::rows_of(rows).dom().contains(to),
    ensures
        exists|i: int| 0 <= i < rows.len() && (#[trigger] rows[i]).0@ == to,
    decreases rows.len(),
{
    if rows.last().0@ == to {
        assert(rows[rows.len() - 1].0@ == to);
    } else {
        lemma_given(rows.drop_last(), to);
        let i = choose|i: int|
            0 <= i < rows.drop_last().len() && (#[trigger] rows.drop_last()[i]).0@ == to;
        assert(rows[i].0@ == to);
    }
}

/// One that is given a height has it.
proof fn lemma_taken(rows: Seq<(String, usize)>, i: int)
    requires
        0 <= i < rows.len(),
    ensures
        doc::rows_of(rows).dom().contains(rows[i].0@),
    decreases rows.len(),
{
    if i < rows.len() - 1 {
        lemma_taken(rows.drop_last(), i);
        assert(rows.drop_last()[i] == rows[i]);
    }
}

/// Whether every medium of one list has the same height in the other.
fn rows_agree(a: &Vec<(String, usize)>, b: &Vec<(String, usize)>) -> (r: bool)
    ensures
        r == (forall|to: Seq<char>| #[trigger]
            doc::rows_of(a@).dom().contains(to) ==> doc::rows_of(b@).dom().contains(to)
                && doc::rows_of(b@)[to] == doc::rows_of(a@)[to]),
{
    let ghost (x, y) = (doc::rows_of(a@), doc::rows_of(b@));
    let mut i: usize = 0;
    while i < a.len()
        invariant
            i <= a@.len(),
            x == doc::rows_of(a@),
            y == doc::rows_of(b@),
            forall|k: int|
                0 <= k < i ==> y.dom().contains((#[trigger] a@[k]).0@) && y[a@[k].0@]
                    == x[a@[k].0@],
        decreases a@.len() - i,
    {
        let to = a[i].0.as_str();
        proof {
            lemma_taken(a@, i as int);
        }
        let (mine, other) = (height_of(a, to), height_of(b, to));
        let same = match (mine, other) {
            (Some(m), Some(o)) => m == o,
            _ => false,
        };
        if !same {
            assert(x.dom().contains(a@[i as int].0@));
            return false;
        }
        i = i + 1;
    }
    assert forall|to: Seq<char>| #[trigger] x.dom().contains(to) implies y.dom().contains(to)
        && y[to] == x[to] by {
        lemma_given(a@, to);
    }
    true
}

/// Whether two lists give the same heights.
fn same_rows(a: &Vec<(String, usize)>, b: &Vec<(String, usize)>) -> (r: bool)
    ensures
        r == (doc::rows_of(a@) == doc::rows_of(b@)),
{
    let same = rows_agree(a, b) && rows_agree(b, a);
    proof {
        if same {
            assert(doc::rows_of(a@) =~= doc::rows_of(b@));
        }
    }
    same
}

/// An editor over some text.
fn new_editor(source: &str, form: Format) -> (r: Result<twig::Editor, Fault>)
    ensures
        match r {
            Ok(ed) => unopened(form, encode_utf8(source@)) is None && editor::editor_view(ed) == (
            EditorView {
                setup: setup_of(form, source@),
                bytes: encode_utf8(source@),
                blob: Seq::empty(),
                past: Seq::empty(),
                future: Seq::empty(),
            }) && !editor::unparsable(setup_of(form, source@), encode_utf8(source@)),
            Err(fault) => unopened(form, encode_utf8(source@)) == Some(fault),
        },
{
    let features = editor::parse_features(form);
    match editor::open_editor(source.as_bytes(), form, features.as_slice()) {
        Ok(ed) => Ok(ed),
        Err(err) => Err(editor::fault_of(err)),
    }
}

impl Doc {
    /// A document of its parts.
    fn from_parts(
        ed: twig::Editor,
        form: Format,
        path: String,
        file: String,
        source: String,
        disk_hash: Option<u64>,
    ) -> (r: Doc)
        requires
            editor::editor_view(ed) == (EditorView {
                setup: editor::editor_setup(ed),
                bytes: encode_utf8(source@),
                blob: Seq::empty(),
                past: Seq::empty(),
                future: Seq::empty(),
            }),
            !editor::unparsable(editor::editor_setup(ed), encode_utf8(source@)),
        ensures
            r@.steady(),
            r@ == fresh(editor::editor_setup(ed), form, path@, file@, source@, disk_hash),
            r.wf(),
            r@.synced(),
            r.editor == ed,
    {
        proof {
            reveal(history::parsable);
        }
        proof {
            text::lemma_boundary_ends(source@);
        }
        let clean = source.as_str().to_owned();
        let doc = Doc {
            editor: ed,
            format: form,
            path,
            file,
            source,
            caret: 0,
            anchor: None,
            dirty: false,
            status: None,
            view: modes::View::Wysiwyg,
            markup_mode: MarkupMode::default(),
            line_flow: LineFlow::default(),
            last_edit_kind: None,
            pending_marks: InlineMarks::empty(),
            pending_at: None,
            clean_source: clean,
            disk_hash,
            goal_col: None,
            vmap: VisualMap::default(),
            revision: 0,
            vmap_key: None,
            media_rows: Vec::new(),
            scroll: 0,
            body_origin: (0, 0),
            body_height: 0,
            drawn_caret: None,
        };
        assert(doc@.media_rows =~= Map::empty());
        doc
    }

    /// A document of some text, with no file behind it.
    pub fn from_source(source: String, form: Format) -> (r: Result<Doc, Fault>)
        ensures
            match r {
                Ok(d) => unopened(form, encode_utf8(source@)) is None && d@ == fresh(
                    setup_of(form, source@),
                    form,
                    Seq::empty(),
                    Seq::empty(),
                    source@,
                    None,
                ) && d.wf() && d@.synced() && d@.steady(),
                Err(fault) => unopened(form, encode_utf8(source@)) == Some(fault),
            },
    {
        match new_editor(source.as_str(), form) {
            Ok(ed) => {
                let none = String::new();
                let nil = String::new();
                Ok(Doc::from_parts(ed, form, none, nil, source, None))
            },
            Err(fault) => Err(fault),
        }
    }

    /// An empty Markdown document with no file behind it.
    pub fn blank() -> (r: Result<Doc, Fault>)
        ensures
            match r {
                Ok(d) => unopened(Format::Markdown, Seq::empty()) is None && d@ == fresh(
                    setup_of(Format::Markdown, Seq::empty()),
                    Format::Markdown,
                    Seq::empty(),
                    Seq::empty(),
                    Seq::empty(),
                    None,
                ) && d.wf() && d@.synced() && d@.steady(),
                Err(fault) => unopened(Format::Markdown, Seq::empty()) == Some(fault),
            },
    {
        let empty = String::new();
        proof {
            assert(encode_utf8(empty@) =~= Seq::<u8>::empty());
        }
        Doc::from_source(empty, Format::Markdown)
    }

    /// The document of a file: of its bytes, in the format that its extension stands for.
    pub fn opened(bytes: Vec<u8>, extension: &str, path: String, file: String) -> (r: Result<
        Doc,
        OpenFault,
    >)
        ensures
            match crate::format::format_of(extension@) {
                None => r matches Err(OpenFault::UnknownExtension),
                Some(form) => match unopened(form, bytes@) {
                    Some(fault) => r matches Err(OpenFault::Parse(why)) && why == fault,
                    None => if valid_utf8(bytes@) {
                        r matches Ok(d) && d@ == fresh(
                            setup_of(form, decode_utf8(bytes@)),
                            form,
                            path@,
                            file@,
                            decode_utf8(bytes@),
                            Some(digest(bytes@)),
                        ) && d.wf() && d@.synced() && d@.steady()
                    } else {
                        r matches Err(OpenFault::NotText)
                    },
                },
            },
    {
        let form = match crate::format::detect_format(extension) {
            Some(form) => form,
            None => {
                return Err(OpenFault::UnknownExtension);
            },
        };
        let features = editor::parse_features(form);
        let ed = match editor::open_editor(bytes.as_slice(), form, features.as_slice()) {
            Ok(ed) => ed,
            Err(err) => {
                return Err(OpenFault::Parse(editor::fault_of(err)));
            },
        };
        let hash = hash_bytes(bytes.as_slice());
        let ghost read = bytes@;
        match text::utf8_string(bytes) {
            Some(source) => {
                proof {
                    encode_utf8_decode_utf8(source@);
                    encode_utf8_valid_utf8(source@);
                }
                Ok(Doc::from_parts(ed, form, path, file, source, Some(hash)))
            },
            None => Err(OpenFault::NotText),
        }
    }

    /// Whether there is no file behind the document.
    pub fn is_untitled(&self) -> (r: bool)
        ensures
            r == self@.untitled(),
    {
        proof {
            text::lemma_empty(self@.path);
        }
        text::len(self.path.as_str()) == 0
    }

    /// The document's title: the name of its file.
    pub fn file_name(&self) -> (r: String)
        ensures
            r@ == self@.title(),
    {
        if self.is_untitled() {
            "untitled".to_owned()
        } else {
            self.file.as_str().to_owned()
        }
    }

    /// The name of the document's format.
    pub fn format_name(&self) -> (r: &'static str)
        ensures
            r@ == self@.format.named(),
    {
        self.format.name()
    }

    /// The name of the active view.
    pub fn view_name(&self) -> (r: &'static str)
        ensures
            r@ == (match self@.view {
                modes::View::Source => "source"@,
                modes::View::Wysiwyg => "wysiwyg"@,
            }),
    {
        match self.view {
            modes::View::Source => "source",
            modes::View::Wysiwyg => "wysiwyg",
        }
    }

    /// Switch between the source and the rendered view.
    pub fn toggle_view(&mut self)
        requires
            old(self).wf(),
        ensures
            final(self)@ == old(self)@.turned(),
            final(self).wf(),
            final(self).editor == old(self).editor,
    {
        self.view = match self.view {
            modes::View::Source => modes::View::Wysiwyg,
            modes::View::Wysiwyg => modes::View::Source,
        };
        self.scroll = 0;
        self.status = None;
        proof {
            doc::lemma_clamped_valid(self@);
        }
        self.clamp_caret();
    }

    /// How much of the markup the rendered view exposes.
    pub fn markup_mode(&self) -> (r: MarkupMode)
        ensures
            r == self@.markup_mode,
    {
        self.markup_mode
    }

    /// Choose how much of the markup the rendered view exposes. A change asks for a new
    /// map.
    pub fn set_markup_mode(&mut self, mode: MarkupMode)
        requires
            old(self).wf(),
        ensures
            final(self)@ == old(self)@.with_markup(mode),
            final(self).wf(),
            final(self).editor == old(self).editor,
    {
        if self.markup_mode == mode {
            return;
        }
        self.markup_mode = mode;
        self.vmap_key = None;
    }

    /// How soft breaks are shown.
    pub fn line_flow(&self) -> (r: LineFlow)
        ensures
            r == self@.line_flow,
    {
        self.line_flow
    }

    /// Choose how soft breaks are shown. A change asks for a new map.
    pub fn set_line_flow(&mut self, flow: LineFlow)
        requires
            old(self).wf(),
        ensures
            final(self)@ == old(self)@.with_flow(flow),
            final(self).wf(),
            final(self).editor == old(self).editor,
    {
        if self.line_flow == flow {
            return;
        }
        self.line_flow = flow;
        self.vmap_key = None;
    }

    /// Say how many rows each block medium takes. A change asks for a new map.
    pub fn set_media_rows(&mut self, rows: Vec<(String, usize)>)
        requires
            old(self).wf(),
        ensures
            final(self)@ == (if old(self)@.media_rows == doc::rows_of(rows@) {
                old(self)@
            } else {
                DocView { media_rows: doc::rows_of(rows@), map_key: None, ..old(self)@ }
            }),
            final(self).wf(),
            final(self).editor == old(self).editor,
    {
        if same_rows(&self.media_rows, &rows) {
            return;
        }
        self.media_rows = rows;
        self.vmap_key = None;
    }

    /// Counts the changes of the text: what a frontend made from the text is good while
    /// it stands.
    pub fn revision(&self) -> (r: u64)
        ensures
            r == self@.revision,
    {
        self.revision
    }

    /// The line whose markup the rendered view shows.
    pub fn reveal_line(&self) -> (r: Option<Span>)
        requires
            self.wf(),
        ensures
            match r {
                Some(line) => self@.revealed() == Some((line.start as int, line.end as int)),
                None => self@.revealed() is None,
            },
    {
        if !self.markup_mode.reveals_caret_line() || self.view != modes::View::Wysiwyg {
            return None;
        }
        let line = lines::source_line_range(self.source.as_str(), self.caret);
        Some(Span { start: line.start, end: line.end })
    }

    /// What a map of a width is laid out from now.
    pub fn map_key(&self, wrap: Option<usize>) -> (r: MapKey)
        requires
            self.wf(),
        ensures
            r == self@.layout_key(wrap),
    {
        MapKey { revision: self.revision, wrap, reveal: self.reveal_line() }
    }

    /// Take over the map that was laid out for the document, unless it has that one.
    fn build_map(&mut self, wrap: Option<usize>, map: VisualMap)
        requires
            old(self).wf(),
        ensures
            final(self)@ == old(self)@.laid_out(wrap, map@),
            final(self).wf(),
            final(self).editor == old(self).editor,
    {
        let key = self.map_key(wrap);
        let same = match self.vmap_key {
            Some(have) => have == key,
            None => false,
        };
        if same {
            proof {
                doc::lemma_clamped_valid(self@);
            }
            self.clamp_caret();
            return;
        }
        self.vmap = map;
        self.vmap_key = Some(key);
        proof {
            doc::lemma_clamped_valid(self@);
        }
        self.clamp_caret();
    }

    /// Take over the map that was laid out at a width.
    pub fn build_visual(&mut self, width: usize, map: VisualMap)
        requires
            old(self).wf(),
        ensures
            final(self)@ == old(self)@.laid_out(Some(width), map@),
            final(self).wf(),
            final(self).editor == old(self).editor,
    {
        self.build_map(Some(width), map);
    }

    /// Take over the map that was laid out without wrapping.
    pub fn build_visual_unwrapped(&mut self, map: VisualMap)
        requires
            old(self).wf(),
        ensures
            final(self)@ == old(self)@.laid_out(None, map@),
            final(self).wf(),
            final(self).editor == old(self).editor,
    {
        self.build_map(None, map);
    }

    /// Show the state that a step of the history gave back.
    fn after_history(&mut self, end: usize)
        ensures
            final(self)@ == (({
                let d = old(self)@.refreshed();
                let e = match CaretState::of_blob(d.held) {
                    Some(state) => DocView {
                        caret: state.caret as int,
                        anchor: doc::at_int(state.anchor),
                        ..d
                    },
                    None => DocView { caret: end as int, anchor: None, ..d },
                };
                DocView { goal_col: None, last_edit: None, status: None, ..e }.rated().clamped()
            })),
            final(self).wf(),
            final(self)@.faithful(),
    {
        self.refresh();
        let blob = editor::caret_blob(&mut self.editor);
        match CaretState::from_blob(blob.as_slice()) {
            Some(state) => {
                self.caret = state.caret;
                self.anchor = state.anchor;
            },
            None => {
                self.caret = end;
                self.anchor = None;
            },
        }
        self.goal_col = None;
        self.last_edit_kind = None;
        self.rate();
        self.status = None;
        proof {
            doc::lemma_clamped_valid(self@);
        }
        self.clamp_caret();
    }

    /// Take back the last step: its text, its caret and its selection.
    pub fn undo(&mut self)
        requires
            old(self).wf(),
        ensures
            final(self)@ == old(self)@.undone(),
            final(self).wf(),
            old(self)@.steady() ==> final(self)@.steady(),
            old(self)@.faithful() ==> final(self)@.faithful(),
    {
        proof {
            reveal(history::parsable);
        }
        match editor::undo(&mut self.editor) {
            Ok(Some(end)) => self.after_history(end),
            Ok(None) => {
                self.status = Some("nothing to undo".to_owned());
            },
            Err(err) => {
                let fault = editor::fault_of(err);
                self.status = Some(text::concat("undo: ", fault.message()));
            },
        }
    }

    /// Make the step again that was last taken back.
    pub fn redo(&mut self)
        requires
            old(self).wf(),
        ensures
            final(self)@ == old(self)@.redone(),
            final(self).wf(),
            old(self)@.steady() ==> final(self)@.steady(),
            old(self)@.faithful() ==> final(self)@.faithful(),
    {
        proof {
            reveal(history::parsable);
        }
        match editor::redo(&mut self.editor) {
            Ok(Some(end)) => self.after_history(end),
            Ok(None) => {
                self.status = Some("nothing to redo".to_owned());
            },
            Err(err) => {
                let fault = editor::fault_of(err);
                self.status = Some(text::concat("redo: ", fault.message()));
            },
        }
    }

    /// Whether the document can be written to its file. One without a file says so.
    pub fn begin_save(&mut self) -> (r: bool)
        ensures
            r == !old(self)@.untitled(),
            final(self)@ == (if r {
                old(self)@
            } else {
                DocView { status: Some("untitled — save as…"@), ..old(self)@ }
            }),
            old(self).wf() ==> final(self).wf(),
            final(self).editor == old(self).editor,
    {
        if self.is_untitled() {
            self.status = Some("untitled — save as…".to_owned());
            false
        } else {
            true
        }
    }

    /// Say why the document could not be written.
    pub fn save_failed(&mut self, why: &str)
        ensures
            final(self)@ == (DocView {
                status: Some("save failed: "@ + why@),
                ..old(self)@
            }),
            old(self).wf() ==> final(self).wf(),
            final(self).editor == old(self).editor,
    {
        self.status = Some(text::concat("save failed: ", why));
    }

    /// Note that the text as it is was saved.
    pub fn mark_saved(&mut self)
        ensures
            final(self)@ == old(self)@.saved(),
            old(self).wf() ==> final(self).wf(),
            final(self).editor == old(self).editor,
    {
        self.clean_source = self.source.as_str().to_owned();
        self.dirty = false;
        self.disk_hash = Some(hash_bytes(self.source.as_str().as_bytes()));
        let name = self.file_name();
        self.status = Some(text::concat("saved ", name.as_str()));
    }

    /// Note that the text as it is was saved to another file.
    pub fn mark_saved_as(&mut self, path: String, file: String)
        ensures
            final(self)@ == old(self)@.saved_as(path@, file@),
            old(self).wf() ==> final(self).wf(),
            final(self).editor == old(self).editor,
    {
        self.path = path;
        self.file = file;
        self.mark_saved();
    }

    /// How the file stands to what was last read from it or written to it, by what came
    /// of reading it.
    pub fn disk_state(&self, read: &DiskRead) -> (r: DiskState)
        ensures
            r == self@.disk_state(*read),
    {
        if self.is_untitled() {
            return DiskState::Untitled;
        }
        match self.disk_hash {
            None => DiskState::Untitled,
            Some(want) => match read {
                DiskRead::Bytes(bytes) => if hash_bytes(bytes.as_slice()) == want {
                    DiskState::Unchanged
                } else {
                    DiskState::Changed
                },
                DiskRead::Missing(_) => DiskState::Missing,
                DiskRead::Unreadable(_) => DiskState::Unreadable,
            },
        }
    }

    /// Take over what was read of the document's file, and give up what was not saved.
    pub fn reload(&mut self, read: DiskRead)
        ensures
            final(self)@ == old(self)@.reloaded(read),
            old(self).wf() ==> final(self).wf(),
            old(self)@.steady() ==> final(self)@.steady(),
            old(self)@.faithful() ==> final(self)@.faithful(),
    {
        proof {
            reveal(history::parsable);
        }
        if self.is_untitled() {
            self.status = Some("no file to reload".to_owned());
            return;
        }
        let bytes = match read {
            DiskRead::Bytes(bytes) => bytes,
            DiskRead::Missing(why) | DiskRead::Unreadable(why) => {
                self.status = Some(text::concat("reload failed: ", why.as_str()));
                return;
            },
        };
        let source = match text::utf8_string(bytes) {
            Some(source) => source,
            None => {
                self.status = Some("reload failed: file is not UTF-8".to_owned());
                return;
            },
        };
        proof {
            encode_utf8_decode_utf8(source@);
            encode_utf8_valid_utf8(source@);
            history::lemma_mirrored(self@.bytes, source@);
        }
        let ed = match new_editor(source.as_str(), self.format) {
            Ok(ed) => ed,
            Err(fault) => {
                self.status = Some(text::concat("reload failed: twig parse: ", fault.message()));
                return;
            },
        };
        self.editor = ed;
        self.disk_hash = Some(hash_bytes(source.as_str().as_bytes()));
        self.clean_source = source.as_str().to_owned();
        self.source = source;
        self.revision = if self.revision == u64::MAX {
            0
        } else {
            self.revision + 1
        };
        self.anchor = None;
        self.goal_col = None;
        self.last_edit_kind = None;
        self.dirty = false;
        let name = self.file_name();
        self.status = Some(text::concat("reloaded ", name.as_str()));
        proof {
            doc::lemma_clamped_valid(self@);
        }
        self.clamp_caret();
    }
}

} // verus!

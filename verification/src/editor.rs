//! The structural editor of the `twig` crate, as the document uses it.
//!
//! An editor holds a document's bytes, their parse, and a history of states with a caret
//! blob on each. What the parser and the gestures make of some bytes is named here; what
//! an edit does to the bytes and to the history is stated.

use vstd::prelude::*;
use vstd::utf8::*;
use crate::format::Format;
use crate::marks::InlineKind;
use crate::modes::{Alignment, BlockContainerKind, BlockKind};
use crate::node;
use crate::node::{Node, Parsed, ParsedView, Span};
use crate::tables;

verus! {

/// The editor type of `twig`.
#[verifier::external_type_specification]
#[verifier::external_body]
pub struct ExEditor(twig::Editor);

/// The error type of `twig`.
#[verifier::external_type_specification]
#[verifier::external_body]
pub struct ExError(twig::Error);

/// Why the editor refused something.
#[derive(Clone, Copy, PartialEq, Eq, Debug, Structural)]
pub enum Fault {
    InvalidArgument,
    ParseError,
    OutOfMemory,
    UnsupportedFormat,
    NotFound,
    Ambiguous,
    NotEditable,
    EditConflict,
    UnsafeMetadata,
    InvalidLanguage,
    Internal,
}

impl Fault {
    /// The words for a fault.
    pub open spec fn words(self) -> Seq<char> {
        match self {
            Fault::InvalidArgument => "invalid argument"@,
            Fault::ParseError => "parse error"@,
            Fault::OutOfMemory => "out of memory"@,
            Fault::UnsupportedFormat => "unsupported format"@,
            Fault::NotFound => "locator matched no node"@,
            Fault::Ambiguous => "selector matched more than one node"@,
            Fault::NotEditable => "node has no editable span"@,
            Fault::EditConflict => "edit produced an unparseable document"@,
            Fault::UnsafeMetadata => "metadata contains </script; unsafe to embed in HTML"@,
            Fault::InvalidLanguage => "language refused at registration"@,
            Fault::Internal => "internal error"@,
        }
    }

    /// The words for the fault, as a status line shows them.
    pub fn message(self) -> (r: &'static str)
        ensures
            r@ == self.words(),
    {
        match self {
            Fault::InvalidArgument => "invalid argument",
            Fault::ParseError => "parse error",
            Fault::OutOfMemory => "out of memory",
            Fault::UnsupportedFormat => "unsupported format",
            Fault::NotFound => "locator matched no node",
            Fault::Ambiguous => "selector matched more than one node",
            Fault::NotEditable => "node has no editable span",
            Fault::EditConflict => "edit produced an unparseable document",
            Fault::UnsafeMetadata => "metadata contains </script; unsafe to embed in HTML",
            Fault::InvalidLanguage => "language refused at registration",
            Fault::Internal => "internal error",
        }
    }
}

/// Which fault an error of `twig` is.
pub uninterp spec fn fault_in(error: twig::Error) -> Fault;

/// The variants of `twig::Error`, told apart one by one: the fault is named [`fault_in`].
#[verifier::external_body]
pub(crate) fn fault_of(error: twig::Error) -> (r: Fault)
    ensures
        r == fault_in(error),
{
    match error {
        twig::Error::InvalidArgument => Fault::InvalidArgument,
        twig::Error::ParseError => Fault::ParseError,
        twig::Error::OutOfMemory => Fault::OutOfMemory,
        twig::Error::UnsupportedFormat => Fault::UnsupportedFormat,
        twig::Error::NotFound => Fault::NotFound,
        twig::Error::Ambiguous => Fault::Ambiguous,
        twig::Error::NotEditable => Fault::NotEditable,
        twig::Error::EditConflict => Fault::EditConflict,
        twig::Error::UnsafeMetadata => Fault::UnsafeMetadata,
        twig::Error::InvalidLanguage => Fault::InvalidLanguage,
        _ => Fault::Internal,
    }
}

/// The bytes that an edit replaced, and the bytes that it put there.
#[derive(Clone, Copy, PartialEq, Eq, Debug, Structural)]
pub struct Change {
    pub old: Span,
    pub new: Span,
}

/// A node that a place in the document lies in.
pub struct Ancestor {
    /// The name of the node's kind.
    pub name: String,
    pub span: Span,
    /// The bytes between its delimiters, where it has any.
    pub content: Option<Span>,
    pub id: u32,
}

/// What an [`Ancestor`] says.
pub struct AncestorView {
    pub name: Seq<char>,
    pub span: Span,
    pub content: Option<Span>,
    pub id: u32,
}

impl View for Ancestor {
    type V = AncestorView;

    open spec fn view(&self) -> AncestorView {
        AncestorView { name: self.name@, span: self.span, content: self.content, id: self.id }
    }
}

/// The views of a chain of nodes.
pub open spec fn chain_view(chain: Seq<Ancestor>) -> Seq<AncestorView> {
    Seq::new(chain.len(), |i: int| chain[i]@)
}

/// The way that an editor parses, which is settled when it is made: the format, the
/// features, and the dialect that the first bytes asked for.
pub uninterp spec fn editor_setup(editor: twig::Editor) -> int;

/// The bytes of the document that an editor holds.
pub uninterp spec fn editor_bytes(editor: twig::Editor) -> Seq<u8>;

/// The caret blob on the editor's current state.
pub uninterp spec fn editor_blob(editor: twig::Editor) -> Seq<u8>;

/// The states that an editor can go back to, the next one last: bytes and caret blob.
pub uninterp spec fn editor_past(editor: twig::Editor) -> Seq<(Seq<u8>, Seq<u8>)>;

/// The states that an editor can go forward to, the next one last.
pub uninterp spec fn editor_future(editor: twig::Editor) -> Seq<(Seq<u8>, Seq<u8>)>;

/// All that is known of an editor.
pub struct EditorView {
    pub setup: int,
    pub bytes: Seq<u8>,
    pub blob: Seq<u8>,
    pub past: Seq<(Seq<u8>, Seq<u8>)>,
    pub future: Seq<(Seq<u8>, Seq<u8>)>,
}

/// What an editor holds.
pub open spec fn editor_view(editor: twig::Editor) -> EditorView {
    EditorView {
        setup: editor_setup(editor),
        bytes: editor_bytes(editor),
        blob: editor_blob(editor),
        past: editor_past(editor),
        future: editor_future(editor),
    }
}

/// How many states an editor keeps to go back to.
pub open spec fn history_limit() -> int {
    200
}

/// A history with its oldest state dropped where there are too many.
pub open spec fn capped(states: Seq<(Seq<u8>, Seq<u8>)>) -> Seq<(Seq<u8>, Seq<u8>)> {
    if states.len() > history_limit() {
        states.skip(1)
    } else {
        states
    }
}

impl EditorView {
    /// The editor after one edit that made the document's bytes `bytes`: the state before
    /// it is the next to go back to, there is nothing to go forward to, and the new state
    /// has no caret yet.
    pub open spec fn stepped(self, bytes: Seq<u8>) -> EditorView {
        EditorView {
            setup: self.setup,
            bytes,
            blob: Seq::empty(),
            past: capped(self.past.push((self.bytes, self.blob))),
            future: Seq::empty(),
        }
    }

    /// The editor with its last edit folded into the one before it.
    pub open spec fn coalesced(self) -> EditorView {
        if self.past.len() < 2 {
            self
        } else {
            EditorView { past: self.past.drop_last(), ..self }
        }
    }

    /// The editor one step back.
    pub open spec fn undone(self) -> EditorView {
        EditorView {
            setup: self.setup,
            bytes: self.past.last().0,
            blob: self.past.last().1,
            past: self.past.drop_last(),
            future: self.future.push((self.bytes, self.blob)),
        }
    }

    /// The editor one step forward.
    pub open spec fn redone(self) -> EditorView {
        EditorView {
            setup: self.setup,
            bytes: self.future.last().0,
            blob: self.future.last().1,
            past: self.past.push((self.bytes, self.blob)),
            future: self.future.drop_last(),
        }
    }
}

/// Some bytes with a range of them replaced.
pub open spec fn spliced(b: Seq<u8>, start: int, end: int, text: Seq<u8>) -> Seq<u8> {
    b.subrange(0, start) + text + b.subrange(end, b.len() as int)
}

/// What a gesture does to a document: the bytes it leaves, and the change that made them.
pub struct Effect {
    pub bytes: Seq<u8>,
    pub change: Change,
}

/// What a gesture did. Refused, it leaves the editor as it was. Done, it leaves the bytes
/// that it gives, which the parser takes, by one step of history.
pub open spec fn gestured(
    before: EditorView,
    after: EditorView,
    fault: Option<Fault>,
    outcome: Result<Effect, Fault>,
) -> bool {
    match outcome {
        Ok(effect) => fault is None && after == before.stepped(effect.bytes) && !unparsable(
            before.setup,
            effect.bytes,
        ),
        Err(why) => fault == Some(why) && after == before,
    }
}

/// The same of a gesture that tells nothing but the bytes it leaves, and may have nothing to
/// do: it then leaves the editor as it was.
pub open spec fn gestured_or_idle(
    before: EditorView,
    after: EditorView,
    fault: Option<Fault>,
    outcome: Result<Option<Seq<u8>>, Fault>,
) -> bool {
    match outcome {
        Ok(Some(bytes)) => fault is None && after == before.stepped(bytes) && !unparsable(
            before.setup,
            bytes,
        ),
        Ok(None) => fault is None && after == before,
        Err(why) => fault == Some(why) && after == before,
    }
}

/// The fault of a result.
pub open spec fn refusal<T>(r: Result<T, twig::Error>) -> Option<Fault> {
    match r {
        Ok(_) => None,
        Err(e) => Some(fault_in(e)),
    }
}

/// The features that a format is parsed with.
pub open spec fn features_of(format: Format) -> Seq<Seq<char>> {
    match format {
        Format::Markdown => seq!["html_elements"@, "directives"@],
        _ => Seq::empty(),
    }
}

/// The views of some string slices.
pub open spec fn words_view(words: Seq<&str>) -> Seq<Seq<char>> {
    Seq::new(words.len(), |i: int| words[i]@)
}

/// The features that a format is parsed with: raw HTML elements and fenced containers in
/// Markdown.
pub fn parse_features(format: Format) -> (r: Vec<&'static str>)
    ensures
        words_view(r@) == features_of(format),
{
    let mut out: Vec<&'static str> = Vec::new();
    if matches!(format, Format::Markdown) {
        out.push("html_elements");
        out.push("directives");
    }
    assert(words_view(out@) =~= features_of(format));
    out
}

/// The setup of an editor made over some bytes.
pub uninterp spec fn setup_for(format: Format, features: Seq<Seq<char>>, bytes: Seq<u8>) -> int;

/// Why no editor can be made over some bytes, where none can.
pub uninterp spec fn no_editor(format: Format, features: Seq<Seq<char>>, bytes: Seq<u8>) -> Option<
    Fault,
>;

/// `twig::Editor::new_with_features`: the editor holds the bytes, which its parser took, with
/// no history and no caret blob. Its setup is named [`setup_for`], and why there is none [`no_editor`].
#[verifier::external_body]
pub(crate) fn open_editor(bytes: &[u8], format: Format, features: &[&str]) -> (r: Result<
    twig::Editor,
    twig::Error,
>)
    ensures
        refusal(r) == no_editor(format, words_view(features@), bytes@),
        r matches Ok(editor) ==> editor_view(editor) == (EditorView {
            setup: setup_for(format, words_view(features@), bytes@),
            bytes: bytes@,
            blob: Seq::empty(),
            past: Seq::empty(),
            future: Seq::empty(),
        }) && !unparsable(setup_for(format, words_view(features@), bytes@), bytes@),
{
    let format = match format {
        Format::Djot => twig_djot::format(),
        Format::Markdown => twig_markdown::format(),
        Format::Xml => twig_xml::format(),
        Format::Html => twig_html::format(),
    };
    twig::Editor::new_with_features(bytes, format, features)
}

/// `twig::Editor::source_str`: the bytes as text, where they are UTF-8.
#[verifier::external_body]
pub(crate) fn source_str(editor: &mut twig::Editor) -> (r: Option<String>)
    ensures
        editor_view(*final(editor)) == editor_view(*old(editor)),
        match r {
            Some(text) => encode_utf8(text@) == editor_bytes(*old(editor)),
            None => !valid_utf8(editor_bytes(*old(editor))),
        },
{
    editor.source_str().ok()
}

/// `twig::Editor::source`: a copy of the bytes. It never fails.
#[verifier::external_body]
pub(crate) fn source_bytes(editor: &mut twig::Editor) -> (r: Option<Vec<u8>>)
    ensures
        editor_view(*final(editor)) == editor_view(*old(editor)),
        r matches Some(bytes) && bytes@ == editor_bytes(*old(editor)),
{
    editor.source().ok()
}

/// Whether the parser refuses some bytes.
pub uninterp spec fn unparsable(setup: int, bytes: Seq<u8>) -> bool;

/// Why an edit of a range is refused, where it is.
pub open spec fn edit_fault(
    editor: EditorView,
    start: int,
    end: int,
    text: Seq<u8>,
) -> Option<Fault> {
    if start > end || end > editor.bytes.len() {
        Some(Fault::InvalidArgument)
    } else if unparsable(editor.setup, spliced(editor.bytes, start, end, text)) {
        Some(Fault::EditConflict)
    } else {
        None
    }
}

/// `twig::Editor::edit_range`: one edit that replaces a range of bytes, refused where the
/// range does not fit or the parser refuses what would come of it (named [`unparsable`]),
/// with nothing changed.
#[verifier::external_body]
pub(crate) fn edit_range(editor: &mut twig::Editor, start: usize, end: usize, text: &str) -> (r:
    Result<Change, twig::Error>)
    ensures
        refusal(r) == edit_fault(
            editor_view(*old(editor)),
            start as int,
            end as int,
            encode_utf8(text@),
        ),
        match r {
            Ok(change) => editor_view(*final(editor)) == editor_view(*old(editor)).stepped(
                spliced(editor_bytes(*old(editor)), start as int, end as int, encode_utf8(text@)),
            ) && change.old == (Span { start, end }) && change.new.start == start
                && change.new.end == start + encode_utf8(text@).len(),
            Err(_) => editor_view(*final(editor)) == editor_view(*old(editor)),
        },
{
    let change = editor.edit_range(start, end, text)?;
    Ok(Change {
        old: Span { start: change.old.start, end: change.old.end },
        new: Span { start: change.new.start, end: change.new.end },
    })
}

/// `twig::Editor::coalesce_last_undo`: the last edit undoes together with the one before
/// it. Nothing happens where there are not two.
#[verifier::external_body]
pub(crate) fn coalesce_last_undo(editor: &mut twig::Editor)
    ensures
        editor_view(*final(editor)) == editor_view(*old(editor)).coalesced(),
{
    let _ = editor.coalesce_last_undo();
}

/// `twig::Editor::set_caret_blob`: puts a blob on the current state.
#[verifier::external_body]
pub(crate) fn set_caret_blob(editor: &mut twig::Editor, blob: &[u8])
    ensures
        editor_view(*final(editor)) == (EditorView { blob: blob@, ..editor_view(*old(editor)) }),
{
    let _ = editor.set_caret_blob(blob);
}

/// `twig::Editor::caret_blob`: the blob on the current state.
#[verifier::external_body]
pub(crate) fn caret_blob(editor: &mut twig::Editor) -> (r: Vec<u8>)
    ensures
        editor_view(*final(editor)) == editor_view(*old(editor)),
        r@ == editor_blob(*old(editor)),
{
    editor.caret_blob().unwrap_or_default()
}

/// How far two texts are the same from their starts, where they are as far as `n`.
pub open spec fn common_start(a: Seq<u8>, b: Seq<u8>, n: int) -> int
    decreases a.len() - n,
{
    if 0 <= n < a.len() && n < b.len() && a[n] == b[n] {
        common_start(a, b, n + 1)
    } else {
        n
    }
}

/// How far two texts are the same from their ends, no further than `room`, where they are as
/// far as `n`.
pub open spec fn common_end(a: Seq<u8>, b: Seq<u8>, room: int, n: int) -> int
    decreases room - n,
{
    if n < room && a[a.len() - 1 - n] == b[b.len() - 1 - n] {
        common_end(a, b, room, n + 1)
    } else {
        n
    }
}

/// Where the part that differs between two texts ends in the second: what they have in
/// common at their starts is taken off first, and then what they have at their ends.
pub open spec fn restored_end(before: Seq<u8>, after: Seq<u8>) -> int {
    let shorter = if before.len() <= after.len() {
        before.len()
    } else {
        after.len()
    };
    after.len() - common_end(before, after, shorter - common_start(before, after, 0), 0)
}

/// `twig::Editor::undo`: back to the state before the last step, with the blob that was
/// on it. The change it reports is the part that differs, and ends at [`restored_end`].
#[verifier::external_body]
pub(crate) fn undo(editor: &mut twig::Editor) -> (r: Result<Option<usize>, twig::Error>)
    ensures
        match r {
            Ok(Some(end)) => editor_past(*old(editor)).len() > 0 && !unparsable(
                editor_setup(*old(editor)),
                editor_past(*old(editor)).last().0,
            ) && editor_view(*final(editor))
                == editor_view(*old(editor)).undone() && end == restored_end(
                editor_bytes(*old(editor)),
                editor_bytes(*final(editor)),
            ),
            Ok(None) => editor_past(*old(editor)).len() == 0 && editor_view(*final(editor))
                == editor_view(*old(editor)),
            Err(e) => editor_past(*old(editor)).len() > 0 && unparsable(
                editor_setup(*old(editor)),
                editor_past(*old(editor)).last().0,
            ) && fault_in(e) == Fault::EditConflict && editor_view(*final(editor)) == editor_view(
                *old(editor),
            ),
        },
{
    Ok(editor.undo()?.map(|change| change.new.end))
}

/// `twig::Editor::redo`: forward to the state that the last undo left.
#[verifier::external_body]
pub(crate) fn redo(editor: &mut twig::Editor) -> (r: Result<Option<usize>, twig::Error>)
    ensures
        match r {
            Ok(Some(end)) => editor_future(*old(editor)).len() > 0 && !unparsable(
                editor_setup(*old(editor)),
                editor_future(*old(editor)).last().0,
            ) && editor_view(*final(editor))
                == editor_view(*old(editor)).redone() && end == restored_end(
                editor_bytes(*old(editor)),
                editor_bytes(*final(editor)),
            ),
            Ok(None) => editor_future(*old(editor)).len() == 0 && editor_view(*final(editor))
                == editor_view(*old(editor)),
            Err(e) => editor_future(*old(editor)).len() > 0 && unparsable(
                editor_setup(*old(editor)),
                editor_future(*old(editor)).last().0,
            ) && fault_in(e) == Fault::EditConflict && editor_view(*final(editor)) == editor_view(
                *old(editor),
            ),
        },
{
    Ok(editor.redo()?.map(|change| change.new.end))
}

/// The nodes that a place lies in, the root first.
pub uninterp spec fn chain_of(setup: int, bytes: Seq<u8>, at: int) -> Seq<AncestorView>;

/// `twig::Editor::ancestors_at`: the nodes that a place lies in, named [`chain_of`].
/// Refused exactly past the end.
#[verifier::external_body]
pub(crate) fn ancestors_at(editor: &mut twig::Editor, at: usize) -> (r: Option<Vec<Ancestor>>)
    ensures
        editor_view(*final(editor)) == editor_view(*old(editor)),
        r is None <==> at > editor_bytes(*old(editor)).len(),
        r matches Some(chain) ==> chain_view(chain@) == chain_of(
            editor_setup(*old(editor)),
            editor_bytes(*old(editor)),
            at as int,
        ),
{
    let chain = editor.ancestors_at(at).ok()?;
    Some(chain.into_iter().map(|m| Ancestor {
        name: m.kind.as_str().to_owned(),
        span: Span { start: m.span.start, end: m.span.end },
        content: m.content_span.map(|c| Span { start: c.start, end: c.end }),
        id: m.node_id,
    }).collect())
}

/// The nodes of a document's tree.
pub uninterp spec fn tree_of(setup: int, bytes: Seq<u8>) -> Seq<ParsedView>;

/// `twig::Editor::nodes`: all nodes of the tree, named [`tree_of`].
#[verifier::external_body]
fn parsed_nodes(editor: &mut twig::Editor) -> (r: Vec<Parsed>)
    ensures
        editor_view(*final(editor)) == editor_view(*old(editor)),
        node::parsed_views(r@) == tree_of(editor_setup(*old(editor)), editor_bytes(*old(editor))),
{
    editor.nodes().unwrap_or_default().into_iter().map(|n| Parsed {
        name: n.kind.as_str().to_owned(),
        element: n.name,
        span: Span { start: n.span.start, end: n.span.end },
        content: n.content_span.map(|c| Span { start: c.start, end: c.end }),
        level: n.level,
        parent: n.parent.map(|id| id.0 as usize),
        first_child: n.first_child.map(|id| id.0 as usize),
        next_sibling: n.next_sibling.map(|id| id.0 as usize),
        text: n.text,
        destination: n.destination,
        attrs: n.attrs,
    }).collect()
}

/// All nodes of the tree, their names read.
pub(crate) fn nodes(editor: &mut twig::Editor) -> (r: Vec<Node>)
    ensures
        editor_view(*final(editor)) == editor_view(*old(editor)),
        node::node_views(r@) == node::read_all(
            tree_of(editor_setup(*old(editor)), editor_bytes(*old(editor))),
        ),
{
    let parsed = parsed_nodes(editor);
    node::read_nodes(parsed)
}

/// What toggling a mark over a range does.
pub uninterp spec fn inline_toggled(
    setup: int,
    bytes: Seq<u8>,
    start: int,
    end: int,
    kind: InlineKind,
) -> Result<Effect, Fault>;

/// `twig::Editor::toggle_inline`: a mark over a range put on or taken off. What comes of it is
/// named [`inline_toggled`].
#[verifier::external_body]
pub(crate) fn toggle_inline(
    editor: &mut twig::Editor,
    start: usize,
    end: usize,
    kind: InlineKind,
) -> (r: Result<Change, twig::Error>)
    ensures
        gestured(
            editor_view(*old(editor)),
            editor_view(*final(editor)),
            refusal(r),
            inline_toggled(
                editor_setup(*old(editor)),
                editor_bytes(*old(editor)),
                start as int,
                end as int,
                kind,
            ),
        ),
        r matches Ok(change) ==> inline_toggled(
            editor_setup(*old(editor)),
            editor_bytes(*old(editor)),
            start as int,
            end as int,
            kind,
        )->Ok_0.change == change,
{
    let kind = match kind {
        InlineKind::Strong => twig::InlineKind::Strong,
        InlineKind::Emph => twig::InlineKind::Emph,
        InlineKind::Verbatim => twig::InlineKind::Verbatim,
        InlineKind::Mark => twig::InlineKind::Mark,
        InlineKind::Superscript => twig::InlineKind::Superscript,
        InlineKind::Subscript => twig::InlineKind::Subscript,
        InlineKind::Insert => twig::InlineKind::Insert,
        InlineKind::Delete => twig::InlineKind::Delete,
    };
    let change = editor.toggle_inline(start, end, kind)?;
    Ok(Change {
        old: Span { start: change.old.start, end: change.old.end },
        new: Span { start: change.new.start, end: change.new.end },
    })
}

/// What toggling a container over the blocks of a range does.
pub uninterp spec fn container_toggled(
    setup: int,
    bytes: Seq<u8>,
    start: int,
    end: int,
    kind: BlockContainerKind,
) -> Result<Effect, Fault>;

/// `twig::Editor::toggle_block_container`: the blocks of a range put in a container or taken out.
/// What comes of it is named [`container_toggled`].
#[verifier::external_body]
pub(crate) fn toggle_block_container(
    editor: &mut twig::Editor,
    start: usize,
    end: usize,
    kind: BlockContainerKind,
) -> (r: Result<Change, twig::Error>)
    ensures
        gestured(
            editor_view(*old(editor)),
            editor_view(*final(editor)),
            refusal(r),
            container_toggled(
                editor_setup(*old(editor)),
                editor_bytes(*old(editor)),
                start as int,
                end as int,
                kind,
            ),
        ),
        r matches Ok(change) ==> container_toggled(
            editor_setup(*old(editor)),
            editor_bytes(*old(editor)),
            start as int,
            end as int,
            kind,
        )->Ok_0.change == change,
{
    let kind = match kind {
        BlockContainerKind::BlockQuote => twig::BlockContainerKind::BlockQuote,
        BlockContainerKind::BulletList => twig::BlockContainerKind::BulletList,
        BlockContainerKind::OrderedList => twig::BlockContainerKind::OrderedList,
    };
    let change = editor.toggle_block_container(start, end, kind)?;
    Ok(Change {
        old: Span { start: change.old.start, end: change.old.end },
        new: Span { start: change.new.start, end: change.new.end },
    })
}

/// What linking a range to a destination does.
pub uninterp spec fn link_inserted(
    setup: int,
    bytes: Seq<u8>,
    start: int,
    end: int,
    destination: Seq<char>,
) -> Result<Effect, Fault>;

/// `twig::Editor::insert_link`: a range made a link, or the link there pointed elsewhere. What
/// comes of it is named [`link_inserted`].
#[verifier::external_body]
pub(crate) fn insert_link(
    editor: &mut twig::Editor,
    start: usize,
    end: usize,
    destination: &str,
) -> (r: Result<Change, twig::Error>)
    ensures
        gestured(
            editor_view(*old(editor)),
            editor_view(*final(editor)),
            refusal(r),
            link_inserted(
                editor_setup(*old(editor)),
                editor_bytes(*old(editor)),
                start as int,
                end as int,
                destination@,
            ),
        ),
        r matches Ok(change) ==> link_inserted(
            editor_setup(*old(editor)),
            editor_bytes(*old(editor)),
            start as int,
            end as int,
            destination@,
        )->Ok_0.change == change,
{
    let change = editor.insert_link(start, end, destination)?;
    Ok(Change {
        old: Span { start: change.old.start, end: change.old.end },
        new: Span { start: change.new.start, end: change.new.end },
    })
}

/// What spelling a range as an image does.
pub uninterp spec fn image_inserted(
    setup: int,
    bytes: Seq<u8>,
    start: int,
    end: int,
    destination: Seq<char>,
) -> Result<Effect, Fault>;

/// `twig::Editor::insert_image`: a range made the alternative text of an image. What comes of it is
/// named [`image_inserted`].
#[verifier::external_body]
pub(crate) fn insert_image(
    editor: &mut twig::Editor,
    start: usize,
    end: usize,
    destination: &str,
) -> (r: Result<Change, twig::Error>)
    ensures
        gestured(
            editor_view(*old(editor)),
            editor_view(*final(editor)),
            refusal(r),
            image_inserted(
                editor_setup(*old(editor)),
                editor_bytes(*old(editor)),
                start as int,
                end as int,
                destination@,
            ),
        ),
        r matches Ok(change) ==> image_inserted(
            editor_setup(*old(editor)),
            editor_bytes(*old(editor)),
            start as int,
            end as int,
            destination@,
        )->Ok_0.change == change,
{
    let change = editor.insert_image(start, end, destination)?;
    Ok(Change {
        old: Span { start: change.old.start, end: change.old.end },
        new: Span { start: change.new.start, end: change.new.end },
    })
}

/// What inserting text that is to stay literal does.
pub uninterp spec fn literal_inserted(
    setup: int,
    bytes: Seq<u8>,
    at: int,
    text: Seq<char>,
) -> Result<Effect, Fault>;

/// `twig::Editor::insert_literal`: text inserted with what would open markup escaped. What comes of
/// it is named [`literal_inserted`].
#[verifier::external_body]
pub(crate) fn insert_literal(
    editor: &mut twig::Editor,
    at: usize,
    text: &str,
) -> (r: Result<Change, twig::Error>)
    ensures
        gestured(
            editor_view(*old(editor)),
            editor_view(*final(editor)),
            refusal(r),
            literal_inserted(
                editor_setup(*old(editor)),
                editor_bytes(*old(editor)),
                at as int,
                text@,
            ),
        ),
        r matches Ok(change) ==> literal_inserted(
            editor_setup(*old(editor)),
            editor_bytes(*old(editor)),
            at as int,
            text@,
        )->Ok_0.change == change,
{
    let change = editor.insert_literal(at, text)?;
    Ok(Change {
        old: Span { start: change.old.start, end: change.old.end },
        new: Span { start: change.new.start, end: change.new.end },
    })
}

/// What breaking the line within a table cell does.
pub uninterp spec fn break_inserted(setup: int, bytes: Seq<u8>, at: int) -> Result<Effect, Fault>;

/// `twig::Editor::insert_line_break`: a line break inserted in a table cell. What comes of it is
/// named [`break_inserted`].
#[verifier::external_body]
pub(crate) fn insert_line_break(
    editor: &mut twig::Editor,
    at: usize,
) -> (r: Result<Change, twig::Error>)
    ensures
        gestured(
            editor_view(*old(editor)),
            editor_view(*final(editor)),
            refusal(r),
            break_inserted(editor_setup(*old(editor)), editor_bytes(*old(editor)), at as int),
        ),
        r matches Ok(change) ==> break_inserted(
            editor_setup(*old(editor)),
            editor_bytes(*old(editor)),
            at as int,
        )->Ok_0.change == change,
{
    let change = editor.insert_line_break(at)?;
    Ok(Change {
        old: Span { start: change.old.start, end: change.old.end },
        new: Span { start: change.new.start, end: change.new.end },
    })
}

/// What making the block at a place a block of a kind does: the bytes that it leaves, or
/// none where there is nothing to do.
pub uninterp spec fn block_set(
    setup: int,
    bytes: Seq<u8>,
    at: int,
    kind: BlockKind,
) -> Result<Option<Seq<u8>>, Fault>;

/// `twig::Editor::set_block`: the innermost heading or paragraph made a block of a kind, and
/// no step where a blank line is to be a paragraph. What comes of it is named [`block_set`].
#[verifier::external_body]
pub(crate) fn set_block(
    editor: &mut twig::Editor,
    at: usize,
    kind: BlockKind,
) -> (r: Result<(), twig::Error>)
    ensures
        gestured_or_idle(
            editor_view(*old(editor)),
            editor_view(*final(editor)),
            refusal(r),
            block_set(editor_setup(*old(editor)), editor_bytes(*old(editor)), at as int, kind),
        ),
{
    let kind = match kind {
        BlockKind::Paragraph => twig::BlockKind::Paragraph,
        BlockKind::Heading(level) => twig::BlockKind::Heading(level),
    };
    editor.set_block(at, kind).map(|_| ())
}

/// What renumbering the ordered list at a place does: the bytes that it leaves, or none
/// where there is nothing to do.
pub uninterp spec fn lists_renumbered(setup: int, bytes: Seq<u8>, at: int) -> Result<
    Option<Seq<u8>>,
    Fault,
>;

/// `twig::Editor::renumber_ordered_lists`: the markers of the ordered list numbered from
/// one, and where they are already no step at all. What comes of it is named
/// [`lists_renumbered`].
#[verifier::external_body]
pub(crate) fn renumber_ordered_lists(
    editor: &mut twig::Editor,
    at: usize,
) -> (r: Result<(), twig::Error>)
    ensures
        gestured_or_idle(
            editor_view(*old(editor)),
            editor_view(*final(editor)),
            refusal(r),
            lists_renumbered(editor_setup(*old(editor)), editor_bytes(*old(editor)), at as int),
        ),
{
    editor.renumber_ordered_lists(at)
}

/// What inserting a row in the table at a place does.
pub uninterp spec fn row_inserted(
    setup: int,
    bytes: Seq<u8>,
    at: int,
    below: bool,
) -> Result<Effect, Fault>;

/// `twig::Editor::table_insert_row`: an empty row inserted. What comes of it is named
/// [`row_inserted`].
#[verifier::external_body]
pub(crate) fn table_insert_row(
    editor: &mut twig::Editor,
    at: usize,
    below: bool,
) -> (r: Result<(), twig::Error>)
    ensures
        gestured(
            editor_view(*old(editor)),
            editor_view(*final(editor)),
            refusal(r),
            row_inserted(editor_setup(*old(editor)), editor_bytes(*old(editor)), at as int, below),
        ),
{
    editor.table_insert_row(at, below)
}

/// What deleting the table row at a place does.
pub uninterp spec fn row_deleted(setup: int, bytes: Seq<u8>, at: int) -> Result<Effect, Fault>;

/// `twig::Editor::table_delete_row`: the row deleted. What comes of it is named [`row_deleted`].
#[verifier::external_body]
pub(crate) fn table_delete_row(editor: &mut twig::Editor, at: usize) -> (r: Result<(), twig::Error>)
    ensures
        gestured(
            editor_view(*old(editor)),
            editor_view(*final(editor)),
            refusal(r),
            row_deleted(editor_setup(*old(editor)), editor_bytes(*old(editor)), at as int),
        ),
{
    editor.table_delete_row(at)
}

/// What inserting a column in the table at a place does.
pub uninterp spec fn column_inserted(
    setup: int,
    bytes: Seq<u8>,
    at: int,
    right: bool,
) -> Result<Effect, Fault>;

/// `twig::Editor::table_insert_column`: an empty column inserted. What comes of it is named
/// [`column_inserted`].
#[verifier::external_body]
pub(crate) fn table_insert_column(
    editor: &mut twig::Editor,
    at: usize,
    right: bool,
) -> (r: Result<(), twig::Error>)
    ensures
        gestured(
            editor_view(*old(editor)),
            editor_view(*final(editor)),
            refusal(r),
            column_inserted(
                editor_setup(*old(editor)),
                editor_bytes(*old(editor)),
                at as int,
                right,
            ),
        ),
{
    editor.table_insert_column(at, right)
}

/// What deleting the table column at a place does.
pub uninterp spec fn column_deleted(setup: int, bytes: Seq<u8>, at: int) -> Result<Effect, Fault>;

/// `twig::Editor::table_delete_column`: the column deleted. What comes of it is named
/// [`column_deleted`].
#[verifier::external_body]
pub(crate) fn table_delete_column(
    editor: &mut twig::Editor,
    at: usize,
) -> (r: Result<(), twig::Error>)
    ensures
        gestured(
            editor_view(*old(editor)),
            editor_view(*final(editor)),
            refusal(r),
            column_deleted(editor_setup(*old(editor)), editor_bytes(*old(editor)), at as int),
        ),
{
    editor.table_delete_column(at)
}

/// What aligning the table column at a place does.
pub uninterp spec fn column_aligned(
    setup: int,
    bytes: Seq<u8>,
    at: int,
    alignment: Alignment,
) -> Result<Effect, Fault>;

/// `twig::Editor::table_set_alignment`: the column aligned. What comes of it is named
/// [`column_aligned`].
#[verifier::external_body]
pub(crate) fn table_set_alignment(
    editor: &mut twig::Editor,
    at: usize,
    alignment: Alignment,
) -> (r: Result<(), twig::Error>)
    ensures
        gestured(
            editor_view(*old(editor)),
            editor_view(*final(editor)),
            refusal(r),
            column_aligned(
                editor_setup(*old(editor)),
                editor_bytes(*old(editor)),
                at as int,
                alignment,
            ),
        ),
{
    let alignment = match alignment {
        Alignment::Default => twig::Alignment::Default,
        Alignment::Left => twig::Alignment::Left,
        Alignment::Right => twig::Alignment::Right,
        Alignment::Center => twig::Alignment::Center,
    };
    editor.table_set_alignment(at, alignment)
}

/// What moving the table row at a place does.
pub uninterp spec fn row_moved(
    setup: int,
    bytes: Seq<u8>,
    at: int,
    down: bool,
) -> Result<Effect, Fault>;

/// `twig::Editor::table_move_row`: the row moved by one place. What comes of it is named
/// [`row_moved`].
#[verifier::external_body]
pub(crate) fn table_move_row(
    editor: &mut twig::Editor,
    at: usize,
    down: bool,
) -> (r: Result<(), twig::Error>)
    ensures
        gestured(
            editor_view(*old(editor)),
            editor_view(*final(editor)),
            refusal(r),
            row_moved(editor_setup(*old(editor)), editor_bytes(*old(editor)), at as int, down),
        ),
{
    editor.table_move_row(at, down)
}

/// What moving the table column at a place does.
pub uninterp spec fn column_moved(
    setup: int,
    bytes: Seq<u8>,
    at: int,
    right: bool,
) -> Result<Effect, Fault>;

/// `twig::Editor::table_move_column`: the column moved by one place. What comes of it is named
/// [`column_moved`]. The column is counted by the bars before the place in its row, and a move
/// to the left panics where they are more than the columns: such places are left out.
#[verifier::external_body]
pub(crate) fn table_move_column(
    editor: &mut twig::Editor,
    at: usize,
    right: bool,
) -> (r: Result<(), twig::Error>)
    requires
        right || tables::in_a_column(
            node::read_all(tree_of(editor_setup(*old(editor)), editor_bytes(*old(editor)))),
            editor_bytes(*old(editor)),
            at as int,
        ),
    ensures
        gestured(
            editor_view(*old(editor)),
            editor_view(*final(editor)),
            refusal(r),
            column_moved(editor_setup(*old(editor)), editor_bytes(*old(editor)), at as int, right),
        ),
{
    editor.table_move_column(at, right)
}

} // verus!

//! What views, modes, files and the history keep.

use vstd::prelude::*;
use vstd::utf8::*;
use crate::doc;
use crate::doc::DocView;
use crate::format::Format;
use crate::gestures::sound;
use crate::lines;
use crate::modes;
use crate::modes::{DiskState, LineFlow, MarkupMode};
use crate::session;
use crate::session::DiskRead;
use crate::text;

verus! {

/// Whether two documents hold the same text, in the same state of saving, with the same
/// history.
pub open spec fn same_text(a: DocView, b: DocView) -> bool {
    &&& a.source == b.source
    &&& a.bytes == b.bytes
    &&& a.past == b.past
    &&& a.future == b.future
    &&& a.clean == b.clean
    &&& a.dirty == b.dirty
    &&& a.format == b.format
}

/// Changing to the other view keeps the text, and changing back gives the view back. The
/// caret and the selection stay where both views can reach them.
pub proof fn law_the_other_view_is_of_the_same_text(d: DocView)
    requires
        sound(d),
    ensures
        d.turned().view != d.view,
        d.turned().turned().view == d.view,
        same_text(d, d.turned()),
        d.view == modes::View::Wysiwyg ==> d.turned().caret == d.caret && d.turned().anchor
            == d.anchor,
        d.map.content_start <= d.caret ==> d.turned().caret == d.caret,
{
    let t = DocView { view: d.turned().view, scroll: 0, status: None, ..d };
    if t.view == modes::View::Source || d.map.content_start <= d.caret {
        lemma_in_reach(t, d.caret);
    }
    if d.anchor is Some && t.view == modes::View::Source {
        lemma_in_reach(t, d.anchor->0);
    }
}

/// A place in the text that a view can reach stays what it is.
proof fn lemma_in_reach(d: DocView, off: int)
    requires
        0 <= off <= d.len(),
        text::boundary(d.source, off),
        d.view == modes::View::Source || d.map.content_start <= off,
    ensures
        d.settled(d.raised(off)) == off,
{
    doc::lemma_settled(d, off);
}

/// Setting how markup shows sets that and nothing else: the text, the caret and the selection
/// stay, and the rendered view is laid out anew just where it changes.
pub proof fn law_a_mode_is_only_a_mode(d: DocView, mode: MarkupMode)
    ensures
        d.with_markup(mode).markup_mode == mode,
        same_text(d, d.with_markup(mode)),
        (d.with_markup(mode).caret, d.with_markup(mode).anchor, d.with_markup(mode).view) == (
            d.caret,
            d.anchor,
            d.view,
        ),
        mode == d.markup_mode ==> d.with_markup(mode) == d,
        mode != d.markup_mode ==> d.with_markup(mode).map_key is None,
        d.with_markup(mode).with_markup(d.markup_mode).markup_mode == d.markup_mode,
{
}

/// So does setting how lines flow.
pub proof fn law_a_flow_is_only_a_flow(d: DocView, flow: LineFlow)
    ensures
        d.with_flow(flow).line_flow == flow,
        same_text(d, d.with_flow(flow)),
        (d.with_flow(flow).caret, d.with_flow(flow).anchor, d.with_flow(flow).view) == (
            d.caret,
            d.anchor,
            d.view,
        ),
        flow == d.line_flow ==> d.with_flow(flow) == d,
        flow != d.line_flow ==> d.with_flow(flow).map_key is None,
{
}

/// A document saved to a file is the document of that file, holds the same text with the same
/// history, and has nothing to save; the file that holds that text is unchanged.
pub proof fn law_saved_as_is_saved_there(d: DocView, path: Seq<char>, file: Seq<char>, read: Vec<u8>)
    requires
        path.len() > 0,
        read@ == encode_utf8(d.source),
    ensures
        d.saved_as(path, file).path == path,
        d.saved_as(path, file).title() == file,
        d.saved_as(path, file).source == d.source,
        d.saved_as(path, file).bytes == d.bytes,
        d.saved_as(path, file).past == d.past,
        d.saved_as(path, file).future == d.future,
        d.saved_as(path, file).caret == d.caret,
        d.saved_as(path, file).anchor == d.anchor,
        !d.saved_as(path, file).dirty,
        d.saved_as(path, file).clean == d.source,
        d.saved_as(path, file).disk_state(DiskRead::Bytes(read)) == DiskState::Unchanged,
{
}

/// A file that is gone or cannot be read is told apart from one that changed; without a file
/// there is nothing to tell.
pub proof fn law_how_a_file_stands(d: DocView, read: DiskRead)
    ensures
        d.disk_state(read) == DiskState::Untitled <==> d.path.len() == 0 || d.disk_hash is None,
        d.path.len() > 0 && d.disk_hash is Some ==> {
            &&& d.disk_state(read) == DiskState::Missing <==> read is Missing
            &&& d.disk_state(read) == DiskState::Unreadable <==> read is Unreadable
            &&& read is Bytes <==> d.disk_state(read) == DiskState::Unchanged || d.disk_state(read)
                == DiskState::Changed
        },
{
}

/// Two files of the same bytes stand the same.
pub proof fn law_the_same_bytes_stand_the_same(d: DocView, one: Vec<u8>, two: Vec<u8>)
    requires
        one@ == two@,
    ensures
        d.disk_state(DiskRead::Bytes(one)) == d.disk_state(DiskRead::Bytes(two)),
{
}

/// A reload that fails says so and changes nothing else.
pub proof fn law_a_failed_reload_keeps_the_document(d: DocView, read: DiskRead)
    requires
        d.path.len() == 0 || !(read is Bytes) || !valid_utf8(read->Bytes_0@) || session::unopened(
            d.format,
            read->Bytes_0@,
        ) is Some,
    ensures
        d.reloaded(read).status is Some,
        d.reloaded(read) == (DocView { status: d.reloaded(read).status, ..d }),
{
}

/// A reload that works gives the text of the file, with nothing selected, nothing to save and
/// nothing to undo, and leaves the view and the modes as they are.
pub proof fn law_a_reload_is_the_file(d: DocView, bytes: Vec<u8>)
    requires
        d.path.len() > 0,
        valid_utf8(bytes@),
        session::unopened(d.format, bytes@) is None,
    ensures
        ({
            let f = d.reloaded(DiskRead::Bytes(bytes));
            &&& encode_utf8(f.source) == bytes@
            &&& f.bytes == bytes@
            &&& f.anchor is None
            &&& !f.dirty
            &&& f.clean == f.source
            &&& f.past.len() == 0 && f.future.len() == 0
            &&& (f.view, f.markup_mode, f.line_flow) == (d.view, d.markup_mode, d.line_flow)
            &&& f.path == d.path
            &&& f.caret <= text::byte_len(f.source)
        }),
{
    decode_utf8_encode_utf8(bytes@);
    let f = d.reloaded(DiskRead::Bytes(bytes));
    assert(text::byte_len(f.source) == bytes@.len());
    lemma_within(d.renewed(decode_utf8(bytes@)), f.raised(d.caret));
}

proof fn lemma_within(d: DocView, off: int)
    ensures
        0 <= off ==> d.settled(off) <= d.len(),
{
    if 0 <= off {
        doc::lemma_settled(d, off);
    }
}

/// A document is opened at its start, with nothing selected, nothing to save, nothing to undo
/// and nothing to redo.
pub proof fn law_a_document_is_opened_clean(
    setup: int,
    form: Format,
    path: Seq<char>,
    file: Seq<char>,
    source: Seq<char>,
    hash: Option<u64>,
)
    ensures
        ({
            let d = session::fresh(setup, form, path, file, source, hash);
            &&& d.source == source
            &&& d.bytes == encode_utf8(source)
            &&& d.clean == source && !d.dirty
            &&& d.caret == 0 && d.anchor is None
            &&& d.past.len() == 0 && d.future.len() == 0
            &&& d.undone().source == source && d.redone().source == source
            &&& d.format == form && d.path == path && d.file == file
            &&& d.status is None
            &&& d.view == modes::View::Wysiwyg
            &&& d.selected() is None
        }),
{
}

/// The title is the file's name, or says that there is none.
pub proof fn law_a_title_names_the_file(d: DocView)
    ensures
        d.path.len() > 0 ==> d.title() == d.file,
        d.path.len() == 0 ==> d.title() == "untitled"@,
{
}

/// Markup shows on the caret's line only: the line that the caret is in, from one line break
/// to the next, and only where the mode says so, in the rendered view.
pub proof fn law_markup_shows_on_the_line_of_the_caret(d: DocView)
    requires
        sound(d),
    ensures
        d.revealed() is Some <==> d.markup_mode == MarkupMode::Full && d.view
            == modes::View::Wysiwyg,
        d.revealed() matches Some((s, e)) ==> {
            let b = encode_utf8(d.source);
            &&& 0 <= s <= d.caret <= e <= b.len()
            &&& s == 0 || b[s - 1] == 0x0a
            &&& e == b.len() || b[e] == 0x0a
            &&& forall|k: int| s <= k < e ==> #[trigger] b[k] != 0x0a
        },
{
    let b = encode_utf8(d.source);
    lines::lemma_bol(b, d.caret);
    lines::lemma_eol(b, d.caret);
}

/// A layout that was made of the text as it stands is kept; any other is replaced by the one
/// handed over. The text stays.
pub proof fn law_a_layout_is_of_the_text(d: DocView, wrap: Option<usize>, map: crate::visual::MapView)
    ensures
        same_text(d, d.laid_out(wrap, map)),
        d.map_key is None ==> d.laid_out(wrap, map).map == map,
        d.map_key matches Some(key) && (key.revision != d.revision || key.wrap != wrap)
            ==> d.laid_out(wrap, map).map == map,
        d.laid_out(wrap, map).map == map || d.laid_out(wrap, map).map == d.map,
{
}

/// With nothing to undo or redo, asking says so and changes nothing else.
pub proof fn law_an_empty_history_changes_nothing(d: DocView)
    ensures
        d.undo_step() is None ==> d.undone().status is Some && d.undone() == (DocView {
            status: d.undone().status,
            ..d
        }),
        d.redo_step() is None ==> d.redone().status is Some && d.redone() == (DocView {
            status: d.redone().status,
            ..d
        }),
{
}

} // verus!

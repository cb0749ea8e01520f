//! What holds of a document whatever is done to it.

use vstd::prelude::*;
use vstd::utf8::*;
use crate::caret::CaretState;
use crate::doc;
use crate::doc::DocView;
use crate::edges;
use crate::edges::MarkAt;
use crate::edits;
use crate::editor;
use crate::editor::AncestorView;
use crate::history;
use crate::lines;
use crate::marks;
use crate::marks::InlineKind;
use crate::modes::{DiskState, EditKind};
use crate::respell;
use crate::session;
use crate::session::DiskRead;
use crate::text;

verus! {

/// What an edit puts into a text reads back: the text before the range, the new text, and
/// the text behind the range, in characters and in bytes alike.
pub proof fn law_splice_reads_back(source: Seq<char>, start: int, end: int, new: Seq<char>)
    requires
        0 <= start <= end <= text::byte_len(source),
        text::boundary(source, start),
        text::boundary(source, end),
    ensures
        ({
            let bytes = editor::spliced(encode_utf8(source), start, end, encode_utf8(new));
            let want = text::slice(source, 0, start) + new + text::slice(
                source,
                end,
                text::byte_len(source),
            );
            &&& valid_utf8(bytes)
            &&& decode_utf8(bytes) == want
            &&& encode_utf8(want) == bytes
            &&& text::boundary(want, start + text::byte_len(new))
            &&& text::byte_len(want) == text::byte_len(source) - (end - start) + text::byte_len(new)
        }),
{
    let b = encode_utf8(source);
    let head = text::slice(source, 0, start);
    let tail = text::slice(source, end, text::byte_len(source));
    text::lemma_boundary_ends(source);
    text::lemma_slice(source, 0, start);
    text::lemma_slice(source, end, text::byte_len(source));
    text::lemma_encode_concat(head, new);
    text::lemma_encode_concat(head + new, tail);
    let want = head + new + tail;
    assert(encode_utf8(want) =~= editor::spliced(b, start, end, encode_utf8(new)));
    encode_utf8_decode_utf8(want);
    encode_utf8_valid_utf8(want);
    text::lemma_seam(head + new, tail);
}

/// An edit that the parser takes replaces exactly its range, and puts the caret right
/// behind the new text, with nothing selected. The text stays what the editor holds.
pub proof fn law_edit_replaces(d: DocView, start: int, end: int, new: Seq<char>, kind: EditKind)
    requires
        d.valid(),
        d.synced(),
        0 <= start <= end <= d.len(),
        text::boundary(d.source, start),
        text::boundary(d.source, end),
        d.refused(start, end, new) is None,
    ensures
        ({
            let e = d.exact(start, end, new, kind);
            &&& e.source == text::slice(d.source, 0, start) + new + text::slice(
                d.source,
                end,
                d.len(),
            )
            &&& e.caret == start + text::byte_len(new)
            &&& e.anchor is None
            &&& e.synced()
            &&& e.valid()
            &&& e.dirty == (e.source != d.clean)
        }),
{
    law_splice_reads_back(d.source, start, end, new);
    doc::lemma_exact_valid(d, start, end, new, kind);
    let e = DocView {
        bytes: editor::spliced(d.bytes, start, end, encode_utf8(new)),
        ..d
    }.refreshed();
    doc::lemma_settled(e, start + text::byte_len(new));
}

/// A refused edit changes nothing but the status, which says why, and puts the caret on the
/// state that the history is to give back.
pub proof fn law_refused_edit_changes_nothing(
    d: DocView,
    start: int,
    end: int,
    new: Seq<char>,
    kind: EditKind,
)
    requires
        d.refused(start, end, new) is Some,
    ensures
        d.spliced(start, end, new, kind) == (DocView {
            status: Some("edit: "@ + d.refused(start, end, new)->0.words()),
            ..d.noted()
        }),
{
}

/// A range that reaches past the end is always refused.
pub proof fn law_edit_past_the_end_is_refused(d: DocView, start: int, end: int, new: Seq<char>)
    requires
        start > end || end > d.bytes.len(),
    ensures
        d.refused(start, end, new) is Some,
{
}

/// An edit touches neither the view nor the preferences, neither the map nor the file, nor
/// what was last saved.
pub proof fn law_edit_keeps_the_rest(d: DocView, start: int, end: int, new: Seq<char>, kind: EditKind)
    ensures
        ({
            let e = d.spliced(start, end, new, kind);
            &&& e.view == d.view
            &&& e.map == d.map
            &&& e.clean == d.clean
            &&& e.format == d.format
            &&& e.setup == d.setup
            &&& e.path == d.path
            &&& e.file == d.file
            &&& e.disk_hash == d.disk_hash
            &&& e.markup_mode == d.markup_mode
            &&& e.line_flow == d.line_flow
        }),
{
}

/// What comes back of a state from its bytes and its caret blob: the text, and the caret and
/// the selection in reach.
proof fn lemma_restored(d: DocView, e: DocView)
    requires
        d.valid(),
        d.synced(),
        d.len() <= usize::MAX,
        e.view == d.view,
        e.map == d.map,
        e.clean == d.clean,
    ensures
        ({
            let back = e.restored((d.bytes, d.blob()));
            &&& back.source == d.source
            &&& back.bytes == d.bytes
            &&& back.held == d.blob()
            &&& back.past == e.past
            &&& back.future == e.future
            &&& back.setup == e.setup
            &&& back.view == e.view
            &&& back.map == e.map
            &&& back.clean == e.clean
            &&& back.caret == d.clamped().caret
            &&& back.anchor == d.clamped().anchor
            &&& back.dirty == (d.source != d.clean)
            &&& back.synced()
            &&& back.valid()
        }),
{
    encode_utf8_decode_utf8(d.source);
    encode_utf8_valid_utf8(d.source);
    let state = CaretState {
        caret: d.caret as usize,
        anchor: match d.anchor {
            Some(a) => Some(a as usize),
            None => None,
        },
    };
    state.law_blob_keeps_state();
    let f = DocView { bytes: d.bytes, held: d.blob(), ..e }.refreshed();
    assert(f.source == d.source);
    let g = DocView {
        caret: d.caret,
        anchor: d.anchor,
        goal_col: None,
        last_edit: None,
        status: None,
        ..f
    }.rated();
    assert(e.restored((d.bytes, d.blob())) == g.clamped());
    assert(g.floor() == d.floor());
    doc::lemma_settled(d, d.raised(d.caret));
    assert(g.clamped().caret == d.clamped().caret);
    assert(g.clamped().anchor == d.clamped().anchor);
    doc::lemma_clamped_valid(g);
}

/// A state that the history holds comes back whole: the text, the caret and the selection
/// of a document are restored from its bytes and its caret blob, whatever was done to it
/// meanwhile that left its view, its map and its saved text alone. It counts as modified
/// exactly where it did then.
pub proof fn law_history_restores(d: DocView, e: DocView)
    requires
        d.valid(),
        d.synced(),
        d.clamped() == d,
        d.len() <= usize::MAX,
        e.view == d.view,
        e.map == d.map,
        e.clean == d.clean,
    ensures
        ({
            let back = e.restored((d.bytes, d.blob()));
            &&& back.source == d.source
            &&& back.bytes == d.bytes
            &&& back.caret == d.caret
            &&& back.anchor == d.anchor
            &&& back.dirty == (d.source != d.clean)
            &&& back.synced()
            &&& back.valid()
        }),
{
    lemma_restored(d, e);
}

/// What an edit leaves of the history: an undo restores the state before it, or where it
/// joins the edit before, what that one restores; and nothing can be redone. The caret that
/// it leaves is on the state that it made.
pub proof fn law_edit_is_a_step(d: DocView, start: int, end: int, new: Seq<char>, kind: EditKind)
    requires
        d.refused(start, end, new) is None,
    ensures
        ({
            let e = d.spliced(start, end, new, kind);
            &&& e.undo_step() == (if d.joins(kind) && d.undo_step() is Some {
                d.undo_step()
            } else {
                Some((d.bytes, d.blob()))
            })
            &&& !d.joins(kind) && d.past.len() > 0 ==> e.past.len() > 1 && e.past[e.past.len() - 2]
                == d.past.last()
            &&& e.redo_step() is None
            &&& e.held == e.blob()
            &&& !editor::unparsable(d.setup, e.bytes)
        }),
{
    let c = d.noted().stepped(editor::spliced(d.bytes, start, end, encode_utf8(new)));
    let e = d.exact(start, end, new, kind);
    assert(c.past.last() == (d.bytes, d.blob()));
    if d.past.len() > 0 {
        assert(c.past.len() >= 2);
        assert(c.past[c.past.len() - 2] == d.past.last());
        assert(c.past.drop_last().last() == d.past.last());
    }
    if let Some(fix) = d.fix_for(start, end, new) {
        if e.fix_due(fix) && e.refused(fix.start, fix.end, fix.text) is None {
            let f = e.noted().stepped(
                editor::spliced(e.bytes, fix.start, fix.end, encode_utf8(fix.text)),
            );
            assert(e.past.len() > 0);
            assert(f.past.len() >= 2);
            assert(f.past[f.past.len() - 2] == e.past.last());
            assert(f.past.drop_last().last() == e.past.last());
            if e.past.len() >= 2 {
                assert(f.past.len() >= 3);
                assert(f.past.drop_last()[f.past.len() - 3] == e.past[e.past.len() - 2]);
            }
        }
    }
}

/// Where the parser takes every state of the history, an undo and a redo that have one to go
/// to are not refused, and leave a history that it takes.
pub proof fn law_history_is_not_refused(d: DocView)
    requires
        d.steady(),
    ensures
        d.undo_step() matches Some(step) ==> !editor::unparsable(d.setup, step.0)
            && d.undone().bytes == step.0 && d.undone().steady(),
        d.redo_step() matches Some(step) ==> !editor::unparsable(d.setup, step.0)
            && d.redone().bytes == step.0 && d.redone().steady(),
{
    reveal(history::parsable);
}

/// Where the editor's bytes spell a text, a faithful document holds it. A document is
/// faithful when it is opened, and every edit, undo, redo and reload keeps it so, whatever
/// bytes the editor makes.
pub proof fn law_a_faithful_text_is_what_the_bytes_spell(d: DocView)
    ensures
        d.synced() ==> d.faithful(),
        d.faithful() && valid_utf8(d.bytes) ==> d.synced(),
{
    reveal(history::mirrored);
}

/// Undo takes an edit back, to the text as it was with the caret and the selection where
/// they were, and redo brings it again, with the caret where the edit left it. Neither is
/// refused.
pub proof fn law_edit_undo_redo(d: DocView, start: int, end: int, new: Seq<char>, kind: EditKind)
    requires
        d.valid(),
        d.synced(),
        d.steady(),
        d.clamped() == d,
        d.len() <= usize::MAX,
        0 <= start <= end <= d.len(),
        text::boundary(d.source, start),
        text::boundary(d.source, end),
        d.refused(start, end, new) is None,
        !d.joins(kind) || d.undo_step() is None,
        d.spliced(start, end, new, kind).len() <= usize::MAX,
    ensures
        ({
            let e = d.spliced(start, end, new, kind);
            let back = e.undone();
            let again = back.redone();
            &&& back.source == d.source
            &&& back.caret == d.caret
            &&& back.anchor == d.anchor
            &&& back.dirty == (d.source != d.clean)
            &&& back.status is None
            &&& again.source == e.source
            &&& again.caret == e.clamped().caret
            &&& again.anchor == e.clamped().anchor
            &&& again.dirty == (e.source != d.clean)
            &&& again.status is None
            &&& again.past == e.past
        }),
{
    let e = d.spliced(start, end, new, kind);
    law_edit_is_a_step(d, start, end, new, kind);
    law_edit_keeps_validity(d, start, end, new, kind);
    law_edit_keeps_the_rest(d, start, end, new, kind);
    law_edit_keeps_text_and_editor_together(d, start, end, new, kind);
    reveal(history::parsable);
    let u = DocView {
        past: e.past.drop_last(),
        future: e.future.push((e.bytes, e.held)),
        ..e
    };
    lemma_restored(d, u);
    let back = e.undone();
    assert(back == u.restored((d.bytes, d.blob())));
    assert(back.future.last() == (e.bytes, e.blob()));
    let r = DocView {
        past: back.past.push((back.bytes, back.held)),
        future: back.future.drop_last(),
        ..back
    };
    lemma_restored(e, r);
    assert(r.past =~= e.past);
    assert(back.redone() == r.restored((e.bytes, e.blob())));
}

/// Moving the caret changes neither the text nor whether it counts as modified.
pub proof fn law_motion_keeps_the_text(d: DocView, off: int, extend: bool)
    ensures
        ({
            let e = d.moved_to(off, extend);
            &&& e.source == d.source
            &&& e.bytes == d.bytes
            &&& e.dirty == d.dirty
            &&& e.revision == d.revision
        }),
{
}

/// A selection that is stretched keeps its fixed end, and one that is started has the
/// caret as its fixed end. Motion without stretching selects nothing.
pub proof fn law_selection_keeps_its_anchor(d: DocView, off: int)
    ensures
        d.moved_to(off, true).anchor == (if d.anchor is Some {
            d.anchor
        } else {
            Some(d.caret)
        }),
        d.moved_to(off, false).selected() is None,
{
}

/// Any motion drops what was armed, and lets the next edit start a step of its own.
pub proof fn law_motion_disarms(d: DocView, off: int, extend: bool)
    ensures
        d.moved_to(off, extend).pending_here() == marks::no_marks() || d.moved_to(
            off,
            extend,
        ).pending == marks::no_marks(),
        d.moved_to(off, extend).last_edit is None,
{
}

/// A mark armed twice at one place is not armed.
pub proof fn law_arming_twice_disarms(d: DocView, kind: InlineKind)
    requires
        d.pending_at == Some(d.caret),
    ensures
        d.armed(kind).armed(kind).pending == d.pending,
{
    let once = marks::marks_flip(d.pending, kind);
    let twice = marks::marks_flip(once, kind);
    marks::lemma_flip_has(d.pending, kind);
    marks::lemma_flip_has(once, kind);
    assert forall|k: InlineKind| twice.has(k) == d.pending.has(k) by {}
    twice.lemma_same(d.pending);
}

/// A document that was just saved is not modified, and its file with the bytes that were
/// written is unchanged.
pub proof fn law_saved_is_clean(d: DocView, read: Vec<u8>)
    requires
        read@ == encode_utf8(d.source),
    ensures
        !d.saved().dirty,
        d.saved().clean == d.saved().source,
        d.saved().disk_state(DiskRead::Bytes(read)) == (if d.untitled() {
            DiskState::Untitled
        } else {
            DiskState::Unchanged
        }),
{
}

/// A reload gives the file's text: unmodified, with nothing selected and what the editor
/// holds.
pub proof fn law_reload_reads_the_file(d: DocView, read: Vec<u8>)
    requires
        !d.untitled(),
        valid_utf8(read@),
        session::unopened(d.format, read@) is None,
    ensures
        ({
            let e = d.reloaded(DiskRead::Bytes(read));
            &&& encode_utf8(e.source) == read@
            &&& !e.dirty
            &&& e.anchor is None
            &&& e.synced()
            &&& e.disk_state(DiskRead::Bytes(read)) == DiskState::Unchanged
        }),
{
    decode_utf8_encode_utf8(read@);
}

/// Bringing the caret in reach a second time moves nothing.
pub proof fn law_clamping_settles(d: DocView)
    requires
        0 <= d.caret,
        d.anchor matches Some(a) ==> 0 <= a,
        text::boundary(d.source, d.floor()),
    ensures
        d.clamped().clamped() == d.clamped(),
{
    let e = d.clamped();
    doc::lemma_settled(d, d.raised(d.caret));
    text::lemma_floor_boundary(d.source, text::least(d.raised(d.caret), d.len()));
    lemma_floor_kept(d, d.caret);
    doc::lemma_settled(e, e.caret);
    if let Some(a) = d.anchor {
        doc::lemma_settled(d, d.raised(a));
        lemma_floor_kept(d, a);
        doc::lemma_settled(e, e.anchor->0);
    }
}

/// A place in reach settles in reach.
proof fn lemma_floor_kept(d: DocView, off: int)
    requires
        0 <= off,
        text::boundary(d.source, d.floor()),
    ensures
        d.settled(d.raised(off)) >= d.floor(),
{
    text::lemma_boundary_range(d.source, d.floor());
    lemma_floor_below(d.source, text::least(d.raised(off), d.len()), d.floor());
}

/// A boundary at or before a place is at or before the one that the place settles at.
proof fn lemma_floor_below(source: Seq<char>, at: int, low: int)
    requires
        0 <= low <= at,
        text::boundary(source, low),
    ensures
        text::floor_boundary(source, at) >= low,
    decreases at,
{
    if at > 0 && !text::boundary(source, at) {
        lemma_floor_below(source, at - 1, low);
    }
}

/// The marks of a chain lie in the text.
proof fn lemma_marks_fit(chain: Seq<AncestorView>, source: Seq<char>)
    ensures
        edges::all_fit(source, edges::marks_of(chain, source)),
    decreases chain.len(),
{
    if chain.len() > 0 {
        lemma_marks_fit(chain.drop_last(), source);
    }
}

/// A run's opening edge lies in the text, no further right.
proof fn lemma_opening_edge(source: Seq<char>, runs: Seq<MarkAt>, at: int, steps: nat)
    requires
        edges::all_fit(source, runs),
        text::boundary(source, at),
    ensures
        respell::opening_edge(runs, at, steps) <= at,
        text::boundary(source, respell::opening_edge(runs, at, steps)),
    decreases steps,
{
    if steps > 0 {
        lemma_first_opening(source, runs, at);
        if let Some(out) = respell::first_opening(runs, at) {
            lemma_opening_edge(source, runs, out, (steps - 1) as nat);
        }
    }
}

proof fn lemma_first_opening(source: Seq<char>, runs: Seq<MarkAt>, at: int)
    requires
        edges::all_fit(source, runs),
    ensures
        respell::first_opening(runs, at) matches Some(out) ==> out <= at && text::boundary(
            source,
            out,
        ),
    decreases runs.len(),
{
    if runs.len() > 0 {
        assert(runs.last() == runs[runs.len() - 1]);
        assert forall|i: int| 0 <= i < runs.drop_last().len() implies edges::run_fits(
            source,
            (#[trigger] runs.drop_last()[i]).span,
            runs.drop_last()[i].content,
        ) by {
            assert(runs.drop_last()[i] == runs[i]);
        }
        lemma_first_opening(source, runs.drop_last(), at);
    }
}

/// A run's closing edge lies in the text, no further left.
proof fn lemma_closing_edge(source: Seq<char>, runs: Seq<MarkAt>, at: int, steps: nat)
    requires
        edges::all_fit(source, runs),
        text::boundary(source, at),
    ensures
        at <= respell::closing_edge(runs, at, steps) <= text::byte_len(source),
        text::boundary(source, respell::closing_edge(runs, at, steps)),
    decreases steps,
{
    text::lemma_boundary_range(source, at);
    if steps > 0 {
        lemma_first_ending(source, runs, at);
        if let Some(out) = respell::first_ending(runs, at) {
            lemma_closing_edge(source, runs, out, (steps - 1) as nat);
        }
    }
}

proof fn lemma_first_ending(source: Seq<char>, runs: Seq<MarkAt>, at: int)
    requires
        edges::all_fit(source, runs),
    ensures
        respell::first_ending(runs, at) matches Some(out) ==> at <= out && text::boundary(
            source,
            out,
        ),
    decreases runs.len(),
{
    if runs.len() > 0 {
        assert(runs.last() == runs[runs.len() - 1]);
        assert forall|i: int| 0 <= i < runs.drop_last().len() implies edges::run_fits(
            source,
            (#[trigger] runs.drop_last()[i]).span,
            runs.drop_last()[i].content,
        ) by {
            assert(runs.drop_last()[i] == runs[i]);
        }
        lemma_first_ending(source, runs.drop_last(), at);
    }
}

proof fn lemma_innermost(source: Seq<char>, runs: Seq<MarkAt>, start: int, end: int)
    requires
        edges::all_fit(source, runs),
    ensures
        respell::innermost(runs, start, end) matches Some(found) ==> edges::run_fits(
            source,
            found.1,
            Some(found.2),
        ) && found.2.start <= start && end <= found.2.end,
    decreases runs.len(),
{
    if runs.len() > 0 {
        assert(runs.last() == runs[runs.len() - 1]);
        assert forall|i: int| 0 <= i < runs.drop_last().len() implies edges::run_fits(
            source,
            (#[trigger] runs.drop_last()[i]).span,
            runs.drop_last()[i].content,
        ) by {
            assert(runs.drop_last()[i] == runs[i]);
        }
        lemma_innermost(source, runs.drop_last(), start, end);
    }
}

/// A place between characters before an edit's range is one in the text that the edit
/// makes.
proof fn lemma_boundary_before(source: Seq<char>, start: int, end: int, new: Seq<char>, at: int)
    requires
        0 <= start <= end <= text::byte_len(source),
        text::boundary(source, start),
        text::boundary(source, end),
        text::boundary(source, at),
        at <= start,
    ensures
        text::boundary(
            text::slice(source, 0, start) + new + text::slice(
                source,
                end,
                text::byte_len(source),
            ),
            at,
        ),
{
    let len = text::byte_len(source);
    text::lemma_boundary_ends(source);
    text::lemma_boundary_range(source, at);
    let head = text::slice(source, 0, start);
    let tail = text::slice(source, end, len);
    let first = text::slice(source, 0, at);
    let mid = text::slice(source, at, start);
    text::lemma_slice(source, 0, at);
    text::lemma_slice(source, at, start);
    text::lemma_slice(source, 0, start);
    text::lemma_encode_concat(first, mid);
    assert(encode_utf8(first + mid) =~= encode_utf8(head));
    text::lemma_same_bytes_same_chars(first + mid, head);
    text::lemma_seam(first, mid + new + tail);
    assert(first + (mid + new + tail) =~= head + new + tail);
}

/// A place between characters behind an edit's range is one in the text that the edit
/// makes, moved as far as the text behind the range is.
proof fn lemma_boundary_behind(source: Seq<char>, start: int, end: int, new: Seq<char>, at: int)
    requires
        0 <= start <= end <= text::byte_len(source),
        text::boundary(source, start),
        text::boundary(source, end),
        text::boundary(source, at),
        end <= at,
    ensures
        text::boundary(
            text::slice(source, 0, start) + new + text::slice(
                source,
                end,
                text::byte_len(source),
            ),
            at - (end - start) + text::byte_len(new),
        ),
{
    let len = text::byte_len(source);
    text::lemma_boundary_ends(source);
    text::lemma_boundary_range(source, at);
    let head = text::slice(source, 0, start);
    let tail = text::slice(source, end, len);
    let mid = text::slice(source, end, at);
    let last = text::slice(source, at, len);
    text::lemma_slice(source, end, at);
    text::lemma_slice(source, at, len);
    text::lemma_slice(source, end, len);
    text::lemma_slice(source, 0, start);
    text::lemma_encode_concat(mid, last);
    assert(encode_utf8(mid + last) =~= encode_utf8(tail));
    text::lemma_same_bytes_same_chars(mid + last, tail);
    text::lemma_encode_concat(head, new);
    text::lemma_encode_concat(head + new, mid);
    text::lemma_seam(head + new + mid, last);
    assert(head + new + mid + last =~= head + new + tail);
}

/// However an ordinary edit ends (refused, as asked, or with a run re-spelt), the text
/// stays what the editor holds.
pub proof fn law_edit_keeps_text_and_editor_together(
    d: DocView,
    start: int,
    end: int,
    new: Seq<char>,
    kind: EditKind,
)
    requires
        d.valid(),
        d.synced(),
        0 <= start <= end <= d.len(),
        text::boundary(d.source, start),
        text::boundary(d.source, end),
    ensures
        d.spliced(start, end, new, kind).synced(),
{
    if d.refused(start, end, new) is None {
        let e = d.exact(start, end, new, kind);
        law_edit_replaces(d, start, end, new, kind);
        if let Some(fix) = d.fix_for(start, end, new) {
            let runs = d.runs(start);
            lemma_marks_fit(d.chain(start), d.source);
            lemma_innermost(d.source, runs, start, end);
            let (_, span, content) = respell::innermost(runs, start, end)->0;
            lemma_opening_edge(d.source, runs, span.start as int, runs.len());
            lemma_closing_edge(d.source, runs, span.end as int, runs.len());
            let open_at = respell::opening_edge(runs, span.start as int, runs.len());
            let close_at = respell::closing_edge(runs, span.end as int, runs.len());
            lemma_boundary_before(d.source, start, end, new, open_at);
            lemma_boundary_behind(d.source, start, end, new, close_at);
            text::lemma_boundary_range(d.source, open_at);
            text::lemma_boundary_range(e.source, fix.end);
            if e.refused(fix.start, fix.end, fix.text) is None {
                law_edit_replaces(e, fix.start, fix.end, fix.text, EditKind::Other);
            }
        }
    }
}

/// In through a run's closing delimiters lies an offset between characters, further left.
proof fn lemma_close_inside(source: Seq<char>, runs: Seq<MarkAt>, off: int)
    requires
        edges::all_fit(source, runs),
    ensures
        edges::close_inside(runs, off) matches Some(inner) ==> text::boundary(source, inner),
    decreases runs.len(),
{
    if runs.len() > 0 {
        let head = runs.drop_last();
        assert(forall|i: int| 0 <= i < head.len() ==> head[i] == runs[i]);
        lemma_close_inside(source, head, off);
        assert(runs.last() == runs[runs.len() - 1]);
    }
}

/// So does one in through all of them.
proof fn lemma_inside_close(d: DocView, off: int)
    requires
        text::boundary(d.source, off),
    ensures
        text::boundary(d.source, d.inside_close(off)),
    decreases off,
{
    let runs = d.runs(lines::step_left(d.source, off));
    lemma_marks_fit(d.chain(lines::step_left(d.source, off)), d.source);
    lemma_close_inside(d.source, runs, off);
    if let Some(inner) = edges::close_inside(runs, off) {
        if 0 <= inner < off {
            lemma_inside_close(d, inner);
        }
    }
}

/// However an ordinary edit of a valid document ends, the document is valid.
pub proof fn law_edit_keeps_validity(d: DocView, start: int, end: int, new: Seq<char>, kind: EditKind)
    requires
        d.valid(),
        0 <= start <= end <= d.len(),
        text::boundary(d.source, start),
        text::boundary(d.source, end),
    ensures
        d.spliced(start, end, new, kind).valid(),
{
    doc::lemma_exact_valid(d, start, end, new, kind);
    let e = d.exact(start, end, new, kind);
    let f = match d.fix_for(start, end, new) {
        Some(fix) => e.repaired(fix),
        None => e,
    };
    if let Some(fix) = d.fix_for(start, end, new) {
        let runs = d.runs(start);
        lemma_marks_fit(d.chain(start), d.source);
        lemma_innermost(d.source, runs, start, end);
        let (_, span, content) = respell::innermost(runs, start, end)->0;
        lemma_opening_edge(d.source, runs, span.start as int, runs.len());
        let open_at = respell::opening_edge(runs, span.start as int, runs.len());
        text::lemma_boundary_range(d.source, open_at);
        doc::lemma_repaired_valid(e, fix);
    }
    lemma_inside_close(f, f.caret);
    text::lemma_boundary_range(f.source, f.inside_close(f.caret));
}

/// A run of typed characters undoes as one: a character that follows another leaves in
/// place what an undo restores.
#[verifier::rlimit(30)]
pub proof fn law_a_run_of_typing_undoes_together(d: DocView, new: Seq<char>)
    requires
        edits::typed_kind(new) == EditKind::Insert,
        d.last_edit == Some(EditKind::Insert),
        d.undo_step() is Some,
        d.selected() is None,
        !d.opens(new),
        d.opened(new).pending_here() == marks::no_marks() || text::all_space(new),
    ensures
        d.inserted(new).undo_step() == d.undo_step(),
{
    lemma_unopened(d, new);
    lemma_insertion_steps(d.opened(new), new);
}

/// Where no paragraph is opened the history is left as it is.
proof fn lemma_unopened(d: DocView, new: Seq<char>)
    requires
        !d.opens(new),
        d.selected() is None,
    ensures
        d.opened(new).past == d.past,
        d.opened(new).last_edit == d.last_edit,
        d.opened(new).selected() is None,
{
}

/// What an insertion that takes no mark leaves an undo to restore.
proof fn lemma_insertion_steps(d: DocView, new: Seq<char>)
    requires
        d.pending_here() == marks::no_marks() || text::all_space(new),
        d.selected() is None,
        d.undo_step() is Some,
        d.joins(edits::typed_kind(new)),
    ensures
        new.len() > 0 ==> d.spaced(d.caret, new, d.pending_here()).undo_step() == d.undo_step(),
        d.literal_typed(new).undo_step() == d.undo_step(),
        d.typed(new).undo_step() == d.undo_step(),
{
    let kind = edits::typed_kind(new);
    let ins = edges::shed_past(d.runs(d.caret), d.caret, d.pending_here());
    if d.refused(ins, ins, new) is None {
        law_edit_is_a_step(d, ins, ins, new, kind);
    }
    if d.refused(d.caret, d.caret, new) is None {
        law_edit_is_a_step(d, d.caret, d.caret, new, kind);
    }
    lemma_literal_step(d, d.caret, new, kind, false);
}

/// What text inserted to stay literal leaves an undo to restore, where it joins the step
/// before it.
proof fn lemma_literal_step(d: DocView, at: int, new: Seq<char>, kind: EditKind, join: bool)
    requires
        d.undo_step() is Some,
        join || d.joins(kind),
    ensures
        d.literal(at, new, kind, join).undo_step() == d.undo_step(),
{
    if let Ok(effect) = editor::literal_inserted(d.setup, d.bytes, at, new) {
        let c = d.noted().stepped(effect.bytes);
        assert(c.past.len() >= 2);
        assert(c.past.drop_last().last() == d.past.last());
        let f = c.coalesced().refreshed();
        let e = DocView {
            caret: f.settled(effect.change.new.end as int),
            anchor: None,
            goal_col: None,
            last_edit: Some(kind),
            status: None,
            ..f
        }.unarmed().rated().noted();
        if let Some(fix) = d.fix_for(at, at, new) {
            lemma_repair_joins(e, fix);
        }
    }
}

/// A re-spelling leaves in place what an undo restores.
proof fn lemma_repair_joins(d: DocView, fix: respell::FixView)
    requires
        d.undo_step() is Some,
    ensures
        d.repaired(fix).undo_step() == d.undo_step(),
{
    if d.fix_due(fix) && d.refused(fix.start, fix.end, fix.text) is None {
        let f = d.noted().stepped(
            editor::spliced(d.bytes, fix.start, fix.end, encode_utf8(fix.text)),
        );
        assert(f.past.len() >= 2);
        assert(f.past.drop_last().last() == d.past.last());
    }
}

/// Text typed over a selection undoes together with the deletion of what was selected: one
/// undo gives the document back as it was.
pub proof fn law_an_overwrite_undoes_as_one(d: DocView, new: Seq<char>)
    requires
        d.selected() matches Some((s, e)) && d.refused(s, e, Seq::empty()) is None && d.refused(
            s,
            e,
            new,
        ) is None && (d.spliced(s, e, Seq::empty(), EditKind::Other).pending_here()
            == marks::no_marks() || text::all_space(new)),
        !d.joins(edits::typed_kind(new)),
    ensures
        d.inserted(new).undo_step() == Some((d.bytes, d.blob())),
{
    let (s, e) = d.selected()->0;
    let kind = edits::typed_kind(new);
    law_edit_is_a_step(d, s, e, new, kind);
    law_edit_is_a_step(d, s, e, Seq::empty(), EditKind::Other);
    let c = d.spliced(s, e, Seq::empty(), EditKind::Other);
    lemma_literal_step(c, c.caret, new, kind, true);
}

/// A character typed at an end of a block medium undoes together with the paragraph that
/// was opened for it: one undo puts the medium back the way it was found.
pub proof fn law_one_undo_puts_a_medium_back(d: DocView, new: Seq<char>)
    requires
        d.opens(new),
        edits::typed_kind(new) == EditKind::Insert,
        d.opened(new).selected() is None,
        d.opened(new).pending_here() == marks::no_marks() || text::all_space(new),
    ensures
        d.inserted(new).undo_step() == Some((d.bytes, d.clamped().blob())),
{
    let c = d.clamped();
    law_edit_is_a_step(c, c.caret, c.caret, "\n\n"@, EditKind::Other);
    lemma_insertion_steps(d.opened(new), new);
}

/// A paste that the parser takes is a step of its own, whatever was typed before it.
pub proof fn law_a_paste_is_its_own_step(d: DocView, new: Seq<char>)
    requires
        d.opened(new).refused(d.opened(new).target().0, d.opened(new).target().1, new) is None,
    ensures
        d.pasted(new).undo_step() == Some((d.opened(new).bytes, d.opened(new).blob())),
{
    let e = d.opened(new);
    law_edit_is_a_step(e, e.target().0, e.target().1, new, EditKind::Other);
}

/// A renumbering that leaves other text leaves in place what an undo restores.
proof fn lemma_renumbering_joins(d: DocView)
    requires
        d.undo_step() is Some,
        d.synced(),
        editor::lists_renumbered(d.setup, d.bytes, d.caret) matches Ok(Some(bytes)) ==> valid_utf8(
            bytes,
        ) && bytes != d.bytes,
    ensures
        d.renumbered().undo_step() == d.undo_step(),
{
    encode_utf8_decode_utf8(d.source);
    encode_utf8_valid_utf8(d.source);
    if let Ok(Some(bytes)) = editor::lists_renumbered(d.setup, d.bytes, d.caret) {
        decode_utf8_encode_utf8(bytes);
        let c = d.stepped(bytes);
        assert(c.refreshed().source != d.source);
        assert(c.past.len() >= 2);
        assert(c.past.drop_last().last() == d.past.last());
    }
}

/// So does a dash made a star.
proof fn lemma_star_joins(d: DocView)
    requires
        d.undo_step() is Some,
    ensures
        d.unsetext().undo_step() == d.undo_step(),
{
    if let Some(dash) = d.collapsing_dash() {
        if d.refused(dash, dash + 1, "*"@) is None {
            law_edit_is_a_step(d, dash, dash + 1, "*"@, EditKind::Other);
            let e = d.spliced(dash, dash + 1, "*"@, EditKind::Other);
            assert(e.past.drop_last().last() == d.past.last());
        }
    }
}

/// An indent undoes as one, with the renumbering and the re-spelling that it brings about.
pub proof fn law_an_indent_undoes_as_one(d: DocView, add: bool)
    requires
        d.reindents(add),
        d.reindented(add).synced(),
        ({
            let e = d.reindented(add);
            editor::lists_renumbered(e.setup, e.bytes, e.caret) matches Ok(Some(bytes))
                ==> valid_utf8(bytes) && bytes != e.bytes
        }),
    ensures
        d.reindented(add).renumbered().undo_step() == Some((d.bytes, d.blob())),
        d.reindented(add).renumbered().unsetext().undo_step() == Some((d.bytes, d.blob())),
{
    let plan = d.reindent(add)->0;
    law_edit_is_a_step(d, plan.start, plan.end, plan.text, EditKind::Other);
    assert(d.reindented(add).past == d.spliced(
        plan.start,
        plan.end,
        plan.text,
        EditKind::Other,
    ).past);
    lemma_renumbering_joins(d.reindented(add));
    lemma_star_joins(d.reindented(add).renumbered());
}

} // verus!

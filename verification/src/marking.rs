//! What the gestures on marks, links and media hand to the editor, and what they leave.

use vstd::prelude::*;
use vstd::utf8::*;
use crate::doc;
use crate::doc::DocView;
use crate::editor;
use crate::editor::Effect;
use crate::gestures::{aimed, lemma_picked, picked, unpicked};
use crate::marks;
use crate::marks::InlineKind;
use crate::pasting;
use crate::text;

verus! {

/// Whether a range is what a selection holds without the white space at its ends.
pub open spec fn solid_part(source: Seq<char>, s: int, e: int, from: int, to: int) -> bool {
    let core = text::slice(source, from, to);
    &&& s <= from < to <= e
    &&& text::boundary(source, from)
    &&& text::boundary(source, to)
    &&& text::all_space(text::slice(source, s, from))
    &&& text::all_space(text::slice(source, to, e))
    &&& core.len() > 0 && !text::whitespace(core[0]) && !text::whitespace(core.last())
}

/// A range of a text is its parts.
proof fn lemma_parts(source: Seq<char>, a: int, b: int, c: int)
    requires
        0 <= a <= b <= c <= text::byte_len(source),
        text::boundary(source, a),
        text::boundary(source, b),
        text::boundary(source, c),
    ensures
        text::slice(source, a, c) == text::slice(source, a, b) + text::slice(source, b, c),
        text::byte_len(text::slice(source, a, b)) == b - a,
{
    text::lemma_slice(source, a, b);
    text::lemma_slice(source, b, c);
    text::lemma_slice(source, a, c);
    text::lemma_encode_concat(text::slice(source, a, b), text::slice(source, b, c));
    let whole = encode_utf8(source);
    assert(whole.subrange(a, b) + whole.subrange(b, c) =~= whole.subrange(a, c));
    text::lemma_same_bytes_same_chars(
        text::slice(source, a, b) + text::slice(source, b, c),
        text::slice(source, a, c),
    );
}

proof fn lemma_tightened(d: DocView, s: int, e: int, from: int, to: int)
    requires
        0 <= s <= e <= d.len(),
        text::boundary(d.source, s),
        text::boundary(d.source, e),
        solid_part(d.source, s, e, from, to),
    ensures
        d.tightened(s, e) == (from, to),
{
    let head = text::slice(d.source, s, from);
    let core = text::slice(d.source, from, to);
    let tail = text::slice(d.source, to, e);
    lemma_parts(d.source, s, from, e);
    lemma_parts(d.source, from, to, e);
    lemma_parts(d.source, s, to, e);
    lemma_parts(d.source, s, from, to);
    lemma_parts(d.source, to, e, e);
    lemma_parts(d.source, s, e, e);
    assert(head + (core + tail) =~= head + core + tail);
    pasting::law_trimming_takes_the_space_around(head, core, tail);
    text::lemma_encode_concat(core, tail);
    text::lemma_encode_concat(head, core);
}

/// What a gesture that the editor took leaves: the bytes that the editor made, as one step,
/// and the text that they spell.
pub open spec fn made(d: DocView, f: DocView, effect: Effect) -> bool {
    &&& f.bytes == effect.bytes
    &&& valid_utf8(effect.bytes) ==> encode_utf8(f.source) == effect.bytes
    &&& f.past.len() > 0 && f.past.last() == (d.bytes, d.blob())
    &&& f.future.len() == 0
    &&& f.status is None
    &&& f.dirty == (f.source != d.clean)
}

/// What a gesture that the editor refused leaves: the document as it was, and a word on it.
pub open spec fn declined(d: DocView, f: DocView) -> bool {
    &&& f.bytes == d.bytes
    &&& f.source == d.source
    &&& f.caret == d.caret
    &&& f.anchor == d.anchor
    &&& f.past == d.past
    &&& f.status is Some
}

/// Toggling a mark over a selection hands that very mark and the selection, without the
/// white space at its ends, to the editor; what the editor makes of them is the document,
/// with the marked text selected. Refused, the document stays as it is.
pub proof fn law_a_toggle_marks_what_is_selected(
    d: DocView,
    kind: InlineKind,
    s: int,
    e: int,
    from: int,
    to: int,
)
    requires
        d.valid(),
        picked(d, s, e),
        solid_part(d.source, s, e, from, to),
    ensures
        match editor::inline_toggled(d.setup, d.bytes, from, to, kind) {
            Ok(effect) => made(d, d.toggled(kind), effect) && ({
                let f = d.toggled(kind);
                let new = effect.change.new;
                new.start <= f.len() && new.end <= f.len() && text::boundary(
                    f.source,
                    new.start as int,
                ) && text::boundary(f.source, new.end as int) ==> f.anchor == Some(new.start as int)
                    && f.caret == new.end
            }),
            Err(_) => declined(d, d.toggled(kind)),
        },
{
    lemma_picked(d, s, e);
    lemma_tightened(d, s, e, from, to);
    if let Ok(effect) = editor::inline_toggled(d.setup, d.bytes, from, to, kind) {
        if valid_utf8(effect.bytes) {
            decode_utf8_encode_utf8(effect.bytes);
        }
        let x = DocView { last_edit: None, ..d.unarmed().noted().stepped(effect.bytes) }.refreshed();
        assert(x.source == d.toggled(kind).source);
        doc::lemma_settled(x, effect.change.new.start as int);
        doc::lemma_settled(x, effect.change.new.end as int);
    }
}

/// Toggling a mark over white space alone marks nothing.
pub proof fn law_white_space_takes_no_mark(d: DocView, kind: InlineKind, s: int, e: int)
    requires
        d.valid(),
        picked(d, s, e),
        text::all_space(text::slice(d.source, s, e)),
    ensures
        declined(d, d.toggled(kind)),
{
    let p = text::slice(d.source, s, e);
    lemma_picked(d, s, e);
    lemma_parts(d.source, s, e, e);
    text::lemma_space_end(p, 0, p.len() as int);
    text::lemma_space_start(p, 0, p.len() as int);
    text::lemma_empty(text::trimmed_start(p));
}

/// Toggling a mark at a caret arms it for what is typed there: of the marks in force that one
/// changes and no other, and the text stays.
pub proof fn law_a_toggle_at_the_caret_arms_one_mark(d: DocView, kind: InlineKind)
    requires
        d.anchor is None,
    ensures
        ({
            let f = d.toggled(kind);
            &&& f.source == d.source
            &&& f.bytes == d.bytes
            &&& f.caret == d.caret
            &&& f.anchor is None
            &&& forall|k: InlineKind| #[trigger]
                f.active_marks().has(k) == (d.active_marks().has(k) != (k == kind))
        }),
{
    let f = d.toggled(kind);
    let p = if d.pending_at == Some(d.caret) {
        d.pending
    } else {
        marks::no_marks()
    };
    assert(d.pending_here() == p);
    marks::lemma_flip_has(p, kind);
    assert(f.pending_here() == marks::marks_flip(p, kind));
    assert(f.marks_at(f.caret) == d.marks_at(d.caret));
    marks::law_marks_differ_one_by_one(d.marks_at(d.caret), p);
    marks::law_marks_differ_one_by_one(d.marks_at(d.caret), marks::marks_flip(p, kind));
}

/// A link is made of what is selected, to the destination given; what the editor makes of
/// them is the document.
pub proof fn law_a_link_is_made_of_the_selection(
    d: DocView,
    destination: Seq<char>,
    s: int,
    e: int,
)
    requires
        d.valid(),
        aimed(d, s, e),
    ensures
        match editor::link_inserted(d.setup, d.bytes, s, e, destination) {
            Ok(effect) => made(d, d.linked(destination), effect),
            Err(_) => declined(d, d.linked(destination)),
        },
{
    lemma_picked(d, s, e);
    if let Ok(effect) = editor::link_inserted(d.setup, d.bytes, s, e, destination) {
        if valid_utf8(effect.bytes) {
            decode_utf8_encode_utf8(effect.bytes);
        }
    }
}

/// An image takes what is selected, or an empty range at the caret where no words are given
/// for it, as its alternative text.
pub proof fn law_an_image_is_made_of_the_selection(
    d: DocView,
    destination: Seq<char>,
    alt: Seq<char>,
    s: int,
    e: int,
)
    requires
        d.valid(),
        aimed(d, s, e),
        s < e || alt.len() == 0,
    ensures
        match editor::image_inserted(d.setup, d.bytes, s, e, destination) {
            Ok(effect) => made(d, d.imaged(destination, alt), effect)
                && d.imaged(destination, alt).anchor is None,
            Err(_) => declined(d, d.imaged(destination, alt)),
        },
{
    lemma_picked(d, s, e);
    if let Ok(effect) = editor::image_inserted(d.setup, d.bytes, s, e, destination) {
        if valid_utf8(effect.bytes) {
            decode_utf8_encode_utf8(effect.bytes);
        }
    }
}

/// Words given for an image at a caret are typed first, to stay as they are, and become its
/// alternative text.
pub proof fn law_an_image_takes_the_words_given(d: DocView, destination: Seq<char>, alt: Seq<char>)
    requires
        d.valid(),
        unpicked(d),
        alt.len() > 0,
    ensures
        match editor::literal_inserted(d.setup, d.bytes, d.caret, alt) {
            Ok(typed) => match editor::image_inserted(
                d.setup,
                typed.bytes,
                typed.change.new.start as int,
                typed.change.new.end as int,
                destination,
            ) {
                Ok(effect) => d.imaged(destination, alt).bytes == effect.bytes,
                Err(_) => d.imaged(destination, alt).bytes == typed.bytes,
            },
            Err(_) => declined(d, d.imaged(destination, alt)),
        },
{
    lemma_picked(d, d.caret, d.caret);
}

} // verus!

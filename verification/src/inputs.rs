//! What typing and pasting do.

use vstd::prelude::*;
use vstd::utf8::*;
use crate::doc;
use crate::doc::DocView;
use crate::edges;
use crate::edits;
use crate::editor;
use crate::format::Format;
use crate::gestures::{
    aimed, lemma_picked, lemma_replaces, lemma_with_text, plainly, replaced, sound, takes, unpicked,
    with_text,
};
use crate::laws;
use crate::marks;
use crate::marks::{InlineKind, InlineMarks};
use crate::modes;
use crate::modes::{EditKind, MarkupMode};
use crate::text;
use crate::visual;
use crate::visual::MediaStop;

verus! {

/// Whether nothing is armed for what is typed at the caret.
pub open spec fn nothing_armed(d: DocView) -> bool {
    d.pending == marks::no_marks() || d.pending_at != Some(d.caret) || d.anchor is Some
}

/// Whether text goes where it is typed: in the source view anywhere, in the rendered view over
/// what is selected and at a caret in reach that is at no block medium.
pub open spec fn open_place(d: DocView) -> bool {
    d.view == modes::View::Source || d.selected() is Some || (d.clamped() == d && d.medium()
        is None)
}

proof fn lemma_opened(d: DocView, new: Seq<char>)
    requires
        open_place(d),
    ensures
        d.opened(new) == d,
{
}

/// Typed text takes the place of what is selected, or goes in at the caret, where typed
/// syntax is markup; the caret goes behind it.
pub proof fn law_typed_text_goes_where_the_caret_is(d: DocView, s: int, e: int, new: Seq<char>)
    requires
        sound(d),
        aimed(d, s, e),
        new.len() > 0,
        open_place(d),
        nothing_armed(d),
        d.view == modes::View::Source || d.markup_mode != MarkupMode::Hidden || (d.format
            != Format::Markdown && d.format != Format::Djot),
        takes(d, replaced(d.source, s, e, new)),
        plainly(d, s, e, new),
    ensures
        with_text(d, d.inserted(new), s, e, new),
{
    lemma_picked(d, s, e);
    lemma_inserted(d, s, e, new);
    lemma_with_text(d, d.inserted(new), s, e, new, edits::typed_kind(new));
}

proof fn lemma_inserted(d: DocView, s: int, e: int, new: Seq<char>)
    requires
        d.target() == (s, e),
        open_place(d),
        nothing_armed(d),
        !d.keeps_literal(),
    ensures
        d.inserted(new) == d.spliced(s, e, new, edits::typed_kind(new)),
{
    lemma_opened(d, new);
    assert(d.pending_here() == marks::no_marks());
}

/// Pasted text takes the place of what is selected, or goes in at the caret, as a step of
/// its own; the caret goes behind it.
pub proof fn law_pasted_text_goes_where_the_caret_is(d: DocView, s: int, e: int, new: Seq<char>)
    requires
        sound(d),
        aimed(d, s, e),
        new.len() > 0,
        open_place(d),
        takes(d, replaced(d.source, s, e, new)),
        plainly(d, s, e, new),
    ensures
        with_text(d, d.pasted(new), s, e, new),
{
    lemma_picked(d, s, e);
    lemma_pasted(d, s, e, new);
    lemma_with_text(d, d.pasted(new), s, e, new, EditKind::Other);
}

proof fn lemma_pasted(d: DocView, s: int, e: int, new: Seq<char>)
    requires
        d.target() == (s, e),
        open_place(d),
    ensures
        d.pasted(new) == d.spliced(s, e, new, EditKind::Other),
{
    lemma_opened(d, new);
}

/// Where markup is hidden, typed text stays text: the editor is asked to put it at the caret
/// so that it does, and what it makes is the document. Refused, the text stays.
pub proof fn law_hidden_markup_keeps_typed_text_literal(d: DocView, new: Seq<char>)
    requires
        d.valid(),
        unpicked(d),
        new.len() > 0,
        d.view == modes::View::Wysiwyg,
        open_place(d),
        nothing_armed(d),
        d.markup_mode == MarkupMode::Hidden,
        d.format == Format::Markdown || d.format == Format::Djot,
        d.fix_for(d.caret, d.caret, new) is None,
    ensures
        match editor::literal_inserted(d.setup, d.bytes, d.caret, new) {
            Ok(effect) => d.inserted(new).bytes == effect.bytes && (valid_utf8(effect.bytes)
                ==> encode_utf8(d.inserted(new).source) == effect.bytes) && d.inserted(new).anchor
                is None,
            Err(_) => d.inserted(new).bytes == d.bytes && d.inserted(new).source == d.source
                && d.inserted(new).caret == d.caret && d.inserted(new).status is Some,
        },
{
    lemma_literal(d, new);
    if let Ok(effect) = editor::literal_inserted(d.setup, d.bytes, d.caret, new) {
        if valid_utf8(effect.bytes) {
            decode_utf8_encode_utf8(effect.bytes);
        }
    }
}

proof fn lemma_literal(d: DocView, new: Seq<char>)
    requires
        d.selected() is None,
        new.len() > 0,
        open_place(d),
        nothing_armed(d),
        d.keeps_literal(),
    ensures
        d.inserted(new) == d.literal(d.caret, new, edits::typed_kind(new), false),
{
    lemma_opened(d, new);
    assert(d.pending_here() == marks::no_marks());
}

/// A set with one mark has that one member.
proof fn lemma_one_member(set: InlineMarks, kind: InlineKind)
    requires
        forall|k: InlineKind| #[trigger] set.has(k) == (k == kind),
    ensures
        set.members() == seq![kind],
        set != marks::no_marks(),
{
    reveal_with_fuel(marks::members_of, 9);
    let all = InlineMarks::ALL@;
    assert(all.len() == 8);
    assert(set.members() =~= seq![kind]) by {
        assert(all =~= seq![
            InlineKind::Strong,
            InlineKind::Emph,
            InlineKind::Verbatim,
            InlineKind::Mark,
            InlineKind::Superscript,
            InlineKind::Subscript,
            InlineKind::Insert,
            InlineKind::Delete,
        ]);
        assert(all.drop_last() =~= all.take(7));
        assert(all.take(7).drop_last() =~= all.take(6));
        assert(all.take(6).drop_last() =~= all.take(5));
        assert(all.take(5).drop_last() =~= all.take(4));
        assert(all.take(4).drop_last() =~= all.take(3));
        assert(all.take(3).drop_last() =~= all.take(2));
        assert(all.take(2).drop_last() =~= all.take(1));
        assert(all.take(1).drop_last() =~= all.take(0));
        assert(set.has(kind));
    }
    marks::law_marks_differ_one_by_one(set, set);
    assert(set.has(kind));
    assert(!marks::no_marks().has(kind));
}

/// Text typed with one mark armed, where there is none, goes in at the caret and is then
/// marked with that very mark, over the text typed and nothing else.
pub proof fn law_armed_text_takes_its_mark(d: DocView, new: Seq<char>, kind: InlineKind)
    requires
        sound(d),
        d.anchor is None,
        open_place(d),
        d.pending_at == Some(d.caret),
        forall|k: InlineKind| #[trigger] d.pending.has(k) == (k == kind),
        d.runs(d.caret).len() == 0,
        d.behind(d.gap(d.caret), marks::no_marks()).0 == d.gap(d.caret),
        new.len() > 0,
        !text::all_space(new),
        takes(d, replaced(d.source, d.caret, d.caret, new)),
    ensures
        ({
            let plain = encode_utf8(replaced(d.source, d.caret, d.caret, new));
            match editor::inline_toggled(
                d.setup,
                plain,
                d.caret,
                d.caret + text::byte_len(new),
                kind,
            ) {
                Ok(effect) => d.inserted(new).bytes == effect.bytes,
                Err(_) => d.inserted(new).bytes == plain,
            }
        }),
{
    let ins = d.caret;
    let end = ins + text::byte_len(new);
    lemma_one_member(d.pending, kind);
    text::lemma_boundary_range(d.source, ins);
    laws::law_splice_reads_back(d.source, ins, ins, new);
    laws::law_edit_replaces(d, ins, ins, new, EditKind::Other);
    lemma_armed(d, new);
    let x = d.exact(ins, ins, new, EditKind::Other);
    lemma_bare_marks(d);
    lemma_wrapped_once(x, kind, d.marks_at(ins), ins, end);
    lemma_wrapped_bytes(x, kind, ins, end);
}

/// Text typed with marks armed, where there are none, is put in and wrapped.
proof fn lemma_armed(d: DocView, new: Seq<char>)
    requires
        d.anchor is None,
        open_place(d),
        d.pending_at == Some(d.caret),
        d.pending != marks::no_marks(),
        d.runs(d.caret).len() == 0,
        d.behind(d.gap(d.caret), marks::no_marks()).0 == d.gap(d.caret),
        new.len() > 0,
        !text::all_space(new),
        d.refused(d.caret, d.caret, new) is None,
    ensures
        ({
            let (f, cs, ce) = d.exact(d.caret, d.caret, new, EditKind::Other).all_wrapped(
                d.pending.members(),
                d.marks_at(d.caret),
                d.caret,
                d.caret + text::byte_len(new),
            );
            d.inserted(new) == f.resting(ce)
        }),
{
    lemma_opened(d, new);
    lemma_bare_marks(d);
    assert(!d.carries_on(d.caret, new, d.pending));
    assert(d.rejoined(d.caret, new, d.pending) == d);
    assert(edges::shed_past(d.runs(d.caret), d.caret, d.pending) == d.caret);
    assert(d.inserted(new) == d.marked(d.caret, new, d.pending));
}

/// One mark is put round a range once.
proof fn lemma_wrapped_once(d: DocView, kind: InlineKind, base: InlineMarks, s: int, e: int)
    requires
        base == marks::no_marks(),
    ensures
        d.all_wrapped(seq![kind], base, s, e) == d.wrapped(s, e, kind),
{
    marks::law_marks_differ_one_by_one(base, base);
    assert(!base.has(kind));
    let one = seq![kind];
    assert(one.last() == kind);
    assert(one.drop_last().len() == 0);
    assert(d.all_wrapped(one.drop_last(), base, s, e) == (d, s, e));
    assert(d.all_wrapped(one, base, s, e) == d.wrapped(s, e, kind));
}

/// What the editor makes of a range is the document, wherever the caret rests.
proof fn lemma_wrapped_bytes(d: DocView, kind: InlineKind, s: int, e: int)
    ensures
        forall|off: int|
            (#[trigger] d.wrapped(s, e, kind).0.resting(off)).bytes == match editor::inline_toggled(
                d.setup,
                d.bytes,
                s,
                e,
                kind,
            ) {
                Ok(effect) => effect.bytes,
                Err(_) => d.bytes,
            },
{
}

/// Where no run is, no mark is in force.
proof fn lemma_bare_marks(d: DocView)
    requires
        d.runs(d.caret).len() == 0,
    ensures
        d.marks_at(d.caret) == marks::no_marks(),
{
    let runs = d.runs(d.caret);
    let none = marks::no_marks();
    marks::law_marks_differ_one_by_one(none, none);
    assert forall|k: InlineKind| #[trigger] none.has(k) == edges::reaches(runs, d.caret, k) by {}
    marks::lemma_marks_where(none, |k: InlineKind| edges::reaches(runs, d.caret, k));
}

/// Text typed at an end of a block medium gets a paragraph of its own: before the medium the
/// text stands in front of a paragraph break, behind it the break stands in front of the text.
pub proof fn law_a_medium_is_not_typed_into(d: DocView, new: Seq<char>, side: MediaStop)
    requires
        sound(d),
        unpicked(d),
        d.view == modes::View::Wysiwyg,
        d.clamped() == d,
        new.len() > 1,
        d.medium() matches Some((at, _)) && at == side,
        takes(d, replaced(d.source, d.caret, d.caret, seq!['\n', '\n'])),
        plainly(d, d.caret, d.caret, seq!['\n', '\n']),
    ensures
        ({
            let o = d.opened(new);
            &&& o.source == replaced(d.source, d.caret, d.caret, seq!['\n', '\n'])
            &&& o.caret == (if side == MediaStop::Before {
                d.caret
            } else {
                d.caret + 2
            })
            &&& o.anchor is None
        }),
{
    let gap = seq!['\n', '\n'];
    crate::gestures::lemma_feeds();
    reveal_strlit("\n");
    lemma_picked(d, d.caret, d.caret);
    lemma_replaces(d, d.caret, d.caret, gap, EditKind::Other);
    laws::law_splice_reads_back(d.source, d.caret, d.caret, gap);
    laws::law_splice_reads_back(d.source, d.caret, d.caret, Seq::empty());
    let x = d.spliced(d.caret, d.caret, gap, EditKind::Other);
    text::lemma_boundary_ends(d.source);
    text::lemma_cut(d.source, d.caret);
    text::lemma_seam(
        text::slice(d.source, 0, d.caret),
        gap + text::slice(d.source, d.caret, d.len()),
    );
    assert(text::slice(d.source, 0, d.caret) + (gap + text::slice(d.source, d.caret, d.len()))
        =~= x.source);
    doc::lemma_settled(x, d.caret);
}

/// The medium at a place is the first of those laid out that starts or ends there: at its
/// start the caret is before it, at its end behind it.
pub proof fn law_a_medium_is_met_at_its_ends(media: Seq<visual::MediaMap>, off: int, i: int)
    requires
        0 <= i < media.len(),
        media[i].span.start == off || media[i].span.end == off,
        forall|k: int|
            0 <= k < i ==> (#[trigger] media[k]).span.start != off && media[k].span.end != off,
    ensures
        visual::medium_at(media, off, 0) == Some(
            (
                if media[i].span.start == off {
                    MediaStop::Before
                } else {
                    MediaStop::After
                },
                media[i].span,
            ),
        ),
{
    lemma_medium_at(media, off, i, 0);
}

proof fn lemma_medium_at(media: Seq<visual::MediaMap>, off: int, i: int, from: int)
    requires
        0 <= from <= i < media.len(),
        media[i].span.start == off || media[i].span.end == off,
        forall|k: int|
            0 <= k < i ==> (#[trigger] media[k]).span.start != off && media[k].span.end != off,
    ensures
        visual::medium_at(media, off, from) == Some(
            (
                if media[i].span.start == off {
                    MediaStop::Before
                } else {
                    MediaStop::After
                },
                media[i].span,
            ),
        ),
    decreases i - from,
{
    if from < i {
        assert(media[from].span.start != off && media[from].span.end != off);
        lemma_medium_at(media, off, i, from + 1);
    }
}

} // verus!

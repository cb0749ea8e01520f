//! What the delete keys take in the rendered view.

use vstd::prelude::*;
use vstd::utf8::*;
use crate::deleting;
use crate::deleting::BreakEdge;
use crate::doc;
use crate::doc::DocView;
use crate::edges;
use crate::gestures::{lemma_replaces, plainly, replaced, sound, takes, unpicked};
use crate::keys::without;
use crate::lines;
use crate::modes;
use crate::modes::EditKind;
use crate::node::{NodeView, Span};
use crate::outline;
use crate::text;
use crate::visual::MediaStop;

verus! {

/// Whether a delete of a range can be done as it is asked: the range is one of the text, and
/// the parser takes what is left.
pub open spec fn takes_out(d: DocView, s: int, e: int) -> bool {
    &&& 0 <= s <= e <= d.len()
    &&& text::boundary(d.source, s)
    &&& text::boundary(d.source, e)
    &&& takes(d, replaced(d.source, s, e, Seq::empty()))
    &&& plainly(d, s, e, Seq::empty())
}

proof fn lemma_erased(d: DocView, f: DocView, s: int, e: int, kind: EditKind)
    requires
        f == d.spliced(s, e, Seq::empty(), kind),
        sound(d),
        takes_out(d, s, e),
    ensures
        without(d, f, s, e),
{
    lemma_replaces(d, s, e, Seq::empty(), kind);
    assert(encode_utf8(Seq::<char>::empty()) =~= Seq::<u8>::empty());
    assert(text::slice(d.source, 0, s) + Seq::<char>::empty() + text::slice(d.source, e, d.len())
        =~= text::slice(d.source, 0, s) + text::slice(d.source, e, d.len()));
}

/// Whether the caret is at ordinary text in the rendered view: in reach, with nothing
/// selected, at no medium, at the start of no item and no heading, and in no marked run.
pub open spec fn in_prose(d: DocView) -> bool {
    &&& unpicked(d)
    &&& d.view == modes::View::Wysiwyg
    &&& d.map.content_start == 0
    &&& d.clamped() == d
    &&& d.medium() is None
    &&& !d.at_item_start()
    &&& d.heading_start() is None
    &&& d.runs(d.caret).len() == 0
    &&& d.runs(lines::step_left(d.source, d.caret)).len() == 0
}

/// Past what the rendered view guards, backspace takes the character before the caret as a
/// reader sees it: with the backslash that keeps it from being markup, which a reader does
/// not see.
pub proof fn law_backspace_takes_what_is_seen(d: DocView)
    requires
        sound(d),
        in_prose(d),
        d.caret > 0,
        d.break_range(BreakEdge::Backward) is None,
        ({
            let b = encode_utf8(d.source);
            let s = lines::step_left(d.source, d.caret);
            &&& 0 <= s < d.caret
            &&& text::boundary(d.source, s)
            &&& takes_out(d, s, d.caret)
            &&& s > 0 ==> takes_out(d, s - 1, d.caret) || b[s - 1] != 0x5c
        }),
    ensures
        ({
            let b = encode_utf8(d.source);
            let s = lines::step_left(d.source, d.caret);
            let escaped = s > 0 && b[s - 1] == 0x5c && (0x21 <= b[s] <= 0x2f || 0x3a <= b[s] <= 0x40
                || 0x5b <= b[s] <= 0x60 || 0x7b <= b[s] <= 0x7e);
            without(
                d,
                d.char_erased(),
                if escaped {
                    s - 1
                } else {
                    s
                },
                d.caret,
            )
        }),
{
    let b = encode_utf8(d.source);
    let s = lines::step_left(d.source, d.caret);
    let from = if deleting::hidden_escape(b, s - 1) {
        s - 1
    } else {
        s
    };
    lemma_char_erased(d, s, from);
    lemma_erased(d, d.char_erased(), from, d.caret, EditKind::Delete);
}

proof fn lemma_char_erased(d: DocView, s: int, from: int)
    requires
        sound(d),
        in_prose(d),
        d.caret > 0,
        d.break_range(BreakEdge::Backward) is None,
        s == lines::step_left(d.source, d.caret),
        0 <= s < d.caret,
        text::boundary(d.source, s),
        from == (if deleting::hidden_escape(encode_utf8(d.source), s - 1) {
            s - 1
        } else {
            s
        }),
    ensures
        d.char_erased() == d.spliced(from, d.caret, Seq::empty(), EditKind::Delete),
{
    doc::lemma_settled(d, s);
    doc::lemma_settled(d, d.caret);
    assert(d.inside_close(d.caret) == d.caret);
    assert(d.visible_end() == d.caret);
    assert(d.char_range(d.caret) == (from, d.caret));
}

/// Delete in prose takes the character behind the caret as a reader sees characters.
pub proof fn law_delete_takes_what_is_seen(d: DocView)
    requires
        sound(d),
        in_prose(d),
        d.caret < d.len(),
        d.break_range(BreakEdge::Forward) is None,
        d.caret < lines::step_right(d.source, d.caret),
        takes_out(d, d.caret, lines::step_right(d.source, d.caret)),
    ensures
        without(d, d.deleted_forward(), d.caret, lines::step_right(d.source, d.caret)),
{
    let e = lines::step_right(d.source, d.caret);
    lemma_prose_forward(d, e);
    lemma_erased(d, d.deleted_forward(), d.caret, e, EditKind::Delete);
}

proof fn lemma_prose_forward(d: DocView, e: int)
    requires
        in_prose(d),
        d.caret < d.len(),
        d.break_range(BreakEdge::Forward) is None,
        e == lines::step_right(d.source, d.caret),
        d.caret < e,
    ensures
        d.deleted_forward() == d.spliced(d.caret, e, Seq::empty(), EditKind::Delete),
{
    assert(d.inside_open(d.caret) == d.caret);
    assert(d.visible_start() == d.caret);
    assert(d.deleted_forward() == d.char_taken());
}

/// Backspace on a blank line joins it to the line above: what stands between the caret and
/// the stop before it goes.
pub proof fn law_backspace_joins_a_blank_line(d: DocView, stop: int)
    requires
        sound(d),
        in_prose(d),
        d.blank_stop() == Some(stop),
        takes_out(d, stop, d.caret),
    ensures
        without(d, d.backspaced(), stop, d.caret),
{
    lemma_blank(d, stop);
    lemma_erased(d, d.backspaced(), stop, d.caret, EditKind::Delete);
}

/// Between the caret on a blank line and the stop before it are line breaks and nothing else:
/// one, or where two part the paragraphs, two.
pub proof fn law_a_blank_line_is_joined_by_breaks(d: DocView, stop: int)
    requires
        sound(d),
        in_prose(d),
        !d.mapped(),
        d.blank_stop() == Some(stop),
    ensures
        1 <= d.caret - stop <= 2,
        forall|k: int| stop <= k < d.caret ==> #[trigger] encode_utf8(d.source)[k] == 10,
{
    lemma_feeds_back(d.source, d.caret);
    lemma_blank_stop(d);
}

proof fn lemma_blank(d: DocView, stop: int)
    requires
        in_prose(d),
        d.blank_stop() == Some(stop),
    ensures
        d.backspaced() == d.spliced(stop, d.caret, Seq::empty(), EditKind::Delete),
{
}

proof fn lemma_blank_stop(d: DocView)
    requires
        sound(d),
        in_prose(d),
        !d.mapped(),
        d.blank_stop() is Some,
        ({
            let from = deleting::feeds_back(encode_utf8(d.source), d.caret);
            &&& 0 <= from <= d.caret
            &&& forall|k: int|
                from <= k < d.caret ==> #[trigger] encode_utf8(d.source)[k] == 10 && text::boundary(
                    d.source,
                    k,
                )
        }),
    ensures
        1 <= d.caret - d.blank_stop()->0 <= 2,
        deleting::feeds_back(encode_utf8(d.source), d.caret) <= d.blank_stop()->0,
{
    let c = d.caret;
    let b = encode_utf8(d.source);
    let from = deleting::feeds_back(b, c);
    let stop = d.line_above()->0;
    assert(d.line_above() is Some);
    assert(stop == c - 1 || stop == c - 2);
    assert(from <= stop);
    assert(b[stop] == 10);
    doc::lemma_settled(d, stop);
}

proof fn lemma_feeds_back(source: Seq<char>, at: int)
    requires
        0 <= at <= text::byte_len(source),
    ensures
        0 <= deleting::feeds_back(encode_utf8(source), at) <= at,
        forall|k: int|
            deleting::feeds_back(encode_utf8(source), at) <= k < at ==> #[trigger] encode_utf8(
                source,
            )[k] == 10 && text::boundary(source, k),
    decreases at,
{
    let b = encode_utf8(source);
    if 0 < at && b[at - 1] == 10 {
        lemma_feeds_back(source, at - 1);
        text::lemma_ascii_boundary(source, at - 1);
    }
}

/// Backspace at the start of a heading makes it plain text: what stands between where its
/// signs start and the caret goes.
pub proof fn law_backspace_unmakes_a_heading(d: DocView, start: int, end: int, last: int)
    requires
        sound(d),
        d.heading_start() == Some((start, end, last)),
        !deleting::closing_hashes(text::slice(d.source, end, last)),
        takes_out(d, start, d.caret),
    ensures
        without(d, d.heading_undone(), start, d.caret),
{
    lemma_erased(d, d.heading_undone(), start, d.caret, EditKind::Other);
}

/// Between where the signs of a heading start and the caret at the start of its content are
/// hash signs and the blanks behind them, and no other character.
pub proof fn law_a_heading_starts_behind_its_signs(d: DocView, start: int, end: int, last: int)
    requires
        sound(d),
        d.heading_start() == Some((start, end, last)),
    ensures
        start < d.caret,
        encode_utf8(d.source)[start] == 0x23,
        forall|k: int|
            start <= k < d.caret ==> #[trigger] encode_utf8(d.source)[k] == 0x23 || encode_utf8(
                d.source,
            )[k] == 0x20 || encode_utf8(d.source)[k] == 0x09,
{
    let b = encode_utf8(d.source);
    let span = (outline::heading_opening(d.nodes(), d.source, d.caret, 0)->0).0;
    let gap = deleting::blanks_before(b, d.caret, span.start as int);
    lemma_signs(b, d.caret, span.start as int);
    lemma_signs(b, gap, span.start as int);
}

proof fn lemma_signs(b: Seq<u8>, at: int, from: int)
    ensures
        deleting::blanks_before(b, at, from) <= at,
        forall|k: int|
            deleting::blanks_before(b, at, from) <= k < at ==> #[trigger] b[k] == 0x20 || b[k]
                == 0x09,
        deleting::hashes_before(b, at, from) <= at,
        forall|k: int|
            deleting::hashes_before(b, at, from) <= k < at ==> #[trigger] b[k] == 0x23,
    decreases at - from,
{
    if from < at <= b.len() {
        lemma_signs(b, at - 1, from);
    }
}

/// What goes with a block medium is the medium, and of the line breaks around it the two that
/// part it from one neighbour: those before it, or where there are none those behind it.
pub proof fn law_a_medium_goes_with_its_break(d: DocView, span: Span)
    requires
        sound(d),
        d.map.content_start == 0,
        span.start <= span.end <= d.len(),
        text::boundary(d.source, span.start as int),
        text::boundary(d.source, span.end as int),
    ensures
        ({
            let b = encode_utf8(d.source);
            let (from, to) = d.medium_range(span);
            let broken = |i: int| 0 <= i && i + 2 <= b.len() && b[i] == 10 && b[i + 1] == 10;
            &&& from == (if broken(span.start - 2) {
                span.start - 2
            } else {
                span.start as int
            })
            &&& to == (if !broken(span.start - 2) && broken(span.end as int) {
                span.end + 2
            } else {
                span.end as int
            })
        }),
{
    let b = encode_utf8(d.source);
    let (s, e) = (span.start as int, span.end as int);
    doc::lemma_settled(d, s);
    doc::lemma_settled(d, e);
    if s >= 2 && b[s - 1] == 10 && b[s - 2] == 10 {
        text::lemma_ascii_boundary(d.source, s - 2);
        doc::lemma_settled(d, s - 2);
    }
}

/// A delete key aimed at a block medium takes it whole; one aimed away from it takes nothing.
pub proof fn law_a_medium_is_deleted_whole(d: DocView, forward: bool, side: MediaStop, span: Span)
    requires
        sound(d),
        d.medium() == Some((side, span)),
        takes_out(d, d.medium_range(span).0, d.medium_range(span).1),
    ensures
        forward == (side == MediaStop::Before) ==> without(
            d,
            d.media_deleted(forward),
            d.medium_range(span).0,
            d.medium_range(span).1,
        ),
        forward != (side == MediaStop::Before) ==> d.media_deleted(forward).source == d.source
            && d.media_deleted(forward).bytes == d.bytes && d.media_deleted(forward).past
            == d.past,
{
    let (from, to) = d.medium_range(span);
    if forward == (side == MediaStop::Before) {
        lemma_erased(d, d.media_deleted(forward), from, to, EditKind::Other);
    }
}

/// The delete key at a block medium is a delete of it, or of nothing.
pub proof fn law_a_medium_meets_the_delete_key(d: DocView)
    requires
        unpicked(d),
        d.view == modes::View::Wysiwyg,
        d.clamped() == d,
        d.medium() is Some,
        d.caret < d.len(),
    ensures
        d.deleted_forward() == d.media_deleted(true),
{
}

// ── what a delete empties ──────────────────────────────────────────────────────
/// A delete of words or lines leaves no inline node without text: those that it empties go
/// with it, delimiters and all, and it takes all that was asked.
pub proof fn law_no_empty_run_is_left(nodes: Seq<NodeView>, source: Seq<char>, s: int, e: int, i: int)
    requires
        0 <= s <= e <= text::byte_len(source),
        text::boundary(source, s),
        text::boundary(source, e),
        0 <= i < nodes.len(),
    ensures
        ({
            let (from, to) = deleting::widened(nodes, source, s, e);
            let n = nodes[i];
            &&& from <= s && e <= to
            &&& n.kind.inline() && edges::fits(source, n.span) && (n.content matches Some(c)
                && from <= c.start && c.end <= to) ==> from <= n.span.start && n.span.end <= to
        }),
    decreases s + text::byte_len(source) - e,
{
    deleting::lemma_widened_once(nodes, source, s, e);
    let (s2, e2) = deleting::widened_once(nodes, source, s, e);
    if s2 < s || e2 > e {
        law_no_empty_run_is_left(nodes, source, s2, e2, i);
    } else {
        lemma_none_emptied(nodes, source, s, e, i);
    }
}

proof fn lemma_none_emptied(nodes: Seq<NodeView>, source: Seq<char>, s: int, e: int, i: int)
    requires
        0 <= s <= e <= text::byte_len(source),
        text::boundary(source, s),
        text::boundary(source, e),
        0 <= i < nodes.len(),
        deleting::widened_once(nodes, source, s, e) == (s, e),
    ensures
        !deleting::emptied(nodes[i], source, s, e),
    decreases nodes.len(),
{
    let rest = nodes.drop_last();
    deleting::lemma_widened_once(rest, source, s, e);
    let (s1, e1) = deleting::widened_once(rest, source, s, e);
    assert(s1 == s && e1 == e);
    if i < rest.len() {
        lemma_none_emptied(rest, source, s, e, i);
        assert(rest[i] == nodes[i]);
    }
}

/// A delete that empties no inline node takes just what was asked.
pub proof fn law_a_delete_takes_no_more_than_it_empties(
    nodes: Seq<NodeView>,
    source: Seq<char>,
    s: int,
    e: int,
)
    requires
        forall|i: int|
            0 <= i < nodes.len() ==> !deleting::emptied(#[trigger] nodes[i], source, s, e),
    ensures
        deleting::widened(nodes, source, s, e) == (s, e),
{
    lemma_not_widened(nodes, source, s, e);
}

proof fn lemma_not_widened(nodes: Seq<NodeView>, source: Seq<char>, s: int, e: int)
    requires
        forall|i: int|
            0 <= i < nodes.len() ==> !deleting::emptied(#[trigger] nodes[i], source, s, e),
    ensures
        deleting::widened_once(nodes, source, s, e) == (s, e),
    decreases nodes.len(),
{
    if nodes.len() > 0 {
        let rest = nodes.drop_last();
        assert forall|i: int| 0 <= i < rest.len() implies !deleting::emptied(
            #[trigger] rest[i],
            source,
            s,
            e,
        ) by {
            assert(rest[i] == nodes[i]);
        }
        lemma_not_widened(rest, source, s, e);
        assert(nodes.last() == nodes[nodes.len() - 1]);
    }
}

} // verus!

//! What the laws on gestures speak of: what is selected, what a text is with a range of it
//! replaced, and what an ordinary edit does.

use vstd::prelude::*;
use vstd::utf8::*;
use crate::doc::DocView;
use crate::edges;
use crate::editor;
use crate::laws;
use crate::lines;
use crate::modes;
use crate::modes::EditKind;
use crate::respell;
use crate::text;

verus! {

// ── what the laws speak of ─────────────────────────────────────────────────────
/// Whether a range is selected, from either end.
pub open spec fn picked(d: DocView, s: int, e: int) -> bool {
    s < e && ((d.anchor == Some(s) && d.caret == e) || (d.anchor == Some(e) && d.caret == s))
}

/// Whether nothing is selected.
pub open spec fn unpicked(d: DocView) -> bool {
    d.anchor is None || d.anchor == Some(d.caret)
}

/// Whether a range is what a gesture is aimed at: what is selected, or the caret.
pub open spec fn aimed(d: DocView, s: int, e: int) -> bool {
    picked(d, s, e) || (unpicked(d) && s == d.caret && e == d.caret)
}

/// A text with a range of its bytes replaced.
pub open spec fn replaced(source: Seq<char>, s: int, e: int, new: Seq<char>) -> Seq<char> {
    text::slice(source, 0, s) + new + text::slice(source, e, text::byte_len(source))
}

/// Whether the document is in order: its caret stands in its text, and its editor holds it.
pub open spec fn sound(d: DocView) -> bool {
    d.valid() && d.synced()
}

/// Whether the parser takes a text.
pub open spec fn takes(d: DocView, source: Seq<char>) -> bool {
    !editor::unparsable(d.setup, encode_utf8(source))
}

/// Whether an edit touches no marked run that would have to be spelt anew: in the source
/// view, outside the content of every run, or where text is left against the delimiters.
pub open spec fn plainly(d: DocView, s: int, e: int, new: Seq<char>) -> bool {
    ||| d.view == modes::View::Source
    ||| d.fix_for(s, e, new) is None
    ||| forall|i: int|
        0 <= i < d.runs(s).len() ==> !((#[trigger] d.runs(s)[i]).content matches Some(c) && c.start
            <= s && e <= c.end)
}

/// Where no run's content holds a range, there is none to spell anew.
pub proof fn lemma_no_run(runs: Seq<edges::MarkAt>, s: int, e: int)
    requires
        forall|i: int|
            0 <= i < runs.len() ==> !((#[trigger] runs[i]).content matches Some(c) && c.start <= s
                && e <= c.end),
    ensures
        respell::innermost(runs, s, e) is None,
    decreases runs.len(),
{
    if runs.len() > 0 {
        assert(runs.last() == runs[runs.len() - 1]);
        assert forall|i: int| 0 <= i < runs.drop_last().len() implies !((
        #[trigger] runs.drop_last()[i]).content matches Some(c) && c.start <= s && e <= c.end) by {
            assert(runs.drop_last()[i] == runs[i]);
        }
        lemma_no_run(runs.drop_last(), s, e);
    }
}

/// What an ordinary edit does.
pub proof fn lemma_replaces(d: DocView, s: int, e: int, new: Seq<char>, kind: EditKind)
    requires
        sound(d),
        0 <= s <= e <= d.len(),
        text::boundary(d.source, s),
        text::boundary(d.source, e),
        takes(d, replaced(d.source, s, e, new)),
        plainly(d, s, e, new),
    ensures
        ({
            let f = d.spliced(s, e, new, kind);
            &&& f.source == replaced(d.source, s, e, new)
            &&& f.bytes == encode_utf8(replaced(d.source, s, e, new))
            &&& f.anchor is None
            &&& f.status is None
            &&& f.dirty == (f.source != d.clean)
            &&& sound(f)
            &&& new.len() > 0 || s == e || d.view == modes::View::Source ==> f.caret == s
                + text::byte_len(new)
            &&& f.caret <= s + text::byte_len(new)
            &&& f.caret == s + text::byte_len(new) || edges::close_inside(
                f.runs(lines::step_left(f.source, s + text::byte_len(new))),
                s + text::byte_len(new),
            ) is Some
            &&& f.view == d.view
            &&& f.clean == d.clean
            &&& f.setup == d.setup
            &&& f.map == d.map
            &&& f.format == d.format
            &&& f.line_flow == d.line_flow
            &&& f.markup_mode == d.markup_mode
        }),
{
    laws::law_splice_reads_back(d.source, s, e, new);
    laws::law_edit_replaces(d, s, e, new, kind);
    laws::law_edit_keeps_validity(d, s, e, new, kind);
    if d.view != modes::View::Source && d.fix_for(s, e, new) is Some {
        lemma_no_run(d.runs(s), s, e);
    }
    let x = d.exact(s, e, new, kind);
    lemma_inside_below(x, x.caret);
}

/// In through closing delimiters lies no place further right.
pub proof fn lemma_inside_below(d: DocView, off: int)
    ensures
        d.inside_close(off) <= off,
        d.inside_close(off) == off || edges::close_inside(
            d.runs(lines::step_left(d.source, off)),
            off,
        ) is Some,
    decreases off,
{
    if let Some(inner) = edges::close_inside(d.runs(lines::step_left(d.source, off)), off) {
        if 0 <= inner < off {
            lemma_inside_below(d, inner);
        }
    }
}

/// A selected range lies in the text, between its characters.
pub proof fn lemma_picked(d: DocView, s: int, e: int)
    requires
        d.valid(),
        aimed(d, s, e),
    ensures
        0 <= s <= e <= d.len(),
        text::boundary(d.source, s),
        text::boundary(d.source, e),
        picked(d, s, e) ==> d.selected() == Some((s, e)),
        !picked(d, s, e) ==> d.selected() is None,
        d.target() == (s, e),
{
}

/// Whether one document is another with a range of its text replaced: the text before the
/// range, the new text and the text behind the range, the caret behind the new text, and
/// nothing selected.
pub open spec fn with_text(d: DocView, f: DocView, s: int, e: int, new: Seq<char>) -> bool {
    &&& f.source == text::slice(d.source, 0, s) + new + text::slice(d.source, e, d.len())
    &&& f.caret == s + text::byte_len(new)
    &&& f.anchor is None
}

/// So does an ordinary edit.
pub proof fn lemma_with_text(
    d: DocView,
    f: DocView,
    s: int,
    e: int,
    new: Seq<char>,
    kind: EditKind,
)
    requires
        f == d.spliced(s, e, new, kind),
        sound(d),
        0 <= s <= e <= d.len(),
        text::boundary(d.source, s),
        text::boundary(d.source, e),
        takes(d, replaced(d.source, s, e, new)),
        plainly(d, s, e, new),
        new.len() > 0,
    ensures
        with_text(d, f, s, e, new),
        sound(f),
{
    lemma_replaces(d, s, e, new, kind);
}

/// A line break takes one byte.
pub proof fn lemma_feeds()
    ensures
        "\n"@ == seq!['\n'],
        "\n\n"@ == seq!['\n', '\n'],
        "\n> "@ == seq!['\n', '>', ' '],
        text::byte_len(seq!['\n']) == 1,
        text::byte_len(seq!['\n', '\n']) == 2,
        text::byte_len(seq!['\n', '>', ' ']) == 3,
{
    reveal_strlit("\n");
    reveal_strlit("\n\n");
    reveal_strlit("\n> ");
    assert("\n"@ =~= seq!['\n']);
    assert("\n\n"@ =~= seq!['\n', '\n']);
    assert("\n> "@ =~= seq!['\n', '>', ' ']);
    lemma_ascii_len(seq!['\n']);
    lemma_ascii_len(seq!['\n', '\n']);
    lemma_ascii_len(seq!['\n', '>', ' ']);
}

/// A text of ASCII takes a byte for each character.
pub proof fn lemma_ascii_len(s: Seq<char>)
    requires
        forall|i: int| 0 <= i < s.len() ==> (#[trigger] s[i] as u32) < 0x80,
    ensures
        text::byte_len(s) == s.len(),
    decreases s.len(),
{
    if s.len() > 0 {
        let rest = s.drop_first();
        assert forall|i: int| 0 <= i < rest.len() implies (#[trigger] rest[i] as u32) < 0x80 by {
            assert(rest[i] == s[i + 1]);
        }
        lemma_ascii_len(rest);
        assert((s[0] as u32) < 0x80);
    } else {
        assert(encode_utf8(s) =~= Seq::<u8>::empty());
    }
}

} // verus!

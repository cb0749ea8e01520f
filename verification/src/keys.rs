//! What the delete keys and the enter key do.

use vstd::prelude::*;
use vstd::utf8::*;
use crate::doc;
use crate::doc::DocView;
use crate::edges;
use crate::edits;
use crate::gestures::{
    aimed, lemma_feeds, lemma_picked, lemma_replaces, lemma_with_text, picked, plainly, replaced,
    sound, takes, unpicked, with_text,
};
use crate::laws;
use crate::lines;
use crate::modes;
use crate::modes::{EditKind, LineFlow};
use crate::node::Kind;
use crate::outline;
use crate::text;
use crate::words;

verus! {

// ── deleting ───────────────────────────────────────────────────────────────────
/// Whether one document is another with a range of its text gone: the text before the range
/// and the text behind it, the caret between them, and nothing selected. In the rendered
/// view the caret may stand further left, in a run that closes there.
pub open spec fn without(d: DocView, f: DocView, s: int, e: int) -> bool {
    &&& f.source == text::slice(d.source, 0, s) + text::slice(d.source, e, d.len())
    &&& f.anchor is None
    &&& f.caret <= s
    &&& d.view == modes::View::Source ==> f.caret == s
    &&& f.caret == s || edges::close_inside(f.runs(lines::step_left(f.source, s)), s) is Some
}

proof fn lemma_cut(d: DocView, s: int, e: int)
    requires
        sound(d),
        picked(d, s, e),
        takes(d, replaced(d.source, s, e, Seq::empty())),
        plainly(d, s, e, Seq::empty()),
    ensures
        without(d, d.cut(), s, e),
{
    lemma_picked(d, s, e);
    lemma_replaces(d, s, e, Seq::empty(), EditKind::Other);
    assert(encode_utf8(Seq::<char>::empty()) =~= Seq::<u8>::empty());
    assert(text::slice(d.source, 0, s) + Seq::<char>::empty() + text::slice(d.source, e, d.len())
        =~= text::slice(d.source, 0, s) + text::slice(d.source, e, d.len()));
}

proof fn lemma_keys_cut(d: DocView)
    requires
        d.selected() is Some,
    ensures
        d.backspaced() == d.cut(),
        d.deleted_forward() == d.cut(),
        d.word_erased() == d.cut(),
        d.word_taken() == d.cut(),
        d.line_erased() == d.cut(),
        d.line_taken() == d.cut(),
{
}

/// Every delete key takes what is selected and nothing else: backspace and delete, by the
/// character, by the word and to an end of the line.
pub proof fn law_every_delete_key_takes_the_selection(d: DocView, s: int, e: int)
    requires
        sound(d),
        picked(d, s, e),
        takes(d, replaced(d.source, s, e, Seq::empty())),
        plainly(d, s, e, Seq::empty()),
    ensures
        without(d, d.backspaced(), s, e),
        without(d, d.deleted_forward(), s, e),
        without(d, d.word_erased(), s, e),
        without(d, d.word_taken(), s, e),
        without(d, d.line_erased(), s, e),
        without(d, d.line_taken(), s, e),
{
    lemma_picked(d, s, e);
    lemma_cut(d, s, e);
    lemma_keys_cut(d);
}

/// A delete that the parser refuses leaves the text and the selection alone, and says so.
pub proof fn law_a_refused_delete_keeps_the_selection(d: DocView, s: int, e: int)
    requires
        sound(d),
        picked(d, s, e),
        !takes(d, replaced(d.source, s, e, Seq::empty())),
    ensures
        ({
            let f = d.backspaced();
            f.source == d.source && f.bytes == d.bytes && f.anchor == d.anchor && f.caret == d.caret
                && f.status is Some
        }),
        d.deleted_forward() == d.backspaced(),
        d.word_erased() == d.backspaced(),
        d.word_taken() == d.backspaced(),
        d.line_erased() == d.backspaced(),
        d.line_taken() == d.backspaced(),
{
    lemma_picked(d, s, e);
    laws::law_splice_reads_back(d.source, s, e, Seq::empty());
    lemma_keys_cut(d);
}

/// A range deleted where it is not empty: the text without it, and the caret in its place.
proof fn lemma_back_over(d: DocView, s: int, e: int)
    requires
        sound(d),
        d.view == modes::View::Source,
        0 <= s <= e <= d.len(),
        s == d.caret || e == d.caret,
        text::boundary(d.source, s),
        text::boundary(d.source, e),
        takes(d, replaced(d.source, s, e, Seq::empty())),
    ensures
        d.back_over((s, e)).source == text::slice(d.source, 0, s) + text::slice(
            d.source,
            e,
            d.len(),
        ),
        d.back_over((s, e)).caret == s,
{
    assert(text::slice(d.source, 0, s) + Seq::<char>::empty() + text::slice(d.source, e, d.len())
        =~= text::slice(d.source, 0, s) + text::slice(d.source, e, d.len()));
    if s < e {
        lemma_replaces(d, s, e, Seq::empty(), EditKind::Delete);
        assert(encode_utf8(Seq::<char>::empty()) =~= Seq::<u8>::empty());
    } else {
        text::lemma_cut(d.source, s);
    }
}

proof fn lemma_backspaced(d: DocView, s: int)
    requires
        d.valid(),
        d.view == modes::View::Source,
        d.selected() is None,
        s == lines::step_left(d.source, d.caret),
        0 <= s <= d.caret,
        text::boundary(d.source, s),
    ensures
        d.backspaced() == (if d.caret > 0 {
            d.back_over((s, d.caret))
        } else {
            d
        }),
{
    doc::lemma_settled(d, s);
    assert(d.visible_end() == d.caret);
    assert(d.char_range(d.caret) == (s, d.caret));
}

/// Backspace in the source view takes the character before the caret, as a reader sees
/// characters; at the start of the text there is none.
pub proof fn law_backspace_takes_the_character_before(d: DocView)
    requires
        sound(d),
        d.view == modes::View::Source,
        unpicked(d),
        ({
            let s = lines::step_left(d.source, d.caret);
            d.caret > 0 ==> 0 <= s <= d.caret && text::boundary(d.source, s) && takes(
                d,
                replaced(d.source, s, d.caret, Seq::empty()),
            )
        }),
    ensures
        ({
            let s = if d.caret > 0 {
                lines::step_left(d.source, d.caret)
            } else {
                0
            };
            &&& d.backspaced().source == text::slice(d.source, 0, s) + text::slice(
                d.source,
                d.caret,
                d.len(),
            )
            &&& d.backspaced().caret == s
        }),
{
    let s = lines::step_left(d.source, d.caret);
    if d.caret > 0 {
        lemma_backspaced(d, s);
        lemma_back_over(d, s, d.caret);
    } else {
        text::lemma_cut(d.source, 0);
        assert(d.backspaced() == d.char_erased());
    }
}

/// Delete in the source view takes the character behind the caret; at the end of the text
/// there is none.
pub proof fn law_delete_takes_the_character_behind(d: DocView)
    requires
        sound(d),
        d.view == modes::View::Source,
        unpicked(d),
        ({
            let e = lines::step_right(d.source, d.caret);
            d.caret < d.len() ==> d.caret <= e <= d.len() && text::boundary(d.source, e) && takes(
                d,
                replaced(d.source, d.caret, e, Seq::empty()),
            )
        }),
    ensures
        ({
            let e = if d.caret < d.len() {
                lines::step_right(d.source, d.caret)
            } else {
                d.len()
            };
            &&& d.deleted_forward().source == text::slice(d.source, 0, d.caret) + text::slice(
                d.source,
                e,
                d.len(),
            )
            &&& d.deleted_forward().caret == d.caret
        }),
{
    let e = lines::step_right(d.source, d.caret);
    if d.caret < d.len() {
        lemma_deleted_forward(d);
        lemma_back_over(d, d.caret, e);
    } else {
        text::lemma_cut(d.source, d.caret);
        assert(d.deleted_forward() == d);
    }
}

proof fn lemma_deleted_forward(d: DocView)
    requires
        d.view == modes::View::Source,
        d.selected() is None,
        d.caret < d.len(),
    ensures
        d.deleted_forward() == d.back_over((d.caret, lines::step_right(d.source, d.caret))),
{
    assert(d.visible_start() == d.caret);
}

proof fn lemma_swept(d: DocView, s: int, e: int)
    requires
        d.view == modes::View::Source,
    ensures
        d.swept(s, e) == d.back_over((s, e)),
{
}

/// Deleting a word in the source view takes the text from where the word motion leads to the
/// caret, or from the caret to where it leads.
pub proof fn law_a_word_delete_takes_as_far_as_the_word_motion(d: DocView)
    requires
        sound(d),
        d.view == modes::View::Source,
        unpicked(d),
    ensures
        ({
            let s = words::word_left(d.source, d.caret);
            0 <= s <= d.caret && text::boundary(d.source, s) && takes(
                d,
                replaced(d.source, s, d.caret, Seq::empty()),
            ) ==> d.word_erased().source == text::slice(d.source, 0, s) + text::slice(
                d.source,
                d.caret,
                d.len(),
            ) && d.word_erased().caret == s
        }),
        ({
            let e = words::word_right(d.source, d.caret);
            d.caret <= e <= d.len() && text::boundary(d.source, e) && takes(
                d,
                replaced(d.source, d.caret, e, Seq::empty()),
            ) ==> d.word_taken().source == text::slice(d.source, 0, d.caret) + text::slice(
                d.source,
                e,
                d.len(),
            ) && d.word_taken().caret == d.caret
        }),
{
    let s = words::word_left(d.source, d.caret);
    let e = words::word_right(d.source, d.caret);
    if 0 <= s <= d.caret && text::boundary(d.source, s) && takes(
        d,
        replaced(d.source, s, d.caret, Seq::empty()),
    ) {
        doc::lemma_settled(d, s);
        lemma_word_deletes(d, s);
        lemma_swept(d, s, d.caret);
        lemma_back_over(d, s, d.caret);
    }
    if d.caret <= e <= d.len() && text::boundary(d.source, e) && takes(
        d,
        replaced(d.source, d.caret, e, Seq::empty()),
    ) {
        doc::lemma_settled(d, e);
        lemma_word_deletes(d, e);
        lemma_swept(d, d.caret, e);
        lemma_back_over(d, d.caret, e);
    }
}

proof fn lemma_word_deletes(d: DocView, to: int)
    requires
        d.view == modes::View::Source,
        d.selected() is None,
        d.settled(to) == to,
        0 <= to,
    ensures
        to == words::word_left(d.source, d.caret) ==> d.word_erased() == d.swept(to, d.caret),
        to == words::word_right(d.source, d.caret) ==> d.word_taken() == d.swept(d.caret, to),
{
}

/// Deleting to an end of the line in the source view takes what is left of the line on that
/// side of the caret, and no line break.
pub proof fn law_a_line_delete_stops_at_the_line(d: DocView)
    requires
        sound(d),
        d.view == modes::View::Source,
        unpicked(d),
    ensures
        ({
            let s = lines::bol(encode_utf8(d.source), d.caret);
            takes(d, replaced(d.source, s, d.caret, Seq::empty())) ==> d.line_erased().source
                == text::slice(d.source, 0, s) + text::slice(d.source, d.caret, d.len())
                && d.line_erased().caret == s
        }),
        ({
            let e = lines::eol(encode_utf8(d.source), d.caret);
            takes(d, replaced(d.source, d.caret, e, Seq::empty())) ==> d.line_taken().source
                == text::slice(d.source, 0, d.caret) + text::slice(d.source, e, d.len())
                && d.line_taken().caret == d.caret
        }),
{
    let b = encode_utf8(d.source);
    let (s, e) = (lines::bol(b, d.caret), lines::eol(b, d.caret));
    lemma_line_deletes(d);
    lines::lemma_bol(b, d.caret);
    lines::lemma_eol(b, d.caret);
    lines::lemma_line_boundaries(d.source, d.caret);
    if takes(d, replaced(d.source, s, d.caret, Seq::empty())) {
        lemma_swept(d, s, d.caret);
        lemma_back_over(d, s, d.caret);
    }
    if takes(d, replaced(d.source, d.caret, e, Seq::empty())) {
        lemma_swept(d, d.caret, e);
        lemma_back_over(d, d.caret, e);
    }
}

proof fn lemma_line_deletes(d: DocView)
    requires
        d.valid(),
        d.view == modes::View::Source,
        d.selected() is None,
    ensures
        d.line_erased() == d.swept(lines::bol(encode_utf8(d.source), d.caret), d.caret),
        d.line_taken() == d.swept(d.caret, lines::eol(encode_utf8(d.source), d.caret)),
{
    let b = encode_utf8(d.source);
    lines::law_row_of_line(b, d.caret);
    lines::lemma_bol(b, d.caret);
    lines::lemma_eol(b, d.caret);
    lines::lemma_line_boundaries(d.source, d.caret);
    lines::lemma_same_eol(b, lines::bol(b, d.caret), d.caret);
    doc::lemma_settled(d, lines::bol(b, d.caret));
    doc::lemma_settled(d, lines::eol(b, d.caret));
    assert(d.line_span() == (lines::bol(b, d.caret), lines::eol(b, d.caret)));
}

// ── the enter key ──────────────────────────────────────────────────────────────
/// Enter over a selection in the rendered view replaces it by a paragraph break: no selected
/// character remains.
pub proof fn law_enter_replaces_the_selection(d: DocView, s: int, e: int)
    requires
        sound(d),
        picked(d, s, e),
        d.view == modes::View::Wysiwyg,
        takes(d, replaced(d.source, s, e, seq!['\n', '\n'])),
        plainly(d, s, e, seq!['\n', '\n']),
    ensures
        with_text(d, d.newlined(), s, e, seq!['\n', '\n']),
{
    let gap = seq!['\n', '\n'];
    lemma_feeds();
    lemma_picked(d, s, e);
    lemma_newlined(d, s, e, gap);
    lemma_with_text(d, d.newlined(), s, e, gap, EditKind::Other);
}

proof fn lemma_newlined(d: DocView, s: int, e: int, gap: Seq<char>)
    requires
        d.selected() == Some((s, e)),
        d.view == modes::View::Wysiwyg,
        gap == "\n\n"@,
    ensures
        d.newlined() == d.spliced(s, e, gap, EditKind::Other),
{
}

/// Enter in the source view puts a line break where the caret is, or in place of what is
/// selected.
pub proof fn law_enter_in_the_source_breaks_the_line(d: DocView, s: int, e: int)
    requires
        sound(d),
        aimed(d, s, e),
        d.view == modes::View::Source,
        takes(d, replaced(d.source, s, e, seq!['\n'])),
    ensures
        with_text(d, d.newlined(), s, e, seq!['\n']),
{
    reveal_strlit("\n");
    assert("\n"@ =~= seq!['\n']);
    lemma_picked(d, s, e);
    lemma_source_enter(d, s, e);
    lemma_with_text(d, d.newlined(), s, e, seq!['\n'], edits::typed_kind(seq!['\n']));
}

proof fn lemma_source_enter(d: DocView, s: int, e: int)
    requires
        d.target() == (s, e),
        d.view == modes::View::Source,
    ensures
        d.newlined() == d.spliced(s, e, "\n"@, edits::typed_kind("\n"@)),
{
}

/// What goes on with what the caret is in: in code a line break, in a quote its gutter on the
/// next line, on a blank line and where line breaks are kept a line break, and in other prose
/// a paragraph break.
pub open spec fn goes_on(d: DocView, gap: Seq<char>) -> bool {
    let c = d.caret;
    let b = encode_utf8(d.source);
    let code = outline::chain_has(d.chain(c), Kind::CodeBlock);
    let quote = outline::chain_has(d.chain(c), Kind::BlockQuote);
    let blank = text::all_space(text::slice(d.source, lines::bol(b, c), lines::eol(b, c)));
    &&& code || d.item_marker() is None
    &&& gap == (if code {
        seq!['\n']
    } else if quote {
        seq!['\n', '>', ' ']
    } else if blank || d.line_flow == LineFlow::Preserve {
        seq!['\n']
    } else {
        seq!['\n', '\n']
    })
}

/// Enter at a caret in the rendered view goes on with what the caret is in: code with its
/// next line, a quote with its gutter, a blank line with another, and prose with a new
/// paragraph, or where line breaks are kept with a new line. The text on both sides stays.
#[verifier::spinoff_prover]
pub proof fn law_enter_goes_on_with_what_is_there(d: DocView, gap: Seq<char>)
    requires
        sound(d),
        unpicked(d),
        d.view == modes::View::Wysiwyg,
        takes(d, replaced(d.source, d.caret, d.caret, gap)),
        plainly(d, d.caret, d.caret, gap),
        d.runs(d.caret).len() == 0,
        d.has_block(d.caret),
        goes_on(d, gap),
    ensures
        with_text(d, d.newlined(), d.caret, d.caret, gap),
{
    lemma_picked(d, d.caret, d.caret);
    lemma_enter(d, gap);
    lemma_with_text(d, d.newlined(), d.caret, d.caret, gap, edits::typed_kind(gap));
}

#[verifier::spinoff_prover]
proof fn lemma_enter(a: DocView, gap: Seq<char>)
    requires
        a.selected() is None,
        a.view == modes::View::Wysiwyg,
        a.runs(a.caret).len() == 0,
        a.has_block(a.caret),
        goes_on(a, gap),
    ensures
        a.newlined() == a.spliced(a.caret, a.caret, gap, edits::typed_kind(gap)),
        gap.len() > 0,
{
    lemma_feeds();
    lemma_broken(a, gap);
}

#[verifier::spinoff_prover]
proof fn lemma_broken(a: DocView, gap: Seq<char>)
    requires
        a.selected() is None,
        a.view == modes::View::Wysiwyg,
        a.runs(a.caret).len() == 0,
        a.has_block(a.caret),
        ({
            let c = a.caret;
            let b = encode_utf8(a.source);
            let code = outline::chain_has(a.chain(c), Kind::CodeBlock);
            let quote = outline::chain_has(a.chain(c), Kind::BlockQuote);
            let blank = text::all_space(text::slice(a.source, lines::bol(b, c), lines::eol(b, c)));
            &&& code || a.item_marker() is None
            &&& gap == (if code {
                "\n"@
            } else if quote {
                "\n> "@
            } else if blank || a.line_flow == LineFlow::Preserve {
                "\n"@
            } else {
                "\n\n"@
            })
        }),
    ensures
        a.newlined() == a.spliced(a.caret, a.caret, gap, edits::typed_kind(gap)),
{
    assert(a.past_delims() == a);
    assert(a.block_or_caret() == a.caret);
    assert(a.newlined() == a.broken());
    assert(a.typed(gap) == a.spliced(a.caret, a.caret, gap, edits::typed_kind(gap)));
}

} // verus!

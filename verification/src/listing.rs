//! What the enter key and indenting do in lists.

use vstd::prelude::*;
use vstd::utf8::*;
use crate::doc::DocView;
use crate::editor;
use crate::edits;
use crate::gestures::{
    lemma_feeds, lemma_picked, lemma_replaces, lemma_with_text, plainly, replaced, sound, takes,
    unpicked, with_text,
};
use crate::lines;
use crate::lists;
use crate::modes;
use crate::modes::EditKind;
use crate::node::Kind;
use crate::outline;
use crate::text;

verus! {

/// What an item holds on the caret's line: what stands between its marker and the line's end.
pub open spec fn item_text(d: DocView, end: int) -> Seq<char> {
    let to = lines::eol(encode_utf8(d.source), d.caret);
    text::slice(
        d.source,
        end,
        if to > end {
            to
        } else {
            end
        },
    )
}

/// Enter in a list item that holds text starts the next item: a line break and the marker of
/// the next item go in at the caret, and the caret stands behind them.
pub proof fn law_enter_starts_the_next_item(d: DocView, start: int, end: int, new: Seq<char>)
    requires
        sound(d),
        unpicked(d),
        !text::all_space(item_text(d, end)),
        new == seq!['\n'] + lists::marker_after(text::slice(d.source, start, end)),
        takes(d, replaced(d.source, d.caret, d.caret, new)),
        plainly(d, d.caret, d.caret, new),
    ensures
        with_text(d, d.list_broken(start, end), d.caret, d.caret, new),
{
    lemma_picked(d, d.caret, d.caret);
    lemma_feeds();
    lemma_next_item(d, start, end, new);
    lemma_with_text(
        d,
        d.list_broken(start, end),
        d.caret,
        d.caret,
        new,
        edits::typed_kind(new),
    );
}

proof fn lemma_next_item(d: DocView, start: int, end: int, new: Seq<char>)
    requires
        d.target() == (d.caret, d.caret),
        !text::all_space(item_text(d, end)),
        new == "\n"@ + lists::marker_after(text::slice(d.source, start, end)),
    ensures
        d.list_broken(start, end) == d.spliced(d.caret, d.caret, new, edits::typed_kind(new)),
{
}

/// Enter in an empty list item ends the list: the marker goes, and a line break stands in its
/// place.
pub proof fn law_enter_in_an_empty_item_ends_the_list(d: DocView, start: int, end: int)
    requires
        sound(d),
        unpicked(d),
        text::all_space(item_text(d, end)),
        0 <= start <= d.caret,
        text::boundary(d.source, start),
        takes(d, replaced(d.source, start, d.caret, seq!['\n'])),
        plainly(d, start, d.caret, seq!['\n']),
    ensures
        with_text(d, d.list_broken(start, end), start, d.caret, seq!['\n']),
{
    lemma_picked(d, d.caret, d.caret);
    lemma_feeds();
    lemma_list_ends(d, start, end);
    lemma_with_text(
        d,
        d.list_broken(start, end),
        start,
        d.caret,
        seq!['\n'],
        EditKind::Other,
    );
}

proof fn lemma_list_ends(d: DocView, start: int, end: int)
    requires
        text::all_space(item_text(d, end)),
    ensures
        d.list_broken(start, end) == d.spliced(start, d.caret, "\n"@, EditKind::Other),
{
}

/// Enter in a list item breaks the item, and the list is numbered anew.
pub proof fn law_enter_in_an_item_breaks_it(d: DocView, start: int, end: int)
    requires
        d.selected() is None,
        d.view == modes::View::Wysiwyg,
        d.runs(d.caret).len() == 0,
        d.has_block(d.caret),
        !outline::chain_has(d.chain(d.caret), Kind::CodeBlock),
        d.item_marker() == Some((start, end)),
    ensures
        d.newlined() == d.list_broken(start, end).renumbered(),
{
    assert(d.past_delims() == d);
    assert(d.block_or_caret() == d.caret);
}

/// Numbering a list anew leaves what the editor makes of it, and where it makes nothing, the
/// text as it is.
pub proof fn law_numbers_are_the_editors(d: DocView)
    ensures
        d.renumbered().bytes == match editor::lists_renumbered(d.setup, d.bytes, d.caret) {
            Ok(Some(bytes)) => bytes,
            _ => d.bytes,
        },
{
}

/// Indenting and outdenting rewrite the planned lines and nothing else; without a plan the
/// document stays.
pub proof fn law_an_indent_rewrites_its_lines(d: DocView, add: bool)
    requires
        sound(d),
    ensures
        d.reindent(add) is None ==> d.reindented(add) == d,
        d.reindent(add) matches Some(plan) ==> (0 <= plan.start <= plan.end <= d.len()
            && text::boundary(d.source, plan.start) && text::boundary(d.source, plan.end) && takes(
            d,
            replaced(d.source, plan.start, plan.end, plan.text),
        ) && plainly(d, plan.start, plan.end, plan.text) ==> d.reindented(add).source == replaced(
            d.source,
            plan.start,
            plan.end,
            plan.text,
        )),
{
    if let Some(plan) = d.reindent(add) {
        if 0 <= plan.start <= plan.end <= d.len() && text::boundary(d.source, plan.start)
            && text::boundary(d.source, plan.end) && takes(
            d,
            replaced(d.source, plan.start, plan.end, plan.text),
        ) && plainly(d, plan.start, plan.end, plan.text) {
            lemma_replaces(d, plan.start, plan.end, plan.text, EditKind::Other);
        }
    }
}

} // verus!

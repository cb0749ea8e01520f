//! What the gestures on blocks, lists and tables hand to the editor, and what they leave.

use vstd::prelude::*;
use vstd::utf8::*;
use crate::blocks;
use crate::doc::DocView;
use crate::edits;
use crate::editor;
use crate::editor::{Effect, Fault};
use crate::format::Format;
use crate::gestures::{
    aimed, lemma_picked, lemma_with_text, picked, plainly, replaced, sound, takes, unpicked,
    with_text,
};
use crate::html;
use crate::inlines;
use crate::lines;
use crate::marking::{declined, made};
use crate::modes::{Alignment, BlockContainerKind, BlockKind, EditKind};
use crate::node::{Kind, NodeView};
use crate::outline;
use crate::outline::Sought;
use crate::text;
use crate::visual::MediaKind;

verus! {

/// What a table gesture leaves, given what the editor made of it.
proof fn lemma_tabled(d: DocView, outcome: Result<Effect, Fault>, what: Seq<char>)
    ensures
        match outcome {
            Ok(effect) => made(d, d.tabled(outcome, what), effect),
            Err(_) => declined(d, d.tabled(outcome, what)),
        },
{
    if let Ok(effect) = outcome {
        if valid_utf8(effect.bytes) {
            decode_utf8_encode_utf8(effect.bytes);
        }
    }
}

/// What a document becomes by a gesture that the editor takes or refuses.
pub open spec fn follows(d: DocView, f: DocView, outcome: Result<Effect, Fault>) -> bool {
    match outcome {
        Ok(effect) => made(d, f, effect),
        Err(_) => declined(d, f),
    }
}

/// Each table gesture asks the editor for that gesture at the caret, on the side that was
/// asked for, and leaves what the editor made of it.
pub proof fn law_a_table_gesture_is_the_editors(d: DocView, side: bool, alignment: Alignment)
    ensures
        follows(d, d.row_put(side), editor::row_inserted(d.setup, d.bytes, d.caret, side)),
        follows(d, d.row_dropped(), editor::row_deleted(d.setup, d.bytes, d.caret)),
        follows(d, d.column_put(side), editor::column_inserted(d.setup, d.bytes, d.caret, side)),
        follows(d, d.column_dropped(), editor::column_deleted(d.setup, d.bytes, d.caret)),
        follows(
            d,
            d.column_set(alignment),
            editor::column_aligned(d.setup, d.bytes, d.caret, alignment),
        ),
        follows(d, d.row_shifted(side), editor::row_moved(d.setup, d.bytes, d.caret, side)),
        side || crate::tables::in_a_column(d.nodes(), d.bytes, d.caret) ==> follows(
            d,
            d.column_shifted(side),
            editor::column_moved(d.setup, d.bytes, d.caret, side),
        ),
        !side && !crate::tables::in_a_column(d.nodes(), d.bytes, d.caret) ==> declined(
            d,
            d.column_shifted(side),
        ),
{
    lemma_tabled(d, editor::row_inserted(d.setup, d.bytes, d.caret, side), "table row"@);
    lemma_tabled(d, editor::row_deleted(d.setup, d.bytes, d.caret), "table row"@);
    lemma_tabled(d, editor::column_inserted(d.setup, d.bytes, d.caret, side), "table column"@);
    lemma_tabled(d, editor::column_deleted(d.setup, d.bytes, d.caret), "table column"@);
    lemma_tabled(
        d,
        editor::column_aligned(d.setup, d.bytes, d.caret, alignment),
        "table alignment"@,
    );
    lemma_tabled(d, editor::row_moved(d.setup, d.bytes, d.caret, side), "table row"@);
    lemma_tabled(d, d.column_move(side), "table column"@);
}

/// A block is made of the kind that was asked for: in a block the editor is asked for that
/// kind at the caret, and what it makes is the document.
pub proof fn law_a_block_is_made_of_its_kind(d: DocView, kind: BlockKind)
    requires
        d.has_block(d.caret),
    ensures
        match editor::block_set(d.setup, d.bytes, d.caret, kind) {
            Ok(Some(bytes)) => d.block_made(kind).bytes == bytes && d.block_made(kind).past.len() > 0
                && d.block_made(kind).past.last() == (d.bytes, d.blob()) && (valid_utf8(bytes)
                ==> encode_utf8(d.block_made(kind).source) == bytes) && d.block_made(kind).anchor
                is None,
            Ok(None) => d.block_made(kind).bytes == d.bytes && d.block_made(kind).past == d.past,
            Err(_) => declined(d, d.block_made(kind)),
        },
{
    assert(d.block_offset() == Some(d.caret));
    if let Ok(Some(bytes)) = editor::block_set(d.setup, d.bytes, d.caret, kind) {
        if valid_utf8(bytes) {
            decode_utf8_encode_utf8(bytes);
        }
    }
}

/// A heading toggled off is a paragraph; anything else becomes a heading of that level, one
/// of another level too.
pub proof fn law_a_heading_toggles_with_a_paragraph(d: DocView, level: u32)
    ensures
        outline::level_at(d.nodes(), d.caret) == Some(level) ==> d.heading_toggled(level)
            == d.block_made(BlockKind::Paragraph),
        outline::level_at(d.nodes(), d.caret) != Some(level) ==> d.heading_toggled(level)
            == d.block_made(BlockKind::Heading(level)),
{
}

/// The level at a place is that of the first heading that the place is in, its end included.
pub proof fn law_a_level_is_that_of_the_heading(nodes: Seq<NodeView>, off: int, i: int)
    requires
        0 <= i < nodes.len(),
        nodes[i].kind == Kind::Heading,
        nodes[i].span.start <= off <= nodes[i].span.end,
        forall|k: int|
            0 <= k < i ==> !((#[trigger] nodes[k]).kind == Kind::Heading && nodes[k].span.start <= off
                <= nodes[k].span.end),
    ensures
        outline::level_at(nodes, off) == nodes[i].level,
{
    lemma_heading_at(nodes, off, i, 0);
}

proof fn lemma_heading_at(nodes: Seq<NodeView>, off: int, i: int, from: int)
    requires
        0 <= from <= i < nodes.len(),
        nodes[i].kind == Kind::Heading,
        nodes[i].span.start <= off <= nodes[i].span.end,
        forall|k: int|
            0 <= k < i ==> !((#[trigger] nodes[k]).kind == Kind::Heading && nodes[k].span.start <= off
                <= nodes[k].span.end),
    ensures
        outline::heading_at(nodes, off, from) == Some(i),
    decreases i - from,
{
    if from < i {
        assert(!(nodes[from].kind == Kind::Heading && nodes[from].span.start <= off
            <= nodes[from].span.end));
        lemma_heading_at(nodes, off, i, from + 1);
    }
}

proof fn lemma_no_heading(nodes: Seq<NodeView>, off: int, from: int)
    requires
        0 <= from,
        forall|k: int|
            0 <= k < nodes.len() ==> !((#[trigger] nodes[k]).kind == Kind::Heading
                && nodes[k].span.start <= off <= nodes[k].span.end),
    ensures
        outline::heading_at(nodes, off, from) is None,
    decreases nodes.len() - from,
{
    if from < nodes.len() {
        assert(!(nodes[from].kind == Kind::Heading && nodes[from].span.start <= off
            <= nodes[from].span.end));
        lemma_no_heading(nodes, off, from + 1);
    }
}

/// No heading at a place, no level there.
pub proof fn law_no_heading_no_level(nodes: Seq<NodeView>, off: int)
    requires
        forall|k: int|
            0 <= k < nodes.len() ==> !((#[trigger] nodes[k]).kind == Kind::Heading
                && nodes[k].span.start <= off <= nodes[k].span.end),
    ensures
        outline::level_at(nodes, off) is None,
{
    lemma_no_heading(nodes, off, 0);
}

/// On an empty line a heading is begun by its signs: as many of them as its level, and a
/// space.
pub proof fn law_a_heading_is_begun_by_its_signs(d: DocView, level: u32, signs: Seq<char>)
    requires
        sound(d),
        unpicked(d),
        d.block_offset() is None,
        d.format == Format::Markdown || d.format == Format::Djot,
        signs.len() == level + 1,
        forall|k: int| 0 <= k < level ==> #[trigger] signs[k] == '#',
        signs[level as int] == ' ',
        takes(d, replaced(d.source, d.caret, d.caret, signs)),
        plainly(d, d.caret, d.caret, signs),
    ensures
        with_text(d, d.block_made(BlockKind::Heading(level)), d.caret, d.caret, signs),
{
    reveal_strlit(" ");
    assert(blocks::hashes(level as int) + " "@ =~= signs);
    let n = d.noted();
    lemma_picked(n, n.caret, n.caret);
    assert(n.runs(n.caret) == d.runs(d.caret));
    assert(n.fix_for(n.caret, n.caret, signs) == d.fix_for(d.caret, d.caret, signs));
    assert(d.block_made(BlockKind::Heading(level)) == n.typed(signs));
    lemma_with_text(
        n,
        d.block_made(BlockKind::Heading(level)),
        n.caret,
        n.caret,
        signs,
        edits::typed_kind(signs),
    );
}

/// Quoting and listing ask the editor for that container, of the selected range, or of the
/// block at the caret.
pub proof fn law_a_container_is_of_its_kind(d: DocView, s: int, e: int)
    requires
        d.valid(),
        aimed(d, s, e),
        picked(d, s, e) || d.has_block(d.caret),
    ensures
        follows(
            d,
            d.quoted(),
            editor::container_toggled(d.setup, d.bytes, s, e, BlockContainerKind::BlockQuote),
        ),
        follows(
            d,
            d.listed(true),
            editor::container_toggled(d.setup, d.bytes, s, e, BlockContainerKind::OrderedList),
        ),
        follows(
            d,
            d.listed(false),
            editor::container_toggled(d.setup, d.bytes, s, e, BlockContainerKind::BulletList),
        ),
{
    lemma_contained(d, s, e, BlockContainerKind::BlockQuote);
    lemma_contained(d, s, e, BlockContainerKind::OrderedList);
    lemma_contained(d, s, e, BlockContainerKind::BulletList);
}

proof fn lemma_contained(d: DocView, s: int, e: int, kind: BlockContainerKind)
    requires
        d.valid(),
        aimed(d, s, e),
        picked(d, s, e) || d.has_block(d.caret),
    ensures
        follows(
            d,
            d.contained(kind),
            editor::container_toggled(d.setup, d.bytes, s, e, kind),
        ),
{
    lemma_picked(d, s, e);
    assert(d.selected() is None ==> d.block_offset() == Some(d.caret));
    if let Ok(effect) = editor::container_toggled(d.setup, d.bytes, s, e, kind) {
        if valid_utf8(effect.bytes) {
            decode_utf8_encode_utf8(effect.bytes);
        }
    }
}

proof fn lemma_rules()
    ensures
        "\n\n---\n\n"@ == seq!['\n', '\n', '-', '-', '-', '\n', '\n'],
        "---\n\n"@ == seq!['-', '-', '-', '\n', '\n'],
{
    reveal_strlit("\n\n---\n\n");
    reveal_strlit("---\n\n");
    assert("\n\n---\n\n"@ =~= seq!['\n', '\n', '-', '-', '-', '\n', '\n']);
    assert("---\n\n"@ =~= seq!['-', '-', '-', '\n', '\n']);
}

/// A thematic break over a selection takes its place, in a paragraph of its own.
pub proof fn law_a_thematic_break_replaces_the_selection(d: DocView, s: int, e: int)
    requires
        sound(d),
        picked(d, s, e),
        d.runs(d.caret).len() == 0,
        d.has_block(d.caret),
        !outline::chain_has(d.chain(d.caret), Kind::CodeBlock),
        takes(d, replaced(d.source, s, e, seq!['\n', '\n', '-', '-', '-', '\n', '\n'])),
        plainly(d, s, e, seq!['\n', '\n', '-', '-', '-', '\n', '\n']),
    ensures
        with_text(d, d.ruled(), s, e, seq!['\n', '\n', '-', '-', '-', '\n', '\n']),
{
    let rule = seq!['\n', '\n', '-', '-', '-', '\n', '\n'];
    lemma_rules();
    lemma_picked(d, s, e);
    lemma_ruled(d, s, e, rule);
    lemma_with_text(d, d.ruled(), s, e, rule, EditKind::Other);
}

/// A thematic break at a caret stands in a paragraph of its own behind it; on a blank line no
/// break is needed before it.
pub proof fn law_a_thematic_break_stands_alone(d: DocView, rule: Seq<char>)
    requires
        sound(d),
        unpicked(d),
        d.runs(d.caret).len() == 0,
        d.has_block(d.caret),
        !outline::chain_has(d.chain(d.caret), Kind::CodeBlock),
        rule == (if text::all_space(
            text::slice(
                d.source,
                lines::bol(encode_utf8(d.source), d.caret),
                lines::eol(encode_utf8(d.source), d.caret),
            ),
        ) {
            seq!['-', '-', '-', '\n', '\n']
        } else {
            seq!['\n', '\n', '-', '-', '-', '\n', '\n']
        }),
        takes(d, replaced(d.source, d.caret, d.caret, rule)),
        plainly(d, d.caret, d.caret, rule),
    ensures
        with_text(d, d.ruled(), d.caret, d.caret, rule),
{
    lemma_rules();
    lemma_picked(d, d.caret, d.caret);
    lemma_ruled(d, d.caret, d.caret, rule);
    lemma_with_text(d, d.ruled(), d.caret, d.caret, rule, edits::typed_kind(rule));
}

proof fn lemma_ruled(d: DocView, s: int, e: int, rule: Seq<char>)
    requires
        d.target() == (s, e),
        d.selected() is Some ==> d.selected() == Some((s, e)),
        d.runs(d.caret).len() == 0,
        d.has_block(d.caret),
        !outline::chain_has(d.chain(d.caret), Kind::CodeBlock),
        rule == (if d.selected() is None && d.blank_line(d.caret) {
            "---\n\n"@
        } else {
            "\n\n---\n\n"@
        }),
    ensures
        d.selected() is Some ==> d.ruled() == d.spliced(s, e, rule, EditKind::Other),
        d.selected() is None ==> d.ruled() == d.spliced(s, e, rule, edits::typed_kind(rule)),
{
    assert(d.past_delims() == d);
    assert(d.block_or_caret() == d.caret);
}

/// In code a thematic break is refused, and the text stays.
pub proof fn law_no_thematic_break_in_code(d: DocView)
    requires
        d.runs(d.caret).len() == 0,
        d.has_block(d.caret),
        outline::chain_has(d.chain(d.caret), Kind::CodeBlock),
    ensures
        declined(d, d.ruled()),
{
    assert(d.past_delims() == d);
    assert(d.block_or_caret() == d.caret);
}

// ── links, media and code at the caret ─────────────────────────────────────────
/// A link, an image or a code block at a place is the one of its kind that starts last of
/// those that the place is in: of one inside another the inner one.
pub proof fn law_the_innermost_at_a_place_is_found(nodes: Seq<NodeView>, sought: Sought, off: int)
    ensures
        match outline::deepest_at(nodes, sought, off) {
            Some(i) => 0 <= i < nodes.len() && outline::stands_at(nodes[i], sought, off) && (
            forall|k: int|
                0 <= k < nodes.len() && outline::stands_at(#[trigger] nodes[k], sought, off)
                    ==> nodes[k].span.start <= nodes[i].span.start),
            None => forall|k: int|
                0 <= k < nodes.len() ==> !outline::stands_at(#[trigger] nodes[k], sought, off),
        },
    decreases nodes.len(),
{
    if nodes.len() > 0 {
        let head = nodes.drop_last();
        law_the_innermost_at_a_place_is_found(head, sought, off);
        assert forall|k: int| 0 <= k < head.len() implies head[k] == nodes[k] by {}
        assert(nodes.last() == nodes[nodes.len() - 1]);
        if let Some(b) = outline::deepest_at(head, sought, off) {
            assert(head[b] == nodes[b]);
        }
        assert forall|k: int|
            0 <= k < nodes.len() && outline::stands_at(
                #[trigger] nodes[k],
                sought,
                off,
            ) && k < nodes.len() - 1 implies outline::stands_at(head[k], sought, off) by {}
    }
}

/// What stands at a place: links by their first byte and not by the one behind them, and
/// code blocks by the one behind them too. Addresses and mail addresses count as links.
pub proof fn law_what_stands_at_a_place(n: NodeView, off: int)
    ensures
        outline::stands_at(n, Sought::Links, off) <==> (n.kind == Kind::Link || n.kind == Kind::Url
            || n.kind == Kind::Email) && n.span.start <= off < n.span.end,
        outline::stands_at(n, Sought::Link, off) <==> n.kind == Kind::Link && n.span.start <= off
            < n.span.end,
        outline::stands_at(n, Sought::Image, off) <==> n.kind == Kind::Image && n.span.start <= off
            < n.span.end,
        outline::stands_at(n, Sought::CodeBlock, off) <==> n.kind == Kind::CodeBlock && n.span.start
            <= off <= n.span.end,
{
}

/// The link at the caret leads where the innermost link there says, or for a bare address to
/// the address itself; the image there comes from where it says.
pub proof fn law_a_link_leads_where_it_says(d: DocView, i: int)
    requires
        0 <= i < d.nodes().len(),
    ensures
        outline::deepest_at(d.nodes(), Sought::Links, d.caret) == Some(i) ==> d.link_target() == (
        if d.nodes()[i].destination is Some {
            d.nodes()[i].destination
        } else {
            d.nodes()[i].text
        }),
        outline::deepest_at(d.nodes(), Sought::Image, d.caret) == Some(i) ==> d.image_target()
            == d.nodes()[i].destination,
        outline::deepest_at(d.nodes(), Sought::Links, d.caret) is None ==> d.link_target() is None,
        outline::deepest_at(d.nodes(), Sought::Image, d.caret) is None ==> d.image_target() is None,
{
}

/// A medium that is no image is spelt as an element of its name, with where it comes from and
/// with controls, around the selected text, or around the words given for it.
pub proof fn law_a_medium_is_spelt_as_an_element(
    d: DocView,
    kind: MediaKind,
    destination: Seq<char>,
    alt: Seq<char>,
    s: int,
    e: int,
)
    requires
        sound(d),
        aimed(d, s, e),
        kind != MediaKind::Image,
        ({
            let tag = if kind == MediaKind::Audio {
                seq!['a', 'u', 'd', 'i', 'o']
            } else {
                seq!['v', 'i', 'd', 'e', 'o']
            };
            let label = if picked(d, s, e) {
                text::slice(d.source, s, e)
            } else {
                alt
            };
            let markup = "<"@ + tag + " src=\""@ + destination + "\" controls>"@ + label + "</"@
                + tag + ">"@;
            takes(d, replaced(d.source, s, e, markup)) && plainly(d, s, e, markup)
        }),
    ensures
        ({
            let tag = if kind == MediaKind::Audio {
                seq!['a', 'u', 'd', 'i', 'o']
            } else {
                seq!['v', 'i', 'd', 'e', 'o']
            };
            let label = if picked(d, s, e) {
                text::slice(d.source, s, e)
            } else {
                alt
            };
            let markup = "<"@ + tag + " src=\""@ + destination + "\" controls>"@ + label + "</"@
                + tag + ">"@;
            with_text(d, d.with_medium(kind, destination, alt), s, e, markup)
        }),
{
    reveal_strlit("audio");
    reveal_strlit("video");
    reveal_strlit("<");
    assert("audio"@ =~= seq!['a', 'u', 'd', 'i', 'o']);
    assert("video"@ =~= seq!['v', 'i', 'd', 'e', 'o']);
    lemma_picked(d, s, e);
    let markup = d.media_markup(kind, destination, alt);
    assert(markup.len() > 0);
    assert(d.with_medium(kind, destination, alt) == d.spliced(s, e, markup, EditKind::Other));
    lemma_with_text(d, d.with_medium(kind, destination, alt), s, e, markup, EditKind::Other);
}

/// The language of a code block is the word behind its fence: setting it replaces that word
/// and nothing else, without the white space around what was given.
pub proof fn law_a_language_replaces_the_one_before(
    d: DocView,
    lang: Seq<char>,
    from: int,
    to: int,
)
    requires
        sound(d),
        d.code_info() == Some((from, to)),
        0 <= from <= to <= d.len(),
        text::boundary(d.source, from),
        text::boundary(d.source, to),
        text::trimmed(lang).len() > 0,
        takes(d, replaced(d.source, from, to, text::trimmed(lang))),
        plainly(d, from, to, text::trimmed(lang)),
    ensures
        with_text(d, d.with_language(lang), from, to, text::trimmed(lang)),
        d.code_language() == (if from < to {
            Some(text::slice(d.source, from, to))
        } else {
            None
        }),
{
    lemma_with_text(d, d.with_language(lang), from, to, text::trimmed(lang), EditKind::Other);
}

/// The word behind a fence is found without the blanks around it, on the fence's line; a bare
/// fence has an empty one, and what is no fence has none.
pub proof fn law_the_word_behind_a_fence(
    b: Seq<u8>,
    start: int,
    end: int,
    from: int,
    to: int,
    eol: int,
)
    requires
        0 <= start,
        start + 3 <= end <= from < to <= eol <= b.len(),
        b[start] == 0x60 || b[start] == 0x7e,
        forall|k: int| start <= k < end ==> #[trigger] b[k] == b[start],
        b[end] != b[start],
        forall|k: int| end <= k < from ==> #[trigger] b[k] == 0x20 || b[k] == 0x09 || b[k] == 0x0d,
        forall|k: int| to <= k < eol ==> #[trigger] b[k] == 0x20 || b[k] == 0x09 || b[k] == 0x0d,
        !inlines::is_gap(b[from]),
        !inlines::is_gap(b[to - 1]),
        forall|k: int| end <= k < eol ==> #[trigger] b[k] != 10,
        eol < b.len() ==> b[eol] == 10,
    ensures
        inlines::info_span(b, start) == Some((from, to)),
{
    lemma_fence(b, start, end, b[start]);
    lemma_eol_at(b, end, eol);
    lemma_blanks_upto(b, end, from, eol);
    lemma_blanks_downto(b, eol, to, end);
}

proof fn lemma_fence(b: Seq<u8>, i: int, end: int, fence: u8)
    requires
        0 <= i <= end < b.len(),
        forall|k: int| i <= k < end ==> #[trigger] b[k] == fence,
        b[end] != fence,
    ensures
        inlines::fence_end(b, i, fence) == end,
    decreases end - i,
{
    if i < end {
        lemma_fence(b, i + 1, end, fence);
    }
}

proof fn lemma_eol_at(b: Seq<u8>, i: int, eol: int)
    requires
        0 <= i <= eol <= b.len(),
        forall|k: int| i <= k < eol ==> #[trigger] b[k] != 10,
        eol < b.len() ==> b[eol] == 10,
    ensures
        lines::eol(b, i) == eol,
    decreases eol - i,
{
    if i < eol {
        lemma_eol_at(b, i + 1, eol);
    }
}

proof fn lemma_blanks_upto(b: Seq<u8>, i: int, from: int, to: int)
    requires
        0 <= i <= from < to <= b.len(),
        forall|k: int| i <= k < from ==> #[trigger] b[k] == 0x20 || b[k] == 0x09 || b[k] == 0x0d,
        !inlines::is_gap(b[from]),
    ensures
        inlines::blanks_upto(b, i, to) == from,
    decreases from - i,
{
    if i < from {
        assert(inlines::is_gap(b[i]));
        lemma_blanks_upto(b, i + 1, from, to);
    }
}

proof fn lemma_blanks_downto(b: Seq<u8>, i: int, to: int, from: int)
    requires
        from < to <= i <= b.len(),
        0 <= from,
        forall|k: int| to <= k < i ==> #[trigger] b[k] == 0x20 || b[k] == 0x09 || b[k] == 0x0d,
        !inlines::is_gap(b[to - 1]),
    ensures
        inlines::blanks_downto(b, i, from) == to,
    decreases i - to,
{
    if i > to {
        assert(inlines::is_gap(b[i - 1]));
        lemma_blanks_downto(b, i - 1, to, from);
    }
}

/// A copy publishes the selected text and no other, rendered by its format; part of one block
/// without the paragraph around it.
pub proof fn law_a_copy_publishes_what_is_selected(d: DocView, s: int, e: int)
    requires
        d.valid(),
        picked(d, s, e),
    ensures
        html::published(html::rendered(text::slice(d.source, s, e), d.format)) is None
            ==> d.rich_copy() is None,
        html::published(html::rendered(text::slice(d.source, s, e), d.format)) matches Some(page)
            ==> d.rich_copy() == Some(
            if d.within_block(s, e) {
                html::lone_paragraph(page)
            } else {
                page
            },
        ),
{
    lemma_picked(d, s, e);
}

/// Nothing selected, nothing copied.
pub proof fn law_nothing_selected_nothing_copied(d: DocView)
    requires
        unpicked(d),
    ensures
        d.rich_copy() is None,
{
}

/// Tab and return in a table go to the cell that they lead to, and change no text; outside
/// a table they do nothing.
pub proof fn law_a_key_in_a_table_goes_to_a_cell(d: DocView, forward: bool)
    ensures
        !outline::chain_has(d.chain(d.caret), Kind::Table) ==> d.tabbed(forward) == d
            && d.returned() == d,
        outline::chain_has(d.chain(d.caret), Kind::Table) && d.hop(forward) is Some ==> d.tabbed(
            forward,
        ).source == d.source && d.tabbed(forward) == d.with_cell(d.hop(forward)->0),
        outline::chain_has(d.chain(d.caret), Kind::Table) && d.hop_vertical(true) is Some
            ==> d.returned().source == d.source && d.returned() == d.with_cell(
            d.hop_vertical(true)->0,
        ),
        outline::chain_has(d.chain(d.caret), Kind::Table) && d.hop(false) is None ==> d.tabbed(false)
            == d,
{
}

} // verus!

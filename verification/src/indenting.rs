//! What indenting and outdenting do to lines.

use vstd::prelude::*;
use vstd::utf8::*;
use crate::indent;
use crate::lines;
use crate::lists;
use crate::text;

verus! {

/// An indented line that opens no list item goes in by two spaces, alone or with words on it.
pub proof fn law_a_plain_line_goes_in_by_two(line: Seq<char>, alone: bool, first: bool)
    requires
        lists::marker_at(encode_utf8(line), 0) is None,
        alone || !text::all_space(line),
    ensures
        indent::reindented(line, true, alone, first) == seq![' ', ' '] + line,
{
    assert(indent::spaces(2) =~= seq![' ', ' ']);
}

/// An indented item goes in by the width of its marker, under the text of the item above; the
/// first item of a list, which has none above, stays.
pub proof fn law_an_item_goes_in_under_its_sibling(
    line: Seq<char>,
    alone: bool,
    first: bool,
    sign: int,
    end: int,
)
    requires
        lists::marker_at(encode_utf8(line), 0) is Some,
        ({
            let m = lists::marker_at(encode_utf8(line), 0)->0;
            m.0 == sign && m.1 == end
        }),
        0 <= sign <= end,
        !text::all_space(line),
    ensures
        first ==> indent::reindented(line, true, alone, first) == line,
        !first ==> indent::reindented(line, true, alone, first).len() == line.len() + (end - sign),
        !first ==> indent::reindented(line, true, alone, first).skip(end - sign) == line,
        !first ==> forall|k: int|
            0 <= k < end - sign ==> #[trigger] indent::reindented(line, true, alone, first)[k]
                == ' ',
{
    let after = indent::spaces(end - sign) + line;
    assert(after.skip(end - sign) =~= line);
}

/// A blank line among others is not indented.
pub proof fn law_a_blank_line_among_others_stays(line: Seq<char>, first: bool)
    requires
        text::all_space(line),
    ensures
        indent::reindented(line, true, false, first) == line,
{
}

/// An outdent takes spaces or a tab off the head of a line and nothing else, and takes some
/// where there are some.
pub proof fn law_an_outdent_takes_only_white_space(line: Seq<char>, alone: bool, first: bool)
    requires
        0 < lists::unit_of(encode_utf8(line)),
    ensures
        ({
            let b = encode_utf8(line);
            let after = indent::reindented(line, false, alone, first);
            let n = line.len() - after.len();
            &&& 0 <= n
            &&& after == line.skip(n)
            &&& forall|k: int| 0 <= k < n ==> #[trigger] b[k] == 0x20 || b[k] == 0x09
            &&& n == 0 ==> b.len() == 0 || (b[0] != 0x20 && b[0] != 0x09)
        }),
{
    let b = encode_utf8(line);
    let unit = lists::unit_of(b);
    let n = lists::outdent_of(b, unit);
    lists::lemma_leading_spaces(b, unit);
    indent::lemma_skip_ascii(line, n);
}

/// An indent rewrites whole lines: from the start of the line that the selection starts in to
/// the end of the one that it ends in, and afterwards those lines are selected. Without a
/// selection it rewrites the caret's line and selects nothing.
pub proof fn law_an_indent_is_of_whole_lines(
    source: Seq<char>,
    selection: Option<(int, int)>,
    caret: int,
    add: bool,
    first_items: Seq<bool>,
)
    requires
        selection matches Some((s, e)) ==> 0 <= s <= e <= text::byte_len(source),
        selection is None ==> 0 <= caret <= text::byte_len(source),
    ensures
        indent::reindent_of(source, selection, caret, add, first_items) matches Some(r) ==> {
            let b = encode_utf8(source);
            let (s, e) = match selection {
                Some(range) => range,
                None => (caret, caret),
            };
            &&& 0 <= r.start <= s && e <= r.end <= b.len()
            &&& r.start == 0 || b[r.start - 1] == 0x0a
            &&& r.end == b.len() || b[r.end] == 0x0a
            &&& forall|k: int| r.start <= k < s ==> #[trigger] b[k] != 0x0a
            &&& forall|k: int| e <= k < r.end ==> #[trigger] b[k] != 0x0a
            &&& selection is Some ==> r.anchor == Some(r.start) && r.caret == r.start
                + text::byte_len(r.text)
            &&& selection is None ==> r.anchor is None
        },
{
    let b = encode_utf8(source);
    let (s, e) = match selection {
        Some(range) => range,
        None => (caret, caret),
    };
    lines::lemma_bol(b, s);
    lines::lemma_eol(b, e);
}

/// An indent rewrites each line by itself: there are as many lines as before, and each is the
/// line that stood there, indented or outdented.
pub proof fn law_each_line_is_indented(
    ls: Seq<Seq<char>>,
    add: bool,
    first_items: Seq<bool>,
    i: int,
)
    requires
        0 <= i < ls.len(),
        ls.len() > 1,
        i < first_items.len(),
    ensures
        indent::all_reindented(ls, add, first_items).len() == ls.len(),
        indent::all_reindented(ls, add, first_items)[i] == indent::reindented(
            ls[i],
            add,
            false,
            first_items[i],
        ),
{
}

} // verus!

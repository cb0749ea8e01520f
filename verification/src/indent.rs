//! Indenting and outdenting whole lines.

use vstd::prelude::*;
use vstd::utf8::*;
use crate::lines;
use crate::lists;
use crate::text;

verus! {

/// The lines of a text: what stands between its newlines.
pub open spec fn lines_of(s: Seq<char>) -> Seq<Seq<char>>
    decreases s.len(),
{
    let end = text::seek(s, 0, '\n');
    if end >= s.len() || end < 0 {
        seq![s]
    } else {
        seq![s.take(end)] + lines_of(s.skip(end + 1))
    }
}

/// Lines put together with newlines between them.
pub open spec fn joined(ls: Seq<Seq<char>>) -> Seq<char>
    decreases ls.len(),
{
    if ls.len() == 0 {
        Seq::empty()
    } else if ls.len() == 1 {
        ls[0]
    } else {
        joined(ls.drop_last()).push('\n') + ls.last()
    }
}

/// `n` spaces.
pub open spec fn spaces(n: int) -> Seq<char> {
    Seq::new(n as nat, |k: int| ' ')
}

/// A line indented by one level, or with one level taken off. A blank line among others
/// is not indented, nor is the first item of a list, which has no sibling to nest under.
pub open spec fn reindented(line: Seq<char>, add: bool, alone: bool, first_item: bool) -> Seq<
    char,
> {
    let b = encode_utf8(line);
    if add {
        if (!alone && text::all_space(line)) || (lists::marker_at(b, 0) is Some && first_item) {
            line
        } else {
            spaces(lists::unit_of(b)) + line
        }
    } else {
        line.skip(lists::outdent_of(b, lists::unit_of(b)))
    }
}

/// Whether the line `i` is the first item of its list.
pub open spec fn is_first(first_items: Seq<bool>, i: int) -> bool {
    0 <= i < first_items.len() && first_items[i]
}

/// All of some lines, indented or outdented.
pub open spec fn all_reindented(ls: Seq<Seq<char>>, add: bool, first_items: Seq<bool>) -> Seq<
    Seq<char>,
> {
    Seq::new(
        ls.len(),
        |i: int| reindented(ls[i], add, ls.len() == 1, is_first(first_items, i)),
    )
}

/// Where an offset goes when each line is rewritten: it keeps its place within its line,
/// moved as far as the line's text was. `was` and `now` are where the line `i` starts.
pub open spec fn remapped(
    before: Seq<Seq<char>>,
    after: Seq<Seq<char>>,
    off: int,
    i: int,
    was: int,
    now: int,
) -> int
    decreases before.len() - i,
{
    if i >= before.len() {
        now - 1
    } else {
        let old_len = text::byte_len(before[i]);
        let new_len = text::byte_len(after[i]);
        if off <= was + old_len {
            let moved = off - was + new_len - old_len;
            now + (if moved < 0 {
                0
            } else if moved > new_len {
                new_len
            } else {
                moved
            })
        } else {
            remapped(before, after, off, i + 1, was + old_len + 1, now + new_len + 1)
        }
    }
}

/// The rewriting that an indent or an outdent asks for.
pub struct Reindent {
    /// The bytes to replace: whole lines.
    pub start: usize,
    pub end: usize,
    /// What to replace them with.
    pub text: String,
    /// Where the caret and the anchor belong afterwards.
    pub caret: usize,
    pub anchor: Option<usize>,
}

/// What a [`Reindent`] says.
pub struct ReindentView {
    pub start: int,
    pub end: int,
    pub text: Seq<char>,
    pub caret: int,
    pub anchor: Option<int>,
}

impl View for Reindent {
    type V = ReindentView;

    open spec fn view(&self) -> ReindentView {
        ReindentView {
            start: self.start as int,
            end: self.end as int,
            text: self.text@,
            caret: self.caret as int,
            anchor: match self.anchor {
                Some(a) => Some(a as int),
                None => None,
            },
        }
    }
}

/// The rewriting of the lines that a selection touches, or of the caret's line. A
/// selection leaves the rewritten lines selected; without one, the caret keeps its place
/// within its line. `None` where no line changes, or the result would pass what a machine
/// word can count.
pub open spec fn reindent_of(
    source: Seq<char>,
    selection: Option<(int, int)>,
    caret: int,
    add: bool,
    first_items: Seq<bool>,
) -> Option<ReindentView> {
    let b = encode_utf8(source);
    let (from, to) = match selection {
        Some(range) => range,
        None => (caret, caret),
    };
    let start = lines::bol(b, from);
    let end = lines::eol(b, to);
    let before = lines_of(text::slice(source, start, end));
    let after = all_reindented(before, add, first_items);
    let out = joined(after);
    if before == after || start + text::byte_len(out) > usize::MAX {
        None
    } else {
        Some(
            ReindentView {
                start,
                end,
                text: out,
                caret: match selection {
                    Some(_) => start + text::byte_len(out),
                    None => remapped(before, after, caret, 0, start, start),
                },
                anchor: match selection {
                    Some(_) => Some(start),
                    None => None,
                },
            },
        )
    }
}

/// Taking ASCII bytes off the head of a line takes as many characters off it.
pub proof fn lemma_skip_ascii(s: Seq<char>, n: int)
    requires
        0 <= n <= text::byte_len(s),
        forall|k: int| 0 <= k < n ==> encode_utf8(s)[k] < 0x80,
    ensures
        n <= s.len(),
        text::byte_len(s.skip(n)) == text::byte_len(s) - n,
        text::offset_of(s, n) == n,
    decreases n,
{
    if n == 0 {
        assert(s.skip(0) =~= s);
        assert(s.take(0) =~= Seq::<char>::empty());
    } else {
        lemma_skip_ascii(s, n - 1);
        assert(s.len() > n - 1) by {
            if s.len() == n - 1 {
                assert(s.skip(n - 1) =~= Seq::<char>::empty());
            }
        }
        let rest = s.skip(n - 1);
        text::lemma_offset_of(s, n - 1);
        text::lemma_cut(s, n - 1);
        let b = encode_utf8(s);
        assert(encode_utf8(rest)[0] == b[n - 1]) by {
            text::lemma_boundary_ends(s);
            text::lemma_slice(s, n - 1, text::byte_len(s));
        }
        encode_utf8_first_scalar(rest);
        assert(encode_scalar(rest[0] as u32).len() == 1) by {
            assert(length_of_first_scalar(encode_utf8(rest)) == 1);
        }
        text::lemma_next_offset(s, n - 1);
        assert(s[n - 1] == rest[0]);
        text::lemma_offset_of(s, n);
        text::lemma_cut(s, n);
    }
}

/// The first bytes that an outdent takes are ASCII.
proof fn lemma_outdent_ascii(b: Seq<u8>, unit: int)
    requires
        unit >= 0,
    ensures
        0 <= lists::outdent_of(b, unit) <= b.len(),
        forall|k: int| 0 <= k < lists::outdent_of(b, unit) ==> b[k] < 0x80,
{
    lists::lemma_leading_spaces(b, unit);
}

/// A text has a line, and its lines put together are the text.
pub proof fn law_lines_join(s: Seq<char>)
    ensures
        lines_of(s).len() >= 1,
        joined(lines_of(s)) == s,
    decreases s.len(),
{
    text::lemma_seek(s, 0, '\n');
    let end = text::seek(s, 0, '\n');
    if end < s.len() {
        let rest = s.skip(end + 1);
        law_lines_join(rest);
        lemma_joined_cons(s.take(end), lines_of(rest));
        assert(s =~= s.take(end).push('\n') + rest);
    }
}

/// A line put before others.
proof fn lemma_joined_cons(first: Seq<char>, ls: Seq<Seq<char>>)
    requires
        ls.len() >= 1,
    ensures
        joined(seq![first] + ls) == first.push('\n') + joined(ls),
    decreases ls.len(),
{
    let all = seq![first] + ls;
    assert(all.last() == ls.last());
    assert(all.drop_last() =~= seq![first] + ls.drop_last());
    if ls.len() == 1 {
        reveal_with_fuel(joined, 2);
        assert(all.drop_last() =~= seq![first]);
        assert(joined(all) =~= first.push('\n') + ls[0]);
    } else {
        lemma_joined_cons(first, ls.drop_last());
        assert(joined(all) =~= first.push('\n') + joined(ls));
    }
}

/// The lines of a text.
pub fn split_lines(s: &str) -> (r: Vec<String>)
    ensures
        views(r@) == lines_of(s@),
        r@.len() >= 1,
{
    let chars = text::chars_of(s);
    let mut out: Vec<String> = Vec::new();
    let mut from: usize = 0;
    assert(chars@.skip(0) =~= chars@);
    assert(views(out@) + lines_of(s@) =~= lines_of(s@));
    loop
        invariant
            from <= chars@.len(),
            chars@ == s@,
            views(out@) + lines_of(chars@.skip(from as int)) == lines_of(s@),
        decreases chars@.len() - from,
    {
        let end = text::find_char(chars.as_slice(), from, '\n');
        let ghost rest = chars@.skip(from as int);
        let ghost so_far = views(out@);
        let line = text::string_of(chars.as_slice(), from, end);
        proof {
            lemma_seek_skip(chars@, from as int, from as int);
        }
        if end >= chars.len() {
            assert(line@ =~= rest);
            out.push(line);
            assert(views(out@) =~= so_far + seq![rest]);
            proof {
                law_lines_join(s@);
            }
            return out;
        }
        proof {
            assert(line@ =~= rest.take(end - from));
            assert(chars@.skip(end + 1) =~= rest.skip(end - from + 1));
        }
        out.push(line);
        assert(views(out@) + lines_of(chars@.skip(end + 1)) =~= so_far + (seq![line@] + lines_of(
            chars@.skip(end + 1),
        ))) by {
            assert(views(out@) =~= so_far.push(line@));
        }
        from = end + 1;
    }
}

/// A character sought in the rest of a text, or in the whole.
proof fn lemma_seek_skip(s: Seq<char>, from: int, at: int)
    requires
        0 <= from <= at <= s.len(),
    ensures
        text::seek(s.skip(from), at - from, '\n') == text::seek(s, at, '\n') - from,
    decreases s.len() - at,
{
    if at < s.len() && s[at] != '\n' {
        lemma_seek_skip(s, from, at + 1);
    }
}

/// The views of some strings.
pub open spec fn views(strings: Seq<String>) -> Seq<Seq<char>> {
    Seq::new(strings.len(), |i: int| strings[i]@)
}

/// A line indented by one level, or with one level taken off.
fn reindent_line(line: &str, add: bool, alone: bool, first_item: bool) -> (r: String)
    ensures
        r@ == reindented(line@, add, alone, first_item),
{
    let chars = text::chars_of(line);
    let unit = lists::indent_unit(line);
    if add {
        if (!alone && text::is_blank(line)) || (lists::list_marker_width(line).is_some()
            && first_item) {
            return line.to_owned();
        }
        let mut out: Vec<char> = Vec::new();
        while out.len() < unit
            invariant
                out@.len() <= unit,
                out@ =~= spaces(out@.len() as int),
            decreases unit - out@.len(),
        {
            out.push(' ');
        }
        text::append_chars(&mut out, chars.as_slice(), 0, chars.len());
        assert(chars@.subrange(0, chars@.len() as int) =~= chars@);
        text::string_of(out.as_slice(), 0, out.len())
    } else {
        let strip = lists::outdent_width(line, unit);
        proof {
            lemma_outdent_ascii(encode_utf8(line@), unit as int);
            lemma_skip_ascii(line@, strip as int);
            assert(chars@.subrange(strip as int, chars@.len() as int) =~= line@.skip(
                strip as int,
            ));
        }
        text::string_of(chars.as_slice(), strip, chars.len())
    }
}

/// How long some of the lines are, each with a newline after it.
pub open spec fn lines_len(ls: Seq<Seq<char>>, n: int) -> int
    decreases n,
{
    if n <= 0 {
        0
    } else {
        lines_len(ls, n - 1) + text::byte_len(ls[n - 1]) + 1
    }
}

/// More lines are no shorter.
pub proof fn lemma_lines_len_grows(ls: Seq<Seq<char>>, n: int, m: int)
    requires
        0 <= n <= m <= ls.len(),
    ensures
        lines_len(ls, n) <= lines_len(ls, m),
        0 <= lines_len(ls, n),
    decreases m,
{
    if n < m {
        lemma_lines_len_grows(ls, n, m - 1);
    } else if n > 0 {
        lemma_lines_len_grows(ls, n - 1, m - 1);
    }
}

/// The length of lines put together.
pub proof fn lemma_joined_len(ls: Seq<Seq<char>>)
    requires
        ls.len() >= 1,
    ensures
        text::byte_len(joined(ls)) == lines_len(ls, ls.len() as int) - 1,
    decreases ls.len(),
{
    if ls.len() == 1 {
        reveal_with_fuel(lines_len, 2);
    } else {
        let head = ls.drop_last();
        lemma_joined_len(head);
        lemma_lines_len_prefix(head, ls, head.len() as int);
        let with = joined(head).push('\n');
        assert(with =~= joined(head) + seq!['\n']);
        text::lemma_encode_concat(joined(head), seq!['\n']);
        text::lemma_encode_concat(with, ls.last());
        assert(text::byte_len(seq!['\n']) == 1) by {
            assert(is_ascii_chars(seq!['\n']));
            is_ascii_chars_encode_utf8(seq!['\n']);
        }
    }
}

proof fn lemma_lines_len_prefix(head: Seq<Seq<char>>, ls: Seq<Seq<char>>, n: int)
    requires
        0 <= n <= head.len() <= ls.len(),
        forall|i: int| 0 <= i < head.len() ==> head[i] == ls[i],
    ensures
        lines_len(head, n) == lines_len(ls, n),
    decreases n,
{
    if n > 0 {
        lemma_lines_len_prefix(head, ls, n - 1);
    }
}

/// The rewriting that an indent (`add`) or an outdent asks for, over the lines that the
/// selection touches or the caret's line. `first_items` says of each of those lines
/// whether it is the first item of a list. One replacement across the whole line range,
/// never one per line.
pub fn plan_reindent(
    source: &str,
    selection: Option<(usize, usize)>,
    caret: usize,
    add: bool,
    first_items: &Vec<bool>,
) -> (r: Option<Reindent>)
    requires
        caret <= text::byte_len(source@),
        selection matches Some(range) ==> range.0 <= range.1 <= text::byte_len(source@),
    ensures
        match r {
            Some(plan) => reindent_of(
                source@,
                match selection {
                    Some(range) => Some((range.0 as int, range.1 as int)),
                    None => None,
                },
                caret as int,
                add,
                first_items@,
            ) == Some(plan@) && plan.start <= plan.end <= text::byte_len(source@) && text::boundary(
                source@,
                plan.start as int,
            ) && text::boundary(source@, plan.end as int),
            None => reindent_of(
                source@,
                match selection {
                    Some(range) => Some((range.0 as int, range.1 as int)),
                    None => None,
                },
                caret as int,
                add,
                first_items@,
            ) is None,
        },
{
    let (from, to): (usize, usize) = match selection {
        Some(range) => range,
        None => (caret, caret),
    };
    let start = lines::start_of_line(source, from);
    let end = lines::line_end_from(source, to);
    proof {
        lines::lemma_bol(encode_utf8(source@), from as int);
        lines::lemma_eol(encode_utf8(source@), to as int);
    }
    let region = text::substr(source, start, end);
    let before = split_lines(region);
    let ghost old_lines = views(before@);
    let ghost new_lines = all_reindented(old_lines, add, first_items@);
    let alone = before.len() == 1;
    let mut out: Vec<char> = Vec::new();
    let mut after: Vec<String> = Vec::new();
    let mut changed = false;
    let mut i: usize = 0;
    while i < before.len()
        invariant
            i <= before@.len(),
            old_lines == views(before@),
            new_lines == all_reindented(old_lines, add, first_items@),
            alone == (before@.len() == 1),
            views(after@) == new_lines.take(i as int),
            out@ == joined(new_lines.take(i as int)),
            changed <==> exists|k: int| 0 <= k < i && #[trigger] old_lines[k] != new_lines[k],
        decreases before@.len() - i,
    {
        let first = i < first_items.len() && first_items[i];
        let line = before[i].as_str();
        let new = reindent_line(line, add, alone, first);
        assert(old_lines[i as int] == line@);
        assert(new@ == new_lines[i as int]);
        assert(new_lines.take(i + 1).drop_last() =~= new_lines.take(i as int));
        assert(new_lines.take(i + 1).last() == new_lines[i as int]);
        if i > 0 {
            out.push('\n');
        }
        text::append_str(&mut out, new.as_str());
        assert(out@ =~= joined(new_lines.take(i + 1))) by {
            if i == 0 {
                assert(new_lines.take(1)[0] == new@);
            }
        }
        if !text::str_eq(line, new.as_str()) {
            changed = true;
            assert(old_lines[i as int] != new_lines[i as int]);
        }
        after.push(new);
        assert(views(after@) =~= new_lines.take(i + 1));
        i = i + 1;
    }
    assert(new_lines.take(i as int) =~= new_lines);
    if !changed {
        assert(old_lines =~= new_lines) by {
            assert forall|k: int| 0 <= k < old_lines.len() implies old_lines[k] == new_lines[k] by {
            }
        }
        return None;
    }
    let text_out = text::string_of(out.as_slice(), 0, out.len());
    assert(text_out@ =~= joined(new_lines));
    let out_len = text::len(text_out.as_str());
    if out_len > usize::MAX - start {
        return None;
    }
    let caret_to: usize = match selection {
        Some(_) => start + out_len,
        None => remap(&before, &after, caret, start, out_len),
    };
    Some(
        Reindent {
            start,
            end,
            text: text_out,
            caret: caret_to,
            anchor: match selection {
                Some(_) => Some(start),
                None => None,
            },
        },
    )
}

/// Where the caret goes when each line is rewritten.
fn remap(before: &Vec<String>, after: &Vec<String>, off: usize, start: usize, out_len: usize) -> (r:
    usize)
    requires
        before@.len() == after@.len(),
        before@.len() >= 1,
        start <= off,
        out_len == text::byte_len(joined(views(after@))),
        start + out_len <= usize::MAX,
    ensures
        r == remapped(
            views(before@),
            views(after@),
            off as int,
            0,
            start as int,
            start as int,
        ),
{
    let ghost old_lines = views(before@);
    let ghost new_lines = views(after@);
    let mut col: usize = off - start;
    let mut now: usize = start;
    let mut i: usize = 0;
    proof {
        lemma_joined_len(new_lines);
    }
    while i < before.len()
        invariant
            i <= before@.len() == after@.len(),
            old_lines == views(before@),
            new_lines == views(after@),
            before@.len() >= 1,
            start + lines_len(new_lines, new_lines.len() as int) - 1 <= usize::MAX,
            i < before@.len() ==> now == start + lines_len(new_lines, i as int),
            i == before@.len() ==> now + 1 == start + lines_len(new_lines, i as int),
            remapped(old_lines, new_lines, off as int, 0, start as int, start as int) == (if i
                < before@.len() {
                remapped(
                    old_lines,
                    new_lines,
                    off as int,
                    i as int,
                    off - col,
                    now as int,
                )
            } else {
                now as int
            }),
        decreases before@.len() - i,
    {
        let old_len = text::len(before[i].as_str());
        let new_len = text::len(after[i].as_str());
        proof {
            lemma_lines_len_grows(new_lines, i + 1, new_lines.len() as int);
            assert(lines_len(new_lines, i + 1) == lines_len(new_lines, i as int) + text::byte_len(
                new_lines[i as int],
            ) + 1);
            if i + 1 < new_lines.len() {
                lemma_lines_len_grows(new_lines, i + 2, new_lines.len() as int);
                assert(lines_len(new_lines, i + 2) > lines_len(new_lines, i + 1));
            }
            assert(old_lines[i as int] == before@[i as int]@);
            assert(new_lines[i as int] == after@[i as int]@);
        }
        if col <= old_len {
            let tail: usize = old_len - col;
            let inside: usize = if tail >= new_len {
                0
            } else {
                new_len - tail
            };
            return now + inside;
        }
        proof {
            let was = off - col + old_len + 1;
            let next = now + new_len + 1;
            assert(remapped(old_lines, new_lines, off as int, i as int, off - col, now as int)
                == remapped(old_lines, new_lines, off as int, i + 1, was, next));
            if i + 1 == before@.len() {
                assert(remapped(old_lines, new_lines, off as int, i + 1, was, next) == next - 1);
            }
        }
        col = col - old_len - 1;
        now = if i + 1 < before.len() {
            now + new_len + 1
        } else {
            now + new_len
        };
        i = i + 1;
    }
    now
}

} // verus!

//! What clipboard HTML becomes on its way into a document.

use vstd::prelude::*;
use vstd::utf8::*;
use crate::format::Format;
use crate::html;
use crate::html::{OwedView, TagView};
use crate::text;

verus! {

/// A character is found where it stands, if it stands nowhere before.
proof fn lemma_found(s: Seq<char>, from: int, at: int, c: char)
    requires
        0 <= from <= at <= s.len(),
        forall|k: int| from <= k < at ==> s[k] != c,
        at < s.len() ==> s[at] == c,
    ensures
        text::seek(s, from, c) == at,
    decreases at - from,
{
    if from < at {
        lemma_found(s, from + 1, at, c);
    }
}

/// A name ends where its characters do.
proof fn lemma_name(s: Seq<char>, from: int, to: int)
    requires
        0 <= from <= to <= s.len(),
        forall|k: int| from <= k < to ==> html::name_char(#[trigger] s[k]),
        to < s.len() ==> !html::name_char(s[to]),
    ensures
        html::name_end(s, from) == to,
    decreases to - from,
{
    if from < to {
        lemma_name(s, from + 1, to);
    }
}

/// Without quotes a tag ends at its first `>`.
proof fn lemma_unquoted(s: Seq<char>, from: int, gt: int)
    requires
        0 <= from <= gt < s.len(),
        s[gt] == '>',
        forall|k: int| from <= k < gt ==> s[k] != '>' && s[k] != '"' && s[k] != '\'',
    ensures
        html::tag_close(s, from, None) == gt,
    decreases gt - from,
{
    if from < gt {
        lemma_unquoted(s, from + 1, gt);
    }
}

/// In quotes a `>` ends no tag: it ends at the first one behind the quote that closes.
proof fn lemma_quoted(s: Seq<char>, from: int, shut: int, q: char)
    requires
        0 <= from <= shut < s.len(),
        s[shut] == q,
        forall|k: int| from <= k < shut ==> s[k] != q,
    ensures
        html::tag_close(s, from, Some(q)) == html::tag_close(s, shut + 1, None),
    decreases shut - from,
{
    if from < shut {
        lemma_quoted(s, from + 1, shut, q);
    }
}

/// Where a tag ends is read alike in the inside of the tag and in the whole text.
proof fn lemma_close_within(s: Seq<char>, to: int, inside: Seq<char>, i: int, quote: Option<char>)
    requires
        0 <= to,
        0 <= i <= inside.len(),
        to + inside.len() <= s.len(),
        forall|k: int| 0 <= k < inside.len() ==> #[trigger] s[to + k] == inside[k],
        html::tag_close(inside, i, quote) < inside.len(),
    ensures
        html::tag_close(s, to + i, quote) == to + html::tag_close(inside, i, quote),
    decreases inside.len() - i,
{
    if i < inside.len() {
        assert(s[to + i] == inside[i]);
        match quote {
            Some(q) => {
                lemma_close_within(
                    s,
                    to,
                    inside,
                    i + 1,
                    if inside[i] == q {
                        None
                    } else {
                        quote
                    },
                );
            },
            None => {
                if inside[i] == '"' || inside[i] == '\'' {
                    lemma_close_within(s, to, inside, i + 1, Some(inside[i]));
                } else if inside[i] != '>' {
                    lemma_close_within(s, to, inside, i + 1, None);
                }
            },
        }
    }
}

/// A tag is read as it is written: the name up to the first character that is no letter, no
/// digit and none of `:-_`, in small letters, and what stands between it and the `>`. A `/`
/// in front of the name makes it a closing tag.
pub proof fn law_a_tag_is_read(s: Seq<char>, lt: int, to: int, gt: int, close: bool)
    requires
        0 <= lt < s.len(),
        ({
            let from = if close {
                lt + 2
            } else {
                lt + 1
            };
            &&& from < to <= gt < s.len()
            &&& close ==> s[lt + 1] == '/'
            &&& forall|k: int|
                from <= k < to ==> text::ascii_alphabetic(#[trigger] s[k]) || text::ascii_digit(
                    s[k],
                ) || s[k] == ':' || s[k] == '-' || s[k] == '_'
        }),
        !(text::ascii_alphabetic(s[to]) || text::ascii_digit(s[to]) || s[to] == ':' || s[to] == '-'
            || s[to] == '_'),
        forall|k: int| to <= k < gt ==> s[k] != '>' && s[k] != '"' && s[k] != '\'',
        s[gt] == '>',
    ensures
        ({
            let from = if close {
                lt + 2
            } else {
                lt + 1
            };
            html::tag_at(s, lt) matches Some(tag) && tag.name == text::lower(s.subrange(from, to))
                && tag.attrs == s.subrange(to, gt) && tag.close == close && tag.end == gt + 1
        }),
{
    let from = if close {
        lt + 2
    } else {
        lt + 1
    };
    assert(html::name_char(s[from]));
    lemma_name(s, from, to);
    lemma_unquoted(s, to, gt);
}

/// A `>` inside a quoted attribute ends no tag.
pub proof fn law_quotes_hold_a_tag_together(s: Seq<char>, open: int, shut: int, gt: int)
    requires
        0 <= open < shut < gt < s.len(),
        s[open] == '"' || s[open] == '\'',
        s[shut] == s[open],
        forall|k: int| open < k < shut ==> s[k] != s[open],
        forall|k: int| shut < k < gt ==> s[k] != '>' && s[k] != '"' && s[k] != '\'',
        s[gt] == '>',
    ensures
        html::tag_close(s, open, None) == gt,
{
    lemma_quoted(s, open + 1, shut, s[open]);
    lemma_unquoted(s, shut + 1, gt);
}

/// Whether a tag is one that pasting leaves alone: of none of the names that it drops or
/// rewrites.
pub open spec fn left_alone(tag: TagView) -> bool {
    let n = tag.name;
    &&& n != "meta"@ && n != "link"@ && n != "base"@
    &&& n != "script"@ && n != "style"@ && n != "head"@ && n != "title"@
    &&& n != "div"@ && n != "span"@
    &&& (n == "b"@ || n == "strong"@) ==> !html::unbolded(tag.attrs)
}

/// From a place on, a text whose tags are all left alone is rewritten to itself.
proof fn lemma_left_alone(s: Seq<char>, from: int, owed: Seq<OwedView>)
    requires
        0 <= from <= s.len(),
        forall|i: int| 0 <= i < owed.len() ==> (#[trigger] owed[i]).close is None,
        forall|lt: int|
            0 <= lt < s.len() && #[trigger] s[lt] == '<' ==> !(lt + 1 < s.len() && s[lt + 1] == '!')
                && (html::tag_at(s, lt) matches Some(tag) ==> left_alone(tag)),
    ensures
        html::rewrite_from(s, from, owed) == s.subrange(from, s.len() as int),
    decreases s.len() - from,
{
    if from >= s.len() {
        assert(s.subrange(from, s.len() as int) =~= Seq::empty());
    } else {
        let lt = text::seek(s, from, '<');
        text::lemma_seek(s, from, '<');
        if lt < s.len() {
            reveal_strlit("<!--");
            reveal_strlit("<!");
            assert(!text::occurs_at(s, lt, "<!--"@)) by {
                if text::occurs_at(s, lt, "<!--"@) {
                    assert(s.subrange(lt, lt + 4)[1] == '!');
                }
            }
            assert(!text::occurs_at(s, lt, "<!"@)) by {
                if text::occurs_at(s, lt, "<!"@) {
                    assert(s.subrange(lt, lt + 2)[1] == '!');
                }
            }
            assert(s[lt] == '<');
            html::lemma_tag_at(s, lt);
            html::lemma_markup_step(s, lt, owed);
            let step = html::markup_step(s, lt, owed);
            if let Some(tag) = html::tag_at(s, lt) {
                if tag.close {
                    lemma_innermost(owed, tag.name);
                }
            } else {
                assert(s.subrange(lt, lt + 1) =~= seq!['<']);
            }
            assert(step.out == s.subrange(lt, step.next));
            assert(forall|i: int| 0 <= i < step.owed.len() ==> (#[trigger] step.owed[i]).close is None);
            lemma_left_alone(s, step.next, step.owed);
            assert(s.subrange(from, lt) + s.subrange(lt, step.next) + s.subrange(
                step.next,
                s.len() as int,
            ) =~= s.subrange(from, s.len() as int));
        }
    }
}

proof fn lemma_innermost(owed: Seq<OwedView>, name: Seq<char>)
    ensures
        html::innermost(owed, name) matches Some(at) ==> 0 <= at < owed.len() && owed[at].name
            == name && (forall|k: int| at < k < owed.len() ==> (#[trigger] owed[k]).name != name),
        html::innermost(owed, name) is None ==> forall|k: int|
            0 <= k < owed.len() ==> (#[trigger] owed[k]).name != name,
    decreases owed.len(),
{
    if owed.len() > 0 && owed.last().name != name {
        lemma_innermost(owed.drop_last(), name);
        assert forall|k: int| 0 <= k < owed.len() - 1 implies #[trigger] owed[k]
            == owed.drop_last()[k] by {}
    }
}

/// Clipboard HTML keeps its tags, character for character: one whose tags are all of other
/// names than those that are dropped (`meta`, `link`, `base`, `script`, `style`, `head`,
/// `title`) or rewritten (`div`, `span`, a `b` or `strong` styled un-bold), and that has no
/// comment and no declaration, is its own rewriting.
pub proof fn law_other_tags_are_kept(s: Seq<char>)
    requires
        forall|lt: int|
            0 <= lt < s.len() && #[trigger] s[lt] == '<' ==> !(lt + 1 < s.len() && s[lt + 1] == '!')
                && (html::tag_at(s, lt) matches Some(tag) ==> left_alone(tag)),
    ensures
        html::sanitized(s) == s,
{
    lemma_left_alone(s, 0, Seq::empty());
    assert(s.subrange(0, s.len() as int) =~= s);
}

/// An element in a text: what stands before it, its name, the inside of its opening tag, its
/// content, and what stands behind it.
pub struct Element {
    pub before: Seq<char>,
    pub name: Seq<char>,
    pub attrs: Seq<char>,
    pub inner: Seq<char>,
    pub after: Seq<char>,
}

/// Whether a text has no markup in it.
pub open spec fn plain(s: Seq<char>) -> bool {
    forall|k: int| 0 <= k < s.len() ==> #[trigger] s[k] != '<'
}

impl Element {
    /// The element as HTML spells it.
    pub open spec fn spelt(self) -> Seq<char> {
        self.before + seq!['<'] + self.name + self.attrs + seq!['>'] + self.inner + seq!['<', '/']
            + self.name + seq!['>'] + self.after
    }

    /// Whether it is one: of a name in small letters, with attributes behind a space
    /// whose quotes close and that hold a `>` only in quotes, around plain text and in plain
    /// text.
    pub open spec fn wf(self) -> bool {
        &&& self.name.len() > 0
        &&& forall|k: int| 0 <= k < self.name.len() ==> 'a' <= #[trigger] self.name[k] <= 'z'
        &&& self.attrs.len() > 0 ==> self.attrs[0] == ' '
        &&& self.attrs.len() > 0 ==> self.attrs.last() != '/' && !text::whitespace(
            self.attrs.last(),
        )
        &&& html::tag_close(self.attrs + seq!['>'], 0, None) == self.attrs.len()
        &&& plain(self.before)
        &&& plain(self.inner)
        &&& plain(self.after)
    }
}

/// Where the two tags of an element stand, and what they are read as.
proof fn lemma_element(e: Element)
    requires
        e.wf(),
    ensures
        ({
            let s = e.spelt();
            let n = e.name.len();
            let lt = e.before.len();
            let open = lt + 1 + n + e.attrs.len() + 1;
            let shut = open + e.inner.len();
            let end = shut + 2 + n + 1;
            &&& s.len() == end + e.after.len()
            &&& text::seek(s, 0, '<') == lt
            &&& text::seek(s, open as int, '<') == shut
            &&& text::seek(s, end as int, '<') == s.len()
            &&& html::tag_at(s, lt as int) == Some(
                TagView {
                    name: e.name,
                    attrs: e.attrs,
                    close: false,
                    self_closing: false,
                    end: open as int,
                },
            )
            &&& html::tag_at(s, shut as int) == Some(
                TagView {
                    name: e.name,
                    attrs: Seq::empty(),
                    close: true,
                    self_closing: false,
                    end: end as int,
                },
            )
            &&& s.subrange(0, lt as int) == e.before
            &&& s.subrange(lt as int, open as int) == seq!['<'] + e.name + e.attrs + seq!['>']
            &&& s.subrange(open as int, shut as int) == e.inner
            &&& s.subrange(shut as int, end as int) == seq!['<', '/'] + e.name + seq!['>']
            &&& s.subrange(end as int, s.len() as int) == e.after
            &&& s[lt as int] == '<'
            &&& s[lt + 1int] != '!'
            &&& s[lt + 1int] != '/'
            &&& s[shut as int] == '<'
            &&& s[shut + 1int] == '/'
            &&& s[end - 1] == '>'
        }),
{
    let s = e.spelt();
    let n = e.name.len() as int;
    let lt = e.before.len() as int;
    let to = lt + 1 + n;
    let gt = to + e.attrs.len();
    let open = gt + 1;
    let shut = open + e.inner.len();
    let end = shut + 2 + n + 1;
    assert forall|k: int| 0 <= k < n implies s[lt + 1 + k] == e.name[k] by {}
    assert forall|k: int| 0 <= k < e.attrs.len() implies s[to + k] == e.attrs[k] by {}
    assert forall|k: int| 0 <= k < e.inner.len() implies s[open + k] == e.inner[k] by {}
    assert forall|k: int| 0 <= k < n implies s[shut + 2 + k] == e.name[k] by {}
    assert forall|k: int| 0 <= k < e.after.len() implies s[end + k] == e.after[k] by {}
    assert(s.subrange(0, lt) =~= e.before);
    assert(s.subrange(lt, open) =~= seq!['<'] + e.name + e.attrs + seq!['>']);
    assert(s.subrange(open, shut) =~= e.inner);
    assert(s.subrange(shut, end) =~= seq!['<', '/'] + e.name + seq!['>']);
    assert(s.subrange(end, s.len() as int) =~= e.after);
    assert forall|k: int| 0 <= k < lt implies s[k] != '<' by {
        assert(s[k] == e.before[k]);
    }
    lemma_found(s, 0, lt, '<');
    assert forall|k: int| open <= k < shut implies s[k] != '<' by {
        assert(s[k] == e.inner[k - open]);
    }
    lemma_found(s, open, shut, '<');
    assert forall|k: int| end <= k < s.len() implies s[k] != '<' by {
        assert(s[k] == e.after[k - end]);
    }
    lemma_found(s, end, s.len() as int, '<');
    assert forall|k: int| lt + 1 <= k < to implies html::name_char(#[trigger] s[k]) by {
        assert(s[k] == e.name[k - lt - 1]);
    }
    assert(s[to] == ' ' || s[to] == '>');
    lemma_name(s, lt + 1, to);
    let inside = e.attrs + seq!['>'];
    assert forall|k: int| 0 <= k < inside.len() implies s[to + k] == inside[k] by {}
    lemma_close_within(s, to, inside, 0, None);
    assert forall|k: int| shut + 2 <= k < shut + 2 + n implies html::name_char(#[trigger] s[k]) by {
        assert(s[k] == e.name[k - shut - 2]);
    }
    lemma_name(s, shut + 2, shut + 2 + n);
    lemma_unquoted(s, shut + 2 + n, shut + 2 + n);
    assert(s[lt + 1] == e.name[0]);
    assert(s.subrange(lt + 1, to) =~= e.name);
    assert(s.subrange(shut + 2, shut + 2 + n) =~= e.name);
    assert(text::lower(e.name) =~= e.name);
    assert(s.subrange(to, gt) =~= e.attrs);
    assert(s.subrange(shut + 2 + n, shut + 2 + n) =~= Seq::<char>::empty());
    text::lemma_space_start(e.attrs, 0, e.attrs.len() as int);
    text::lemma_space_start(Seq::<char>::empty(), 0, 0);
    assert(text::trimmed_end(e.attrs).len() > 0 ==> text::trimmed_end(e.attrs).last()
        == e.attrs.last());
}

/// What an element that is not dropped becomes, given what its opening tag is rewritten to.
proof fn lemma_rewritten(e: Element, open: Seq<char>, close: Seq<char>)
    requires
        e.wf(),
        !html::drop_tree(e.name),
        !html::drop_tag(e.name),
        !html::void_element(e.name),
        html::rewritten(
            TagView {
                name: e.name,
                attrs: e.attrs,
                close: false,
                self_closing: false,
                end: (e.before.len() + 1 + e.name.len() + e.attrs.len() + 1) as int,
            },
        ) == Some((open, close)),
    ensures
        html::sanitized(e.spelt()) == e.before + open + e.inner + close + e.after,
{
    let s = e.spelt();
    let n = e.name.len() as int;
    let lt = e.before.len() as int;
    let mid = lt + 1 + n + e.attrs.len() + 1;
    let shut = mid + e.inner.len();
    let end = shut + 2 + n + 1;
    lemma_element(e);
    lemma_no_comment(s, lt);
    lemma_no_comment(s, shut);
    let none = Seq::<OwedView>::empty();
    let one = none.push(OwedView { name: e.name, close: Some(close) });
    assert(html::markup_step(s, lt, none) == (html::Step { out: open, next: mid, owed: one }));
    assert(one.last().name == e.name);
    assert(html::markup_step(s, shut, one) == (html::Step {
        out: close,
        next: end,
        owed: one.take(0),
    }));
    assert(one.take(0) =~= none);
    assert(html::rewrite_from(s, end, none) =~= e.after);
    assert(html::rewrite_from(s, mid, one) == e.inner + close + e.after);
    assert(html::rewrite_from(s, 0, none) == e.before + open + html::rewrite_from(s, mid, one));
    assert(e.before + open + (e.inner + close + e.after) =~= e.before + open + e.inner + close
        + e.after);
}

/// A `<` that no `!` follows begins neither a comment nor a declaration.
proof fn lemma_no_comment(s: Seq<char>, lt: int)
    requires
        0 <= lt,
        lt + 1 < s.len(),
        s[lt + 1] != '!',
    ensures
        !text::occurs_at(s, lt, "<!--"@),
        !text::occurs_at(s, lt, "<!"@),
{
    reveal_strlit("<!--");
    reveal_strlit("<!");
    if text::occurs_at(s, lt, "<!--"@) {
        assert(s.subrange(lt, lt + 4)[1] == '!');
    }
    if text::occurs_at(s, lt, "<!"@) {
        assert(s.subrange(lt, lt + 2)[1] == '!');
    }
}

/// The names that pasting knows are different words.
proof fn lemma_names()
    ensures
        "div"@ != "span"@,
        "b"@ != "div"@ && "b"@ != "span"@,
        "strong"@ != "div"@ && "strong"@ != "span"@,
        !html::drop_tree("div"@) && !html::drop_tag("div"@) && !html::void_element("div"@),
        !html::drop_tree("span"@) && !html::drop_tag("span"@) && !html::void_element("span"@),
        !html::drop_tree("b"@) && !html::drop_tag("b"@) && !html::void_element("b"@),
        !html::drop_tree("strong"@) && !html::drop_tag("strong"@) && !html::void_element("strong"@),
{
    reveal_strlit("div");
    reveal_strlit("span");
    reveal_strlit("b");
    reveal_strlit("strong");
    reveal_strlit("script");
    reveal_strlit("style");
    reveal_strlit("head");
    reveal_strlit("title");
    reveal_strlit("meta");
    reveal_strlit("link");
    reveal_strlit("base");
    reveal_strlit("br");
    reveal_strlit("img");
    reveal_strlit("hr");
    reveal_strlit("input");
    reveal_strlit("col");
    reveal_strlit("area");
    reveal_strlit("source");
    reveal_strlit("wbr");
    reveal_strlit("embed");
    let (div, span, b, strong) = ("div"@, "span"@, "b"@, "strong"@);
    assert(div[0] == 'd' && span[0] == 's' && b[0] == 'b' && strong[0] == 's');
    assert(span[1] == 'p' && strong[1] == 't' && strong[2] == 'r');
    assert("script"@[1] == 'c' && "style"@[2] == 'y' && "source"@[1] == 'o');
    assert("head"@[0] == 'h' && "title"@[0] == 't' && "meta"@[0] == 'm' && "link"@[0] == 'l');
    assert("base"@.len() == 4 && b.len() == 1 && "br"@.len() == 2);
}

/// A `<div>` is a paragraph: whatever its attributes, its tags become those of one, around
/// the same text.
pub proof fn law_a_div_is_a_paragraph(e: Element)
    requires
        e.wf(),
        e.name == "div"@,
    ensures
        html::sanitized(e.spelt()) == e.before + "<p>"@ + e.inner + "</p>"@ + e.after,
{
    lemma_names();
    lemma_rewritten(e, "<p>"@, "</p>"@);
}

/// A `<span>` whose CSS spells no emphasis goes and leaves its text.
pub proof fn law_a_plain_span_leaves_its_text(e: Element)
    requires
        e.wf(),
        e.name == "span"@,
        text::seek_seq(text::lower(e.attrs), 0, "style"@) is None,
    ensures
        html::sanitized(e.spelt()) == e.before + e.inner + e.after,
{
    lemma_names();
    lemma_no_style(e.attrs);
    reveal_strlit("");
    lemma_rewritten(e, ""@, ""@);
    assert(e.before + ""@ + e.inner + ""@ + e.after =~= e.before + e.inner + e.after);
}

/// Without a `style` nothing is declared.
proof fn lemma_no_style(attrs: Seq<char>)
    requires
        text::seek_seq(text::lower(attrs), 0, "style"@) is None,
    ensures
        html::emphasis(attrs) is None,
        !html::unbolded(attrs),
{
    let none = Seq::<char>::empty();
    assert(html::style_value(attrs) == none);
    assert(text::seek(none, 0, ';') == 0);
    assert(text::seek(none, 0, ':') == 0);
    assert(html::declared(none, 0, "font-weight"@) is None);
    assert(html::declared(none, 0, "font-style"@) is None);
}

/// A `<span>` that its CSS makes bold becomes `<strong>`: one of a weight of `bold`, or of
/// a number from 600 on.
pub proof fn law_a_bold_span_is_strong(e: Element, weight: Seq<char>)
    requires
        e.wf(),
        e.name == "span"@,
        html::declared(html::style_value(e.attrs), 0, "font-weight"@) == Some(weight),
        weight == "bold"@ || (text::parsed(weight) matches Some(n) && 600 <= n <= u32::MAX),
    ensures
        html::sanitized(e.spelt()) == e.before + "<strong>"@ + e.inner + "</strong>"@ + e.after,
{
    lemma_names();
    lemma_rewritten(e, "<strong>"@, "</strong>"@);
}

/// A `<span>` that its CSS slants, and does not make bold, becomes `<em>`.
pub proof fn law_a_slanted_span_is_emphasis(e: Element, slant: Seq<char>)
    requires
        e.wf(),
        e.name == "span"@,
        html::declared(html::style_value(e.attrs), 0, "font-style"@) == Some(slant),
        slant == "italic"@ || slant == "oblique"@,
        html::declared(html::style_value(e.attrs), 0, "font-weight"@) matches Some(weight) ==> weight
            != "bold"@ && (text::parsed(weight) matches Some(n) ==> n < 600),
    ensures
        html::sanitized(e.spelt()) == e.before + "<em>"@ + e.inner + "</em>"@ + e.after,
{
    lemma_names();
    lemma_rewritten(e, "<em>"@, "</em>"@);
}

/// A `<span>` that its CSS neither makes bold nor slants goes and leaves its text.
pub proof fn law_a_span_of_no_emphasis_goes(e: Element)
    requires
        e.wf(),
        e.name == "span"@,
        html::declared(html::style_value(e.attrs), 0, "font-weight"@) matches Some(weight) ==> weight
            != "bold"@ && (text::parsed(weight) matches Some(n) ==> n < 600),
        html::declared(html::style_value(e.attrs), 0, "font-style"@) matches Some(slant) ==> slant
            != "italic"@ && slant != "oblique"@,
    ensures
        html::sanitized(e.spelt()) == e.before + e.inner + e.after,
{
    lemma_names();
    reveal_strlit("");
    lemma_rewritten(e, ""@, ""@);
    assert(e.before + ""@ + e.inner + ""@ + e.after =~= e.before + e.inner + e.after);
}

/// A `<b>` or `<strong>` styled with a normal weight is not bold: its tags go and its text
/// stays. Styled otherwise or not at all, it stays as it came.
pub proof fn law_an_unbolded_element_goes(e: Element)
    requires
        e.wf(),
        e.name == "b"@ || e.name == "strong"@,
    ensures
        ({
            let weight = html::declared(html::style_value(e.attrs), 0, "font-weight"@);
            if weight == Some("normal"@) || weight == Some("400"@) {
                html::sanitized(e.spelt()) == e.before + e.inner + e.after
            } else {
                html::sanitized(e.spelt()) == e.spelt()
            }
        }),
{
    lemma_names();
    reveal_strlit("");
    let weight = html::declared(html::style_value(e.attrs), 0, "font-weight"@);
    if weight == Some("normal"@) || weight == Some("400"@) {
        lemma_rewritten(e, ""@, ""@);
        assert(e.before + ""@ + e.inner + ""@ + e.after =~= e.before + e.inner + e.after);
    } else {
        lemma_element_kept(e);
    }
}

/// An element of any other name stays as it came.
pub proof fn law_another_element_stays(e: Element)
    requires
        e.wf(),
        e.name != "meta"@ && e.name != "link"@ && e.name != "base"@,
        e.name != "script"@ && e.name != "style"@ && e.name != "head"@ && e.name != "title"@,
        e.name != "div"@ && e.name != "span"@ && e.name != "b"@ && e.name != "strong"@,
    ensures
        html::sanitized(e.spelt()) == e.spelt(),
{
    lemma_element_kept(e);
}

proof fn lemma_element_kept(e: Element)
    requires
        e.wf(),
        left_alone(
            TagView { name: e.name, attrs: e.attrs, close: false, self_closing: false, end: 0 },
        ),
    ensures
        html::sanitized(e.spelt()) == e.spelt(),
{
    let s = e.spelt();
    let n = e.name.len() as int;
    let lt = e.before.len() as int;
    let mid = lt + 1 + n + e.attrs.len() + 1;
    let shut = mid + e.inner.len();
    let end = shut + 2 + n + 1;
    lemma_element(e);
    lemma_no_comment(s, lt);
    lemma_no_comment(s, shut);
    let none = Seq::<OwedView>::empty();
    let one = none.push(OwedView { name: e.name, close: None });
    let tag = html::tag_at(s, lt)->0;
    assert(html::rewritten(tag) is None);
    let owed = if html::void_element(e.name) {
        none
    } else {
        one
    };
    assert(html::markup_step(s, lt, none) == (html::Step {
        out: s.subrange(lt, mid),
        next: mid,
        owed,
    }));
    assert(one.last().name == e.name);
    assert(one.take(0) =~= none);
    assert(html::markup_step(s, shut, owed) == (html::Step {
        out: s.subrange(shut, end),
        next: end,
        owed: none,
    }));
    assert(html::rewrite_from(s, end, none) =~= s.subrange(end, s.len() as int));
    assert(html::rewrite_from(s, mid, owed) =~= s.subrange(mid, s.len() as int));
    assert(html::rewrite_from(s, 0, none) =~= s);
}

/// What is no prose goes with all that it holds: a script, a style sheet, a head, a title.
pub proof fn law_no_script_is_pasted(e: Element)
    requires
        e.wf(),
        e.name == "script"@ || e.name == "style"@ || e.name == "head"@ || e.name == "title"@,
    ensures
        html::sanitized(e.spelt()) == e.before + e.after,
{
    let s = e.spelt();
    let low = text::lower(s);
    let n = e.name.len() as int;
    let lt = e.before.len() as int;
    let mid = lt + 1 + n + e.attrs.len() + 1;
    let shut = mid + e.inner.len();
    let end = shut + 2 + n + 1;
    lemma_element(e);
    lemma_no_comment(s, lt);
    reveal_strlit("</");
    let none = Seq::<OwedView>::empty();
    assert(text::lower_char('<') == '<' && text::lower_char('>') == '>' && text::lower_char('/')
        == '/');
    assert(low.subrange(shut, shut + 2 + n) =~= "</"@ + e.name) by {
        assert(s.subrange(shut, end) =~= seq!['<', '/'] + e.name + seq!['>']);
        assert forall|k: int| 0 <= k < n implies low[shut + 2 + k] == e.name[k] by {
            assert(s[shut + 2 + k] == s.subrange(shut, end)[2 + k]);
        }
    }
    assert(low[end - 1] == '>');
    assert(html::closes_at(low, shut, e.name));
    assert forall|k: int| mid <= k < shut implies !#[trigger] html::closes_at(low, k, e.name) by {
        assert(s[k] == s.subrange(mid, shut)[k - mid]);
        assert(s[k] != '<');
        if html::closes_at(low, k, e.name) {
            assert(low.subrange(k, k + 2 + n)[0] == '<');
            assert(low[k] == '<');
        }
    }
    lemma_close_found(low, mid, shut, e.name);
    assert forall|k: int| shut <= k < end - 1 implies low[k] != '>' by {
        assert(low[k] == low.subrange(shut, shut + 2 + n)[k - shut]);
        assert(k >= shut + 2 ==> low[k] == e.name[k - shut - 2]);
    }
    lemma_found(low, shut, end - 1, '>');
    assert(html::tree_end(s, mid, e.name) == end);
    assert(html::markup_step(s, lt, none) == (html::Step {
        out: Seq::empty(),
        next: end,
        owed: none,
    }));
    assert(html::rewrite_from(s, end, none) =~= e.after);
    assert(html::rewrite_from(s, 0, none) =~= e.before + e.after);
}

proof fn lemma_close_found(low: Seq<char>, from: int, at: int, name: Seq<char>)
    requires
        0 <= from <= at < low.len(),
        html::closes_at(low, at, name),
        forall|k: int| from <= k < at ==> !#[trigger] html::closes_at(low, k, name),
    ensures
        html::close_of(low, from, name) == Some(at),
    decreases at - from,
{
    if from < at {
        assert(!html::closes_at(low, from, name));
        lemma_close_found(low, from + 1, at, name);
    }
}

/// The tags of a `meta`, a `link` or a `base` go alone: what stands between them stays.
pub proof fn law_a_tag_of_no_prose_goes_alone(e: Element)
    requires
        e.wf(),
        e.name == "meta"@ || e.name == "link"@ || e.name == "base"@,
    ensures
        html::sanitized(e.spelt()) == e.before + e.inner + e.after,
{
    let s = e.spelt();
    let n = e.name.len() as int;
    let lt = e.before.len() as int;
    let mid = lt + 1 + n + e.attrs.len() + 1;
    let shut = mid + e.inner.len();
    let end = shut + 2 + n + 1;
    lemma_element(e);
    lemma_no_comment(s, lt);
    lemma_no_comment(s, shut);
    reveal_strlit("script");
    reveal_strlit("style");
    reveal_strlit("head");
    reveal_strlit("title");
    reveal_strlit("meta");
    reveal_strlit("link");
    reveal_strlit("base");
    assert("meta"@[0] == 'm' && "link"@[0] == 'l' && "base"@[0] == 'b');
    assert("script"@[0] == 's' && "style"@[0] == 's' && "head"@[0] == 'h' && "title"@[0] == 't');
    let none = Seq::<OwedView>::empty();
    let gone = Seq::<char>::empty();
    assert(html::markup_step(s, lt, none) == (html::Step { out: gone, next: mid, owed: none }));
    assert(html::markup_step(s, shut, none) == (html::Step { out: gone, next: end, owed: none }));
    assert(html::rewrite_from(s, end, none) =~= e.after);
    assert(html::rewrite_from(s, mid, none) =~= e.inner + e.after);
    assert(html::rewrite_from(s, 0, none) =~= e.before + e.inner + e.after);
}

/// A comment goes, with all that it holds.
pub proof fn law_a_comment_goes(before: Seq<char>, inner: Seq<char>, after: Seq<char>)
    requires
        plain(before),
        plain(after),
        forall|k: int| 0 <= k < inner.len() ==> inner[k] != '-',
    ensures
        html::sanitized(before + "<!--"@ + inner + "-->"@ + after) == before + after,
{
    reveal_strlit("<!--");
    reveal_strlit("-->");
    let s = before + "<!--"@ + inner + "-->"@ + after;
    let lt = before.len() as int;
    let shut = lt + 4 + inner.len();
    let end = shut + 3;
    assert forall|k: int| 0 <= k < lt implies s[k] != '<' by {
        assert(s[k] == before[k]);
    }
    assert(s[lt] == "<!--"@[0]);
    lemma_found(s, 0, lt, '<');
    assert(s.subrange(lt, lt + 4) =~= "<!--"@);
    assert(s.subrange(shut, end) =~= "-->"@);
    assert forall|k: int| lt + 4 <= k < shut implies !#[trigger] text::occurs_at(s, k, "-->"@) by {
        assert(s[k] == inner[k - lt - 4]);
        if text::occurs_at(s, k, "-->"@) {
            assert(s.subrange(k, k + 3)[0] == '-');
        }
    }
    text::lemma_seek_seq(s, lt + 4, "-->"@);
    assert(text::occurs_at(s, shut, "-->"@));
    assert forall|k: int| end <= k < s.len() implies s[k] != '<' by {
        assert(s[k] == after[k - end]);
    }
    lemma_found(s, end, s.len() as int, '<');
    let none = Seq::<OwedView>::empty();
    assert(html::markup_step(s, lt, none) == (html::Step {
        out: Seq::empty(),
        next: end,
        owed: none,
    }));
    assert(html::rewrite_from(s, end, none) =~= after);
    assert(html::rewrite_from(s, 0, none) =~= before + after);
}

/// A declaration goes, and the text on both sides of it stays.
pub proof fn law_a_declaration_goes(before: Seq<char>, inner: Seq<char>, after: Seq<char>)
    requires
        plain(before),
        plain(after),
        inner.len() > 0 ==> inner[0] != '-',
        forall|k: int| 0 <= k < inner.len() ==> inner[k] != '>',
    ensures
        html::sanitized(before + "<!"@ + inner + ">"@ + after) == before + after,
{
    reveal_strlit("<!--");
    reveal_strlit("<!");
    reveal_strlit(">");
    let s = before + "<!"@ + inner + ">"@ + after;
    let lt = before.len() as int;
    let gt = lt + 2 + inner.len();
    assert forall|k: int| 0 <= k < lt implies s[k] != '<' by {
        assert(s[k] == before[k]);
    }
    assert(s[lt] == "<!"@[0]);
    lemma_found(s, 0, lt, '<');
    assert(s.subrange(lt, lt + 2) =~= "<!"@);
    if text::occurs_at(s, lt, "<!--"@) {
        assert(s.subrange(lt, lt + 4)[2] == '-');
        assert(s[lt + 2] == '-');
    }
    assert forall|k: int| lt <= k < gt implies s[k] != '>' by {
        if k >= lt + 2 {
            assert(s[k] == inner[k - lt - 2]);
        } else {
            assert(s[k] == "<!"@[k - lt]);
        }
    }
    assert(s[gt] == ">"@[0]);
    lemma_found(s, lt, gt, '>');
    assert forall|k: int| gt + 1 <= k < s.len() implies s[k] != '<' by {
        assert(s[k] == after[k - gt - 1]);
    }
    lemma_found(s, gt + 1, s.len() as int, '<');
    let none = Seq::<OwedView>::empty();
    assert(html::markup_step(s, lt, none) == (html::Step {
        out: Seq::empty(),
        next: gt + 1,
        owed: none,
    }));
    assert(html::rewrite_from(s, gt + 1, none) =~= after);
    assert(html::rewrite_from(s, 0, none) =~= before + after);
}

/// The white space around a text goes, and nothing of the text.
pub proof fn law_trimming_takes_the_space_around(head: Seq<char>, core: Seq<char>, tail: Seq<char>)
    requires
        text::all_space(head),
        text::all_space(tail),
        core.len() > 0,
        !text::whitespace(core[0]),
        !text::whitespace(core.last()),
    ensures
        text::trimmed(head + core + tail) == core,
        text::trimmed_start(head + core + tail) == core + tail,
        text::trimmed_end(head + core + tail) == head + core,
{
    let s = head + core + tail;
    let (from, to) = (head.len() as int, (head.len() + core.len()) as int);
    lemma_space_ends(s, 0, from);
    lemma_space_starts(s, 0, to, s.len() as int);
    lemma_space_starts(s, from, to, s.len() as int);
    assert(s.subrange(from, to) =~= core);
    assert(s.subrange(from, s.len() as int) =~= core + tail);
    assert(s.subrange(0, to) =~= head + core);
}

proof fn lemma_space_ends(s: Seq<char>, from: int, at: int)
    requires
        0 <= from <= at < s.len(),
        forall|k: int| from <= k < at ==> text::whitespace(#[trigger] s[k]),
        !text::whitespace(s[at]),
    ensures
        text::space_end(s, from, s.len() as int) == at,
    decreases at - from,
{
    if from < at {
        lemma_space_ends(s, from + 1, at);
    }
}

proof fn lemma_space_starts(s: Seq<char>, from: int, at: int, to: int)
    requires
        0 <= from < at <= to <= s.len(),
        forall|k: int| at <= k < to ==> text::whitespace(#[trigger] s[k]),
        !text::whitespace(s[at - 1]),
    ensures
        text::space_start(s, from, to) == at,
    decreases to - at,
{
    if at < to {
        assert(text::whitespace(s[to - 1]));
        lemma_space_starts(s, from, at, to - 1);
    }
}

/// White space alone leaves nothing.
pub proof fn law_nothing_is_left_of_space(s: Seq<char>)
    requires
        text::all_space(s),
    ensures
        text::trimmed(s).len() == 0,
{
    text::lemma_space_end(s, 0, s.len() as int);
    let from = text::space_end(s, 0, s.len() as int);
    text::lemma_space_start(s, from, s.len() as int);
}

/// A copy publishes what the renderer made of the text, without the white space around it.
/// Where it made nothing but white space, or no text at all, nothing is published.
pub proof fn law_a_render_is_published(head: Seq<char>, core: Seq<char>, tail: Seq<char>)
    requires
        text::all_space(head),
        text::all_space(tail),
        core.len() > 0 ==> !text::whitespace(core[0]) && !text::whitespace(core.last()),
    ensures
        html::published(Some(encode_utf8(head + core + tail))) == (if core.len() > 0 {
            Some(core)
        } else {
            None
        }),
        html::published(None) is None,
{
    let s = head + core + tail;
    encode_utf8_decode_utf8(s);
    encode_utf8_valid_utf8(s);
    if core.len() > 0 {
        law_trimming_takes_the_space_around(head, core, tail);
    } else {
        assert forall|k: int| 0 <= k < s.len() implies text::whitespace(#[trigger] s[k]) by {
            if k < head.len() {
                assert(s[k] == head[k]);
            } else {
                assert(s[k] == tail[k - head.len()]);
            }
        }
        law_nothing_is_left_of_space(s);
    }
}

/// Newlines at both ends go and nothing else does.
proof fn lemma_bare(head: Seq<char>, core: Seq<char>, tail: Seq<char>)
    requires
        forall|k: int| 0 <= k < head.len() ==> #[trigger] head[k] == '\n',
        forall|k: int| 0 <= k < tail.len() ==> #[trigger] tail[k] == '\n',
        core.len() > 0 ==> core[0] != '\n' && core.last() != '\n',
    ensures
        html::bare(head + core + tail) == core,
    decreases head.len() + tail.len(),
{
    let s = head + core + tail;
    if head.len() > 0 {
        assert(s[0] == head[0]);
        assert(s.skip(1) =~= head.skip(1) + core + tail);
        lemma_bare(head.skip(1), core, tail);
    } else if tail.len() > 0 {
        if core.len() > 0 {
            assert(s[0] == core[0]);
            assert(s.last() == tail.last());
            assert(s.drop_last() =~= head + core + tail.drop_last());
            lemma_bare(head, core, tail.drop_last());
        } else {
            assert(s[0] == tail[0]);
            assert(s.skip(1) =~= head + core + tail.skip(1));
            lemma_bare(head, core, tail.skip(1));
        }
    } else {
        assert(s =~= core);
    }
}

/// A paste takes what the converter wrote, without the newlines around it: a pair of spaces
/// at a line's end stays. It takes nothing that is still markup, and nothing from nothing.
pub proof fn law_a_conversion_is_pasted(head: Seq<char>, core: Seq<char>, tail: Seq<char>)
    requires
        forall|k: int| 0 <= k < head.len() ==> #[trigger] head[k] == '\n',
        forall|k: int| 0 <= k < tail.len() ==> #[trigger] tail[k] == '\n',
        core.len() > 0 ==> core[0] != '\n' && core.last() != '\n',
    ensures
        html::pasted(Some(encode_utf8(head + core + tail))) == (if core.len() > 0
            && !html::carries_markup(core) {
            Some(core)
        } else {
            None
        }),
        html::pasted(None) is None,
{
    let s = head + core + tail;
    encode_utf8_decode_utf8(s);
    encode_utf8_valid_utf8(s);
    lemma_bare(head, core, tail);
}

/// A line that begins with a `:::` fence or with a tag, past its white space, is markup
/// that was not understood.
pub proof fn law_a_fence_or_a_tag_is_markup(
    head: Seq<char>,
    gap: Seq<char>,
    mark: Seq<char>,
    rest: Seq<char>,
)
    requires
        head.len() > 0 ==> head.last() == '\n',
        forall|k: int| 0 <= k < gap.len() ==> #[trigger] gap[k] == ' ' || gap[k] == '\t',
        mark == seq![':', ':', ':'] || (mark.len() == 2 && mark[0] == '<' && (mark[1] == '/'
            || text::ascii_alphabetic(mark[1]))),
    ensures
        html::carries_markup(head + gap + mark + rest),
{
    reveal_strlit(":::");
    let s = head + gap + mark + rest;
    let at = head.len() as int;
    let from = at + gap.len();
    let end = text::seek(s, at, '\n');
    text::lemma_seek(s, at, '\n');
    assert forall|k: int| at <= k < from + mark.len() implies s[k] != '\n' by {
        if k < from {
            assert(s[k] == gap[k - at]);
        } else {
            assert(s[k] == mark[k - from]);
        }
    }
    assert(end >= from + mark.len());
    text::lemma_space_end(s, at, end);
    let e = text::space_end(s, at, end);
    assert(s[from] == mark[0]);
    assert(!text::whitespace(s[from]));
    if e < from {
        assert(s[e] == gap[e - at]);
    }
    assert(e == from);
    if mark == seq![':', ':', ':'] {
        assert(s.subrange(from, from + 3) =~= ":::"@);
    } else {
        assert(s[from + 1] == mark[1]);
    }
    assert(html::line_starts(s, at));
    assert(html::line_unfaithful(s, at));
}

/// A text in which no line begins so is none: one without a `<` and without a `:` is not.
pub proof fn law_prose_is_no_markup(s: Seq<char>)
    requires
        forall|k: int| 0 <= k < s.len() ==> #[trigger] s[k] != '<' && s[k] != ':',
    ensures
        !html::carries_markup(s),
{
    reveal_strlit(":::");
    assert forall|at: int| html::line_starts(s, at) implies !#[trigger] html::line_unfaithful(
        s,
        at,
    ) by {
        let end = text::seek(s, at, '\n');
        text::lemma_seek(s, at, '\n');
        text::lemma_space_end(s, at, end);
        let from = text::space_end(s, at, end);
        if text::occurs_at(s, from, ":::"@) {
            assert(s.subrange(from, from + 3)[0] == ':');
        }
    }
}

/// A render that is one paragraph is published without its tags, and one with a second
/// paragraph in it whole.
pub proof fn law_a_sole_paragraph_is_unwrapped(head: Seq<char>, inner: Seq<char>, tail: Seq<char>)
    requires
        text::all_space(head),
        text::all_space(tail),
    ensures
        ({
            let page = head + "<p>"@ + inner + "</p>"@ + tail;
            html::lone_paragraph(page) == (if html::opens_paragraph(inner) {
                page
            } else {
                inner
            })
        }),
{
    reveal_strlit("<p>");
    reveal_strlit("</p>");
    let core = "<p>"@ + inner + "</p>"@;
    let page = head + "<p>"@ + inner + "</p>"@ + tail;
    assert(core[0] == '<' && core.last() == '>');
    law_trimming_takes_the_space_around(head, core, tail);
    assert(page =~= head + core + tail);
    assert(core.subrange(0, 3) =~= "<p>"@);
    assert(core.subrange(core.len() - 4, core.len() as int) =~= "</p>"@);
    assert(core.subrange(3, core.len() - 4) =~= inner);
}

/// A render that opens with anything but a paragraph is published whole.
pub proof fn law_what_is_no_paragraph_stays_wrapped(page: Seq<char>)
    requires
        !text::occurs_at(text::trimmed(page), 0, "<p>"@),
    ensures
        html::lone_paragraph(page) == page,
{
}

/// A text without markup opens no paragraph, and one with a `<p` tag in it does, whatever
/// its attributes.
pub proof fn law_a_paragraph_tag_opens_one(s: Seq<char>, lt: int)
    ensures
        plain(s) ==> !html::opens_paragraph(s),
        0 <= lt < s.len() && s[lt] == '<' && (html::tag_at(s, lt) matches Some(tag) && tag.name
            == "p"@ && !tag.close) ==> html::opens_paragraph(s),
{
    if 0 <= lt < s.len() && s[lt] == '<' && (html::tag_at(s, lt) matches Some(tag) && tag.name
        == "p"@ && !tag.close) {
        assert(html::paragraph_tag(s, lt));
    }
}

/// A paragraph loses its attributes on its way to the converter, and keeps its text.
pub proof fn law_a_paragraph_loses_its_attributes(e: Element)
    requires
        e.wf(),
        e.name == "p"@,
    ensures
        html::unadorned(e.spelt()) == e.before + "<p>"@ + e.inner + "</p>"@ + e.after,
{
    reveal_strlit("<p>");
    reveal_strlit("</p>");
    reveal_strlit("p");
    let s = e.spelt();
    let lt = e.before.len() as int;
    let mid = lt + 1 + 1 + e.attrs.len() + 1;
    let shut = mid + e.inner.len();
    let end = shut + 4;
    lemma_element(e);
    assert(seq!['<', '/'] + e.name + seq!['>'] =~= "</p>"@);
    assert(html::unadorned_from(s, s.len() as int) =~= Seq::empty());
    assert(html::unadorned_from(s, end) =~= e.after);
    assert(html::unadorned_from(s, mid) =~= e.inner + "</p>"@ + e.after);
    assert(html::unadorned_from(s, 0) =~= e.before + "<p>"@ + e.inner + "</p>"@ + e.after);
}

/// Every other tag reaches the converter as it came.
pub proof fn law_only_paragraphs_lose_attributes(s: Seq<char>)
    requires
        forall|lt: int|
            0 <= lt < s.len() && #[trigger] s[lt] == '<' ==> (html::tag_at(s, lt) matches Some(tag)
                ==> tag.close || tag.name != "p"@),
    ensures
        html::unadorned(s) == s,
{
    lemma_unadorned(s, 0);
    assert(s.subrange(0, s.len() as int) =~= s);
}

proof fn lemma_unadorned(s: Seq<char>, from: int)
    requires
        0 <= from <= s.len(),
        forall|lt: int|
            0 <= lt < s.len() && #[trigger] s[lt] == '<' ==> (html::tag_at(s, lt) matches Some(tag)
                ==> tag.close || tag.name != "p"@),
    ensures
        html::unadorned_from(s, from) == s.subrange(from, s.len() as int),
    decreases s.len() - from,
{
    if from < s.len() {
        text::lemma_seek(s, from, '<');
        let lt = text::seek(s, from, '<');
        if lt < s.len() {
            assert(s[lt] == '<');
            html::lemma_tag_at(s, lt);
            match html::tag_at(s, lt) {
                Some(tag) => {
                    lemma_unadorned(s, tag.end);
                    assert(s.subrange(from, lt) + s.subrange(lt, tag.end) + s.subrange(
                        tag.end,
                        s.len() as int,
                    ) =~= s.subrange(from, s.len() as int));
                },
                None => {
                    lemma_unadorned(s, lt + 1);
                    assert(s.subrange(from, lt + 1) + s.subrange(lt + 1, s.len() as int)
                        =~= s.subrange(from, s.len() as int));
                },
            }
        }
    } else {
        assert(s.subrange(from, s.len() as int) =~= Seq::empty());
    }
}

proof fn lemma_tabular(s: Seq<char>, from: int)
    requires
        0 <= from <= s.len(),
        forall|lt: int|
            0 <= lt < s.len() && #[trigger] s[lt] == '<' ==> (html::tag_at(s, lt) matches Some(tag)
                ==> tag.name != "table"@),
    ensures
        !html::tabular_from(s, from),
    decreases s.len() - from,
{
    if from < s.len() {
        text::lemma_seek(s, from, '<');
        let lt = text::seek(s, from, '<');
        if lt < s.len() {
            assert(s[lt] == '<');
            html::lemma_tag_at(s, lt);
            match html::tag_at(s, lt) {
                Some(tag) => {
                    lemma_tabular(s, tag.end);
                },
                None => {
                    lemma_tabular(s, lt + 1);
                },
            }
        }
    }
}

/// Clipboard HTML of plain tags is handed to the converter as it came, and what the
/// converter writes is what is pasted: where no tag is dropped or rewritten, no paragraph
/// has attributes to lose, and there is no table.
pub proof fn law_plain_html_goes_to_the_converter(s: Seq<char>, format: Format)
    requires
        forall|lt: int|
            0 <= lt < s.len() && #[trigger] s[lt] == '<' ==> !(lt + 1 < s.len() && s[lt + 1] == '!')
                && (html::tag_at(s, lt) matches Some(tag) ==> left_alone(tag) && (tag.close
                || tag.name != "p"@) && tag.name != "table"@),
    ensures
        html::taken(s, format) == html::pasted(html::converted(s, format)),
{
    law_other_tags_are_kept(s);
    law_only_paragraphs_lose_attributes(s);
    lemma_tabular(s, 0);
}

/// Clipboard HTML with a table is not pasted as markup: the plain flavor is.
pub proof fn law_a_table_is_not_converted(e: Element, format: Format)
    requires
        e.wf(),
        e.name == "table"@,
    ensures
        html::taken(e.spelt(), format) is None,
{
    reveal_strlit("table");
    reveal_strlit("meta");
    reveal_strlit("link");
    reveal_strlit("base");
    reveal_strlit("script");
    reveal_strlit("style");
    reveal_strlit("head");
    reveal_strlit("title");
    reveal_strlit("div");
    reveal_strlit("span");
    reveal_strlit("b");
    reveal_strlit("strong");
    assert("table"@[1] == 'a' && "style"@[1] == 't' && "title"@[1] == 'i');
    law_another_element_stays(e);
    lemma_element(e);
}

/// A declaration is found by its name, whatever white space stands around the name and the
/// value.
pub proof fn law_a_style_declares_a_value(name: Seq<char>, value: Seq<char>, prop: Seq<char>)
    requires
        forall|k: int| 0 <= k < name.len() ==> #[trigger] name[k] != ':' && name[k] != ';',
        forall|k: int| 0 <= k < value.len() ==> #[trigger] value[k] != ';',
    ensures
        html::declared(name + seq![':'] + value, 0, prop) == (if text::trimmed(name) == prop {
            Some(text::trimmed(value))
        } else {
            None
        }),
{
    let s = name + seq![':'] + value;
    let colon = name.len() as int;
    assert forall|k: int| 0 <= k < s.len() implies s[k] != ';' by {
        if k < colon {
            assert(s[k] == name[k]);
        } else if k > colon {
            assert(s[k] == value[k - colon - 1]);
        }
    }
    lemma_found(s, 0, s.len() as int, ';');
    assert forall|k: int| 0 <= k < colon implies s[k] != ':' by {
        assert(s[k] == name[k]);
    }
    lemma_found(s, 0, colon, ':');
    assert(s.subrange(0, colon) =~= name);
    assert(s.subrange(colon + 1, s.len() as int) =~= value);
}

/// Of a style's declarations the first of a name is the one that holds.
pub proof fn law_the_first_declaration_holds(first: Seq<char>, rest: Seq<char>, prop: Seq<char>)
    requires
        forall|k: int| 0 <= k < first.len() ==> #[trigger] first[k] != ';',
    ensures
        html::declared(first + seq![';'] + rest, 0, prop) == (match html::declared(first, 0, prop) {
            Some(value) => Some(value),
            None => html::declared(rest, 0, prop),
        }),
{
    let s = first + seq![';'] + rest;
    let n = first.len() as int;
    assert forall|k: int| 0 <= k < n implies s[k] == first[k] by {}
    lemma_found(s, 0, n, ';');
    lemma_found(first, 0, n, ';');
    text::lemma_seek(first, 0, ':');
    let colon = text::seek(first, 0, ':');
    if colon < n {
        lemma_found(s, 0, colon, ':');
        assert(s.subrange(0, colon) =~= first.subrange(0, colon));
        assert(s.subrange(colon + 1, n) =~= first.subrange(colon + 1, n));
    } else {
        text::lemma_seek(s, 0, ':');
        if text::seek(s, 0, ':') < n {
            assert(first[text::seek(s, 0, ':')] == ':');
        }
    }
    lemma_declared_behind(first, rest, 0, prop);
}

proof fn lemma_declared_behind(first: Seq<char>, rest: Seq<char>, i: int, prop: Seq<char>)
    requires
        0 <= i <= rest.len() + 1,
    ensures
        html::declared(first + seq![';'] + rest, first.len() + 1 + i, prop) == html::declared(
            rest,
            i,
            prop,
        ),
    decreases rest.len() + 1 - i,
{
    let s = first + seq![';'] + rest;
    let n = first.len() + 1;
    if i <= rest.len() {
        assert forall|k: int| 0 <= k < rest.len() implies s[n + k] == rest[k] by {}
        text::lemma_seek(rest, i, ';');
        text::lemma_seek(rest, i, ':');
        let end = text::seek(rest, i, ';');
        let colon = text::seek(rest, i, ':');
        assert forall|k: int| n + i <= k < n + end implies s[k] != ';' by {
            assert(s[k] == rest[k - n]);
        }
        assert forall|k: int| n + i <= k < n + colon implies s[k] != ':' by {
            assert(s[k] == rest[k - n]);
        }
        lemma_found(s, n + i, n + end, ';');
        lemma_found(s, n + i, n + colon, ':');
        if colon < end {
            assert(s.subrange(n + i, n + colon) =~= rest.subrange(i, colon));
            assert(s.subrange(n + colon + 1, n + end) =~= rest.subrange(colon + 1, end));
        }
        if end < rest.len() {
            lemma_declared_behind(first, rest, end + 1, prop);
        }
    }
}

/// A `style` in quotes is what stands between them, in small letters.
pub proof fn law_a_quoted_style_is_read(q: char, value: Seq<char>, rest: Seq<char>)
    requires
        q == '"' || q == '\'',
        forall|k: int| 0 <= k < value.len() ==> #[trigger] value[k] != q,
    ensures
        html::style_value(" style="@ + seq![q] + value + seq![q] + rest) == text::lower(value),
{
    reveal_strlit(" style=");
    reveal_strlit("style");
    let attrs = " style="@ + seq![q] + value + seq![q] + rest;
    let low = text::lower(attrs);
    assert forall|k: int| 0 <= k < 8 implies low[k] == attrs[k] by {
        if k < 7 {
            assert(attrs[k] == " style="@[k]);
        }
    }
    assert forall|k: int| 0 <= k < value.len() implies low[8 + k] == text::lower_char(value[k]) by {
        assert(attrs[8 + k] == value[k]);
    }
    assert(attrs[8 + value.len() as int] == q);
    assert(low[8 + value.len() as int] == q);
    assert(low.subrange(1, 6) =~= "style"@);
    assert(!text::occurs_at(low, 0, "style"@)) by {
        if text::occurs_at(low, 0, "style"@) {
            assert(low.subrange(0, 5)[0] == 's');
        }
    }
    text::lemma_seek_seq(low, 0, "style"@);
    assert(text::occurs_at(low, 1, "style"@));
    lemma_found(low, 1, 6, '=');
    let tail = low.subrange(7, low.len() as int);
    assert(tail[0] == q);
    assert(text::trimmed_start(tail) =~= tail);
    assert forall|k: int| 1 <= k < 1 + value.len() implies tail[k] != q by {
        assert(tail[k] == low[7 + k]);
        assert(tail[k] == text::lower_char(value[k - 1]));
    }
    lemma_found(tail, 1, 1 + value.len() as int, q);
    assert(tail.subrange(1, 1 + value.len() as int) =~= text::lower(value));
}

} // verus!

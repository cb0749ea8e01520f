//! The clipboard's rich flavor: the dialect of HTML found on pasteboards, rewritten into
//! the subset that `twig` converts faithfully, and the conversions both ways.
//!
//! A paste is three steps: [`sanitize`] rewrites the clipboard's dialect, `twig`
//! converts, and [`unfaithful`] reads the result back to catch what the first step did
//! not anticipate. A failure at any step is `None`, which the caller answers by pasting
//! the plain flavor instead. So is a table: see [`holds_table`].

use vstd::prelude::*;
use crate::format::Format;
use crate::text;
use vstd::utf8::*;

verus! {

// ── tags ───────────────────────────────────────────────────────────────────────
/// A tag as it stands in a text: `end` is one past its `>`.
pub struct Tag {
    /// The element's name, in small letters.
    pub name: String,
    /// What stands between the name and the `>`.
    pub attrs: String,
    /// Whether it is a closing tag.
    pub close: bool,
    /// Whether a `/` stands before the `>`.
    pub self_closing: bool,
    /// One past the `>`.
    pub end: usize,
}

/// What a [`Tag`] says.
pub struct TagView {
    pub name: Seq<char>,
    pub attrs: Seq<char>,
    pub close: bool,
    pub self_closing: bool,
    pub end: int,
}

impl View for Tag {
    type V = TagView;

    open spec fn view(&self) -> TagView {
        TagView {
            name: self.name@,
            attrs: self.attrs@,
            close: self.close,
            self_closing: self.self_closing,
            end: self.end as int,
        }
    }
}

/// A character of an element's name.
pub open spec fn name_char(c: char) -> bool {
    text::ascii_alphabetic(c) || text::ascii_digit(c) || c == ':' || c == '-' || c == '_'
}

/// The end of the name that stands in `s` at `from`.
pub open spec fn name_end(s: Seq<char>, from: int) -> int
    decreases s.len() - from,
{
    if from < s.len() && name_char(s[from]) {
        name_end(s, from + 1)
    } else {
        from
    }
}

/// Where the `>` stands that ends a tag whose inside is read from `from`, or the end of
/// `s`. A `>` inside quotes ends nothing; `quote` is the quote that is open at `from`.
pub open spec fn tag_close(s: Seq<char>, from: int, quote: Option<char>) -> int
    decreases s.len() - from,
{
    if from >= s.len() {
        s.len() as int
    } else {
        match quote {
            Some(q) => tag_close(
                s,
                from + 1,
                if s[from] == q {
                    None
                } else {
                    quote
                },
            ),
            None => if s[from] == '>' {
                from
            } else if s[from] == '"' || s[from] == '\'' {
                tag_close(s, from + 1, Some(s[from]))
            } else {
                tag_close(s, from + 1, None)
            },
        }
    }
}

/// The tag that opens at the `<` at `lt`, or `None` where no tag name follows it or no
/// `>` ends it.
pub open spec fn tag_at(s: Seq<char>, lt: int) -> Option<TagView> {
    let close = lt + 1 < s.len() && s[lt + 1] == '/';
    let from = if close {
        lt + 2
    } else {
        lt + 1
    };
    let to = name_end(s, from);
    let gt = tag_close(s, to, None);
    if to == from || gt >= s.len() {
        None
    } else {
        let attrs = s.subrange(to, gt);
        let solid = text::trimmed_end(attrs);
        Some(
            TagView {
                name: text::lower(s.subrange(from, to)),
                attrs,
                close,
                self_closing: solid.len() > 0 && solid.last() == '/',
                end: gt + 1,
            },
        )
    }
}

proof fn lemma_name_end(s: Seq<char>, from: int)
    requires
        0 <= from <= s.len(),
    ensures
        from <= name_end(s, from) <= s.len(),
    decreases s.len() - from,
{
    if from < s.len() && name_char(s[from]) {
        lemma_name_end(s, from + 1);
    }
}

proof fn lemma_tag_close(s: Seq<char>, from: int, quote: Option<char>)
    requires
        0 <= from <= s.len(),
    ensures
        from <= tag_close(s, from, quote) <= s.len(),
    decreases s.len() - from,
{
    if from < s.len() {
        match quote {
            Some(q) => {
                lemma_tag_close(
                    s,
                    from + 1,
                    if s[from] == q {
                        None
                    } else {
                        quote
                    },
                );
            },
            None => {
                if s[from] == '"' || s[from] == '\'' {
                    lemma_tag_close(s, from + 1, Some(s[from]));
                } else if s[from] != '>' {
                    lemma_tag_close(s, from + 1, None);
                }
            },
        }
    }
}

/// A tag ends past the `<` that opens it, and inside the text.
pub proof fn lemma_tag_at(s: Seq<char>, lt: int)
    requires
        0 <= lt < s.len(),
    ensures
        tag_at(s, lt) matches Some(tag) ==> lt < tag.end <= s.len(),
{
    let close = lt + 1 < s.len() && s[lt + 1] == '/';
    let from = if close {
        lt + 2
    } else {
        lt + 1
    };
    lemma_name_end(s, from);
    lemma_tag_close(s, name_end(s, from), None);
}

/// Whether `c` may stand in an element's name.
fn is_name_char(c: char) -> (r: bool)
    ensures
        r == name_char(c),
{
    text::is_ascii_alphabetic(c) || text::is_ascii_digit(c) || c == ':' || c == '-' || c == '_'
}

/// Parse the tag that opens at `lt`, which holds a `<`, or `None` when what follows is
/// no tag.
pub fn parse_tag(html: &[char], lt: usize) -> (r: Option<Tag>)
    requires
        lt < html@.len(),
    ensures
        match r {
            Some(tag) => tag_at(html@, lt as int) == Some(tag@) && lt < tag.end <= html@.len(),
            None => tag_at(html@, lt as int) is None,
        },
{
    let close = html.len() - lt > 1 && html[lt + 1] == '/';
    let from: usize = if close {
        lt + 2
    } else {
        lt + 1
    };
    let mut to: usize = from;
    while to < html.len() && is_name_char(html[to])
        invariant
            from <= to <= html@.len(),
            name_end(html@, from as int) == name_end(html@, to as int),
        decreases html@.len() - to,
    {
        to = to + 1;
    }
    proof {
        lemma_tag_at(html@, lt as int);
        lemma_tag_close(html@, to as int, None);
    }
    if to == from {
        return None;
    }
    let mut gt: usize = to;
    let mut quote: Option<char> = None;
    while gt < html.len() && (quote.is_some() || html[gt] != '>')
        invariant
            to <= gt <= html@.len(),
            tag_close(html@, to as int, None) == tag_close(html@, gt as int, quote),
        decreases html@.len() - gt,
    {
        let c = html[gt];
        match quote {
            Some(q) => {
                if c == q {
                    quote = None;
                }
            },
            None => {
                if c == '"' || c == '\'' {
                    quote = Some(c);
                }
            },
        }
        gt = gt + 1;
    }
    if gt >= html.len() {
        return None;
    }
    let solid = text::skip_space_back(html, to, gt);
    proof {
        lemma_space_start_within(html@, to as int, gt as int, gt as int);
        text::lemma_space_start(html@, to as int, gt as int);
    }
    Some(
        Tag {
            name: text::lower_string(html, from, to),
            attrs: text::string_of(html, to, gt),
            close,
            self_closing: solid > to && html[solid - 1] == '/',
            end: gt + 1,
        },
    )
}

/// The white space at the end of a part of a text, read in the part or in the whole.
proof fn lemma_space_start_within(s: Seq<char>, from: int, to: int, at: int)
    requires
        0 <= from <= at <= to <= s.len(),
    ensures
        text::space_start(s.subrange(from, to), 0, at - from) == text::space_start(s, from, at) - from,
    decreases at - from,
{
    if from < at && text::whitespace(s[at - 1]) {
        lemma_space_start_within(s, from, to, at - 1);
    }
}

// ── styles ─────────────────────────────────────────────────────────────────────
/// The value of the `style` attribute in the inside of a tag, in small letters: empty
/// where there is none, or its quotes do not close.
pub open spec fn style_value(attrs: Seq<char>) -> Seq<char> {
    let low = text::lower(attrs);
    match text::seek_seq(low, 0, "style"@) {
        None => Seq::empty(),
        Some(at) => {
            let eq = text::seek(low, at, '=');
            if eq >= low.len() {
                Seq::empty()
            } else {
                let rest = text::trimmed_start(low.subrange(eq + 1, low.len() as int));
                if rest.len() > 0 && (rest[0] == '"' || rest[0] == '\'') {
                    let end = text::seek(rest, 1, rest[0]);
                    if end >= rest.len() {
                        Seq::empty()
                    } else {
                        rest.subrange(1, end)
                    }
                } else {
                    rest.subrange(0, text::word_end(rest, 0))
                }
            }
        },
    }
}

/// The value of the first declaration of `prop` in a style that is read from `from`:
/// declarations stand between `;`, and a declaration without a `:` declares nothing.
pub open spec fn declared(style: Seq<char>, from: int, prop: Seq<char>) -> Option<Seq<char>>
    decreases style.len() - from,
    when 0 <= from
{
    if from > style.len() {
        None
    } else {
        let end = text::seek(style, from, ';');
        let colon = text::seek(style, from, ':');
        if colon < end && text::trimmed(style.subrange(from, colon)) == prop {
            Some(text::trimmed(style.subrange(colon + 1, end)))
        } else if end >= style.len() {
            None
        } else {
            proof {
                text::lemma_seek(style, from, ';');
            }
            declared(style, end + 1, prop)
        }
    }
}

/// The emphasis that the CSS of a `<span>` spells, as the tags that spell it: bold for a
/// weight of `bold` or of 600 and more, else italic for an italic or oblique style.
pub open spec fn emphasis(attrs: Seq<char>) -> Option<(Seq<char>, Seq<char>)> {
    let style = style_value(attrs);
    let bold = match declared(style, 0, "font-weight"@) {
        Some(weight) => weight == "bold"@ || (match text::parsed(weight) {
            Some(n) => 600 <= n <= u32::MAX,
            None => false,
        }),
        None => false,
    };
    if bold {
        Some(("<strong>"@, "</strong>"@))
    } else {
        match declared(style, 0, "font-style"@) {
            Some(slant) => if slant == "italic"@ || slant == "oblique"@ {
                Some(("<em>"@, "</em>"@))
            } else {
                None
            },
            None => None,
        }
    }
}

/// Whether a tag's CSS says that it is not bold.
pub open spec fn unbolded(attrs: Seq<char>) -> bool {
    match declared(style_value(attrs), 0, "font-weight"@) {
        Some(weight) => weight == "normal"@ || weight == "400"@,
        None => false,
    }
}

/// The `style` attribute's value, in small letters.
pub fn style_of(attrs: &str) -> (r: String)
    ensures
        r@ == style_value(attrs@),
{
    let given = text::chars_of(attrs);
    let low = text::lower_chars(given.as_slice());
    let name = text::chars_of("style");
    let at = match text::find_seq(low.as_slice(), 0, name.as_slice()) {
        Some(at) => at,
        None => return String::new(),
    };
    let eq = text::find_char(low.as_slice(), at, '=');
    if eq >= low.len() {
        return String::new();
    }
    let from = text::skip_space(low.as_slice(), eq + 1, low.len());
    let ghost tail = low@.subrange(eq + 1, low@.len() as int);
    let ghost rest = text::trimmed_start(tail);
    proof {
        lemma_space_end_within(low@, eq + 1, low@.len() as int, eq + 1);
        text::lemma_space_end(low@, eq + 1, low@.len() as int);
        assert(rest =~= low@.subrange(from as int, low@.len() as int));
    }
    if from < low.len() && (low[from] == '"' || low[from] == '\'') {
        let end = text::find_char(low.as_slice(), from + 1, low[from]);
        proof {
            lemma_seek_within(low@, from as int, from + 1, low@[from as int]);
            assert(end < low@.len() ==> rest.subrange(1, end - from) =~= low@.subrange(
                from + 1,
                end as int,
            ));
        }
        if end >= low.len() {
            return String::new();
        }
        return text::string_of(low.as_slice(), from + 1, end);
    }
    let to = text::find_word_end(low.as_slice(), from);
    proof {
        lemma_word_end_within(low@, from as int, from as int);
    }
    assert(rest.subrange(0, to - from) =~= low@.subrange(from as int, to as int));
    text::string_of(low.as_slice(), from, to)
}

/// The white space at the start of a part of a text, read in the part or in the whole.
proof fn lemma_space_end_within(s: Seq<char>, from: int, to: int, at: int)
    requires
        0 <= from <= at <= to <= s.len(),
    ensures
        text::space_end(s.subrange(from, to), at - from, to - from) == text::space_end(s, at, to)
            - from,
    decreases to - at,
{
    if at < to && text::whitespace(s[at]) {
        lemma_space_end_within(s, from, to, at + 1);
    }
}

/// The end of a run without white space, read in the tail of a text or in the whole.
proof fn lemma_word_end_within(s: Seq<char>, from: int, at: int)
    requires
        0 <= from <= at <= s.len(),
    ensures
        text::word_end(s.subrange(from, s.len() as int), at - from) == text::word_end(s, at) - from,
    decreases s.len() - at,
{
    if at < s.len() && !text::whitespace(s[at]) {
        lemma_word_end_within(s, from, at + 1);
    }
}

/// A character sought in the tail of a text, or in the whole.
proof fn lemma_seek_within(s: Seq<char>, from: int, at: int, c: char)
    requires
        0 <= from <= at <= s.len(),
    ensures
        text::seek(s.subrange(from, s.len() as int), at - from, c) == text::seek(s, at, c) - from,
    decreases s.len() - at,
{
    if at < s.len() && s[at] != c {
        lemma_seek_within(s, from, at + 1, c);
    }
}

/// One declaration's value out of a `style` attribute in small letters.
pub fn css_value(style: &str, prop: &str) -> (r: Option<String>)
    ensures
        match r {
            Some(value) => declared(style@, 0, prop@) == Some(value@),
            None => declared(style@, 0, prop@) is None,
        },
{
    let chars = text::chars_of(style);
    let mut from: usize = 0;
    loop
        invariant
            from <= chars@.len(),
            chars@ == style@,
            declared(style@, 0, prop@) == declared(style@, from as int, prop@),
        decreases chars@.len() - from,
    {
        let end = text::find_char(chars.as_slice(), from, ';');
        let colon = text::find_char(chars.as_slice(), from, ':');
        if colon < end {
            let key = text::string_of(chars.as_slice(), from, colon);
            if text::str_eq(text::trim(key.as_str()).as_str(), prop) {
                let value = text::string_of(chars.as_slice(), colon + 1, end);
                return Some(text::trim(value.as_str()));
            }
        }
        if end >= chars.len() {
            return None;
        }
        from = end + 1;
    }
}

/// The emphasis a `<span>`'s CSS spells, as an open and a close tag. Bold before italic:
/// a span is one tag and can only become one.
pub fn css_emphasis(attrs: &str) -> (r: Option<(&'static str, &'static str)>)
    ensures
        match r {
            Some(pair) => emphasis(attrs@) == Some((pair.0@, pair.1@)),
            None => emphasis(attrs@) is None,
        },
{
    let style = style_of(attrs);
    let bold = match css_value(style.as_str(), "font-weight") {
        Some(weight) => {
            let digits = text::chars_of(weight.as_str());
            text::str_eq(weight.as_str(), "bold") || (match text::parse_decimal(
                digits.as_slice(),
                u32::MAX as u64,
            ) {
                Some(n) => n >= 600,
                None => false,
            })
        },
        None => false,
    };
    if bold {
        return Some(("<strong>", "</strong>"));
    }
    match css_value(style.as_str(), "font-style") {
        Some(slant) => {
            if text::str_eq(slant.as_str(), "italic") || text::str_eq(slant.as_str(), "oblique") {
                Some(("<em>", "</em>"))
            } else {
                None
            }
        },
        None => None,
    }
}

/// Whether a `<b>` or `<strong>` is explicitly styled *un*-bold.
pub fn is_unbolded(attrs: &str) -> (r: bool)
    ensures
        r == unbolded(attrs@),
{
    let style = style_of(attrs);
    match css_value(style.as_str(), "font-weight") {
        Some(weight) => text::str_eq(weight.as_str(), "normal") || text::str_eq(
            weight.as_str(),
            "400",
        ),
        None => false,
    }
}

// ── the rewriting ──────────────────────────────────────────────────────────────
/// Elements whose content is not prose and goes with them.
pub open spec fn drop_tree(name: Seq<char>) -> bool {
    name == "script"@ || name == "style"@ || name == "head"@ || name == "title"@
}

/// Void elements that carry no text.
pub open spec fn drop_tag(name: Seq<char>) -> bool {
    name == "meta"@ || name == "link"@ || name == "base"@
}

/// Elements without content and without a close tag.
pub open spec fn void_element(name: Seq<char>) -> bool {
    ||| name == "br"@
    ||| name == "img"@
    ||| name == "hr"@
    ||| name == "input"@
    ||| name == "col"@
    ||| name == "area"@
    ||| name == "source"@
    ||| name == "wbr"@
    ||| name == "embed"@
}

/// An open element and the close tag that is owed to it: `None` closes it as it came.
pub struct Owed {
    pub name: String,
    pub close: Option<&'static str>,
}

/// What an [`Owed`] says.
pub struct OwedView {
    pub name: Seq<char>,
    pub close: Option<Seq<char>>,
}

impl View for Owed {
    type V = OwedView;

    open spec fn view(&self) -> OwedView {
        OwedView {
            name: self.name@,
            close: match self.close {
                Some(close) => Some(close@),
                None => None,
            },
        }
    }
}

/// What the open elements are owed, innermost last.
pub open spec fn owed_views(owed: Seq<Owed>) -> Seq<OwedView> {
    Seq::new(owed.len(), |i: int| owed[i]@)
}

/// The innermost open element of that name.
pub open spec fn innermost(owed: Seq<OwedView>, name: Seq<char>) -> Option<int>
    decreases owed.len(),
{
    if owed.len() == 0 {
        None
    } else if owed.last().name == name {
        Some(owed.len() - 1)
    } else {
        innermost(owed.drop_last(), name)
    }
}

/// The tags that an opening tag is rewritten to: `None` leaves it as it came.
pub open spec fn rewritten(tag: TagView) -> Option<(Seq<char>, Seq<char>)> {
    if tag.name == "div"@ {
        Some(("<p>"@, "</p>"@))
    } else if tag.name == "span"@ {
        match emphasis(tag.attrs) {
            Some(pair) => Some(pair),
            None => Some((""@, ""@)),
        }
    } else if (tag.name == "b"@ || tag.name == "strong"@) && unbolded(tag.attrs) {
        Some((""@, ""@))
    } else {
        None
    }
}

/// Whether the close tag of the element `name` begins in `low` at `at`: its name ends
/// there, so that of an element whose name goes on is another's.
pub open spec fn closes_at(low: Seq<char>, at: int, name: Seq<char>) -> bool {
    let end = at + 2 + name.len();
    text::occurs_at(low, at, "</"@ + name) && (end < low.len() ==> !name_char(low[end]))
}

/// The first place at or after `from` where the close tag of the element `name` begins.
pub open spec fn close_of(low: Seq<char>, from: int, name: Seq<char>) -> Option<int>
    decreases low.len() - from,
{
    if from >= low.len() {
        None
    } else if closes_at(low, from, name) {
        Some(from)
    } else {
        close_of(low, from + 1, name)
    }
}

/// Past the close tag of the element `name` whose content starts at `from`, or the end
/// where it never closes.
pub open spec fn tree_end(s: Seq<char>, from: int, name: Seq<char>) -> int {
    let low = text::lower(s);
    match close_of(low, from, name) {
        Some(at) => {
            let gt = text::seek(low, at, '>');
            if gt < s.len() {
                gt + 1
            } else {
                s.len() as int
            }
        },
        None => s.len() as int,
    }
}

/// A close tag is found inside the text, no earlier than it is sought from.
proof fn lemma_close_of(low: Seq<char>, from: int, name: Seq<char>)
    ensures
        close_of(low, from, name) matches Some(at) ==> from <= at < low.len(),
    decreases low.len() - from,
{
    if from < low.len() && !closes_at(low, from, name) {
        lemma_close_of(low, from + 1, name);
    }
}

/// One markup item read: what it leaves in the output, where reading goes on, and what
/// the open elements are owed after it.
pub struct Step {
    pub out: Seq<char>,
    pub next: int,
    pub owed: Seq<OwedView>,
}

/// A closing tag: it closes the innermost open element of its name, as that element is
/// owed, and with it what was opened inside.
pub open spec fn close_step(s: Seq<char>, lt: int, tag: TagView, owed: Seq<OwedView>) -> Step {
    match innermost(owed, tag.name) {
        Some(at) => Step {
            out: match owed[at].close {
                Some(close) => close,
                None => s.subrange(lt, tag.end),
            },
            next: tag.end,
            owed: owed.take(at),
        },
        None => Step {
            out: if drop_tree(tag.name) || drop_tag(tag.name) {
                Seq::empty()
            } else {
                s.subrange(lt, tag.end)
            },
            next: tag.end,
            owed,
        },
    }
}

/// An opening tag: dropped, rewritten or left as it came.
pub open spec fn open_step(s: Seq<char>, lt: int, tag: TagView, owed: Seq<OwedView>) -> Step {
    if drop_tree(tag.name) {
        Step { out: Seq::empty(), next: tree_end(s, tag.end, tag.name), owed }
    } else if drop_tag(tag.name) {
        Step { out: Seq::empty(), next: tag.end, owed }
    } else {
        match rewritten(tag) {
            Some(pair) => Step {
                out: pair.0,
                next: tag.end,
                owed: if tag.self_closing {
                    owed
                } else {
                    owed.push(OwedView { name: tag.name, close: Some(pair.1) })
                },
            },
            None => Step {
                out: s.subrange(lt, tag.end),
                next: tag.end,
                owed: if tag.self_closing || void_element(tag.name) {
                    owed
                } else {
                    owed.push(OwedView { name: tag.name, close: None })
                },
            },
        }
    }
}

/// What the `<` at `lt` begins: a comment or a declaration, which go, a tag, or nothing,
/// which leaves the `<` as text.
pub open spec fn markup_step(s: Seq<char>, lt: int, owed: Seq<OwedView>) -> Step {
    if text::occurs_at(s, lt, "<!--"@) {
        Step {
            out: Seq::empty(),
            next: match text::seek_seq(s, lt + 4, "-->"@) {
                Some(at) => at + 3,
                None => s.len() as int,
            },
            owed,
        }
    } else if text::occurs_at(s, lt, "<!"@) {
        let gt = text::seek(s, lt, '>');
        Step {
            out: Seq::empty(),
            next: if gt < s.len() {
                gt + 1
            } else {
                s.len() as int
            },
            owed,
        }
    } else {
        match tag_at(s, lt) {
            Some(tag) => if tag.close {
                close_step(s, lt, tag, owed)
            } else {
                open_step(s, lt, tag, owed)
            },
            None => Step { out: seq!['<'], next: lt + 1, owed },
        }
    }
}

/// Reading goes on past the `<`, inside the text.
pub proof fn lemma_markup_step(s: Seq<char>, lt: int, owed: Seq<OwedView>)
    requires
        0 <= lt < s.len(),
    ensures
        lt < markup_step(s, lt, owed).next <= s.len(),
{
    reveal_strlit("<!--");
    reveal_strlit("-->");
    text::lemma_seek(s, lt, '>');
    text::lemma_seek_seq(s, lt + 4, "-->"@);
    lemma_tag_at(s, lt);
    if let Some(tag) = tag_at(s, lt) {
        let low = text::lower(s);
        lemma_close_of(low, tag.end, tag.name);
        if let Some(at) = close_of(low, tag.end, tag.name) {
            text::lemma_seek(low, at, '>');
        }
    }
}

/// The rewriting of `s` from `from` on, with the elements open there.
pub open spec fn rewrite_from(s: Seq<char>, from: int, owed: Seq<OwedView>) -> Seq<char>
    decreases s.len() - from,
    when 0 <= from
{
    if from >= s.len() {
        Seq::empty()
    } else {
        let lt = text::seek(s, from, '<');
        if lt >= s.len() {
            s.subrange(from, s.len() as int)
        } else {
            let step = markup_step(s, lt, owed);
            proof {
                text::lemma_seek(s, from, '<');
                lemma_markup_step(s, lt, owed);
            }
            s.subrange(from, lt) + step.out + rewrite_from(s, step.next, step.owed)
        }
    }
}

/// Clipboard HTML in the subset that converts faithfully:
///
/// - comments and declarations go;
/// - elements that hold no prose go, with their content or alone;
/// - `<div>` becomes `<p>`;
/// - a `<span>` that spells bold or italic in CSS becomes `<strong>` or `<em>`, and any
///   other goes;
/// - a `<b>` or `<strong>` styled un-bold goes.
pub open spec fn sanitized(s: Seq<char>) -> Seq<char> {
    rewrite_from(s, 0, Seq::empty())
}

fn is_drop_tree(name: &str) -> (r: bool)
    ensures
        r == drop_tree(name@),
{
    text::str_eq(name, "script") || text::str_eq(name, "style") || text::str_eq(name, "head")
        || text::str_eq(name, "title")
}

fn is_drop_tag(name: &str) -> (r: bool)
    ensures
        r == drop_tag(name@),
{
    text::str_eq(name, "meta") || text::str_eq(name, "link") || text::str_eq(name, "base")
}

fn is_void(name: &str) -> (r: bool)
    ensures
        r == void_element(name@),
{
    text::str_eq(name, "br") || text::str_eq(name, "img") || text::str_eq(name, "hr")
        || text::str_eq(name, "input") || text::str_eq(name, "col") || text::str_eq(name, "area")
        || text::str_eq(name, "source") || text::str_eq(name, "wbr") || text::str_eq(name, "embed")
}

/// Past `</name>`, or the end when the fragment never closes it.
pub fn skip_tree(html: &[char], from: usize, name: &str) -> (r: usize)
    requires
        from <= html@.len(),
    ensures
        r == tree_end(html@, from as int, name@),
        from <= r <= html@.len(),
{
    let mut needle = text::chars_of("</");
    text::append_str(&mut needle, name);
    proof {
        reveal_strlit("</");
    }
    let low = text::lower_chars(html);
    let mut at: usize = from;
    while at < low.len()
        invariant
            from <= at <= low@.len() == html@.len(),
            low@ == text::lower(html@),
            needle@ == "</"@ + name@,
            needle@.len() == name@.len() + 2,
            close_of(low@, from as int, name@) == close_of(low@, at as int, name@),
        decreases low@.len() - at,
    {
        if text::needle_at(low.as_slice(), at, needle.as_slice()) && (needle.len() >= low.len() - at
            || !is_name_char(low[at + needle.len()])) {
            proof {
                text::lemma_seek(low@, at as int, '>');
            }
            let gt = text::find_char(low.as_slice(), at, '>');
            return if gt < html.len() {
                gt + 1
            } else {
                html.len()
            };
        }
        at = at + 1;
    }
    html.len()
}

/// The tags that an opening tag is rewritten to.
fn rewrite_of(tag: &Tag) -> (r: Option<(&'static str, &'static str)>)
    ensures
        match r {
            Some(pair) => rewritten(tag@) == Some((pair.0@, pair.1@)),
            None => rewritten(tag@) is None,
        },
{
    let name = tag.name.as_str();
    if text::str_eq(name, "div") {
        Some(("<p>", "</p>"))
    } else if text::str_eq(name, "span") {
        match css_emphasis(tag.attrs.as_str()) {
            Some(pair) => Some(pair),
            None => Some(("", "")),
        }
    } else if (text::str_eq(name, "b") || text::str_eq(name, "strong")) && is_unbolded(
        tag.attrs.as_str(),
    ) {
        Some(("", ""))
    } else {
        None
    }
}

/// The innermost open element of that name.
fn find_innermost(owed: &Vec<Owed>, name: &str) -> (r: Option<usize>)
    ensures
        match r {
            Some(at) => innermost(owed_views(owed@), name@) == Some(at as int) && at < owed@.len(),
            None => innermost(owed_views(owed@), name@) is None,
        },
{
    let ghost views = owed_views(owed@);
    let mut at: usize = owed.len();
    assert(views.take(at as int) == views);
    while at > 0
        invariant
            at <= owed@.len(),
            views == owed_views(owed@),
            innermost(views, name@) == innermost(views.take(at as int), name@),
        decreases at,
    {
        assert(views.take(at as int).drop_last() == views.take(at - 1));
        at = at - 1;
        if text::str_eq(owed[at].name.as_str(), name) {
            return Some(at);
        }
    }
    None
}

/// Rewrite clipboard HTML into the subset that converts faithfully.
pub fn sanitize(html: &str) -> (r: String)
    ensures
        r@ == sanitized(html@),
{
    let chars = text::chars_of(html);
    let html = chars.as_slice();
    let mut out: Vec<char> = Vec::new();
    let mut owed: Vec<Owed> = Vec::new();
    let mut i: usize = 0;
    assert(owed_views(owed@) == Seq::<OwedView>::empty());
    while i < html.len()
        invariant
            i <= html@.len(),
            sanitized(html@) == out@ + rewrite_from(html@, i as int, owed_views(owed@)),
        decreases html@.len() - i,
    {
        let ghost before = out@;
        let ghost views = owed_views(owed@);
        let ghost from = i as int;
        let lt = text::find_char(html, i, '<');
        text::append_chars(&mut out, html, i, lt);
        if lt >= html.len() {
            i = html.len();
            assert(rewrite_from(html@, i as int, views) == Seq::<char>::empty());
            continue;
        }
        let ghost step = markup_step(html@, lt as int, views);
        let ghost kept = out@;
        proof {
            lemma_markup_step(html@, lt as int, views);
            reveal_strlit("<!--");
            reveal_strlit("-->");
            reveal_strlit("<!");
            reveal_strlit("");
            text::lemma_seek_seq(html@, lt + 4, "-->"@);
        }
        if text::starts_at(html, lt, "<!--") {
            let close = text::chars_of("-->");
            i = match text::find_seq(html, lt + 4, close.as_slice()) {
                Some(at) => at + 3,
                None => html.len(),
            };
        } else if text::starts_at(html, lt, "<!") {
            let gt = text::find_char(html, lt, '>');
            i = if gt < html.len() {
                gt + 1
            } else {
                html.len()
            };
        } else {
            match parse_tag(html, lt) {
                None => {
                    out.push('<');
                    i = lt + 1;
                },
                Some(tag) => {
                    i = tag.end;
                    if tag.close {
                        match find_innermost(&owed, tag.name.as_str()) {
                            Some(at) => {
                                match owed[at].close {
                                    Some(close) => text::append_str(&mut out, close),
                                    None => text::append_chars(&mut out, html, lt, tag.end),
                                }
                                owed.truncate(at);
                                assert(owed_views(owed@) =~= views.take(at as int));
                            },
                            None => {
                                if !is_drop_tree(tag.name.as_str()) && !is_drop_tag(
                                    tag.name.as_str(),
                                ) {
                                    text::append_chars(&mut out, html, lt, tag.end);
                                }
                            },
                        }
                    } else if is_drop_tree(tag.name.as_str()) {
                        i = skip_tree(html, tag.end, tag.name.as_str());
                    } else if !is_drop_tag(tag.name.as_str()) {
                        match rewrite_of(&tag) {
                            Some((open, close)) => {
                                text::append_str(&mut out, open);
                                if !tag.self_closing {
                                    let owing = Owed { name: tag.name, close: Some(close) };
                                    owed.push(owing);
                                    assert(owed_views(owed@) =~= views.push(owing@));
                                }
                            },
                            None => {
                                text::append_chars(&mut out, html, lt, tag.end);
                                if !tag.self_closing && !is_void(tag.name.as_str()) {
                                    let owing = Owed { name: tag.name, close: None };
                                    owed.push(owing);
                                    assert(owed_views(owed@) =~= views.push(owing@));
                                }
                            },
                        }
                    }
                },
            }
        }
        proof {
            assert(i == step.next);
            assert(owed_views(owed@) == step.owed);
            assert(out@ =~= kept + step.out);
            assert(before + (html@.subrange(from, lt as int) + step.out + rewrite_from(
                html@,
                step.next,
                step.owed,
            )) =~= out@ + rewrite_from(html@, step.next, step.owed));
        }
    }
    assert(out@ + Seq::<char>::empty() =~= out@);
    text::string_of(out.as_slice(), 0, out.len())
}

// ── what is left to the plain flavor ───────────────────────────────────────────
/// Whether a text holds a tag of a table from `from` on. What stands inside a tag is read
/// with it.
pub open spec fn tabular_from(s: Seq<char>, from: int) -> bool
    decreases s.len() - from,
    when 0 <= from
{
    let lt = text::seek(s, from, '<');
    if from >= s.len() || lt >= s.len() {
        false
    } else {
        proof {
            text::lemma_seek(s, from, '<');
            lemma_tag_at(s, lt);
        }
        match tag_at(s, lt) {
            Some(tag) => tag.name == "table"@ || tabular_from(s, tag.end),
            None => tabular_from(s, lt + 1),
        }
    }
}

/// Whether a text holds a tag of a table.
pub open spec fn tabular(s: Seq<char>) -> bool {
    tabular_from(s, 0)
}

/// Whether a text holds a table, which is no prose to paste at a caret.
pub fn holds_table(html: &str) -> (r: bool)
    ensures
        r == tabular(html@),
{
    let chars = text::chars_of(html);
    let s = chars.as_slice();
    let mut from: usize = 0;
    while from < s.len()
        invariant
            from <= s@.len(),
            s@ == html@,
            tabular(html@) == tabular_from(html@, from as int),
        decreases s@.len() - from,
    {
        let lt = text::find_char(s, from, '<');
        if lt >= s.len() {
            return false;
        }
        match parse_tag(s, lt) {
            Some(tag) => {
                if text::str_eq(tag.name.as_str(), "table") {
                    return true;
                }
                from = tag.end;
            },
            None => {
                from = lt + 1;
            },
        }
    }
    false
}

// ── reading a conversion back ──────────────────────────────────────────────────
/// Whether a line of `s` starts at `at`.
pub open spec fn line_starts(s: Seq<char>, at: int) -> bool {
    0 <= at <= s.len() && (at == 0 || s[at - 1] == '\n')
}

/// Whether the line that starts at `at` begins, past its white space, with a `:::` fence
/// or with a raw tag.
pub open spec fn line_unfaithful(s: Seq<char>, at: int) -> bool {
    let end = text::seek(s, at, '\n');
    let from = text::space_end(s, at, end);
    ||| text::occurs_at(s, from, ":::"@)
    ||| from + 1 < end && s[from] == '<' && (text::ascii_alphabetic(s[from + 1]) || s[from + 1]
        == '/')
}

/// Whether a converted source still carries markup that was not understood.
pub open spec fn carries_markup(s: Seq<char>) -> bool {
    exists|at: int| line_starts(s, at) && #[trigger] line_unfaithful(s, at)
}

/// Whether a converted source still carries markup that was not understood: a line that
/// is a `:::` fence marker, or one that is still a raw tag.
pub fn unfaithful(source: &str) -> (r: bool)
    ensures
        r == carries_markup(source@),
{
    let chars = text::chars_of(source);
    let mut at: usize = 0;
    loop
        invariant
            at <= chars@.len(),
            chars@ == source@,
            line_starts(source@, at as int),
            forall|k: int| k < at && line_starts(source@, k) ==> !#[trigger] line_unfaithful(
                source@,
                k,
            ),
        decreases chars@.len() - at,
    {
        let end = text::find_char(chars.as_slice(), at, '\n');
        let from = text::skip_space(chars.as_slice(), at, end);
        if text::starts_at(chars.as_slice(), from, ":::") || (end - from > 1 && chars[from] == '<'
            && (text::is_ascii_alphabetic(chars[from + 1]) || chars[from + 1] == '/')) {
            assert(line_unfaithful(source@, at as int));
            return true;
        }
        proof {
            assert(!line_unfaithful(source@, at as int));
            text::lemma_seek(source@, at as int, '\n');
        }
        if end >= chars.len() {
            assert forall|k: int| line_starts(source@, k) implies !#[trigger] line_unfaithful(
                source@,
                k,
            ) by {
                if k > at {
                    assert(source@[k - 1] == '\n');
                }
            }
            return false;
        }
        assert forall|k: int| k < end + 1 && line_starts(source@, k) implies !#[trigger] line_unfaithful(
            source@,
            k,
        ) by {
            if k > at {
                assert(source@[k - 1] == '\n');
            }
        }
        at = end + 1;
    }
}

/// Whether the `<` at `lt` begins a tag that opens a paragraph.
pub open spec fn paragraph_tag(s: Seq<char>, lt: int) -> bool {
    0 <= lt < s.len() && s[lt] == '<' && (tag_at(s, lt) matches Some(tag) && tag.name == "p"@
        && !tag.close)
}

/// Whether a paragraph is opened in a text.
pub open spec fn opens_paragraph(s: Seq<char>) -> bool {
    exists|lt: int| #[trigger] paragraph_tag(s, lt)
}

/// Whether a paragraph is opened in a text.
fn holds_paragraph(s: &[char]) -> (r: bool)
    ensures
        r == opens_paragraph(s@),
{
    let mut i: usize = 0;
    while i < s.len()
        invariant
            i <= s@.len(),
            forall|lt: int| lt < i ==> !#[trigger] paragraph_tag(s@, lt),
        decreases s@.len() - i,
    {
        if s[i] == '<' {
            if let Some(tag) = parse_tag(s, i) {
                if !tag.close && text::str_eq(tag.name.as_str(), "p") {
                    assert(paragraph_tag(s@, i as int));
                    return true;
                }
            }
        }
        assert(!paragraph_tag(s@, i as int));
        i = i + 1;
    }
    false
}

/// The inside of a sole wrapping `<p>`, white space around it aside; anything else, a second
/// paragraph among it, as it came.
pub open spec fn lone_paragraph(html: Seq<char>) -> Seq<char> {
    let t = text::trimmed(html);
    let inner = t.subrange(3, t.len() - 4);
    if t.len() >= 7 && text::occurs_at(t, 0, "<p>"@) && text::occurs_at(t, t.len() - 4, "</p>"@)
        && !opens_paragraph(inner) {
        inner
    } else {
        html
    }
}

/// Strip a sole wrapping `<p>`, for a selection that lives inside one block.
///
/// It declines when the render is anything but one paragraph, so a multi-block selection
/// keeps its structure.
pub fn strip_sole_paragraph(html: String) -> (r: String)
    ensures
        r@ == lone_paragraph(html@),
{
    let trimmed = text::trim(html.as_str());
    let chars = text::chars_of(trimmed.as_str());
    let t = chars.as_slice();
    proof {
        reveal_strlit("<p>");
        reveal_strlit("</p>");
    }
    if t.len() < 7 || !text::starts_at(t, 0, "<p>") || !text::starts_at(t, t.len() - 4, "</p>") {
        return html;
    }
    let inner = text::string_of(t, 3, t.len() - 4);
    let inside = text::chars_of(inner.as_str());
    if holds_paragraph(inside.as_slice()) {
        html
    } else {
        inner
    }
}

// ── the two conversions ────────────────────────────────────────────────────────
/// What `twig` renders a source to as HTML, or `None` where it cannot.
pub uninterp spec fn rendered(source: Seq<char>, format: Format) -> Option<Seq<u8>>;

/// What `twig` writes an HTML text as in the syntax of a format, or `None` where it
/// cannot.
pub uninterp spec fn converted(html: Seq<char>, format: Format) -> Option<Seq<u8>>;

/// The view of optional bytes.
pub open spec fn bytes_view(bytes: Option<Vec<u8>>) -> Option<Seq<u8>> {
    match bytes {
        Some(bytes) => Some(bytes@),
        None => None,
    }
}

/// The view of an optional string.
pub open spec fn string_view(text: Option<String>) -> Option<Seq<char>> {
    match text {
        Some(text) => Some(text@),
        None => None,
    }
}

/// `twig::Document::parse_str` and then `twig::Document::render_html`: what the two
/// return together is a function of the source and the format, named [`rendered`].
#[verifier::external_body]
fn twig_render(source: &str, format: Format) -> (r: Option<Vec<u8>>)
    ensures
        bytes_view(r) == rendered(source@, format),
{
    let format = match format {
        Format::Djot => twig_djot::format(),
        Format::Markdown => twig_markdown::format(),
        Format::Xml => twig_xml::format(),
        Format::Html => twig_html::format(),
    };
    twig::Document::parse_str(source, format).ok()?.render_html().ok()
}

/// `twig::Document::parse_str` on HTML and then `twig::Document::serialize`: what the two
/// return together is a function of the text and the format, named [`converted`].
#[verifier::external_body]
fn twig_convert(html: &str, format: Format) -> (r: Option<Vec<u8>>)
    ensures
        bytes_view(r) == converted(html@, format),
{
    let format = match format {
        Format::Djot => twig_djot::format(),
        Format::Markdown => twig_markdown::format(),
        Format::Xml => twig_xml::format(),
        Format::Html => twig_html::format(),
    };
    twig::Document::parse_str(html, twig_html::format()).ok()?.serialize(format).ok()
}

/// The clipboard's HTML for a render: its text without the white space around it, where
/// it is UTF-8 and there is any.
pub open spec fn published(render: Option<Seq<u8>>) -> Option<Seq<char>> {
    match render {
        Some(bytes) => if valid_utf8(bytes) && text::trimmed(decode_utf8(bytes)).len() > 0 {
            Some(text::trimmed(decode_utf8(bytes)))
        } else {
            None
        },
        None => None,
    }
}

/// `s` without the newlines at either end.
pub open spec fn bare(s: Seq<char>) -> Seq<char>
    decreases s.len(),
{
    if s.len() > 0 && s[0] == '\n' {
        bare(s.skip(1))
    } else if s.len() > 0 && s.last() == '\n' {
        bare(s.drop_last())
    } else {
        s
    }
}

/// The source to paste for a conversion: its text without the newlines around it, where
/// it is UTF-8, there is any, and no markup is left in it.
pub open spec fn pasted(conversion: Option<Seq<u8>>) -> Option<Seq<char>> {
    match conversion {
        Some(bytes) => if valid_utf8(bytes) && bare(decode_utf8(bytes)).len() > 0
            && !carries_markup(bare(decode_utf8(bytes))) {
            Some(bare(decode_utf8(bytes)))
        } else {
            None
        },
        None => None,
    }
}

/// The clipboard's HTML for a render.
pub fn publish(render: Option<Vec<u8>>) -> (r: Option<String>)
    ensures
        string_view(r) == published(bytes_view(render)),
{
    let bytes = match render {
        Some(bytes) => bytes,
        None => return None,
    };
    let ghost given = bytes@;
    match text::utf8_string(bytes) {
        Some(html) => {
            proof {
                encode_utf8_decode_utf8(html@);
            }
            let html = text::trim(html.as_str());
            if html.as_str().is_empty() {
                None
            } else {
                Some(html)
            }
        },
        None => None,
    }
}

/// The source to paste for a conversion. Only newlines are trimmed: a trailing pair of
/// spaces is a hard line break and belongs to the text.
pub fn paste(conversion: Option<Vec<u8>>) -> (r: Option<String>)
    ensures
        string_view(r) == pasted(bytes_view(conversion)),
{
    let bytes = match conversion {
        Some(bytes) => bytes,
        None => return None,
    };
    match text::utf8_string(bytes) {
        Some(source) => {
            proof {
                encode_utf8_decode_utf8(source@);
            }
            let source = trim_newlines(source.as_str());
            if source.as_str().is_empty() || unfaithful(source.as_str()) {
                None
            } else {
                Some(source)
            }
        },
        None => None,
    }
}

/// `source` without the newlines at either end.
fn trim_newlines(source: &str) -> (r: String)
    ensures
        r@ == bare(source@),
{
    let chars = text::chars_of(source);
    let mut from: usize = 0;
    assert(chars@.subrange(0, chars@.len() as int) == chars@);
    while from < chars.len() && chars[from] == '\n'
        invariant
            from <= chars@.len(),
            bare(source@) == bare(chars@.subrange(from as int, chars@.len() as int)),
        decreases chars@.len() - from,
    {
        assert(chars@.subrange(from as int, chars@.len() as int).skip(1) == chars@.subrange(
            from + 1,
            chars@.len() as int,
        ));
        from = from + 1;
    }
    let mut to: usize = chars.len();
    while to > from && chars[to - 1] == '\n'
        invariant
            from <= to <= chars@.len(),
            from < to ==> chars@[from as int] != '\n',
            bare(source@) == bare(chars@.subrange(from as int, to as int)),
        decreases to - from,
    {
        assert(chars@.subrange(from as int, to as int).drop_last() == chars@.subrange(
            from as int,
            to - 1,
        ));
        to = to - 1;
    }
    text::string_of(chars.as_slice(), from, to)
}

/// Render a `format` source fragment to HTML, for the clipboard's `text/html`.
///
/// `None` when it cannot be parsed or rendered, or renders to nothing: the caller still
/// has the plain flavor.
pub fn render_fragment(source: &str, format: Format) -> (r: Option<String>)
    ensures
        string_view(r) == published(rendered(source@, format)),
{
    publish(twig_render(source, format))
}

/// `s` from `from` on, with each `<p>` tag in it opened without attributes.
pub open spec fn unadorned_from(s: Seq<char>, from: int) -> Seq<char>
    decreases s.len() - from,
    when 0 <= from
{
    if from >= s.len() {
        Seq::empty()
    } else {
        let lt = text::seek(s, from, '<');
        if lt >= s.len() {
            s.subrange(from, s.len() as int)
        } else {
            proof {
                text::lemma_seek(s, from, '<');
                lemma_tag_at(s, lt);
            }
            match tag_at(s, lt) {
                Some(tag) => s.subrange(from, lt) + (if !tag.close && tag.name == "p"@ {
                    "<p>"@
                } else {
                    s.subrange(lt, tag.end)
                }) + unadorned_from(s, tag.end),
                None => s.subrange(from, lt + 1) + unadorned_from(s, lt + 1),
            }
        }
    }
}

/// HTML whose paragraphs have no attributes: `twig` writes one that has as a `:::` fence,
/// which is no Markdown.
pub open spec fn unadorned(s: Seq<char>) -> Seq<char> {
    unadorned_from(s, 0)
}

/// Take the attributes off the paragraphs of an HTML text.
pub fn strip_paragraph_attributes(html: &str) -> (r: String)
    ensures
        r@ == unadorned(html@),
{
    let chars = text::chars_of(html);
    let html = chars.as_slice();
    let mut out: Vec<char> = Vec::new();
    let mut i: usize = 0;
    while i < html.len()
        invariant
            i <= html@.len(),
            unadorned(html@) == out@ + unadorned_from(html@, i as int),
        decreases html@.len() - i,
    {
        let ghost before = out@;
        let ghost from = i as int;
        proof {
            text::lemma_seek(html@, from, '<');
        }
        let lt = text::find_char(html, i, '<');
        if lt >= html.len() {
            text::append_chars(&mut out, html, i, html.len());
            i = html.len();
            assert(unadorned_from(html@, i as int) == Seq::<char>::empty());
            assert(out@ + Seq::<char>::empty() == out@);
            continue;
        }
        match parse_tag(html, lt) {
            Some(tag) => {
                proof {
                    lemma_tag_at(html@, lt as int);
                }
                text::append_chars(&mut out, html, i, lt);
                if !tag.close && text::str_eq(tag.name.as_str(), "p") {
                    text::append_str(&mut out, "<p>");
                } else {
                    text::append_chars(&mut out, html, lt, tag.end);
                }
                i = tag.end;
            },
            None => {
                text::append_chars(&mut out, html, i, lt + 1);
                i = lt + 1;
            },
        }
        assert(before + unadorned_from(html@, from) == out@ + unadorned_from(html@, i as int));
    }
    assert(out@ + Seq::<char>::empty() == out@);
    text::string_of(out.as_slice(), 0, out.len())
}

/// The source to paste for clipboard HTML.
pub open spec fn taken(html: Seq<char>, format: Format) -> Option<Seq<char>> {
    if tabular(sanitized(html)) {
        None
    } else {
        pasted(converted(unadorned(sanitized(html)), format))
    }
}

/// Convert clipboard `html` to `format`'s source syntax, or `None` when it does not
/// survive the trip well enough to paste, or holds a table.
pub fn parse_fragment(html: &str, format: Format) -> (r: Option<String>)
    ensures
        string_view(r) == taken(html@, format),
{
    let cleaned = sanitize(html);
    if holds_table(cleaned.as_str()) {
        None
    } else {
        let plain = strip_paragraph_attributes(cleaned.as_str());
        paste(twig_convert(plain.as_str(), format))
    }
}

// ── what the rewriting keeps ───────────────────────────────────────────────────
/// Text without a `<` is left as it is.
pub proof fn law_text_is_kept(s: Seq<char>)
    requires
        forall|i: int| 0 <= i < s.len() ==> s[i] != '<',
    ensures
        sanitized(s) == s,
{
    text::lemma_seek(s, 0, '<');
    assert(s.subrange(0, s.len() as int) == s);
}

} // verus!

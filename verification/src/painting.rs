//! What a styled source shows.

use vstd::prelude::*;
use vstd::utf8::*;
use crate::node::{Kind, Node};
use crate::source;
use crate::style;
use crate::style::{Baseline, Role, Style};
use crate::text;

verus! {

/// Each kind of emphasis shows as itself and as nothing else: a node adds its own emphasis to
/// what it stands in and takes none away.
pub proof fn law_emphasis_adds_up(node: Node, base: Style)
    ensures
        ({
            let s = source::node_style(node, base);
            &&& s.bold == (base.bold || node.kind == Kind::Strong)
            &&& s.italic == (base.italic || node.kind == Kind::Emph)
            &&& s.underline == (base.underline || node.kind == Kind::Insert)
            &&& s.strikethrough == (base.strikethrough || node.kind == Kind::Delete)
            &&& s.baseline == Baseline::Super <==> node.kind == Kind::Superscript || (base.baseline
                == Baseline::Super && node.kind != Kind::Subscript)
            &&& s.baseline == Baseline::Sub <==> node.kind == Kind::Subscript || (base.baseline
                == Baseline::Sub && node.kind != Kind::Superscript)
            &&& (s.token, s.size, s.font, s.color) == (base.token, base.size, base.font, base.color)
        }),
{
}

/// Which part a node's text plays, it says itself, or leaves what it stands in to say.
pub proof fn law_a_node_says_its_part(node: Node, base: Style)
    ensures
        ({
            let role = source::node_style(node, base).role;
            let code = node.kind == Kind::CodeBlock || node.kind == Kind::Verbatim || node.kind
                == Kind::InlineMath || node.kind == Kind::DisplayMath || node.kind == Kind::RawBlock
                || node.kind == Kind::RawInline;
            let leads = node.kind == Kind::Link || node.kind == Kind::Url || node.kind
                == Kind::Email || node.kind == Kind::Reference || node.kind == Kind::Citation
                || node.kind == Kind::FootnoteReference || node.kind == Kind::CitationReference
                || node.kind == Kind::SubstitutionReference;
            let aside = node.kind == Kind::Comment || node.kind == Kind::Doctype || node.kind
                == Kind::ProcessingInstruction || node.kind == Kind::Cdata || node.kind
                == Kind::SoftBreak;
            &&& base.role == Role::Body ==> {
                &&& role is Heading <==> node.kind == Kind::Heading
                &&& role is Mark <==> node.kind == Kind::Mark
                &&& role == Role::Code <==> code
                &&& role == Role::Link <==> leads
                &&& role == Role::Rule <==> node.kind == Kind::ThematicBreak
                &&& role == Role::Delimiter <==> aside
            }
            &&& node.kind == Kind::Heading && (node.level matches Some(n) && 1 <= n <= 255) ==> (
            role matches Role::Heading(level) && Some(level as u32) == node.level)
            &&& role == base.role || node.kind == Kind::Heading || node.kind == Kind::Mark || code
                || leads || aside || node.kind == Kind::ThematicBreak
        }),
{
}

/// A node paints its own text and no other: its content is in its style, and what stands
/// between its ends and its content, where that is more than white space, is in the style
/// of a delimiter, with the same emphasis.
pub proof fn law_a_node_paints_its_own_text(
    paint: Seq<Style>,
    src: Seq<char>,
    node: Node,
    style: Style,
    i: int,
)
    requires
        0 <= i < paint.len(),
        node.content matches Some(c) ==> node.span.start <= c.start <= c.end <= node.span.end,
    ensures
        ({
            let after = source::node_painted(paint, src, node, style);
            let inside = node.span.start <= i < node.span.end;
            &&& after.len() == paint.len()
            &&& !inside ==> after[i] == paint[i]
            &&& inside && style.role != Role::Delimiter ==> (match node.content {
                None => after[i] == style,
                Some(c) => {
                    &&& c.start <= i < c.end ==> after[i] == style
                    &&& i < c.start && !source::no_markup(
                        src,
                        node.span.start as int,
                        c.start as int,
                    ) ==> after[i] == (Style { role: Role::Delimiter, ..style })
                    &&& c.end <= i && !source::no_markup(src, c.end as int, node.span.end as int)
                        ==> after[i] == (Style { role: Role::Delimiter, ..style })
                    &&& after[i] == style || after[i] == (Style { role: Role::Delimiter, ..style })
                },
            })
        }),
{
}

/// White space is no markup, and a character that is none is.
pub proof fn law_white_space_is_no_delimiter(src: Seq<char>, s: int, e: int)
    requires
        0 <= s <= e <= text::byte_len(src),
        text::boundary(src, s),
        text::boundary(src, e),
    ensures
        source::no_markup(src, s, e) <==> text::all_space(text::slice(src, s, e)),
{
}

/// A tree of one node in another shows the inner over the outer: what is in both is in the
/// style of the inner one, set in the style of the outer.
pub proof fn law_the_inner_node_shows(
    nodes: Seq<Node>,
    src: Seq<char>,
    outer: int,
    inner: int,
    base: Style,
    paint: Seq<Style>,
)
    requires
        0 <= outer < nodes.len() <= usize::MAX,
        0 <= inner < nodes.len(),
        nodes[outer].first_child == Some(inner as usize),
        nodes[outer].next_sibling is None,
        nodes[inner].first_child is None,
        nodes[inner].next_sibling is None,
    ensures
        ({
            let out = source::node_style(nodes[outer], base);
            source::siblings_painted(nodes, src, Some(outer as usize), base, paint, 2) == Some(
                source::node_painted(
                    source::node_painted(paint, src, nodes[outer], out),
                    src,
                    nodes[inner],
                    source::node_style(nodes[inner], out),
                ),
            )
        }),
{
    reveal_with_fuel(source::siblings_painted, 4);
}

/// Of two nodes beside each other each shows where it stands.
pub proof fn law_nodes_beside_each_other_show(
    nodes: Seq<Node>,
    src: Seq<char>,
    one: int,
    two: int,
    base: Style,
    paint: Seq<Style>,
    i: int,
)
    requires
        0 <= one < nodes.len() <= usize::MAX,
        0 <= two < nodes.len(),
        0 <= i < paint.len(),
        nodes[one].first_child is None,
        nodes[two].first_child is None,
        nodes[one].next_sibling == Some(two as usize),
        nodes[two].next_sibling is None,
        nodes[one].content is None,
        nodes[two].content is None,
        nodes[one].span.end <= nodes[two].span.start,
        source::node_style(nodes[one], base).role != Role::Delimiter,
        source::node_style(nodes[two], base).role != Role::Delimiter,
    ensures
        source::siblings_painted(nodes, src, Some(one as usize), base, paint, 2) matches Some(after)
            && after.len() == paint.len() && after[i] == (if nodes[one].span.start <= i
            < nodes[one].span.end {
            source::node_style(nodes[one], base)
        } else if nodes[two].span.start <= i < nodes[two].span.end {
            source::node_style(nodes[two], base)
        } else {
            paint[i]
        }),
{
    reveal_with_fuel(source::siblings_painted, 4);
}

/// A document without nodes is in the style of ordinary text throughout.
pub proof fn law_plain_text_is_plain(nodes: Seq<Node>, src: Seq<char>, depth: nat, i: int)
    requires
        nodes.len() == 0,
        0 <= i < text::byte_len(src),
    ensures
        source::source_painted(nodes, src, depth) matches Some(paint) && paint.len()
            == text::byte_len(src) && !paint[i].bold && !paint[i].italic && !paint[i].underline
            && !paint[i].strikethrough && paint[i].role == Role::Body && paint[i].baseline
            == Baseline::Normal && paint[i].color is None && paint[i].font is None && paint[i].size
            is None && paint[i].token is None,
{
}

/// The color of a mark is the one that its attribute names, and no other attribute counts.
pub proof fn law_a_mark_has_the_color_it_names(attrs: Seq<(String, Option<String>)>, at: int)
    requires
        0 <= at < attrs.len(),
        attrs[at].0@ == "data-color"@,
        attrs[at].1 is Some,
        forall|k: int| 0 <= k < at ==> (#[trigger] attrs[k]).0@ != "data-color"@,
    ensures
        source::color_of(attrs) == style::MarkColor::spelled(attrs[at].1->0@),
{
    law_the_first_attribute_counts(attrs, "data-color"@, at);
}

/// The value of a key is that of the first attribute of that name.
pub proof fn law_the_first_attribute_counts(
    attrs: Seq<(String, Option<String>)>,
    key: Seq<char>,
    at: int,
)
    requires
        0 <= at < attrs.len(),
        attrs[at].0@ == key,
        attrs[at].1 is Some,
        forall|k: int| 0 <= k < at ==> (#[trigger] attrs[k]).0@ != key,
    ensures
        style::attr_value(attrs, key) == Some(attrs[at].1->0@),
{
    lemma_value_from(attrs, key, 0, at);
}

proof fn lemma_value_from(
    attrs: Seq<(String, Option<String>)>,
    key: Seq<char>,
    from: int,
    at: int,
)
    requires
        0 <= from <= at < attrs.len(),
        attrs[at].0@ == key,
        attrs[at].1 is Some,
        forall|k: int| 0 <= k < at ==> (#[trigger] attrs[k]).0@ != key,
    ensures
        style::attr_value_from(attrs, key, from) == Some(attrs[at].1->0@),
    decreases at - from,
{
    if from < at {
        assert(attrs[from].0@ != key);
        lemma_value_from(attrs, key, from + 1, at);
    }
}

} // verus!

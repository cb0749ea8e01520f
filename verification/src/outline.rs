//! Questions about a document's tree: which node stands at a place.

use vstd::prelude::*;
use vstd::utf8::*;
use crate::editor;
use crate::editor::{Ancestor, AncestorView};
use crate::lines;
use crate::lists;
use crate::node;
use crate::node::{Kind, Node, NodeView, Span};
use crate::text;
use crate::visual::{MediaKind, MediaMap};

verus! {

/// What kind of node is looked for.
#[derive(Clone, Copy, PartialEq, Eq, Debug, Structural)]
pub enum Sought {
    /// A link of any spelling.
    Links,
    /// A link with a text of its own.
    Link,
    Image,
    CodeBlock,
}

/// Whether a node of a kind is one that is looked for.
pub open spec fn is_sought(kind: Kind, sought: Sought) -> bool {
    match sought {
        Sought::Links => kind == Kind::Link || kind == Kind::Url || kind == Kind::Email,
        Sought::Link => kind == Kind::Link,
        Sought::Image => kind == Kind::Image,
        Sought::CodeBlock => kind == Kind::CodeBlock,
    }
}

/// Whether a node that is looked for stands at an offset. A code block holds its end.
pub open spec fn stands_at(n: NodeView, sought: Sought, off: int) -> bool {
    is_sought(n.kind, sought) && n.span.start <= off && (off < n.span.end || (sought
        == Sought::CodeBlock && off == n.span.end))
}

/// The node that is looked for and starts last of those that stand at an offset: its
/// place in the list, the last one of those that start together.
pub open spec fn deepest_at(nodes: Seq<NodeView>, sought: Sought, off: int) -> Option<int>
    decreases nodes.len(),
{
    if nodes.len() == 0 {
        None
    } else {
        let best = deepest_at(nodes.drop_last(), sought, off);
        let n = nodes.last();
        if stands_at(n, sought, off) && (best is None || n.span.start
            >= nodes[best->0].span.start) {
            Some(nodes.len() - 1)
        } else {
            best
        }
    }
}

/// Whether a node of a kind is one that is looked for.
fn matches_sought(kind: Kind, sought: Sought) -> (r: bool)
    ensures
        r == is_sought(kind, sought),
{
    match sought {
        Sought::Links => kind == Kind::Link || kind == Kind::Url || kind == Kind::Email,
        Sought::Link => kind == Kind::Link,
        Sought::Image => kind == Kind::Image,
        Sought::CodeBlock => kind == Kind::CodeBlock,
    }
}

/// The node that is looked for and starts last of those that stand at an offset.
pub fn find_deepest(nodes: &Vec<Node>, sought: Sought, off: usize) -> (r: Option<usize>)
    ensures
        match r {
            Some(i) => deepest_at(node::node_views(nodes@), sought, off as int) == Some(i as int)
                && i < nodes@.len(),
            None => deepest_at(node::node_views(nodes@), sought, off as int) is None,
        },
{
    let ghost views = node::node_views(nodes@);
    let mut best: Option<usize> = None;
    let mut i: usize = 0;
    while i < nodes.len()
        invariant
            i <= nodes@.len(),
            views == node::node_views(nodes@),
            match best {
                Some(b) => deepest_at(views.take(i as int), sought, off as int) == Some(b as int)
                    && b < i,
                None => deepest_at(views.take(i as int), sought, off as int) is None,
            },
        decreases nodes@.len() - i,
    {
        assert(views.take(i + 1).drop_last() =~= views.take(i as int));
        let n = &nodes[i];
        assert(views.take(i + 1).last() == n@);
        let inside = n.span.start <= off && (off < n.span.end || (matches!(
            sought,
            Sought::CodeBlock
        ) && off == n.span.end));
        let later = match best {
            Some(b) => n.span.start >= nodes[b].span.start,
            None => true,
        };
        if matches_sought(n.kind, sought) && inside && later {
            best = Some(i);
        }
        i = i + 1;
    }
    assert(views.take(i as int) =~= views);
    best
}

// ── headings ───────────────────────────────────────────────────────────────────
/// The first heading, from a place in the list on, that holds an offset.
pub open spec fn heading_at(nodes: Seq<NodeView>, off: int, from: int) -> Option<int>
    decreases nodes.len() - from,
{
    if from < 0 || from >= nodes.len() {
        None
    } else if nodes[from].kind == Kind::Heading && nodes[from].span.start <= off
        <= nodes[from].span.end {
        Some(from)
    } else {
        heading_at(nodes, off, from + 1)
    }
}

/// The level of the first heading that holds an offset.
pub open spec fn level_at(nodes: Seq<NodeView>, off: int) -> Option<u32> {
    match heading_at(nodes, off, 0) {
        Some(i) => nodes[i].level,
        None => None,
    }
}

/// The level of the first heading that holds an offset.
pub fn heading_level(nodes: &Vec<Node>, off: usize) -> (r: Option<u32>)
    ensures
        r == level_at(node::node_views(nodes@), off as int),
{
    let ghost views = node::node_views(nodes@);
    let mut i: usize = 0;
    while i < nodes.len()
        invariant
            i <= nodes@.len(),
            views == node::node_views(nodes@),
            heading_at(views, off as int, 0) == heading_at(views, off as int, i as int),
        decreases nodes@.len() - i,
    {
        let n = &nodes[i];
        assert(views[i as int] == n@);
        if n.kind == Kind::Heading && n.span.start <= off && off <= n.span.end {
            return n.level;
        }
        i = i + 1;
    }
    None
}

/// Where the content of a heading starts and ends; past its end where it has none.
pub open spec fn heading_content(n: NodeView) -> (int, int) {
    match n.content {
        Some(c) => (c.start as int, c.end as int),
        None => (n.span.end as int, n.span.end as int),
    }
}

/// The first heading, from a place in the list on, whose content starts at an offset and
/// that lies in the text.
pub open spec fn heading_opening(
    nodes: Seq<NodeView>,
    source: Seq<char>,
    off: int,
    from: int,
) -> Option<(Span, int)>
    decreases nodes.len() - from,
{
    if from < 0 || from >= nodes.len() {
        None
    } else if nodes[from].kind == Kind::Heading && heading_content(nodes[from]).0 == off
        && heading_lies(nodes[from], source) {
        Some((nodes[from].span, heading_content(nodes[from]).1))
    } else {
        heading_opening(nodes, source, off, from + 1)
    }
}

/// Whether a heading and its content lie in a text, one within the other.
pub open spec fn heading_lies(n: NodeView, source: Seq<char>) -> bool {
    crate::edges::run_fits(source, n.span, n.content)
}

/// The first heading whose content starts at an offset: its range and where its content
/// ends.
pub fn find_heading_opening(nodes: &Vec<Node>, source: &str, off: usize) -> (r: Option<
    (Span, usize),
>)
    ensures
        match r {
            Some((span, end)) => heading_opening(
                node::node_views(nodes@),
                source@,
                off as int,
                0,
            ) == Some((span, end as int)) && crate::edges::fits(source@, span) && span.start <= off
                <= end <= span.end && text::boundary(source@, end as int) && text::boundary(
                source@,
                off as int,
            ),
            None => heading_opening(node::node_views(nodes@), source@, off as int, 0) is None,
        },
{
    let ghost views = node::node_views(nodes@);
    let mut i: usize = 0;
    while i < nodes.len()
        invariant
            i <= nodes@.len(),
            views == node::node_views(nodes@),
            heading_opening(views, source@, off as int, 0) == heading_opening(
                views,
                source@,
                off as int,
                i as int,
            ),
        decreases nodes@.len() - i,
    {
        let n = &nodes[i];
        assert(views[i as int] == n@);
        let (start, end): (usize, usize) = match n.content {
            Some(c) => (c.start, c.end),
            None => (n.span.end, n.span.end),
        };
        let inside = match n.content {
            Some(c) => crate::edges::span_fits(source, c) && n.span.start <= c.start && c.end
                <= n.span.end,
            None => true,
        };
        if n.kind == Kind::Heading && start == off && inside && crate::edges::span_fits(
            source,
            n.span,
        ) {
            return Some((n.span, end));
        }
        i = i + 1;
    }
    None
}

// ── lists ──────────────────────────────────────────────────────────────────────
/// Whether a node is a list item that holds an offset.
pub open spec fn item_at(n: NodeView, off: int) -> bool {
    (n.kind == Kind::ListItem || n.kind == Kind::TaskListItem) && n.span.start <= off < n.span.end
}

/// The smallest list item that holds an offset, the first of those of one size.
pub open spec fn smallest_item(nodes: Seq<NodeView>, off: int) -> Option<int>
    decreases nodes.len(),
{
    if nodes.len() == 0 {
        None
    } else {
        let best = smallest_item(nodes.drop_last(), off);
        let n = nodes.last();
        if item_at(n, off) && (best is None || n.span.end - n.span.start
            < nodes[best->0].span.end - nodes[best->0].span.start) {
            Some(nodes.len() - 1)
        } else {
            best
        }
    }
}

/// Whether the smallest list item at an offset is the first child of its parent.
pub open spec fn leads_list(nodes: Seq<NodeView>, off: int) -> bool {
    match smallest_item(nodes, off) {
        None => false,
        Some(i) => match nodes[i].parent {
            None => true,
            Some(p) => p < nodes.len() && nodes[p as int].first_child == Some(i as usize),
        },
    }
}

/// Whether a line opens with the marker of an item that is the first of its list.
pub open spec fn first_item(nodes: Seq<NodeView>, source: Seq<char>, line: int) -> bool {
    let b = encode_utf8(source);
    match lists::marker_at(b, lines::bol(b, text::least(line, text::byte_len(source)))) {
        None => false,
        Some(m) => leads_list(
            nodes,
            text::least(
                line + m.1 - lines::bol(b, text::least(line, text::byte_len(source))),
                text::byte_len(source),
            ),
        ),
    }
}

/// Whether the smallest list item at an offset is the first child of its parent.
fn item_leads(nodes: &Vec<Node>, off: usize) -> (r: bool)
    ensures
        r == leads_list(node::node_views(nodes@), off as int),
{
    let ghost views = node::node_views(nodes@);
    let mut best: Option<usize> = None;
    let mut i: usize = 0;
    while i < nodes.len()
        invariant
            i <= nodes@.len(),
            views == node::node_views(nodes@),
            match best {
                Some(b) => smallest_item(views.take(i as int), off as int) == Some(b as int) && b
                    < i && nodes@[b as int].span.start <= nodes@[b as int].span.end,
                None => smallest_item(views.take(i as int), off as int) is None,
            },
        decreases nodes@.len() - i,
    {
        assert(views.take(i + 1).drop_last() =~= views.take(i as int));
        let n = &nodes[i];
        assert(views.take(i + 1).last() == n@);
        if (n.kind == Kind::ListItem || n.kind == Kind::TaskListItem) && n.span.start <= off && off
            < n.span.end {
            let smaller = match best {
                Some(b) => n.span.end - n.span.start < nodes[b].span.end - nodes[b].span.start,
                None => true,
            };
            if smaller {
                best = Some(i);
            }
        }
        i = i + 1;
    }
    assert(views.take(i as int) =~= views);
    match best {
        Some(b) => {
            assert(views[b as int] == nodes@[b as int]@);
            match nodes[b].parent {
                Some(p) => {
                    if p < nodes.len() {
                        assert(views[p as int] == nodes@[p as int]@);
                        match nodes[p].first_child {
                            Some(c) => c == b,
                            None => false,
                        }
                    } else {
                        false
                    }
                },
                None => true,
            }
        },
        None => false,
    }
}

/// Whether the line at `line` opens with the marker of an item that is the first of its
/// list: an item with no sibling to nest under.
pub fn first_item_of_list(nodes: &Vec<Node>, source: &str, line: usize) -> (r: bool)
    ensures
        r == first_item(node::node_views(nodes@), source@, line as int),
{
    match lists::list_marker_on_line(source, line) {
        Some((start, marker)) => {
            let len = text::len(source);
            let width = text::len(marker.as_str());
            proof {
                let b = encode_utf8(source@);
                lists::lemma_marker_at(b, start as int);
                let m = lists::marker_at(b, start as int)->0;
                assert(width == m.1 - start);
            }
            let probe: usize = if line >= len || width > len - line {
                len
            } else {
                line + width
            };
            item_leads(nodes, probe)
        },
        None => false,
    }
}

// ── chains ─────────────────────────────────────────────────────────────────────
/// Whether a chain of nodes holds one of a kind.
pub open spec fn chain_has(chain: Seq<AncestorView>, kind: Kind) -> bool {
    exists|i: int| 0 <= i < chain.len() && Kind::named((#[trigger] chain[i]).name) == kind
}

/// Whether a chain of nodes holds one of a kind.
pub fn holds_kind(chain: &Vec<Ancestor>, kind: Kind) -> (r: bool)
    ensures
        r == chain_has(editor::chain_view(chain@), kind),
{
    let ghost views = editor::chain_view(chain@);
    let mut i: usize = 0;
    while i < chain.len()
        invariant
            i <= chain@.len(),
            views == editor::chain_view(chain@),
            forall|k: int| 0 <= k < i ==> Kind::named((#[trigger] views[k]).name) != kind,
        decreases chain@.len() - i,
    {
        assert(views[i as int] == chain@[i as int]@);
        if Kind::from_name(chain[i].name.as_str()) == kind {
            return true;
        }
        i = i + 1;
    }
    false
}

/// The names of a chain of nodes, the outermost first.
pub open spec fn trail(chain: Seq<AncestorView>) -> Seq<char>
    decreases chain.len(),
{
    if chain.len() == 0 {
        Seq::empty()
    } else if chain.len() == 1 {
        chain[0].name
    } else {
        trail(chain.drop_last()) + " › "@ + chain.last().name
    }
}

/// The names of a chain of nodes, the outermost first.
pub fn crumbs(chain: &Vec<Ancestor>) -> (r: String)
    ensures
        r@ == trail(editor::chain_view(chain@)),
{
    let ghost views = editor::chain_view(chain@);
    let mut out: Vec<char> = Vec::new();
    let mut i: usize = 0;
    while i < chain.len()
        invariant
            i <= chain@.len(),
            views == editor::chain_view(chain@),
            out@ == trail(views.take(i as int)),
        decreases chain@.len() - i,
    {
        assert(views.take(i + 1).drop_last() =~= views.take(i as int));
        assert(views.take(i + 1).last() == chain@[i as int]@);
        if i > 0 {
            text::append_str(&mut out, " › ");
        } else {
            assert(views.take(1)[0] == chain@[0]@);
        }
        text::append_str(&mut out, chain[i].name.as_str());
        assert(out@ =~= trail(views.take(i + 1)));
        i = i + 1;
    }
    assert(views.take(i as int) =~= views);
    let r = text::string_of(out.as_slice(), 0, out.len());
    assert(r@ =~= out@);
    r
}

/// What medium a node is, if it is one: an image, or an element of that name.
pub open spec fn medium_kind(n: NodeView) -> Option<MediaKind> {
    if n.kind == Kind::Image {
        Some(MediaKind::Image)
    } else if n.kind != Kind::Container {
        None
    } else if n.element == Some("video"@) {
        Some(MediaKind::Video)
    } else if n.element == Some("audio"@) {
        Some(MediaKind::Audio)
    } else if n.element == Some("picture"@) {
        Some(MediaKind::Image)
    } else {
        None
    }
}

/// Whether the node in a place stands where blocks do, in no medium: all that it lies in up
/// to the document, over as many levels at most, only holds blocks.
pub open spec fn among_blocks(nodes: Seq<NodeView>, i: int, levels: nat) -> bool
    decreases levels,
{
    match nodes[i].parent {
        Some(p) => levels > 0 && p < nodes.len() && nodes[p as int].kind.contains_blocks()
            && medium_kind(nodes[p as int]) is None && among_blocks(
            nodes,
            p as int,
            (levels - 1) as nat,
        ),
        None => nodes[i].kind == Kind::Doc,
    }
}

/// Whether the node in a place is all of its paragraph.
pub open spec fn fills_paragraph(nodes: Seq<NodeView>, i: int) -> bool {
    nodes[i].next_sibling is None && (nodes[i].parent matches Some(p) && p < nodes.len()
        && nodes[p as int].kind == Kind::Para && nodes[p as int].first_child == Some(i as usize))
}

/// The media that are blocks, up to a place in the list: those that stand where blocks do or
/// are all of their paragraphs.
pub open spec fn block_media(nodes: Seq<NodeView>, upto: int) -> Seq<MediaMap>
    decreases upto,
{
    if upto <= 0 {
        Seq::empty()
    } else {
        let before = block_media(nodes, upto - 1);
        match medium_kind(nodes[upto - 1]) {
            Some(kind) => if among_blocks(nodes, upto - 1, nodes.len()) || fills_paragraph(
                nodes,
                upto - 1,
            ) {
                before.push(MediaMap { kind, span: nodes[upto - 1].span })
            } else {
                before
            },
            None => before,
        }
    }
}

/// What medium a node is, if it is one.
fn medium_of(n: &Node) -> (r: Option<MediaKind>)
    ensures
        r == medium_kind(n@),
{
    if n.kind == Kind::Image {
        return Some(MediaKind::Image);
    }
    if n.kind != Kind::Container {
        return None;
    }
    proof {
        reveal_strlit("video");
        reveal_strlit("audio");
        reveal_strlit("picture");
    }
    match &n.element {
        Some(element) => {
            let element = element.as_str();
            if text::str_eq(element, "video") {
                Some(MediaKind::Video)
            } else if text::str_eq(element, "audio") {
                Some(MediaKind::Audio)
            } else if text::str_eq(element, "picture") {
                Some(MediaKind::Image)
            } else {
                None
            }
        },
        None => None,
    }
}

/// Whether the node in a place stands where blocks do, in no medium.
fn stands_among_blocks(nodes: &Vec<Node>, i: usize) -> (r: bool)
    requires
        i < nodes@.len(),
    ensures
        r == among_blocks(node::node_views(nodes@), i as int, nodes@.len()),
{
    let ghost views = node::node_views(nodes@);
    let mut at: usize = i;
    let mut levels: usize = nodes.len();
    loop
        invariant
            at < nodes@.len(),
            views == node::node_views(nodes@),
            views.len() == nodes@.len(),
            among_blocks(views, i as int, nodes@.len()) == among_blocks(
                views,
                at as int,
                levels as nat,
            ),
        decreases levels,
    {
        assert(views[at as int] == nodes@[at as int]@);
        let p = match nodes[at].parent {
            Some(p) => p,
            None => {
                return nodes[at].kind == Kind::Doc;
            },
        };
        if levels == 0 || p >= nodes.len() {
            return false;
        }
        assert(views[p as int] == nodes@[p as int]@);
        if !nodes[p].kind.is_block_container() || medium_of(&nodes[p]).is_some() {
            return false;
        }
        at = p;
        levels = levels - 1;
    }
}

/// Whether the node in a place is all of its paragraph.
fn is_all_of_paragraph(nodes: &Vec<Node>, i: usize) -> (r: bool)
    requires
        i < nodes@.len(),
    ensures
        r == fills_paragraph(node::node_views(nodes@), i as int),
{
    let ghost views = node::node_views(nodes@);
    assert(views[i as int] == nodes@[i as int]@);
    match nodes[i].parent {
        Some(p) => {
            if p < nodes.len() {
                assert(views[p as int] == nodes@[p as int]@);
                nodes[i].next_sibling.is_none() && nodes[p].kind == Kind::Para && (
                match nodes[p].first_child {
                    Some(first) => first == i,
                    None => false,
                })
            } else {
                false
            }
        },
        None => false,
    }
}

/// The media that are blocks.
pub fn find_block_media(nodes: &Vec<Node>) -> (r: Vec<MediaMap>)
    ensures
        r@ == block_media(node::node_views(nodes@), nodes@.len() as int),
{
    let ghost views = node::node_views(nodes@);
    let mut out: Vec<MediaMap> = Vec::new();
    let mut i: usize = 0;
    while i < nodes.len()
        invariant
            i <= nodes@.len(),
            views == node::node_views(nodes@),
            out@ == block_media(views, i as int),
        decreases nodes@.len() - i,
    {
        assert(views[i as int] == nodes@[i as int]@);
        if let Some(kind) = medium_of(&nodes[i]) {
            if stands_among_blocks(nodes, i) || is_all_of_paragraph(nodes, i) {
                out.push(MediaMap { kind, span: nodes[i].span });
            }
        }
        i = i + 1;
    }
    out
}

} // verus!

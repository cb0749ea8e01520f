//! Styling for the source view: the tree read as *markup* rather than as rendered text.
//!
//! Every node knows its whole extent and, where it has delimiters, the extent of what is
//! inside them. The difference between the two is exactly the markup: a node's span is
//! styled by its kind, and the bytes its content leaves out are restyled as
//! [`Role::Delimiter`]. Children paint over their parents, whose style they inherit.

use std::ops::Range;
use vstd::prelude::*;
use vstd::utf8::*;
use crate::node::{Kind, Node, Span};
use crate::style;
use crate::style::{Baseline, MarkColor, Role, Style};
use crate::text;

verus! {

/// A run of source bytes that share one style.
#[derive(Debug)]
pub struct StyledRun {
    /// The bytes this run covers.
    pub span: Range<usize>,
    /// What to paint them as.
    pub style: Style,
}

impl Clone for StyledRun {
    fn clone(&self) -> (r: StyledRun)
        ensures
            r == *self,
    {
        StyledRun { span: self.span.start..self.span.end, style: self.style }
    }
}

impl StyledRun {
    /// Whether the run covers the byte at `offset`.
    pub open spec fn covers(self, offset: int) -> bool {
        self.span.start <= offset < self.span.end
    }
}

/// The source view's styling, as non-overlapping runs in ascending order. Bytes between
/// them are plain.
#[derive(Debug)]
pub struct SourceMap {
    runs: Vec<StyledRun>,
}

/// Whether runs are ascending, disjoint, not empty and never plain.
pub open spec fn runs_ordered(runs: Seq<StyledRun>) -> bool {
    &&& forall|k: int|
        0 <= k < runs.len() ==> (#[trigger] runs[k]).span.start < runs[k].span.end && runs[k].style
            != style::plain()
    &&& forall|j: int, k: int|
        0 <= j < k < runs.len() ==> (#[trigger] runs[j]).span.end <= (#[trigger] runs[k]).span.start
}

/// Whether the runs are the stretches of one style in `paint`, as long as they go, the
/// plain ones left out.
pub open spec fn runs_of(runs: Seq<StyledRun>, paint: Seq<Style>) -> bool {
    &&& runs_ordered(runs)
    &&& forall|k: int|
        0 <= k < runs.len() ==> (#[trigger] runs[k]).span.end <= paint.len() && (runs[k].span.start
            == 0 || paint[runs[k].span.start - 1] != runs[k].style) && (runs[k].span.end
            == paint.len() || paint[runs[k].span.end as int] != runs[k].style)
    &&& forall|k: int, i: int|
        0 <= k < runs.len() && #[trigger] runs[k].covers(i) ==> paint[i] == runs[k].style
    &&& forall|i: int|
        0 <= i < paint.len() && #[trigger] paint[i] != style::plain() ==> covered(runs, i)
}

/// Whether some run covers the byte at `offset`.
pub open spec fn covered(runs: Seq<StyledRun>, offset: int) -> bool {
    exists|k: int| 0 <= k < runs.len() && #[trigger] runs[k].covers(offset)
}

/// Whether `style` is that of the byte at `offset`: the style of the run that covers it,
/// or plain where none does.
pub open spec fn style_over(runs: Seq<StyledRun>, offset: int, style: Style) -> bool {
    &&& forall|k: int|
        0 <= k < runs.len() && #[trigger] runs[k].covers(offset) ==> style == runs[k].style
    &&& !covered(runs, offset) ==> style == style::plain()
}

/// Whether the styling changes at `offset`: a run starts or ends there.
pub open spec fn is_edge(runs: Seq<StyledRun>, offset: int) -> bool {
    exists|k: int|
        0 <= k < runs.len() && (#[trigger] runs[k].span.start == offset || runs[k].span.end
            == offset)
}

impl View for SourceMap {
    type V = Seq<StyledRun>;

    closed spec fn view(&self) -> Seq<StyledRun> {
        self.runs@
    }
}

impl Default for SourceMap {
    fn default() -> (r: SourceMap)
        ensures
            r@ == Seq::<StyledRun>::empty(),
            r.wf(),
    {
        SourceMap { runs: Vec::new() }
    }
}

impl SourceMap {
    /// Whether the runs are ascending, disjoint, not empty and never plain.
    pub open spec fn wf(&self) -> bool {
        runs_ordered(self@)
    }

    /// The styled runs, ascending and non-overlapping.
    pub fn runs(&self) -> (r: &[StyledRun])
        ensures
            r@ == self@,
    {
        self.runs.as_slice()
    }

    /// Whether the map styles nothing.
    pub fn is_empty(&self) -> (r: bool)
        ensures
            r == (self@.len() == 0),
    {
        self.runs.len() == 0
    }

    /// The first run that ends past `offset`, or the number of runs.
    fn first_past(&self, offset: usize) -> (r: usize)
        requires
            self.wf(),
        ensures
            r <= self@.len(),
            forall|k: int| 0 <= k < r ==> (#[trigger] self@[k]).span.end <= offset,
            forall|k: int| r <= k < self@.len() ==> (#[trigger] self@[k]).span.end > offset,
    {
        let mut low: usize = 0;
        let mut high: usize = self.runs.len();
        while low < high
            invariant
                low <= high <= self@.len(),
                self.wf(),
                forall|k: int| 0 <= k < low ==> (#[trigger] self@[k]).span.end <= offset,
                forall|k: int| high <= k < self@.len() ==> (#[trigger] self@[k]).span.end > offset,
            decreases high - low,
        {
            let mid: usize = low + (high - low) / 2;
            if self.runs[mid].span.end <= offset {
                assert forall|k: int| 0 <= k < mid + 1 implies (#[trigger] self@[k]).span.end
                    <= offset by {
                    if k < mid {
                        assert(self@[k].span.end <= self@[mid as int].span.start);
                    }
                }
                low = mid + 1;
            } else {
                assert forall|k: int| mid <= k < self@.len() implies (#[trigger] self@[k]).span.end
                    > offset by {
                    if k > mid {
                        assert(self@[mid as int].span.end <= self@[k].span.start);
                    }
                }
                high = mid;
            }
        }
        low
    }

    /// The style covering source byte `offset`, or the plain one where no run does.
    pub fn style_at(&self, offset: usize) -> (r: Style)
        requires
            self.wf(),
        ensures
            style_over(self@, offset as int, r),
    {
        let at = self.first_past(offset);
        if at < self.runs.len() && self.runs[at].span.start <= offset {
            assert(self@[at as int].covers(offset as int));
            assert forall|k: int|
                0 <= k < self@.len() && #[trigger] self@[k].covers(offset as int) implies k
                == at by {
                if k > at {
                    assert(self@[at as int].span.end <= self@[k].span.start);
                }
            }
            self.runs[at].style
        } else {
            assert forall|k: int| 0 <= k < self@.len() implies !#[trigger] self@[k].covers(
                offset as int,
            ) by {
                if k > at {
                    assert(self@[at as int].span.end <= self@[k].span.start);
                }
            }
            Style::default()
        }
    }

    /// Append every styling boundary strictly inside `range` to `out`, in ascending order
    /// and each once.
    pub fn edges_in(&self, range: Range<usize>, out: &mut Vec<usize>)
        requires
            self.wf(),
        ensures
            old(out)@.len() <= final(out)@.len(),
            final(out)@.take(old(out)@.len() as int) == old(out)@,
            forall|i: int, j: int|
                old(out)@.len() <= i < j < final(out)@.len() ==> #[trigger] final(out)@[i]
                    < #[trigger] final(out)@[j],
            forall|i: int|
                old(out)@.len() <= i < final(out)@.len() ==> range.start < #[trigger] final(out)@[i]
                    < range.end && is_edge(self@, final(out)@[i] as int),
            forall|e: int|
                range.start < e < range.end && #[trigger] is_edge(self@, e) ==> exists|i: int|
                    old(out)@.len() <= i < final(out)@.len() && #[trigger] final(out)@[i] == e,
    {
        let ghost before = out@;
        let n: usize = out.len();
        let mut at = self.first_past(range.start);
        let ghost first = at as int;
        assert(out@.take(n as int) == before);
        while at < self.runs.len() && self.runs[at].span.start < range.end
            invariant
                self.wf(),
                0 <= first <= at <= self@.len(),
                n == before.len() <= out@.len(),
                out@.take(n as int) == before,
                forall|k: int|
                    0 <= k < first ==> (#[trigger] self@[k]).span.end <= range.start,
                forall|k: int|
                    first <= k < self@.len() ==> (#[trigger] self@[k]).span.end > range.start,
                forall|i: int, j: int|
                    n <= i < j < out@.len() ==> #[trigger] out@[i] < #[trigger] out@[j],
                forall|i: int|
                    n <= i < out@.len() ==> range.start < #[trigger] out@[i] < range.end && is_edge(
                        self@,
                        out@[i] as int,
                    ),
                forall|i: int, k: int|
                    n <= i < out@.len() && at <= k < self@.len() ==> #[trigger] out@[i] <= (
                    #[trigger] self@[k]).span.start,
                forall|k: int|
                    first <= k < at && range.start < (#[trigger] self@[k]).span.start < range.end
                        ==> has(out@, n as int, self@[k].span.start),
                forall|k: int|
                    first <= k < at && range.start < (#[trigger] self@[k]).span.end < range.end
                        ==> has(out@, n as int, self@[k].span.end),
            decreases self@.len() - at,
        {
            let start: usize = self.runs[at].span.start;
            let end: usize = self.runs[at].span.end;
            let ghost run = self@[at as int];
            assert(is_edge(self@, start as int) && is_edge(self@, end as int)) by {
                assert(self@[at as int].span.start == start);
            }
            let ghost o0 = out@;
            if start > range.start && (out.len() == n || out[out.len() - 1] != start) {
                out.push(start);
                assert(out@.take(n as int) =~= before);
                assert(out@[out@.len() - 1] == start);
            }
            assert(range.start < start ==> has(out@, n as int, start));
            assert forall|e: usize| #[trigger] has(o0, n as int, e) implies has(
                out@,
                n as int,
                e,
            ) by {
                let i = choose|i: int| n <= i < o0.len() && #[trigger] o0[i] == e;
                assert(out@[i] == e);
            }
            let ghost o1 = out@;
            if end > range.start && end < range.end && (out.len() == n || out[out.len() - 1] != end) {
                out.push(end);
                assert(out@.take(n as int) =~= before);
                assert(out@[out@.len() - 1] == end);
            }
            assert forall|e: usize| #[trigger] has(o1, n as int, e) implies has(
                out@,
                n as int,
                e,
            ) by {
                let i = choose|i: int| n <= i < o1.len() && #[trigger] o1[i] == e;
                assert(out@[i] == e);
            }
            at = at + 1;
        }
        assert forall|e: int|
            range.start < e < range.end && #[trigger] is_edge(self@, e) implies exists|i: int|
            n <= i < out@.len() && #[trigger] out@[i] == e by {
            let k = choose|k: int|
                0 <= k < self@.len() && (#[trigger] self@[k].span.start == e || self@[k].span.end
                    == e);
            assert(self@[k].span.start < self@[k].span.end);
            if k < first {
                assert(self@[k].span.end <= range.start);
            } else if k >= at {
                if k > at {
                    assert(self@[at as int].span.end <= self@[k].span.start);
                    assert(self@[at as int].span.start < self@[at as int].span.end);
                }
            } else {
                assert(has(out@, n as int, e as usize));
            }
        }
    }
}

/// Whether `e` stands in `s` at or after `from`.
spec fn has(s: Seq<usize>, from: int, e: usize) -> bool {
    exists|i: int| from <= i < s.len() && #[trigger] s[i] == e
}

// ── painting ───────────────────────────────────────────────────────────────────
/// The style of a heading's level: none counts as the top one.
pub open spec fn heading_level(level: Option<u32>) -> u8 {
    match level {
        Some(n) => if n < 1 {
            1
        } else if n > 255 {
            255
        } else {
            n as u8
        },
        None => 1,
    }
}

/// The color that attributes name.
pub open spec fn color_of(attrs: Seq<(String, Option<String>)>) -> Option<MarkColor> {
    match style::attr_value(attrs, "data-color"@) {
        Some(value) => MarkColor::spelled(value),
        None => None,
    }
}

/// A node's style, layered on the style it inherits from its parent.
pub open spec fn node_style(node: Node, base: Style) -> Style {
    match node.kind {
        Kind::Heading => Style { role: Role::Heading(heading_level(node.level)), ..base },
        Kind::Emph => Style { italic: true, ..base },
        Kind::Strong => Style { bold: true, ..base },
        Kind::Mark => Style { role: Role::Mark(color_of(node.attrs@)), ..base },
        Kind::Insert => Style { underline: true, ..base },
        Kind::Delete => Style { strikethrough: true, ..base },
        Kind::Superscript => Style { baseline: Baseline::Super, ..base },
        Kind::Subscript => Style { baseline: Baseline::Sub, ..base },
        Kind::CodeBlock
        | Kind::Verbatim
        | Kind::InlineMath
        | Kind::DisplayMath
        | Kind::RawBlock
        | Kind::RawInline => Style { role: Role::Code, ..base },
        Kind::Link
        | Kind::Url
        | Kind::Email
        | Kind::Reference
        | Kind::Citation
        | Kind::FootnoteReference
        | Kind::CitationReference
        | Kind::SubstitutionReference => Style { role: Role::Link, ..base },
        Kind::ThematicBreak => Style { role: Role::Rule, ..base },
        Kind::Comment
        | Kind::Doctype
        | Kind::ProcessingInstruction
        | Kind::Cdata
        | Kind::SoftBreak => Style { role: Role::Delimiter, ..base },
        _ => base,
    }
}

/// `paint` with the bytes `from..to` in `style`.
pub open spec fn filled(paint: Seq<Style>, from: int, to: int, style: Style) -> Seq<Style> {
    Seq::new(
        paint.len(),
        |i: int|
            if from <= i < to {
                style
            } else {
                paint[i]
            },
    )
}

/// Whether the source holds no markup between two offsets: only white space, or no whole
/// characters.
pub open spec fn no_markup(source: Seq<char>, start: int, end: int) -> bool {
    let len = encode_utf8(source).len() as int;
    let from = text::least(start, len);
    let to = text::least(end, len);
    from > to || !text::boundary(source, from) || !text::boundary(source, to) || text::all_space(
        text::slice(source, from, to),
    )
}

/// `paint` with the bytes `from..to` in `style`, where there is markup in them.
pub open spec fn marked_up(
    paint: Seq<Style>,
    source: Seq<char>,
    from: int,
    to: int,
    style: Style,
) -> Seq<Style> {
    if no_markup(source, from, to) {
        paint
    } else {
        filled(paint, from, to, style)
    }
}

/// `paint` with a node of that style over it: its whole extent, and its delimiters.
pub open spec fn node_painted(
    paint: Seq<Style>,
    source: Seq<char>,
    node: Node,
    style: Style,
) -> Seq<Style> {
    let whole = if style.role == Role::Delimiter {
        marked_up(paint, source, node.span.start as int, node.span.end as int, style)
    } else {
        filled(paint, node.span.start as int, node.span.end as int, style)
    };
    match node.content {
        Some(content) => {
            let delim = Style { role: Role::Delimiter, ..style };
            let opened = marked_up(
                whole,
                source,
                node.span.start as int,
                content.start as int,
                delim,
            );
            marked_up(opened, source, content.end as int, node.span.end as int, delim)
        },
        None => whole,
    }
}

/// `paint` with the siblings from `first` on over it, each with its children over it, the
/// last sibling first. `None` where the links do not end within `depth` steps.
pub open spec fn siblings_painted(
    nodes: Seq<Node>,
    source: Seq<char>,
    first: Option<usize>,
    base: Style,
    paint: Seq<Style>,
    depth: nat,
) -> Option<Seq<Style>>
    decreases depth,
{
    match first {
        None => Some(paint),
        Some(i) => if i >= nodes.len() {
            Some(paint)
        } else if depth == 0 {
            None
        } else {
            let node = nodes[i as int];
            match siblings_painted(
                nodes,
                source,
                node.next_sibling,
                base,
                paint,
                (depth - 1) as nat,
            ) {
                None => None,
                Some(under) => {
                    let style = node_style(node, base);
                    siblings_painted(
                        nodes,
                        source,
                        node.first_child,
                        style,
                        node_painted(under, source, node, style),
                        (depth - 1) as nat,
                    )
                },
            }
        },
    }
}

/// Whether the links from `first` on end within `depth` steps.
pub open spec fn links_end(nodes: Seq<Node>, first: Option<usize>, depth: nat) -> bool
    decreases depth,
{
    match first {
        None => true,
        Some(i) => i >= nodes.len() || (depth > 0 && links_end(
            nodes,
            nodes[i as int].next_sibling,
            (depth - 1) as nat,
        ) && links_end(nodes, nodes[i as int].first_child, (depth - 1) as nat)),
    }
}

/// The first node that is a document.
pub open spec fn root_from(nodes: Seq<Node>, from: int) -> Option<int>
    decreases nodes.len() - from,
{
    if from >= nodes.len() {
        None
    } else if nodes[from].kind == Kind::Doc {
        Some(from)
    } else {
        root_from(nodes, from + 1)
    }
}

/// Where the links under the document start.
pub open spec fn root_link(nodes: Seq<Node>) -> Option<usize> {
    match root_from(nodes, 0) {
        Some(root) => nodes[root].first_child,
        None => None,
    }
}

/// Whether the links under the document end: its nodes are a tree.
pub open spec fn is_tree(nodes: Seq<Node>) -> bool {
    exists|depth: nat| #[trigger] links_end(nodes, root_link(nodes), depth)
}

/// `source` painted with the tree of the document, whose links end within `depth` steps:
/// nothing where there is no document.
pub open spec fn source_painted(nodes: Seq<Node>, source: Seq<char>, depth: nat) -> Option<
    Seq<Style>,
> {
    let blank = Seq::new(encode_utf8(source).len(), |i: int| style::plain());
    match root_from(nodes, 0) {
        None => Some(blank),
        Some(root) => {
            let style = node_style(nodes[root], style::plain());
            siblings_painted(
                nodes,
                source,
                nodes[root].first_child,
                style,
                node_painted(blank, source, nodes[root], style),
                depth,
            )
        },
    }
}

/// A node's style, layered on the style it inherits from its parent.
pub fn style_of(node: &Node, base: Style) -> (r: Style)
    ensures
        r == node_style(*node, base),
{
    match node.kind {
        Kind::Heading => {
            let level: u8 = match node.level {
                Some(n) => if n < 1 {
                    1
                } else if n > 255 {
                    255
                } else {
                    n as u8
                },
                None => 1,
            };
            base.role(Role::Heading(level))
        },
        Kind::Emph => base.italic(),
        Kind::Strong => base.bold(),
        Kind::Mark => base.role(Role::Mark(MarkColor::from_attrs(node.attrs.as_slice()))),
        Kind::Insert => base.underline(),
        Kind::Delete => base.strikethrough(),
        Kind::Superscript => base.baseline(Baseline::Super),
        Kind::Subscript => base.baseline(Baseline::Sub),
        // Code, and the things that read like it.
        Kind::CodeBlock
        | Kind::Verbatim
        | Kind::InlineMath
        | Kind::DisplayMath
        | Kind::RawBlock
        | Kind::RawInline => base.role(Role::Code),
        // Anything that points somewhere.
        Kind::Link
        | Kind::Url
        | Kind::Email
        | Kind::Reference
        | Kind::Citation
        | Kind::FootnoteReference
        | Kind::CitationReference
        | Kind::SubstitutionReference => base.role(Role::Link),
        Kind::ThematicBreak => base.role(Role::Rule),
        // Scaffolding with no rendered form of its own, and the break that carries a
        // block quote's continuation markers with it.
        Kind::Comment
        | Kind::Doctype
        | Kind::ProcessingInstruction
        | Kind::Cdata
        | Kind::SoftBreak => base.role(Role::Delimiter),
        _ => base,
    }
}

/// Paint `span` with `style`, clipped to the buffer.
pub fn fill(paint: &mut Vec<Style>, span: Span, style: Style)
    ensures
        final(paint)@ == filled(old(paint)@, span.start as int, span.end as int, style),
{
    let ghost before = paint@;
    let end: usize = if span.end <= paint.len() {
        span.end
    } else {
        paint.len()
    };
    let mut i: usize = span.start;
    while i < end
        invariant
            end <= paint@.len() == before.len(),
            span.start < end ==> span.start <= i <= end,
            span.start >= end ==> i == span.start,
            paint@ == filled(before, span.start as int, i as int, style),
        decreases end - i,
    {
        paint.set(i, style);
        i = i + 1;
    }
    assert(paint@ =~= filled(before, span.start as int, span.end as int, style));
}

/// [`fill`] for a stretch of *markup*, which declines one that holds none.
pub fn fill_markup(paint: &mut Vec<Style>, source: &str, span: Span, style: Style)
    ensures
        final(paint)@ == marked_up(
            old(paint)@,
            source@,
            span.start as int,
            span.end as int,
            style,
        ),
{
    let len: usize = source.as_bytes().len();
    let from: usize = if span.start <= len {
        span.start
    } else {
        len
    };
    let to: usize = if span.end <= len {
        span.end
    } else {
        len
    };
    let blank = from > to || !source.is_char_boundary(from) || !source.is_char_boundary(to)
        || text::is_blank(text::substr(source, from, to));
    if !blank {
        fill(paint, span, style);
    }
}

/// Collapse the per-byte buffer into ascending runs, dropping the plain stretches.
pub fn to_runs(paint: &Vec<Style>) -> (r: Vec<StyledRun>)
    ensures
        runs_of(r@, paint@),
{
    let mut runs: Vec<StyledRun> = Vec::new();
    let plain = Style::default();
    let mut start: usize = 0;
    while start < paint.len()
        invariant
            plain == style::plain(),
            start <= paint@.len(),
            0 < start < paint@.len() ==> paint@[start - 1] != paint@[start as int],
            runs_ordered(runs@),
            forall|k: int| 0 <= k < runs@.len() ==> (#[trigger] runs@[k]).span.end <= start,
            forall|k: int|
                0 <= k < runs@.len() ==> (runs@[k].span.start == 0 || paint@[runs@[k].span.start
                    - 1] != runs@[k].style) && ((#[trigger] runs@[k]).span.end == paint@.len()
                    || paint@[runs@[k].span.end as int] != runs@[k].style),
            forall|k: int, j: int|
                0 <= k < runs@.len() && #[trigger] runs@[k].covers(j) ==> paint@[j]
                    == runs@[k].style,
            forall|j: int|
                0 <= j < start && #[trigger] paint@[j] != style::plain() ==> covered(runs@, j),
        decreases paint@.len() - start,
    {
        let mut i: usize = start + 1;
        while i < paint.len() && paint[i] == paint[start]
            invariant
                start < i <= paint@.len(),
                forall|k: int| start <= k < i ==> #[trigger] paint@[k] == paint@[start as int],
            decreases paint@.len() - i,
        {
            i = i + 1;
        }
        let ghost before = runs@;
        if paint[start] != plain {
            runs.push(StyledRun { span: start..i, style: paint[start] });
        }
        proof {
            assert forall|j: int|
                0 <= j < i && #[trigger] paint@[j] != style::plain() implies covered(
                runs@,
                j,
            ) by {
                if j < start {
                    let k = choose|k: int|
                        0 <= k < before.len() && #[trigger] before[k].covers(j);
                    assert(runs@[k].covers(j));
                } else {
                    assert(paint@[j] == paint@[start as int]);
                    assert(runs@[runs@.len() - 1].covers(j));
                }
            }
        }
        start = i;
    }
    runs
}

// ── the walk ───────────────────────────────────────────────────────────────────
/// The siblings from `first` on, in order.
spec fn sibling_chain(nodes: Seq<Node>, first: Option<usize>, depth: nat) -> Seq<usize>
    decreases depth,
{
    match first {
        None => Seq::empty(),
        Some(i) => if i >= nodes.len() || depth == 0 {
            Seq::empty()
        } else {
            seq![i] + sibling_chain(nodes, nodes[i as int].next_sibling, (depth - 1) as nat)
        },
    }
}

/// How many nodes stand under `first` and its later siblings, these included.
spec fn count_under(nodes: Seq<Node>, first: Option<usize>, depth: nat) -> nat
    decreases depth,
{
    match first {
        None => 0,
        Some(i) => if i >= nodes.len() || depth == 0 {
            0
        } else {
            1 + count_under(nodes, nodes[i as int].next_sibling, (depth - 1) as nat) + count_under(
                nodes,
                nodes[i as int].first_child,
                (depth - 1) as nat,
            )
        },
    }
}

/// The entries that wait to be painted, the last first, painted over `paint`.
spec fn waiting_painted(
    nodes: Seq<Node>,
    source: Seq<char>,
    waiting: Seq<(usize, Style)>,
    paint: Seq<Style>,
    depth: nat,
) -> Option<Seq<Style>>
    decreases waiting.len(),
{
    if waiting.len() == 0 {
        Some(paint)
    } else {
        let node = nodes[waiting.last().0 as int];
        let style = node_style(node, waiting.last().1);
        match siblings_painted(
            nodes,
            source,
            node.first_child,
            style,
            node_painted(paint, source, node, style),
            depth,
        ) {
            Some(over) => waiting_painted(nodes, source, waiting.drop_last(), over, depth),
            None => None,
        }
    }
}

/// How many nodes wait to be painted, those under the entries included.
spec fn waiting_count(nodes: Seq<Node>, waiting: Seq<(usize, Style)>, depth: nat) -> nat
    decreases waiting.len(),
{
    if waiting.len() == 0 {
        0
    } else {
        1 + count_under(nodes, nodes[waiting.last().0 as int].first_child, depth) + waiting_count(
            nodes,
            waiting.drop_last(),
            depth,
        )
    }
}

/// The siblings of a chain as entries of one style.
spec fn entries(chain: Seq<usize>, base: Style) -> Seq<(usize, Style)> {
    Seq::new(chain.len(), |k: int| (chain[k], base))
}

/// Links that end within some steps end within more, with the same result.
proof fn lemma_depth(
    nodes: Seq<Node>,
    source: Seq<char>,
    first: Option<usize>,
    base: Style,
    paint: Seq<Style>,
    depth: nat,
    more: nat,
)
    requires
        links_end(nodes, first, depth),
        depth <= more,
    ensures
        links_end(nodes, first, more),
        siblings_painted(nodes, source, first, base, paint, depth) is Some,
        siblings_painted(nodes, source, first, base, paint, more) == siblings_painted(
            nodes,
            source,
            first,
            base,
            paint,
            depth,
        ),
        sibling_chain(nodes, first, more) == sibling_chain(nodes, first, depth),
        count_under(nodes, first, more) == count_under(nodes, first, depth),
    decreases depth,
{
    if let Some(i) = first {
        if i < nodes.len() {
            let node = nodes[i as int];
            lemma_depth(
                nodes,
                source,
                node.next_sibling,
                base,
                paint,
                (depth - 1) as nat,
                (more - 1) as nat,
            );
            let under = siblings_painted(
                nodes,
                source,
                node.next_sibling,
                base,
                paint,
                (depth - 1) as nat,
            )->0;
            let style = node_style(node, base);
            lemma_depth(
                nodes,
                source,
                node.first_child,
                style,
                node_painted(under, source, node, style),
                (depth - 1) as nat,
                (more - 1) as nat,
            );
        }
    }
}

/// Entries that wait behind others are painted after them.
proof fn lemma_waiting_concat(
    nodes: Seq<Node>,
    source: Seq<char>,
    a: Seq<(usize, Style)>,
    b: Seq<(usize, Style)>,
    paint: Seq<Style>,
    depth: nat,
)
    ensures
        waiting_painted(nodes, source, a + b, paint, depth) == (match waiting_painted(
            nodes,
            source,
            b,
            paint,
            depth,
        ) {
            Some(over) => waiting_painted(nodes, source, a, over, depth),
            None => None,
        }),
        waiting_count(nodes, a + b, depth) == waiting_count(nodes, a, depth) + waiting_count(
            nodes,
            b,
            depth,
        ),
    decreases b.len(),
{
    if b.len() == 0 {
        assert(a + b == a);
    } else {
        assert((a + b).drop_last() == a + b.drop_last());
        assert((a + b).last() == b.last());
        let node = nodes[b.last().0 as int];
        let style = node_style(node, b.last().1);
        let over = siblings_painted(
            nodes,
            source,
            node.first_child,
            style,
            node_painted(paint, source, node, style),
            depth,
        );
        if let Some(p) = over {
            lemma_waiting_concat(nodes, source, a, b.drop_last(), p, depth);
        }
        lemma_waiting_concat(nodes, source, a, b.drop_last(), paint, depth);
    }
}

/// The siblings of a chain, put to wait in order, are painted as the chain is.
proof fn lemma_chain_waits(
    nodes: Seq<Node>,
    source: Seq<char>,
    first: Option<usize>,
    base: Style,
    paint: Seq<Style>,
    depth: nat,
    full: nat,
)
    requires
        links_end(nodes, first, depth),
        depth <= full,
    ensures
        waiting_painted(
            nodes,
            source,
            entries(sibling_chain(nodes, first, depth), base),
            paint,
            full,
        ) == siblings_painted(nodes, source, first, base, paint, depth),
        waiting_count(nodes, entries(sibling_chain(nodes, first, depth), base), full)
            == count_under(nodes, first, depth),
        forall|k: int|
            0 <= k < sibling_chain(nodes, first, depth).len() ==> (#[trigger] sibling_chain(
                nodes,
                first,
                depth,
            )[k]) < nodes.len() && links_end(
                nodes,
                nodes[sibling_chain(nodes, first, depth)[k] as int].first_child,
                full,
            ),
    decreases depth,
{
    let chain = sibling_chain(nodes, first, depth);
    if let Some(i) = first {
        if i < nodes.len() {
            let node = nodes[i as int];
            let rest = sibling_chain(nodes, node.next_sibling, (depth - 1) as nat);
            lemma_chain_waits(
                nodes,
                source,
                node.next_sibling,
                base,
                paint,
                (depth - 1) as nat,
                full,
            );
            lemma_depth(
                nodes,
                source,
                node.next_sibling,
                base,
                paint,
                (depth - 1) as nat,
                full,
            );
            let under = siblings_painted(
                nodes,
                source,
                node.next_sibling,
                base,
                paint,
                (depth - 1) as nat,
            )->0;
            let style = node_style(node, base);
            let own = node_painted(under, source, node, style);
            lemma_depth(nodes, source, node.first_child, style, own, (depth - 1) as nat, full);
            let head = seq![(i, base)];
            assert(entries(chain, base) =~= head + entries(rest, base));
            lemma_waiting_concat(nodes, source, head, entries(rest, base), paint, full);
            assert(head.drop_last() == Seq::<(usize, Style)>::empty());
            assert(head.last() == (i, base));
            let over = siblings_painted(nodes, source, node.first_child, style, own, full)->0;
            assert(waiting_painted(nodes, source, head.drop_last(), over, full) == Some(over));
            assert(waiting_painted(nodes, source, head, under, full) == Some(over));
            assert(waiting_count(nodes, head.drop_last(), full) == 0);
            assert(waiting_count(nodes, head, full) == 1 + count_under(
                nodes,
                node.first_child,
                full,
            ));
            assert forall|k: int| 0 <= k < chain.len() implies (#[trigger] chain[k]) < nodes.len()
                && links_end(nodes, nodes[chain[k] as int].first_child, full) by {
                if k > 0 {
                    assert(chain[k] == rest[k - 1]);
                }
            }
        }
    }
}

/// Put the siblings from `first` on to wait, in order.
fn push_siblings(
    nodes: &[Node],
    first: Option<usize>,
    base: Style,
    waiting: &mut Vec<(usize, Style)>,
    Ghost(depth): Ghost<nat>,
)
    requires
        links_end(nodes@, first, depth),
    ensures
        final(waiting)@ == old(waiting)@ + entries(sibling_chain(nodes@, first, depth), base),
{
    let ghost before = waiting@;
    let ghost chain = sibling_chain(nodes@, first, depth);
    let ghost mut done: Seq<usize> = Seq::empty();
    let ghost mut left: nat = depth;
    let mut child = first;
    assert(chain == done + sibling_chain(nodes@, child, left));
    assert(waiting@ == before + entries(done, base));
    while child.is_some()
        invariant
            before == old(waiting)@,
            chain == sibling_chain(nodes@, first, depth),
            links_end(nodes@, child, left),
            chain == done + sibling_chain(nodes@, child, left),
            waiting@ == before + entries(done, base),
        decreases left,
    {
        let i: usize = match child {
            Some(i) => i,
            None => {
                return;
            },
        };
        if i >= nodes.len() {
            assert(chain == done);
            return;
        }
        waiting.push((i, base));
        proof {
            assert(left > 0);
            let rest = sibling_chain(nodes@, nodes@[i as int].next_sibling, (left - 1) as nat);
            assert(done + (seq![i] + rest) =~= done.push(i) + rest);
            assert(entries(done.push(i), base) =~= entries(done, base).push((i, base)));
            assert(waiting@ =~= before + entries(done.push(i), base));
            done = done.push(i);
            left = (left - 1) as nat;
        }
        child = nodes[i].next_sibling;
    }
    assert(chain == done);
}

/// Style the source of a parsed document.
///
/// `nodes` are those of the whole document, over the `source` it was parsed from. The walk
/// starts at the document and goes depth first, so a node is always painted before the
/// children that overwrite parts of it. It uses an explicit stack rather than recursion:
/// nesting depth is the *document's*.
pub fn build(nodes: &[Node], source: &str) -> (r: SourceMap)
    requires
        is_tree(nodes@),
    ensures
        r.wf(),
        forall|depth: nat|
            #[trigger] links_end(nodes@, root_link(nodes@), depth) ==> (match source_painted(
                nodes@,
                source@,
                depth,
            ) {
                Some(paint) => runs_of(r@, paint),
                None => false,
            }),
{
    let ghost depth = choose|depth: nat| #[trigger] links_end(nodes@, root_link(nodes@), depth);
    let len: usize = source.as_bytes().len();
    let plain = Style::default();
    let mut paint: Vec<Style> = Vec::new();
    while paint.len() < len
        invariant
            paint@.len() <= len == encode_utf8(source@).len(),
            plain == style::plain(),
            forall|i: int| 0 <= i < paint@.len() ==> paint@[i] == style::plain(),
        decreases len - paint@.len(),
    {
        paint.push(plain);
    }
    let ghost blank = Seq::new(encode_utf8(source@).len(), |i: int| style::plain());
    assert(paint@ =~= blank);
    let mut waiting: Vec<(usize, Style)> = Vec::new();
    let mut root: usize = 0;
    while root < nodes.len() && nodes[root].kind != Kind::Doc
        invariant
            root <= nodes@.len(),
            root_from(nodes@, 0) == root_from(nodes@, root as int),
        decreases nodes@.len() - root,
    {
        root = root + 1;
    }
    if root < nodes.len() {
        waiting.push((root, plain));
    }
    let ghost whole = source_painted(nodes@, source@, depth);
    proof {
        if root < nodes@.len() {
            let style = node_style(nodes@[root as int], style::plain());
            let own = node_painted(blank, source@, nodes@[root as int], style);
            assert(waiting@.drop_last() == Seq::<(usize, Style)>::empty());
            assert(waiting@.last() == (root, plain));
            lemma_depth(nodes@, source@, nodes@[root as int].first_child, style, own, depth, depth);
            let over = whole->0;
            assert(waiting_painted(nodes@, source@, waiting@.drop_last(), over, depth) == Some(
                over,
            ));
        }
    }
    while waiting.len() > 0
        invariant
            whole == waiting_painted(nodes@, source@, waiting@, paint@, depth),
            paint@.len() == encode_utf8(source@).len(),
            forall|k: int|
                0 <= k < waiting@.len() ==> (#[trigger] waiting@[k]).0 < nodes@.len() && links_end(
                    nodes@,
                    nodes@[waiting@[k].0 as int].first_child,
                    depth,
                ),
        decreases waiting_count(nodes@, waiting@, depth),
    {
        let ghost full = waiting@;
        let (id, base) = match waiting.pop() {
            Some(entry) => entry,
            None => {
                return SourceMap::default();
            },
        };
        assert(full.last() == (id, base) && full.drop_last() == waiting@);
        assert(full[full.len() - 1].0 < nodes@.len());
        let node = &nodes[id];
        let style = style_of(node, base);
        let ghost under = paint@;
        if style.role == Role::Delimiter {
            fill_markup(&mut paint, source, node.span, style);
        } else {
            fill(&mut paint, node.span, style);
        }
        if let Some(content) = node.content {
            let delim = style.role(Role::Delimiter);
            fill_markup(
                &mut paint,
                source,
                Span { start: node.span.start, end: content.start },
                delim,
            );
            fill_markup(
                &mut paint,
                source,
                Span { start: content.end, end: node.span.end },
                delim,
            );
        }
        assert(paint@ == node_painted(under, source@, *node, style));
        let ghost behind = waiting@;
        push_siblings(nodes, node.first_child, style, &mut waiting, Ghost(depth));
        proof {
            let chain = sibling_chain(nodes@, node.first_child, depth);
            lemma_chain_waits(nodes@, source@, node.first_child, style, paint@, depth, depth);
            lemma_depth(nodes@, source@, node.first_child, style, paint@, depth, depth);
            lemma_waiting_concat(nodes@, source@, behind, entries(chain, style), paint@, depth);
            assert forall|k: int| 0 <= k < waiting@.len() implies (#[trigger] waiting@[k]).0
                < nodes@.len() && links_end(
                nodes@,
                nodes@[waiting@[k].0 as int].first_child,
                depth,
            ) by {
                if k < behind.len() {
                    assert(waiting@[k] == full[k]);
                } else {
                    assert(waiting@[k] == entries(chain, style)[k - behind.len()]);
                    assert(waiting@[k].0 == chain[k - behind.len()]);
                }
            }
        }
    }
    let runs = to_runs(&paint);
    assert forall|other: nat| #[trigger]
        links_end(nodes@, root_link(nodes@), other) implies source_painted(nodes@, source@, other)
        == Some(paint@) by {
        if root < nodes@.len() {
            let style = node_style(nodes@[root as int], style::plain());
            let own = node_painted(blank, source@, nodes@[root as int], style);
            let first = nodes@[root as int].first_child;
            if other <= depth {
                lemma_depth(nodes@, source@, first, style, own, other, depth);
            } else {
                lemma_depth(nodes@, source@, first, style, own, depth, other);
            }
        }
    }
    SourceMap { runs }
}

/// The style that a map gives a byte is the one it was painted in.
pub proof fn law_style_is_paint(runs: Seq<StyledRun>, paint: Seq<Style>, offset: int, style: Style)
    requires
        runs_of(runs, paint),
        0 <= offset < paint.len(),
        style_over(runs, offset, style),
    ensures
        style == paint[offset],
{
    if covered(runs, offset) {
        let k = choose|k: int| 0 <= k < runs.len() && #[trigger] runs[k].covers(offset);
        assert(runs[k].covers(offset));
    }
}

/// The styling changes exactly where one byte's style and the next one's differ.
pub proof fn law_edges_are_changes(runs: Seq<StyledRun>, paint: Seq<Style>, offset: int)
    requires
        runs_of(runs, paint),
        0 < offset < paint.len(),
    ensures
        is_edge(runs, offset) <==> paint[offset - 1] != paint[offset],
{
    if is_edge(runs, offset) {
        let k = choose|k: int|
            0 <= k < runs.len() && (#[trigger] runs[k].span.start == offset || runs[k].span.end
                == offset);
        let run = runs[k];
        assert(run.span.start < run.span.end);
        if run.span.start == offset {
            assert(run.covers(offset));
        } else {
            assert(run.covers(offset - 1));
        }
    }
    if paint[offset - 1] != paint[offset] {
        if paint[offset] != style::plain() {
            let k = choose|k: int| 0 <= k < runs.len() && #[trigger] runs[k].covers(offset);
            if runs[k].span.start < offset {
                assert(runs[k].covers(offset - 1));
            }
            assert(runs[k].span.start == offset);
        } else {
            let k = choose|k: int| 0 <= k < runs.len() && #[trigger] runs[k].covers(offset - 1);
            if runs[k].span.end > offset {
                assert(runs[k].covers(offset));
            }
            assert(runs[k].span.end == offset);
            assert(runs[k].span.start == runs[k].span.start);
        }
    }
}

// ── whether the nodes are a tree ───────────────────────────────────────────────
/// A link between nodes.
pub enum Link {
    /// From the document to its first child.
    Root,
    /// From a node to its next sibling.
    Next(int),
    /// From a node to its first child.
    First(int),
}

/// The node that a link leads to.
pub open spec fn link_target(nodes: Seq<Node>, link: Link) -> Option<usize> {
    let to = match link {
        Link::Root => root_link(nodes),
        Link::Next(i) => nodes[i].next_sibling,
        Link::First(i) => nodes[i].first_child,
    };
    match to {
        Some(j) => if j < nodes.len() {
            to
        } else {
            None
        },
        None => None,
    }
}

/// Whether a link starts at the document or at one of the nodes.
pub open spec fn is_link(nodes: Seq<Node>, link: Link) -> bool {
    match link {
        Link::Root => true,
        Link::Next(i) => 0 <= i < nodes.len(),
        Link::First(i) => 0 <= i < nodes.len(),
    }
}

/// Whether no two links lead to the same node.
pub open spec fn linked_once(nodes: Seq<Node>) -> bool {
    forall|a: Link, b: Link|
        #![trigger link_target(nodes, a), link_target(nodes, b)]
        is_link(nodes, a) && is_link(nodes, b) && link_target(nodes, a) is Some && link_target(
            nodes,
            a,
        ) == link_target(nodes, b) ==> a == b
}

/// How many places of `order` are not taken.
spec fn untaken(order: Seq<usize>) -> nat
    decreases order.len(),
{
    if order.len() == 0 {
        0
    } else {
        untaken(order.drop_last()) + (if order.last() == 0 {
            1nat
        } else {
            0nat
        })
    }
}

proof fn lemma_untaken(order: Seq<usize>, i: int, v: usize)
    requires
        0 <= i < order.len(),
        order[i] == 0,
        v > 0,
    ensures
        untaken(order) >= 1,
        untaken(order.update(i, v)) == untaken(order) - 1,
    decreases order.len(),
{
    if i == order.len() - 1 {
        assert(order.update(i, v).drop_last() == order.drop_last());
    } else {
        assert(order.update(i, v).drop_last() == order.drop_last().update(i, v));
        lemma_untaken(order.drop_last(), i, v);
    }
}

proof fn lemma_none_taken(order: Seq<usize>)
    requires
        forall|i: int| 0 <= i < order.len() ==> order[i] == 0,
    ensures
        untaken(order) == order.len(),
    decreases order.len(),
{
    if order.len() > 0 {
        lemma_none_taken(order.drop_last());
    }
}

/// Whether a link leads nowhere, or to a node taken after `after`.
spec fn leads_on(nodes: Seq<Node>, order: Seq<usize>, link: Link, after: int) -> bool {
    match link_target(nodes, link) {
        Some(j) => order[j as int] > after,
        None => true,
    }
}

/// Links that lead on in the order in which nodes were taken end.
proof fn lemma_order_ends(nodes: Seq<Node>, order: Seq<usize>, first: Option<usize>, depth: nat)
    requires
        order.len() == nodes.len(),
        forall|i: int|
            0 <= i < nodes.len() && (#[trigger] order[i]) > 0 ==> order[i] <= nodes.len()
                && leads_on(nodes, order, Link::Next(i), order[i] as int) && leads_on(
                nodes,
                order,
                Link::First(i),
                order[i] as int,
            ),
        first matches Some(i) ==> i < nodes.len() ==> order[i as int] > 0 && depth >= nodes.len()
            + 1 - order[i as int],
    ensures
        links_end(nodes, first, depth),
    decreases depth,
{
    if let Some(i) = first {
        if i < nodes.len() {
            assert(order[i as int] <= nodes.len());
            assert(leads_on(nodes, order, Link::Next(i as int), order[i as int] as int));
            assert(leads_on(nodes, order, Link::First(i as int), order[i as int] as int));
            lemma_order_ends(nodes, order, nodes[i as int].next_sibling, (depth - 1) as nat);
            lemma_order_ends(nodes, order, nodes[i as int].first_child, (depth - 1) as nat);
        }
    }
}

/// Whether the children of the node `i` are still to be taken.
#[verifier::opaque]
spec fn waits(waiting: Seq<usize>, i: int) -> bool {
    exists|at: int| 0 <= at < waiting.len() && #[trigger] waiting[at] == i
}

/// Whether no node waits twice.
#[verifier::opaque]
spec fn wait_once(waiting: Seq<usize>) -> bool {
    forall|j: int, k: int|
        0 <= j < k < waiting.len() ==> #[trigger] waiting[j] != #[trigger] waiting[k]
}

proof fn lemma_waits_push(waiting: Seq<usize>, i: usize)
    requires
        wait_once(waiting),
        !waits(waiting, i as int),
    ensures
        wait_once(waiting.push(i)),
        forall|k: int| #[trigger]
            waits(waiting.push(i), k) <==> k == i || waits(waiting, k),
{
    reveal(waits);
    reveal(wait_once);
    let more = waiting.push(i);
    assert(more[more.len() - 1] == i);
    assert forall|k: int| #[trigger] waits(more, k) <==> k == i || waits(waiting, k) by {
        if waits(waiting, k) {
            let at = choose|at: int| 0 <= at < waiting.len() && #[trigger] waiting[at] == k;
            assert(more[at] == k);
        }
        if waits(more, k) {
            let at = choose|at: int| 0 <= at < more.len() && #[trigger] more[at] == k;
            if at < waiting.len() {
                assert(waiting[at] == k);
            }
        }
    }
    assert forall|j: int, k: int| 0 <= j < k < more.len() implies #[trigger] more[j]
        != #[trigger] more[k] by {
        assert(waiting[j] == more[j]);
        if k < waiting.len() {
            assert(waiting[k] == more[k]);
        }
    }
}

proof fn lemma_waits_pop(waiting: Seq<usize>)
    requires
        wait_once(waiting),
        waiting.len() > 0,
    ensures
        wait_once(waiting.drop_last()),
        waits(waiting, waiting.last() as int),
        forall|k: int| #[trigger]
            waits(waiting.drop_last(), k) <==> k != waiting.last() && waits(waiting, k),
{
    reveal(waits);
    reveal(wait_once);
    let less = waiting.drop_last();
    assert(waiting[waiting.len() - 1] == waiting.last());
    assert forall|k: int| #[trigger] waits(less, k) <==> k != waiting.last() && waits(
        waiting,
        k,
    ) by {
        if waits(less, k) {
            let at = choose|at: int| 0 <= at < less.len() && #[trigger] less[at] == k;
            assert(waiting[at] == k);
            assert(waiting[at] != waiting[waiting.len() - 1]);
        }
        if k != waiting.last() && waits(waiting, k) {
            let at = choose|at: int| 0 <= at < waiting.len() && #[trigger] waiting[at] == k;
            assert(less[at] == k);
        }
    }
    assert forall|j: int, k: int| 0 <= j < k < less.len() implies #[trigger] less[j]
        != #[trigger] less[k] by {
        assert(waiting[j] != waiting[k]);
    }
}

/// What is known while nodes are taken one after the other: `via` is the link that led to
/// each, `waiting` are those whose children are still to be taken, and `link` is the link
/// to be followed next.
spec fn taking(
    nodes: Seq<Node>,
    order: Seq<usize>,
    count: int,
    via: Seq<Link>,
    waiting: Seq<usize>,
    link: Link,
) -> bool {
    &&& order.len() == nodes.len() == via.len()
    &&& count + untaken(order) == nodes.len()
    &&& forall|i: int| 0 <= i < nodes.len() ==> #[trigger] order[i] <= count
    &&& forall|k: int| #[trigger] waits(waiting, k) ==> 0 <= k < nodes.len() && order[k] > 0
    &&& wait_once(waiting)
    &&& is_link(nodes, link)
    &&& follows(order, waiting, link)
    &&& forall|j: int|
        0 <= j < nodes.len() && (#[trigger] order[j]) > 0 ==> is_link(nodes, via[j]) && via[j]
            != link && follows(order, waiting, via[j]) && link_target(nodes, via[j]) == Some(
            j as usize,
        )
    &&& link == Link::Root || leads_on(nodes, order, Link::Root, 0)
    &&& forall|i: int|
        0 <= i < nodes.len() && (#[trigger] order[i]) > 0 ==> link == Link::Next(i) || leads_on(
            nodes,
            order,
            Link::Next(i),
            order[i] as int,
        )
    &&& forall|i: int|
        0 <= i < nodes.len() && (#[trigger] order[i]) > 0 && !waits(waiting, i) ==> link
            == Link::First(i) || leads_on(nodes, order, Link::First(i), order[i] as int)
}

/// Whether a link may have been followed: the node that it starts at is taken, and its
/// children are not still to be.
spec fn follows(order: Seq<usize>, waiting: Seq<usize>, link: Link) -> bool {
    match link {
        Link::Root => true,
        Link::Next(i) => order[i] > 0,
        Link::First(i) => order[i] > 0 && !waits(waiting, i),
    }
}

/// A node that was not taken is, and its sibling is next.
proof fn lemma_take(
    nodes: Seq<Node>,
    order: Seq<usize>,
    count: usize,
    via: Seq<Link>,
    waiting: Seq<usize>,
    link: Link,
    i: usize,
)
    requires
        taking(nodes, order, count as int, via, waiting, link),
        link_target(nodes, link) == Some(i),
        order[i as int] == 0,
        nodes.len() <= usize::MAX,
    ensures
        count < usize::MAX,
        untaken(order.update(i as int, (count + 1) as usize)) < untaken(order),
        taking(
            nodes,
            order.update(i as int, (count + 1) as usize),
            count + 1,
            via.update(i as int, link),
            waiting.push(i),
            Link::Next(i as int),
        ),
{
    lemma_untaken(order, i as int, 1);
    lemma_untaken(order, i as int, (count + 1) as usize);
    let order1 = order.update(i as int, (count + 1) as usize);
    let via1 = via.update(i as int, link);
    let waiting1 = waiting.push(i);
    let link1 = Link::Next(i as int);
    lemma_waits_push(waiting, i);
    assert forall|l: Link|
        is_link(nodes, l) && #[trigger] follows(order, waiting, l) implies follows(
        order1,
        waiting1,
        l,
    ) by {}
    assert forall|j: int| 0 <= j < nodes.len() && (#[trigger] order1[j]) > 0 implies (is_link(
        nodes,
        via1[j],
    ) && via1[j] != link1 && follows(order1, waiting1, via1[j]) && link_target(nodes, via1[j])
        == Some(j as usize)) by {
        if j != i {
            assert(order[j] > 0);
            assert(follows(order, waiting, via[j]));
        } else {
            assert(follows(order, waiting, link));
        }
    }
    assert forall|l: Link, after: int| #[trigger]
        leads_on(nodes, order, l, after) && after >= 0 implies leads_on(nodes, order1, l, after) by {
        assert(order1[i as int] > order[i as int]);
    }
    assert(leads_on(nodes, order1, link, count as int));
    assert forall|k: int| 0 <= k < nodes.len() && (#[trigger] order1[k]) > 0 implies link1
        == Link::Next(k) || leads_on(nodes, order1, Link::Next(k), order1[k] as int) by {
        if k != i {
            assert(order[k] > 0);
            if link == Link::Next(k) {
                assert(order[k] <= count);
            } else {
                assert(leads_on(nodes, order, Link::Next(k), order[k] as int));
            }
        }
    }
    assert forall|k: int|
        0 <= k < nodes.len() && (#[trigger] order1[k]) > 0 && !waits(
            waiting1,
            k,
        ) implies link1 == Link::First(k) || leads_on(
        nodes,
        order1,
        Link::First(k),
        order1[k] as int,
    ) by {
        assert(k != i);
        assert(order[k] > 0);
        if link == Link::First(k) {
            assert(order[k] <= count);
        } else {
            assert(leads_on(nodes, order, Link::First(k), order[k] as int));
        }
    }
}

/// A link that leads nowhere is done with, and the children of a waiting node are next.
proof fn lemma_pop(
    nodes: Seq<Node>,
    order: Seq<usize>,
    count: usize,
    via: Seq<Link>,
    waiting: Seq<usize>,
    link: Link,
)
    requires
        taking(nodes, order, count as int, via, waiting, link),
        link_target(nodes, link) is None,
        waiting.len() > 0,
        nodes.len() <= usize::MAX,
    ensures
        taking(
            nodes,
            order,
            count as int,
            via,
            waiting.drop_last(),
            Link::First(waiting.last() as int),
        ),
        waiting.last() < nodes.len(),
{
    let i = waiting.last();
    let waiting1 = waiting.drop_last();
    let link1 = Link::First(i as int);
    lemma_waits_pop(waiting);
    assert(order[i as int] > 0);
    assert forall|j: int| 0 <= j < nodes.len() && (#[trigger] order[j]) > 0 implies (is_link(
        nodes,
        via[j],
    ) && via[j] != link1 && follows(order, waiting1, via[j]) && link_target(nodes, via[j]) == Some(
        j as usize,
    )) by {
        assert(follows(order, waiting, via[j]));
    }
    assert forall|k: int| 0 <= k < nodes.len() && (#[trigger] order[k]) > 0 implies link1
        == Link::Next(k) || leads_on(nodes, order, Link::Next(k), order[k] as int) by {
        assert(link == Link::Next(k) || leads_on(nodes, order, Link::Next(k), order[k] as int));
    }
    assert forall|k: int|
        0 <= k < nodes.len() && (#[trigger] order[k]) > 0 && !waits(
            waiting1,
            k,
        ) implies link1 == Link::First(k) || leads_on(
        nodes,
        order,
        Link::First(k),
        order[k] as int,
    ) by {
        if k != i {
            assert(!waits(waiting, k));
            assert(link == Link::First(k) || leads_on(
                nodes,
                order,
                Link::First(k),
                order[k] as int,
            ));
        }
    }
}

/// Whether the nodes under the document are a tree. The answer is yes wherever no two
/// links lead to the same node.
pub fn nodes_are_tree(nodes: &[Node]) -> (r: bool)
    ensures
        r ==> is_tree(nodes@),
        linked_once(nodes@) ==> r,
{
    let mut root: usize = 0;
    while root < nodes.len() && nodes[root].kind != Kind::Doc
        invariant
            root <= nodes@.len(),
            root_from(nodes@, 0) == root_from(nodes@, root as int),
        decreases nodes@.len() - root,
    {
        root = root + 1;
    }
    let mut next: Option<usize> = if root < nodes.len() {
        nodes[root].first_child
    } else {
        None
    };
    let mut order: Vec<usize> = Vec::new();
    while order.len() < nodes.len()
        invariant
            order@.len() <= nodes@.len(),
            forall|i: int| 0 <= i < order@.len() ==> order@[i] == 0,
        decreases nodes@.len() - order@.len(),
    {
        order.push(0);
    }
    let mut count: usize = 0;
    let mut waiting: Vec<usize> = Vec::new();
    let ghost mut via: Seq<Link> = Seq::new(nodes@.len(), |i: int| Link::Root);
    let ghost mut link: Link = Link::Root;
    proof {
        lemma_none_taken(order@);
        reveal(waits);
        reveal(wait_once);
    }
    loop
        invariant
            taking(nodes@, order@, count as int, via, waiting@, link),
            next == (match link {
                Link::Root => root_link(nodes@),
                Link::Next(i) => nodes@[i].next_sibling,
                Link::First(i) => nodes@[i].first_child,
            }),
        decreases untaken(order@), waiting@.len(),
    {
        let inside = match next {
            Some(i) => i < nodes.len(),
            None => false,
        };
        let total: usize = nodes.len();
        if inside {
            let i: usize = match next {
                Some(i) => i,
                None => 0,
            };
            assert(link_target(nodes@, link) == Some(i));
            if order[i] != 0 {
                assert(link_target(nodes@, via[i as int]) == Some(i));
                return false;
            }
            proof {
                lemma_take(nodes@, order@, count, via, waiting@, link, i);
                via = via.update(i as int, link);
                link = Link::Next(i as int);
            }
            count = count + 1;
            order.set(i, count);
            waiting.push(i);
            next = nodes[i].next_sibling;
        } else {
            assert(link_target(nodes@, link) is None);
            if waiting.len() == 0 {
                proof {
                    assert forall|i: int|
                        0 <= i < nodes@.len() && (#[trigger] order@[i]) > 0 implies order@[i]
                        <= nodes@.len() && leads_on(
                        nodes@,
                        order@,
                        Link::Next(i),
                        order@[i] as int,
                    ) && leads_on(nodes@, order@, Link::First(i), order@[i] as int) by {
                        assert(!waits(waiting@, i)) by {
                            reveal(waits);
                        }
                    }
                    assert(leads_on(nodes@, order@, Link::Root, 0));
                    lemma_order_ends(nodes@, order@, root_link(nodes@), nodes@.len() + 1);
                }
                return true;
            }
            let i: usize = waiting[waiting.len() - 1];
            let ghost old_waiting = waiting@;
            proof {
                lemma_pop(nodes@, order@, count, via, waiting@, link);
                link = Link::First(i as int);
            }
            waiting.truncate(waiting.len() - 1);
            assert(waiting@ =~= old_waiting.drop_last());
            next = nodes[i].first_child;
        }
    }
}

} // verus!

//! The nodes of a parsed document, as plain values.

use vstd::prelude::*;
use vstd::utf8::*;
use crate::text;

verus! {

/// What a node of a document is.
#[derive(Clone, Copy, PartialEq, Eq, Debug, Structural)]
pub enum Kind {
    Doc,
    Para,
    Heading,
    ThematicBreak,
    Section,
    CodeBlock,
    RawBlock,
    Metadata,
    BlockQuote,
    BulletList,
    OrderedList,
    TaskList,
    DefinitionList,
    LineBlock,
    Table,
    ListItem,
    TaskListItem,
    DefinitionListItem,
    Term,
    Definition,
    Line,
    Row,
    Cell,
    Column,
    Caption,
    Footnote,
    Reference,
    Citation,
    Substitution,
    Str,
    SoftBreak,
    HardBreak,
    NonBreakingSpace,
    RawInline,
    SmartPunctuation,
    Link,
    Image,
    Container,
    ProcessingInstruction,
    Emph,
    Strong,
    Mark,
    Superscript,
    Subscript,
    Insert,
    Delete,
    DoubleQuoted,
    SingleQuoted,
    Symb,
    Verbatim,
    InlineMath,
    DisplayMath,
    Url,
    Email,
    FootnoteReference,
    CitationReference,
    SubstitutionReference,
    Comment,
    Doctype,
    Cdata,
    /// A kind with no name here.
    Other,
}

impl Kind {
    /// The kind of that name.
    pub open spec fn named(name: Seq<char>) -> Kind {
        if name == "doc"@ {
            Kind::Doc
        } else if name == "para"@ {
            Kind::Para
        } else if name == "heading"@ {
            Kind::Heading
        } else if name == "thematic_break"@ {
            Kind::ThematicBreak
        } else if name == "section"@ {
            Kind::Section
        } else if name == "code_block"@ {
            Kind::CodeBlock
        } else if name == "raw_block"@ {
            Kind::RawBlock
        } else if name == "metadata"@ {
            Kind::Metadata
        } else if name == "block_quote"@ {
            Kind::BlockQuote
        } else if name == "bullet_list"@ {
            Kind::BulletList
        } else if name == "ordered_list"@ {
            Kind::OrderedList
        } else if name == "task_list"@ {
            Kind::TaskList
        } else if name == "definition_list"@ {
            Kind::DefinitionList
        } else if name == "line_block"@ {
            Kind::LineBlock
        } else if name == "table"@ {
            Kind::Table
        } else if name == "list_item"@ {
            Kind::ListItem
        } else if name == "task_list_item"@ {
            Kind::TaskListItem
        } else if name == "definition_list_item"@ {
            Kind::DefinitionListItem
        } else if name == "term"@ {
            Kind::Term
        } else if name == "definition"@ {
            Kind::Definition
        } else if name == "line"@ {
            Kind::Line
        } else if name == "row"@ {
            Kind::Row
        } else if name == "cell"@ {
            Kind::Cell
        } else if name == "column"@ {
            Kind::Column
        } else if name == "caption"@ {
            Kind::Caption
        } else if name == "footnote"@ {
            Kind::Footnote
        } else if name == "reference"@ {
            Kind::Reference
        } else if name == "citation"@ {
            Kind::Citation
        } else if name == "substitution"@ {
            Kind::Substitution
        } else if name == "str"@ {
            Kind::Str
        } else if name == "soft_break"@ {
            Kind::SoftBreak
        } else if name == "hard_break"@ {
            Kind::HardBreak
        } else if name == "non_breaking_space"@ {
            Kind::NonBreakingSpace
        } else if name == "raw_inline"@ {
            Kind::RawInline
        } else if name == "smart_punctuation"@ {
            Kind::SmartPunctuation
        } else if name == "link"@ {
            Kind::Link
        } else if name == "image"@ {
            Kind::Image
        } else if name == "container"@ {
            Kind::Container
        } else if name == "processing_instruction"@ {
            Kind::ProcessingInstruction
        } else if name == "emph"@ {
            Kind::Emph
        } else if name == "strong"@ {
            Kind::Strong
        } else if name == "mark"@ {
            Kind::Mark
        } else if name == "superscript"@ {
            Kind::Superscript
        } else if name == "subscript"@ {
            Kind::Subscript
        } else if name == "insert"@ {
            Kind::Insert
        } else if name == "delete"@ {
            Kind::Delete
        } else if name == "double_quoted"@ {
            Kind::DoubleQuoted
        } else if name == "single_quoted"@ {
            Kind::SingleQuoted
        } else if name == "symb"@ {
            Kind::Symb
        } else if name == "verbatim"@ {
            Kind::Verbatim
        } else if name == "inline_math"@ {
            Kind::InlineMath
        } else if name == "display_math"@ {
            Kind::DisplayMath
        } else if name == "url"@ {
            Kind::Url
        } else if name == "email"@ {
            Kind::Email
        } else if name == "footnote_reference"@ {
            Kind::FootnoteReference
        } else if name == "citation_reference"@ {
            Kind::CitationReference
        } else if name == "substitution_reference"@ {
            Kind::SubstitutionReference
        } else if name == "comment"@ {
            Kind::Comment
        } else if name == "doctype"@ {
            Kind::Doctype
        } else if name == "cdata"@ {
            Kind::Cdata
        } else {
            Kind::Other
        }
    }

    /// The kind of that name.
    pub fn from_name(name: &str) -> (r: Kind)
        ensures
            r == Kind::named(name@),
    {
        if text::str_eq(name, "doc") {
            Kind::Doc
        } else if text::str_eq(name, "para") {
            Kind::Para
        } else if text::str_eq(name, "heading") {
            Kind::Heading
        } else if text::str_eq(name, "thematic_break") {
            Kind::ThematicBreak
        } else if text::str_eq(name, "section") {
            Kind::Section
        } else if text::str_eq(name, "code_block") {
            Kind::CodeBlock
        } else if text::str_eq(name, "raw_block") {
            Kind::RawBlock
        } else if text::str_eq(name, "metadata") {
            Kind::Metadata
        } else if text::str_eq(name, "block_quote") {
            Kind::BlockQuote
        } else if text::str_eq(name, "bullet_list") {
            Kind::BulletList
        } else if text::str_eq(name, "ordered_list") {
            Kind::OrderedList
        } else if text::str_eq(name, "task_list") {
            Kind::TaskList
        } else if text::str_eq(name, "definition_list") {
            Kind::DefinitionList
        } else if text::str_eq(name, "line_block") {
            Kind::LineBlock
        } else if text::str_eq(name, "table") {
            Kind::Table
        } else if text::str_eq(name, "list_item") {
            Kind::ListItem
        } else if text::str_eq(name, "task_list_item") {
            Kind::TaskListItem
        } else if text::str_eq(name, "definition_list_item") {
            Kind::DefinitionListItem
        } else if text::str_eq(name, "term") {
            Kind::Term
        } else if text::str_eq(name, "definition") {
            Kind::Definition
        } else if text::str_eq(name, "line") {
            Kind::Line
        } else if text::str_eq(name, "row") {
            Kind::Row
        } else if text::str_eq(name, "cell") {
            Kind::Cell
        } else if text::str_eq(name, "column") {
            Kind::Column
        } else if text::str_eq(name, "caption") {
            Kind::Caption
        } else if text::str_eq(name, "footnote") {
            Kind::Footnote
        } else if text::str_eq(name, "reference") {
            Kind::Reference
        } else if text::str_eq(name, "citation") {
            Kind::Citation
        } else if text::str_eq(name, "substitution") {
            Kind::Substitution
        } else if text::str_eq(name, "str") {
            Kind::Str
        } else if text::str_eq(name, "soft_break") {
            Kind::SoftBreak
        } else if text::str_eq(name, "hard_break") {
            Kind::HardBreak
        } else if text::str_eq(name, "non_breaking_space") {
            Kind::NonBreakingSpace
        } else if text::str_eq(name, "raw_inline") {
            Kind::RawInline
        } else if text::str_eq(name, "smart_punctuation") {
            Kind::SmartPunctuation
        } else if text::str_eq(name, "link") {
            Kind::Link
        } else if text::str_eq(name, "image") {
            Kind::Image
        } else if text::str_eq(name, "container") {
            Kind::Container
        } else if text::str_eq(name, "processing_instruction") {
            Kind::ProcessingInstruction
        } else if text::str_eq(name, "emph") {
            Kind::Emph
        } else if text::str_eq(name, "strong") {
            Kind::Strong
        } else if text::str_eq(name, "mark") {
            Kind::Mark
        } else if text::str_eq(name, "superscript") {
            Kind::Superscript
        } else if text::str_eq(name, "subscript") {
            Kind::Subscript
        } else if text::str_eq(name, "insert") {
            Kind::Insert
        } else if text::str_eq(name, "delete") {
            Kind::Delete
        } else if text::str_eq(name, "double_quoted") {
            Kind::DoubleQuoted
        } else if text::str_eq(name, "single_quoted") {
            Kind::SingleQuoted
        } else if text::str_eq(name, "symb") {
            Kind::Symb
        } else if text::str_eq(name, "verbatim") {
            Kind::Verbatim
        } else if text::str_eq(name, "inline_math") {
            Kind::InlineMath
        } else if text::str_eq(name, "display_math") {
            Kind::DisplayMath
        } else if text::str_eq(name, "url") {
            Kind::Url
        } else if text::str_eq(name, "email") {
            Kind::Email
        } else if text::str_eq(name, "footnote_reference") {
            Kind::FootnoteReference
        } else if text::str_eq(name, "citation_reference") {
            Kind::CitationReference
        } else if text::str_eq(name, "substitution_reference") {
            Kind::SubstitutionReference
        } else if text::str_eq(name, "comment") {
            Kind::Comment
        } else if text::str_eq(name, "doctype") {
            Kind::Doctype
        } else if text::str_eq(name, "cdata") {
            Kind::Cdata
        } else {
            Kind::Other
        }
    }
}

impl Kind {
    /// Whether a node of the kind stands within a line of text.
    pub open spec fn inline(self) -> bool {
        match self {
            Kind::Str
            | Kind::SoftBreak
            | Kind::HardBreak
            | Kind::NonBreakingSpace
            | Kind::RawInline
            | Kind::SmartPunctuation
            | Kind::Link
            | Kind::Image
            | Kind::Emph
            | Kind::Strong
            | Kind::Mark
            | Kind::Superscript
            | Kind::Subscript
            | Kind::Insert
            | Kind::Delete
            | Kind::DoubleQuoted
            | Kind::SingleQuoted
            | Kind::Symb
            | Kind::Verbatim
            | Kind::InlineMath
            | Kind::DisplayMath
            | Kind::Url
            | Kind::Email
            | Kind::FootnoteReference
            | Kind::CitationReference
            | Kind::SubstitutionReference => true,
            _ => false,
        }
    }

    /// Whether a node of the kind stands within a line of text.
    pub fn is_inline(self) -> (r: bool)
        ensures
            r == self.inline(),
    {
        matches!(
            self,
            Kind::Str
            | Kind::SoftBreak
            | Kind::HardBreak
            | Kind::NonBreakingSpace
            | Kind::RawInline
            | Kind::SmartPunctuation
            | Kind::Link
            | Kind::Image
            | Kind::Emph
            | Kind::Strong
            | Kind::Mark
            | Kind::Superscript
            | Kind::Subscript
            | Kind::Insert
            | Kind::Delete
            | Kind::DoubleQuoted
            | Kind::SingleQuoted
            | Kind::Symb
            | Kind::Verbatim
            | Kind::InlineMath
            | Kind::DisplayMath
            | Kind::Url
            | Kind::Email
            | Kind::FootnoteReference
            | Kind::CitationReference
            | Kind::SubstitutionReference
        )
    }

    /// Whether a node of the kind only holds other blocks.
    pub open spec fn contains_blocks(self) -> bool {
        match self {
            Kind::Doc
            | Kind::Section
            | Kind::BlockQuote
            | Kind::BulletList
            | Kind::OrderedList
            | Kind::TaskList
            | Kind::ListItem
            | Kind::TaskListItem
            | Kind::Container => true,
            _ => false,
        }
    }

    /// Whether a node of the kind only holds other blocks.
    pub fn is_block_container(self) -> (r: bool)
        ensures
            r == self.contains_blocks(),
    {
        matches!(
            self,
            Kind::Doc
            | Kind::Section
            | Kind::BlockQuote
            | Kind::BulletList
            | Kind::OrderedList
            | Kind::TaskList
            | Kind::ListItem
            | Kind::TaskListItem
            | Kind::Container
        )
    }
}

/// A range of byte offsets, `start..end`.
#[derive(Clone, Copy, PartialEq, Eq, Debug, Structural)]
pub struct Span {
    pub start: usize,
    pub end: usize,
}

/// A node of a document's tree. Links are places in the list of all nodes.
pub struct Node {
    pub kind: Kind,
    /// The tag of an element, or the name of a directive.
    pub element: Option<String>,
    /// The bytes of the node, its delimiters included.
    pub span: Span,
    /// The bytes between its delimiters, where it has any.
    pub content: Option<Span>,
    /// A heading's level.
    pub level: Option<u32>,
    pub parent: Option<usize>,
    pub first_child: Option<usize>,
    pub next_sibling: Option<usize>,
    /// The text of a node that holds text and no children.
    pub text: Option<String>,
    /// Where a link or an image leads.
    pub destination: Option<String>,
    /// The attributes, in order. A bare attribute has no value.
    pub attrs: Vec<(String, Option<String>)>,
}

/// What a [`Node`] says.
pub struct NodeView {
    pub kind: Kind,
    pub element: Option<Seq<char>>,
    pub span: Span,
    pub content: Option<Span>,
    pub level: Option<u32>,
    pub parent: Option<usize>,
    pub first_child: Option<usize>,
    pub next_sibling: Option<usize>,
    pub text: Option<Seq<char>>,
    pub destination: Option<Seq<char>>,
    pub attrs: Seq<(Seq<char>, Option<Seq<char>>)>,
}

/// The view of an optional string.
pub open spec fn text_view(text: Option<String>) -> Option<Seq<char>> {
    match text {
        Some(text) => Some(text@),
        None => None,
    }
}

impl View for Node {
    type V = NodeView;

    open spec fn view(&self) -> NodeView {
        NodeView {
            kind: self.kind,
            element: text_view(self.element),
            span: self.span,
            content: self.content,
            level: self.level,
            parent: self.parent,
            first_child: self.first_child,
            next_sibling: self.next_sibling,
            text: text_view(self.text),
            destination: text_view(self.destination),
            attrs: attr_views(self.attrs@),
        }
    }
}

/// The views of some nodes.
pub open spec fn node_views(nodes: Seq<Node>) -> Seq<NodeView> {
    Seq::new(nodes.len(), |i: int| nodes[i]@)
}

/// A node as a parser hands it over: what it is stands in a name.
pub struct Parsed {
    pub name: String,
    pub element: Option<String>,
    pub span: Span,
    pub content: Option<Span>,
    pub level: Option<u32>,
    pub parent: Option<usize>,
    pub first_child: Option<usize>,
    pub next_sibling: Option<usize>,
    pub text: Option<String>,
    pub destination: Option<String>,
    pub attrs: Vec<(String, Option<String>)>,
}

/// What a [`Parsed`] says.
pub struct ParsedView {
    pub name: Seq<char>,
    pub element: Option<Seq<char>>,
    pub span: Span,
    pub content: Option<Span>,
    pub level: Option<u32>,
    pub parent: Option<usize>,
    pub first_child: Option<usize>,
    pub next_sibling: Option<usize>,
    pub text: Option<Seq<char>>,
    pub destination: Option<Seq<char>>,
    pub attrs: Seq<(Seq<char>, Option<Seq<char>>)>,
}

/// The views of some attributes.
pub open spec fn attr_views(attrs: Seq<(String, Option<String>)>) -> Seq<
    (Seq<char>, Option<Seq<char>>),
> {
    Seq::new(attrs.len(), |i: int| (attrs[i].0@, text_view(attrs[i].1)))
}

impl View for Parsed {
    type V = ParsedView;

    open spec fn view(&self) -> ParsedView {
        ParsedView {
            name: self.name@,
            element: text_view(self.element),
            span: self.span,
            content: self.content,
            level: self.level,
            parent: self.parent,
            first_child: self.first_child,
            next_sibling: self.next_sibling,
            text: text_view(self.text),
            destination: text_view(self.destination),
            attrs: attr_views(self.attrs@),
        }
    }
}

/// The views of some parsed nodes.
pub open spec fn parsed_views(parsed: Seq<Parsed>) -> Seq<ParsedView> {
    Seq::new(parsed.len(), |i: int| parsed[i]@)
}

/// A parsed node with its name read.
pub open spec fn read(p: ParsedView) -> NodeView {
    NodeView {
        kind: Kind::named(p.name),
        element: p.element,
        span: p.span,
        content: p.content,
        level: p.level,
        parent: p.parent,
        first_child: p.first_child,
        next_sibling: p.next_sibling,
        text: p.text,
        destination: p.destination,
        attrs: p.attrs,
    }
}

/// Parsed nodes with their names read.
pub open spec fn read_all(parsed: Seq<ParsedView>) -> Seq<NodeView> {
    Seq::new(parsed.len(), |i: int| read(parsed[i]))
}

/// Reads the names of parsed nodes.
pub fn read_nodes(parsed: Vec<Parsed>) -> (r: Vec<Node>)
    ensures
        node_views(r@) == read_all(parsed_views(parsed@)),
{
    let ghost given = parsed@;
    let mut parsed = parsed;
    let mut last_first: Vec<Node> = Vec::new();
    while parsed.len() > 0
        invariant
            parsed@ == given.take(parsed@.len() as int),
            parsed@.len() + last_first@.len() == given.len(),
            forall|i: int|
                0 <= i < last_first@.len() ==> #[trigger] last_first@[i]@ == read(
                    given[given.len() - 1 - i]@,
                ),
        decreases parsed@.len(),
    {
        match parsed.pop() {
            Some(p) => {
                let kind = Kind::from_name(p.name.as_str());
                last_first.push(
                    Node {
                        kind,
                        element: p.element,
                        span: p.span,
                        content: p.content,
                        level: p.level,
                        parent: p.parent,
                        first_child: p.first_child,
                        next_sibling: p.next_sibling,
                        text: p.text,
                        destination: p.destination,
                        attrs: p.attrs,
                    },
                );
            },
            None => {},
        }
    }
    let mut out: Vec<Node> = Vec::new();
    let ghost back = last_first@;
    while last_first.len() > 0
        invariant
            last_first@ == back.take(last_first@.len() as int),
            last_first@.len() + out@.len() == back.len(),
            back.len() == given.len(),
            forall|i: int|
                0 <= i < back.len() ==> #[trigger] back[i]@ == read(given[given.len() - 1 - i]@),
            forall|i: int| 0 <= i < out@.len() ==> #[trigger] out@[i]@ == read(given[i]@),
        decreases last_first@.len(),
    {
        match last_first.pop() {
            Some(n) => {
                out.push(n);
            },
            None => {},
        }
    }
    assert(node_views(out@) =~= read_all(parsed_views(given)));
    out
}

} // verus!

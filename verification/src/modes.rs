//! How a document is shown and edited: its views, and the preferences over them.

use vstd::prelude::*;

verus! {

/// Which surface the document is edited on.
#[derive(Clone, Copy, PartialEq, Eq, Debug, Structural)]
pub enum View {
    /// The raw markup.
    Source,
    /// The markup resolved into what it says.
    Wysiwyg,
}

/// How much of the source markup the rendered view exposes. The modes are a ladder, and
/// each rung is two answers: whether the caret's line shows its markup, and whether typed
/// syntax is markup.
#[derive(Clone, Copy, PartialEq, Eq, Debug, Structural)]
pub enum MarkupMode {
    /// Markup is never shown, and typed syntax stays literal.
    Hidden,
    /// Markup is never shown, and typed syntax is markup.
    Shortcuts,
    /// The caret's line shows its markup, and typed syntax is markup.
    Full,
}

impl Default for MarkupMode {
    fn default() -> (r: MarkupMode)
        ensures
            r == MarkupMode::Hidden,
    {
        MarkupMode::Hidden
    }
}

impl MarkupMode {
    /// Whether the caret's line shows its markup.
    pub fn reveals_caret_line(self) -> (r: bool)
        ensures
            r == (self == MarkupMode::Full),
    {
        matches!(self, MarkupMode::Full)
    }

    /// Whether typed syntax is markup rather than text.
    pub fn authors(self) -> (r: bool)
        ensures
            r == (self != MarkupMode::Hidden),
    {
        !matches!(self, MarkupMode::Hidden)
    }
}

/// A rung that reveals the markup of the caret's line also authors markup.
pub proof fn law_revealing_modes_author(mode: MarkupMode)
    ensures
        mode == MarkupMode::Full ==> mode != MarkupMode::Hidden,
{
}

/// Whether soft breaks fold into the reflowed paragraph or stand where they were written.
#[derive(Clone, Copy, PartialEq, Eq, Debug, Structural)]
pub enum LineFlow {
    Fold,
    Preserve,
}

impl Default for LineFlow {
    fn default() -> (r: LineFlow)
        ensures
            r == LineFlow::Fold,
    {
        LineFlow::Fold
    }
}

/// How the file behind a document stands to what was last read from it or written to it.
#[derive(Clone, Copy, PartialEq, Eq, Debug, Structural)]
pub enum DiskState {
    Unchanged,
    Changed,
    Missing,
    Unreadable,
    /// There is no file behind the document.
    Untitled,
}

/// What kind of edit made an undo step. Edits of one kind in a row undo as one; `Other`
/// never joins.
#[derive(Clone, Copy, PartialEq, Eq, Debug, Structural)]
pub enum EditKind {
    Insert,
    Delete,
    /// One step of a composition by an input method: each step replaces the last.
    Compose,
    Other,
}

/// A block that the caret's line can become.
#[derive(Clone, Copy, PartialEq, Eq, Debug, Structural)]
pub enum BlockKind {
    Paragraph,
    /// A heading of a level.
    Heading(u32),
}

/// A container that blocks can be put in.
#[derive(Clone, Copy, PartialEq, Eq, Debug, Structural)]
pub enum BlockContainerKind {
    BlockQuote,
    BulletList,
    OrderedList,
}

/// How the cells of a table's column are aligned.
#[derive(Clone, Copy, PartialEq, Eq, Debug, Structural)]
pub enum Alignment {
    Default,
    Left,
    Right,
    Center,
}

} // verus!

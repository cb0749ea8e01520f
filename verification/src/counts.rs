//! Word, character and paragraph counts over the text that a reader sees.
//!
//! The counts are a claim about the document and not about the markup that spells it, so
//! they run over a rendering of it: over the glyphs that are caret stops and that stand
//! for text, and not over bullets, gutters, rules and placeholders.

use unicode_segmentation::UnicodeSegmentation;
use vstd::prelude::*;
use crate::indent;
use crate::node::Span;
use crate::style::Role;
use crate::text;

verus! {

/// A drawn character, and the source byte that it stands for.
#[derive(Clone, Copy, PartialEq, Eq, Debug, Structural)]
pub struct Glyph {
    pub ch: char,
    pub src: usize,
    /// Whether the caret can stand before it.
    pub stop: bool,
    pub role: Role,
}

/// A row of drawn characters.
pub struct TextRow {
    pub glyphs: Vec<Glyph>,
    /// Whether the row is a gap between blocks and no block.
    pub decoration: bool,
}

/// A table: the rows it is drawn on, and its cells.
pub struct TextTable {
    pub rows: Span,
    pub cells: Vec<Vec<Glyph>>,
}

/// A rendering without wrapping: one row for each block.
pub struct TextMap {
    pub rows: Vec<TextRow>,
    pub tables: Vec<TextTable>,
    /// The rows that each code block is drawn on.
    pub code_blocks: Vec<Span>,
}

/// What a [`TextRow`] says.
pub struct RowView {
    pub glyphs: Seq<Glyph>,
    pub decoration: bool,
}

/// What a [`TextTable`] says.
pub struct TableView {
    pub rows: Span,
    pub cells: Seq<Seq<Glyph>>,
}

/// What a [`TextMap`] says.
pub struct TextView {
    pub rows: Seq<RowView>,
    pub tables: Seq<TableView>,
    pub code_blocks: Seq<Span>,
}

impl View for TextRow {
    type V = RowView;

    open spec fn view(&self) -> RowView {
        RowView { glyphs: self.glyphs@, decoration: self.decoration }
    }
}

impl View for TextTable {
    type V = TableView;

    open spec fn view(&self) -> TableView {
        TableView { rows: self.rows, cells: Seq::new(self.cells@.len(), |i: int| self.cells@[i]@) }
    }
}

impl View for TextMap {
    type V = TextView;

    open spec fn view(&self) -> TextView {
        TextView {
            rows: Seq::new(self.rows@.len(), |i: int| self.rows@[i]@),
            tables: Seq::new(self.tables@.len(), |i: int| self.tables@[i]@),
            code_blocks: self.code_blocks@,
        }
    }
}

/// Statistics over the text that a reader sees.
#[derive(Clone, Copy, PartialEq, Eq, Debug, Structural)]
pub struct TextCounts {
    /// Words, by Unicode word segmentation.
    pub words: usize,
    /// Characters as a reader counts them, white space included.
    pub characters: usize,
    /// The same without white space.
    pub characters_without_spaces: usize,
    /// Blocks with at least one character that is no white space.
    pub paragraphs: usize,
}

/// The same as numbers without limit.
pub struct Totals {
    pub words: nat,
    pub characters: nat,
    pub solid: nat,
    pub paragraphs: nat,
}

impl Default for TextCounts {
    fn default() -> (r: TextCounts)
        ensures
            shows(r, nothing()),
    {
        TextCounts { words: 0, characters: 0, characters_without_spaces: 0, paragraphs: 0 }
    }
}

/// A number as a machine word shows it: no more than the largest.
pub open spec fn shown(n: nat) -> int {
    text::least(n as int, usize::MAX as int)
}

/// Whether counts show totals.
pub open spec fn shows(counts: TextCounts, totals: Totals) -> bool {
    &&& counts.words == shown(totals.words)
    &&& counts.characters == shown(totals.characters)
    &&& counts.characters_without_spaces == shown(totals.solid)
    &&& counts.paragraphs == shown(totals.paragraphs)
}

/// Nothing counted.
pub open spec fn nothing() -> Totals {
    Totals { words: 0, characters: 0, solid: 0, paragraphs: 0 }
}

/// The grapheme clusters of a text.
pub uninterp spec fn clusters_of(s: Seq<char>) -> Seq<Seq<char>>;

/// How many words a text has.
pub uninterp spec fn words_in(s: Seq<char>) -> int;

/// `UnicodeSegmentation::graphemes`, for extended clusters: the clusters of a text, named
/// [`clusters_of`].
#[verifier::external_body]
fn clusters(line: &str) -> (r: Vec<String>)
    ensures
        indent::views(r@) == clusters_of(line@),
{
    line.graphemes(true).map(str::to_owned).collect()
}

/// `UnicodeSegmentation::unicode_words`: how many words a text has, named [`words_in`].
#[verifier::external_body]
fn word_count(line: &str) -> (r: usize)
    ensures
        r == words_in(line@),
{
    line.unicode_words().count()
}

/// Whether a glyph of a role is text that the reader reads, and not something drawn
/// around it.
pub open spec fn is_text_role(role: Role) -> bool {
    match role {
        Role::Body | Role::Heading(_) | Role::Code | Role::Link | Role::Mark(_) => true,
        Role::ListMarker
        | Role::ListIndent
        | Role::QuoteGutter
        | Role::Rule
        | Role::Delimiter
        | Role::Image
        | Role::Math => false,
    }
}

/// Whether a glyph of a role is text that the reader reads.
pub fn is_text(role: Role) -> (r: bool)
    ensures
        r == is_text_role(role),
{
    match role {
        Role::Body | Role::Heading(_) | Role::Code | Role::Link | Role::Mark(_) => true,
        Role::ListMarker
        | Role::ListIndent
        | Role::QuoteGutter
        | Role::Rule
        | Role::Delimiter
        | Role::Image
        | Role::Math => false,
    }
}

/// Whether a glyph counts: a stop that stands for text in the range.
pub open spec fn counts_glyph(g: Glyph, range: Option<Span>) -> bool {
    g.stop && is_text_role(g.role) && (range matches Some(r) ==> r.start <= g.src < r.end)
}

/// The text of a drawn line.
pub open spec fn visible_text(glyphs: Seq<Glyph>, range: Option<Span>) -> Seq<char>
    decreases glyphs.len(),
{
    if glyphs.len() == 0 {
        Seq::empty()
    } else {
        let rest = visible_text(glyphs.drop_last(), range);
        if counts_glyph(glyphs.last(), range) {
            rest.push(glyphs.last().ch)
        } else {
            rest
        }
    }
}

/// How many of some clusters are not white space.
pub open spec fn solid_in(clusters: Seq<Seq<char>>) -> nat
    decreases clusters.len(),
{
    if clusters.len() == 0 {
        0
    } else if text::all_space(clusters.last()) {
        solid_in(clusters.drop_last())
    } else {
        solid_in(clusters.drop_last()) + 1
    }
}

/// Totals with some lines added.
pub open spec fn with_lines(t: Totals, lines: Seq<Seq<char>>) -> Totals
    decreases lines.len(),
{
    if lines.len() == 0 {
        t
    } else {
        let rest = with_lines(t, lines.drop_last());
        let line = lines.last();
        Totals {
            words: (rest.words + words_in(line)) as nat,
            characters: rest.characters + clusters_of(line).len(),
            solid: rest.solid + solid_in(clusters_of(line)),
            paragraphs: rest.paragraphs,
        }
    }
}

/// Totals with a block of some lines added: one paragraph more where it has text.
pub open spec fn with_block(t: Totals, lines: Seq<Seq<char>>) -> Totals {
    let all = with_lines(t, lines);
    Totals {
        paragraphs: if all.solid > t.solid {
            t.paragraphs + 1
        } else {
            t.paragraphs
        },
        ..all
    }
}

/// The first table, from a place in the list on, that a row belongs to.
pub open spec fn table_of(tables: Seq<TableView>, row: int, from: int) -> Option<int>
    decreases tables.len() - from,
{
    if from < 0 || from >= tables.len() {
        None
    } else if tables[from].rows.start <= row < tables[from].rows.end {
        Some(from)
    } else {
        table_of(tables, row, from + 1)
    }
}

/// The first code block, from a place in the list on, that a row belongs to.
pub open spec fn code_of(blocks: Seq<Span>, row: int, from: int) -> Option<int>
    decreases blocks.len() - from,
{
    if from < 0 || from >= blocks.len() {
        None
    } else if blocks[from].start <= row < blocks[from].end {
        Some(from)
    } else {
        code_of(blocks, row, from + 1)
    }
}

/// The text of some drawn lines.
pub open spec fn visible_lines(lines: Seq<Seq<Glyph>>, range: Option<Span>) -> Seq<Seq<char>> {
    Seq::new(lines.len(), |i: int| visible_text(lines[i], range))
}

/// The later of two rows.
pub open spec fn later(a: int, b: int) -> int {
    if a > b {
        a
    } else {
        b
    }
}

/// The lines of the block that a row starts, and the row behind the block. A table is one
/// block and so is a code block, however many rows they take; a gap has no lines.
pub open spec fn block_at(map: TextView, row: int, range: Option<Span>) -> (Seq<Seq<char>>, int) {
    match table_of(map.tables, row, 0) {
        Some(t) => (
            visible_lines(map.tables[t].cells, range),
            later(map.tables[t].rows.end as int, row + 1),
        ),
        None => match code_of(map.code_blocks, row, 0) {
            Some(c) => {
                let span = map.code_blocks[c];
                (
                    Seq::new(
                        (span.end - span.start) as nat,
                        |i: int| visible_text(map.rows[span.start + i].glyphs, range),
                    ),
                    later(span.end as int, row + 1),
                )
            },
            None => (
                if map.rows[row].decoration {
                    Seq::empty()
                } else {
                    seq![visible_text(map.rows[row].glyphs, range)]
                },
                row + 1,
            ),
        },
    }
}

/// Totals with the blocks from a row on added.
pub open spec fn tallied(map: TextView, range: Option<Span>, row: int, t: Totals) -> Totals
    decreases later(map.rows.len() - row, 0),
{
    if row >= map.rows.len() {
        t
    } else {
        let (lines, next) = block_at(map, row, range);
        if next <= row {
            t
        } else {
            tallied(map, range, next, with_block(t, lines))
        }
    }
}

/// Add, and stay at the largest number.
fn plus(a: usize, b: usize) -> (r: usize)
    ensures
        r == text::least(a + b, usize::MAX as int),
{
    if b > usize::MAX - a {
        usize::MAX
    } else {
        a + b
    }
}

/// How many of some clusters are not white space.
fn count_solid(clusters: &Vec<String>) -> (r: usize)
    ensures
        r == solid_in(indent::views(clusters@)),
{
    let ghost views = indent::views(clusters@);
    let total: usize = clusters.len();
    let mut n: usize = 0;
    let mut i: usize = 0;
    while i < total
        invariant
            n <= i <= total == clusters@.len(),
            views == indent::views(clusters@),
            n == solid_in(views.take(i as int)),
        decreases total - i,
    {
        assert(views.take(i + 1).drop_last() =~= views.take(i as int));
        assert(views.take(i + 1).last() == clusters@[i as int]@);
        if !text::is_blank(clusters[i].as_str()) {
            n = n + 1;
        }
        i = i + 1;
    }
    assert(views.take(i as int) =~= views);
    n
}

/// The text of a drawn line: its stops that stand for text, in the range.
pub fn visible(glyphs: &Vec<Glyph>, range: Option<Span>) -> (r: String)
    ensures
        r@ == visible_text(glyphs@, range),
{
    let mut out: Vec<char> = Vec::new();
    let mut i: usize = 0;
    while i < glyphs.len()
        invariant
            i <= glyphs@.len(),
            out@ == visible_text(glyphs@.take(i as int), range),
        decreases glyphs@.len() - i,
    {
        assert(glyphs@.take(i + 1).drop_last() =~= glyphs@.take(i as int));
        let g = glyphs[i];
        let inside = match range {
            Some(r) => r.start <= g.src && g.src < r.end,
            None => true,
        };
        if g.stop && is_text(g.role) && inside {
            out.push(g.ch);
        }
        i = i + 1;
    }
    assert(glyphs@.take(i as int) =~= glyphs@);
    let r = text::string_of(out.as_slice(), 0, out.len());
    assert(r@ =~= out@);
    r
}

impl TextCounts {
    /// Add a line, given its clusters and the number of its words. Says whether it has a
    /// character that is no white space.
    pub fn add_line(&mut self, clusters: &Vec<String>, words: usize) -> (r: bool)
        ensures
            final(self).words == text::least(old(self).words + words, usize::MAX as int),
            final(self).characters == text::least(
                old(self).characters + clusters@.len(),
                usize::MAX as int,
            ),
            final(self).characters_without_spaces == text::least(
                old(self).characters_without_spaces + solid_in(indent::views(clusters@)),
                usize::MAX as int,
            ),
            final(self).paragraphs == old(self).paragraphs,
            r == (solid_in(indent::views(clusters@)) > 0),
    {
        let solid = count_solid(clusters);
        self.words = plus(self.words, words);
        self.characters = plus(self.characters, clusters.len());
        self.characters_without_spaces = plus(self.characters_without_spaces, solid);
        solid > 0
    }

    /// Add a block of some lines. The breaks between its lines are no characters.
    fn add_block(&mut self, lines: &Vec<String>, Ghost(t): Ghost<Totals>)
        requires
            shows(*old(self), t),
        ensures
            shows(*final(self), with_block(t, indent::views(lines@))),
    {
        let ghost views = indent::views(lines@);
        let mut has_text = false;
        let mut i: usize = 0;
        while i < lines.len()
            invariant
                i <= lines@.len(),
                views == indent::views(lines@),
                shows(*self, with_lines(t, views.take(i as int))),
                t.solid <= with_lines(t, views.take(i as int)).solid,
                has_text == (with_lines(t, views.take(i as int)).solid > t.solid),
                with_lines(t, views.take(i as int)).paragraphs == t.paragraphs,
            decreases lines@.len() - i,
        {
            assert(views.take(i + 1).drop_last() =~= views.take(i as int));
            assert(views.take(i + 1).last() == lines@[i as int]@);
            let parts = clusters(lines[i].as_str());
            let words = word_count(lines[i].as_str());
            if self.add_line(&parts, words) {
                has_text = true;
            }
            i = i + 1;
        }
        assert(views.take(i as int) =~= views);
        if has_text {
            self.paragraphs = plus(self.paragraphs, 1);
        }
    }
}

/// The text of the cells of a table.
fn cell_lines(table: &TextTable, range: Option<Span>) -> (r: Vec<String>)
    ensures
        indent::views(r@) == visible_lines(table@.cells, range),
{
    let mut out: Vec<String> = Vec::new();
    let mut i: usize = 0;
    while i < table.cells.len()
        invariant
            i <= table.cells@.len(),
            out@.len() == i,
            forall|k: int|
                0 <= k < i ==> (#[trigger] out@[k])@ == visible_text(table.cells@[k]@, range),
        decreases table.cells@.len() - i,
    {
        out.push(visible(&table.cells[i], range));
        i = i + 1;
    }
    assert(indent::views(out@) =~= visible_lines(table@.cells, range));
    out
}

/// The text of some rows.
fn row_lines(map: &TextMap, span: Span, range: Option<Span>) -> (r: Vec<String>)
    requires
        span.start <= span.end <= map.rows@.len(),
    ensures
        r@.len() == span.end - span.start,
        forall|k: int|
            0 <= k < r@.len() ==> (#[trigger] r@[k])@ == visible_text(
                map@.rows[span.start + k].glyphs,
                range,
            ),
{
    let mut out: Vec<String> = Vec::new();
    let mut i: usize = span.start;
    while i < span.end
        invariant
            span.start <= i <= span.end <= map.rows@.len(),
            out@.len() == i - span.start,
            forall|k: int|
                0 <= k < out@.len() ==> (#[trigger] out@[k])@ == visible_text(
                    map@.rows[span.start + k].glyphs,
                    range,
                ),
        decreases span.end - i,
    {
        out.push(visible(&map.rows[i].glyphs, range));
        i = i + 1;
    }
    out
}

/// The lines of the block that a row starts, and the row behind the block.
fn next_block(map: &TextMap, row: usize, range: Option<Span>) -> (r: (Vec<String>, usize))
    requires
        row < map.rows@.len(),
        forall|i: int|
            0 <= i < map.code_blocks@.len() ==> (#[trigger] map.code_blocks@[i]).end
                <= map.rows@.len(),
    ensures
        (indent::views(r.0@), r.1 as int) == block_at(map@, row as int, range),
        r.1 > row,
{
    let total: usize = map.rows.len();
    let mut t: usize = 0;
    while t < map.tables.len()
        invariant
            t <= map.tables@.len(),
            row < total == map.rows@.len(),
            table_of(map@.tables, row as int, 0) == table_of(map@.tables, row as int, t as int),
        decreases map.tables@.len() - t,
    {
        let table = &map.tables[t];
        assert(map@.tables[t as int] == table@);
        if table.rows.start <= row && row < table.rows.end {
            return (cell_lines(table, range), table.rows.end);
        }
        t = t + 1;
    }
    let mut c: usize = 0;
    while c < map.code_blocks.len()
        invariant
            c <= map.code_blocks@.len(),
            row < total == map.rows@.len(),
            table_of(map@.tables, row as int, 0) is None,
            forall|i: int|
                0 <= i < map.code_blocks@.len() ==> (#[trigger] map.code_blocks@[i]).end
                    <= map.rows@.len(),
            code_of(map@.code_blocks, row as int, 0) == code_of(
                map@.code_blocks,
                row as int,
                c as int,
            ),
        decreases map.code_blocks@.len() - c,
    {
        let span = map.code_blocks[c];
        if span.start <= row && row < span.end {
            let lines = row_lines(map, span, range);
            assert(indent::views(lines@) =~= block_at(map@, row as int, range).0);
            return (lines, span.end);
        }
        c = c + 1;
    }
    let mut lines: Vec<String> = Vec::new();
    assert(map@.rows[row as int] == map.rows@[row as int]@);
    if !map.rows[row].decoration {
        lines.push(visible(&map.rows[row].glyphs, range));
    }
    assert(indent::views(lines@) =~= block_at(map@, row as int, range).0);
    (lines, row + 1)
}

/// Count the text of a rendering, or of the part of it whose source bytes are in a range.
pub fn tally(map: &TextMap, range: Option<Span>) -> (r: TextCounts)
    requires
        forall|i: int|
            0 <= i < map.code_blocks@.len() ==> (#[trigger] map.code_blocks@[i]).end
                <= map.rows@.len(),
    ensures
        shows(r, tallied(map@, range, 0, nothing())),
{
    let mut counts = TextCounts::default();
    let ghost mut t = nothing();
    let mut row: usize = 0;
    while row < map.rows.len()
        invariant
            forall|i: int|
                0 <= i < map.code_blocks@.len() ==> (#[trigger] map.code_blocks@[i]).end
                    <= map.rows@.len(),
            shows(counts, t),
            tallied(map@, range, 0, nothing()) == tallied(map@, range, row as int, t),
        decreases later(map.rows@.len() - row, 0),
    {
        let (lines, next) = next_block(map, row, range);
        counts.add_block(&lines, Ghost(t));
        proof {
            t = with_block(t, indent::views(lines@));
        }
        row = next;
    }
    counts
}

// ── what the counts are of ─────────────────────────────────────────────────────
/// Whether a role is one of words: of prose, a heading, code, a link or a highlight.
pub open spec fn of_words(role: Role) -> bool {
    role is Body || role is Heading || role is Code || role is Link || role is Mark
}

/// A reader reads every word: on a line of stops in the roles of prose, headings, code,
/// links and highlights, the text is the characters of all of them.
pub proof fn law_all_words_are_read(glyphs: Seq<Glyph>)
    requires
        forall|i: int|
            0 <= i < glyphs.len() ==> (#[trigger] glyphs[i]).stop && of_words(glyphs[i].role),
    ensures
        visible_text(glyphs, None) == Seq::new(glyphs.len(), |i: int| glyphs[i].ch),
    decreases glyphs.len(),
{
    if glyphs.len() > 0 {
        let rest = glyphs.drop_last();
        assert forall|i: int| 0 <= i < rest.len() implies (#[trigger] rest[i]).stop && of_words(
            rest[i].role,
        ) by {
            assert(rest[i] == glyphs[i]);
        }
        law_all_words_are_read(rest);
        assert(glyphs.last() == glyphs[glyphs.len() - 1]);
    }
    assert(visible_text(glyphs, None) =~= Seq::new(glyphs.len(), |i: int| glyphs[i].ch));
}

/// What is drawn around the words is not read: neither what is no stop, nor a bullet, a
/// gutter, a rule, a delimiter, an image or a formula.
pub proof fn law_nothing_but_words_is_read(glyphs: Seq<Glyph>, range: Option<Span>)
    requires
        forall|i: int|
            0 <= i < glyphs.len() ==> !(#[trigger] glyphs[i]).stop || !of_words(glyphs[i].role),
    ensures
        visible_text(glyphs, range).len() == 0,
    decreases glyphs.len(),
{
    if glyphs.len() > 0 {
        let rest = glyphs.drop_last();
        assert forall|i: int| 0 <= i < rest.len() implies !(#[trigger] rest[i]).stop || !of_words(
            rest[i].role,
        ) by {
            assert(rest[i] == glyphs[i]);
        }
        law_nothing_but_words_is_read(rest, range);
        assert(glyphs.last() == glyphs[glyphs.len() - 1]);
    }
}

/// A line is read from left to right: the text of two parts is the text of the one and then
/// of the other.
pub proof fn law_a_line_is_read_in_order(a: Seq<Glyph>, b: Seq<Glyph>, range: Option<Span>)
    ensures
        visible_text(a + b, range) == visible_text(a, range) + visible_text(b, range),
    decreases b.len(),
{
    if b.len() == 0 {
        assert(a + b =~= a);
        assert(visible_text(a, range) + visible_text(b, range) =~= visible_text(a, range));
    } else {
        assert((a + b).drop_last() =~= a + b.drop_last());
        law_a_line_is_read_in_order(a, b.drop_last(), range);
        assert(visible_text(a + b, range) =~= visible_text(a, range) + visible_text(b, range));
    }
}

/// A range counts what stands for its bytes: all of a line that lies in it, and nothing of
/// one that lies outside.
pub proof fn law_a_range_counts_its_own(glyphs: Seq<Glyph>, range: Span)
    ensures
        (forall|i: int|
            0 <= i < glyphs.len() ==> range.start <= (#[trigger] glyphs[i]).src < range.end)
            ==> visible_text(glyphs, Some(range)) == visible_text(glyphs, None),
        (forall|i: int|
            0 <= i < glyphs.len() ==> !(range.start <= (#[trigger] glyphs[i]).src < range.end))
            ==> visible_text(glyphs, Some(range)).len() == 0,
    decreases glyphs.len(),
{
    if glyphs.len() > 0 {
        let rest = glyphs.drop_last();
        assert(forall|i: int| 0 <= i < rest.len() ==> rest[i] == glyphs[i]);
        law_a_range_counts_its_own(rest, range);
        assert(glyphs.last() == glyphs[glyphs.len() - 1]);
        if forall|i: int|
            0 <= i < glyphs.len() ==> range.start <= (#[trigger] glyphs[i]).src < range.end {
            assert forall|i: int| 0 <= i < rest.len() implies range.start <= (#[trigger] rest[i]).src
                < range.end by {
                assert(rest[i] == glyphs[i]);
            }
        }
        if forall|i: int|
            0 <= i < glyphs.len() ==> !(range.start <= (#[trigger] glyphs[i]).src < range.end) {
            assert forall|i: int| 0 <= i < rest.len() implies !(range.start <= (
            #[trigger] rest[i]).src < range.end) by {
                assert(rest[i] == glyphs[i]);
            }
        }
    }
}

/// Whether two lines are drawn of the same characters, each a word's in both or in neither.
pub open spec fn alike(a: Seq<Glyph>, b: Seq<Glyph>) -> bool {
    a.len() == b.len() && forall|i: int|
        0 <= i < a.len() ==> (#[trigger] a[i]).ch == b[i].ch && a[i].src == b[i].src && a[i].stop
            == b[i].stop && of_words(a[i].role) == of_words(b[i].role)
}

proof fn lemma_alike(a: Seq<Glyph>, b: Seq<Glyph>, range: Option<Span>)
    requires
        alike(a, b),
    ensures
        visible_text(a, range) == visible_text(b, range),
    decreases a.len(),
{
    if a.len() > 0 {
        assert(a.last() == a[a.len() - 1] && b.last() == b[b.len() - 1]);
        assert forall|i: int| 0 <= i < a.drop_last().len() implies (
        #[trigger] a.drop_last()[i]).ch == b.drop_last()[i].ch && a.drop_last()[i].src
            == b.drop_last()[i].src && a.drop_last()[i].stop == b.drop_last()[i].stop && of_words(
            a.drop_last()[i].role,
        ) == of_words(b.drop_last()[i].role) by {
            assert(a.drop_last()[i] == a[i] && b.drop_last()[i] == b[i]);
        }
        lemma_alike(a.drop_last(), b.drop_last(), range);
    }
}

/// Whether two renderings are drawn alike, row by row and cell by cell.
pub open spec fn drawn_alike(a: TextView, b: TextView) -> bool {
    &&& a.code_blocks == b.code_blocks
    &&& a.rows.len() == b.rows.len()
    &&& a.tables.len() == b.tables.len()
    &&& forall|i: int|
        0 <= i < a.rows.len() ==> (#[trigger] a.rows[i]).decoration == b.rows[i].decoration && alike(
            a.rows[i].glyphs,
            b.rows[i].glyphs,
        )
    &&& forall|i: int|
        0 <= i < a.tables.len() ==> (#[trigger] a.tables[i]).rows == b.tables[i].rows
            && a.tables[i].cells.len() == b.tables[i].cells.len()
    &&& forall|i: int, j: int|
        0 <= i < a.tables.len() && 0 <= j < a.tables[i].cells.len() ==> alike(
            #[trigger] a.tables[i].cells[j],
            b.tables[i].cells[j],
        )
}

/// How words are styled changes no count: a word counts the same as a link, in a heading, in
/// code, highlighted or in prose.
pub proof fn law_styling_changes_no_count(a: TextView, b: TextView, range: Option<Span>)
    requires
        drawn_alike(a, b),
        forall|i: int|
            0 <= i < a.code_blocks.len() ==> (#[trigger] a.code_blocks[i]).end <= a.rows.len(),
    ensures
        tallied(a, range, 0, nothing()) == tallied(b, range, 0, nothing()),
{
    lemma_tallied_alike(a, b, range, 0, nothing());
}

proof fn lemma_table_of(a: Seq<TableView>, b: Seq<TableView>, row: int, from: int)
    requires
        a.len() == b.len(),
        forall|i: int| 0 <= i < a.len() ==> (#[trigger] a[i]).rows == b[i].rows,
    ensures
        table_of(a, row, from) == table_of(b, row, from),
        table_of(a, row, from) matches Some(t) ==> 0 <= t < a.len() && a[t].rows.start <= row
            < a[t].rows.end,
    decreases a.len() - from,
{
    if 0 <= from < a.len() {
        assert(a[from].rows == b[from].rows);
        lemma_table_of(a, b, row, from + 1);
    }
}

proof fn lemma_code_of(blocks: Seq<Span>, row: int, from: int)
    ensures
        code_of(blocks, row, from) matches Some(c) ==> 0 <= c < blocks.len() && blocks[c].start
            <= row < blocks[c].end,
    decreases blocks.len() - from,
{
    if 0 <= from < blocks.len() {
        lemma_code_of(blocks, row, from + 1);
    }
}

proof fn lemma_tallied_alike(a: TextView, b: TextView, range: Option<Span>, row: int, t: Totals)
    requires
        drawn_alike(a, b),
        0 <= row,
        forall|i: int|
            0 <= i < a.code_blocks.len() ==> (#[trigger] a.code_blocks[i]).end <= a.rows.len(),
    ensures
        tallied(a, range, row, t) == tallied(b, range, row, t),
    decreases later(a.rows.len() - row, 0),
{
    if row < a.rows.len() {
        lemma_table_of(a.tables, b.tables, row, 0);
        lemma_code_of(a.code_blocks, row, 0);
        let (x, y) = (block_at(a, row, range), block_at(b, row, range));
        match table_of(a.tables, row, 0) {
            Some(t) => {
                assert forall|j: int| 0 <= j < a.tables[t].cells.len() implies visible_text(
                    a.tables[t].cells[j],
                    range,
                ) == visible_text(b.tables[t].cells[j], range) by {
                    lemma_alike(a.tables[t].cells[j], b.tables[t].cells[j], range);
                }
                assert(x.0 =~= y.0);
            },
            None => match code_of(a.code_blocks, row, 0) {
                Some(c) => {
                    let span = a.code_blocks[c];
                    assert forall|i: int| 0 <= i < span.end - span.start implies (#[trigger] x.0[i])
                        == y.0[i] by {
                        assert(a.rows[span.start + i].decoration == b.rows[span.start + i].decoration);
                        lemma_alike(
                            a.rows[span.start + i].glyphs,
                            b.rows[span.start + i].glyphs,
                            range,
                        );
                    }
                    assert(x.0 =~= y.0);
                },
                None => {
                    assert(a.rows[row].decoration == b.rows[row].decoration);
                    lemma_alike(a.rows[row].glyphs, b.rows[row].glyphs, range);
                    assert(x.0 =~= y.0);
                },
            },
        }
        if x.1 > row {
            lemma_tallied_alike(a, b, range, x.1, with_block(t, x.0));
        }
    }
}

/// The counts are the totals themselves, each in its place, as long as a machine word holds
/// them.
pub proof fn law_counts_are_the_totals(counts: TextCounts, t: Totals)
    requires
        shows(counts, t),
        t.words <= usize::MAX && t.characters <= usize::MAX && t.solid <= usize::MAX && t.paragraphs
            <= usize::MAX,
    ensures
        counts.words == t.words,
        counts.characters == t.characters,
        counts.characters_without_spaces == t.solid,
        counts.paragraphs == t.paragraphs,
        nothing().words == 0 && nothing().characters == 0 && nothing().solid == 0
            && nothing().paragraphs == 0,
{
}

/// White space is counted as characters and not among those without: the others are as many
/// in two texts as in the one and in the other together.
pub proof fn law_solid_characters_add_up(a: Seq<Seq<char>>, b: Seq<Seq<char>>, one: Seq<char>)
    ensures
        solid_in(a + b) == solid_in(a) + solid_in(b),
        solid_in(seq![one]) == (if forall|i: int|
            0 <= i < one.len() ==> text::whitespace(#[trigger] one[i]) {
            0nat
        } else {
            1nat
        }),
        solid_in(a) <= a.len(),
    decreases a.len() + b.len(),
{
    reveal_with_fuel(solid_in, 2);
    assert(seq![one].drop_last() =~= Seq::<Seq<char>>::empty());
    if b.len() > 0 {
        assert((a + b).drop_last() =~= a + b.drop_last());
        law_solid_characters_add_up(a, b.drop_last(), one);
    } else {
        assert(a + b =~= a);
        if a.len() > 0 {
            law_solid_characters_add_up(a.drop_last(), b, one);
        }
    }
}

/// Totals of some lines are those before them and what each line has.
proof fn lemma_with_line(t: Totals, line: Seq<char>)
    ensures
        with_lines(t, seq![line]) == (Totals {
            words: (t.words + words_in(line)) as nat,
            characters: t.characters + clusters_of(line).len(),
            solid: t.solid + solid_in(clusters_of(line)),
            paragraphs: t.paragraphs,
        }),
        with_lines(t, Seq::empty()) == t,
{
    reveal_with_fuel(with_lines, 2);
    assert(seq![line].drop_last() =~= Seq::<Seq<char>>::empty());
}

/// One row more adds what it says: its words, its characters with and without white space,
/// and one paragraph where it has a character that is no white space. A gap adds nothing.
pub proof fn law_a_row_adds_what_it_says(map: TextView, row: RowView, range: Option<Span>)
    requires
        map.tables.len() == 0,
        map.code_blocks.len() == 0,
    ensures
        ({
            let longer = TextView { rows: map.rows.push(row), ..map };
            let before = tallied(map, range, 0, nothing());
            let after = tallied(longer, range, 0, nothing());
            let says = visible_text(row.glyphs, range);
            if row.decoration {
                after == before
            } else {
                &&& after.words == (before.words + words_in(says)) as nat
                &&& after.characters == before.characters + clusters_of(says).len()
                &&& after.solid == before.solid + solid_in(clusters_of(says))
                &&& after.paragraphs == before.paragraphs + (if solid_in(clusters_of(says)) > 0 {
                    1nat
                } else {
                    0nat
                })
            }
        }),
{
    let longer = TextView { rows: map.rows.push(row), ..map };
    lemma_row_added(map, row, range, 0, nothing());
    lemma_with_line(tallied(map, range, 0, nothing()), visible_text(row.glyphs, range));
}

proof fn lemma_row_added(map: TextView, row: RowView, range: Option<Span>, at: int, t: Totals)
    requires
        map.tables.len() == 0,
        map.code_blocks.len() == 0,
        0 <= at <= map.rows.len(),
    ensures
        tallied(TextView { rows: map.rows.push(row), ..map }, range, at, t) == with_block(
            tallied(map, range, at, t),
            if row.decoration {
                Seq::empty()
            } else {
                seq![visible_text(row.glyphs, range)]
            },
        ),
    decreases map.rows.len() - at,
{
    let longer = TextView { rows: map.rows.push(row), ..map };
    assert(table_of(map.tables, at, 0) is None);
    assert(code_of(map.code_blocks, at, 0) is None);
    if at < map.rows.len() {
        assert(longer.rows[at] == map.rows[at]);
        lemma_row_added(map, row, range, at + 1, with_block(t, block_at(map, at, range).0));
    } else {
        assert(longer.rows[at] == row);
        let u = with_block(t, block_at(longer, at, range).0);
        assert(tallied(longer, range, at + 1, u) == u);
    }
}

/// A table counts by its cells and not by the rows it is drawn on, and is one paragraph at
/// most.
pub proof fn law_a_table_is_one_paragraph(map: TextView, range: Option<Span>)
    requires
        map.tables.len() == 1,
        map.tables[0].rows.start == 0,
        map.tables[0].rows.end == map.rows.len(),
        map.rows.len() > 0,
    ensures
        ({
            let t = tallied(map, range, 0, nothing());
            let all = with_lines(nothing(), visible_lines(map.tables[0].cells, range));
            &&& t.words == all.words
            &&& t.characters == all.characters
            &&& t.solid == all.solid
            &&& t.paragraphs == (if all.solid > 0 {
                1nat
            } else {
                0nat
            })
        }),
{
    lemma_paragraphs(nothing(), visible_lines(map.tables[0].cells, range));
    assert(table_of(map.tables, 0, 0) == Some(0int));
    let u = with_block(nothing(), block_at(map, 0, range).0);
    assert(tallied(map, range, map.rows.len() as int, u) == u);
}

proof fn lemma_paragraphs(t: Totals, lines: Seq<Seq<char>>)
    ensures
        with_lines(t, lines).paragraphs == t.paragraphs,
        with_lines(t, lines).solid >= t.solid,
    decreases lines.len(),
{
    if lines.len() > 0 {
        lemma_paragraphs(t, lines.drop_last());
    }
}

/// A code block counts by its rows, and is one paragraph at most however many they are.
pub proof fn law_a_code_block_is_one_paragraph(map: TextView, range: Option<Span>)
    requires
        map.tables.len() == 0,
        map.code_blocks.len() == 1,
        map.code_blocks[0].start == 0,
        map.code_blocks[0].end == map.rows.len(),
        map.rows.len() > 0,
    ensures
        ({
            let t = tallied(map, range, 0, nothing());
            let lines = Seq::new(map.rows.len(), |i: int| visible_text(map.rows[i].glyphs, range));
            let all = with_lines(nothing(), lines);
            &&& t.words == all.words
            &&& t.characters == all.characters
            &&& t.solid == all.solid
            &&& t.paragraphs == (if all.solid > 0 {
                1nat
            } else {
                0nat
            })
        }),
{
    let lines = Seq::new(map.rows.len(), |i: int| visible_text(map.rows[i].glyphs, range));
    assert(table_of(map.tables, 0, 0) is None);
    assert(code_of(map.code_blocks, 0, 0) == Some(0int));
    assert(block_at(map, 0, range).0 =~= lines);
    lemma_paragraphs(nothing(), lines);
    let u = with_block(nothing(), lines);
    assert(tallied(map, range, map.rows.len() as int, u) == u);
}

/// The lines of a block add up, one by one.
pub proof fn law_a_line_adds_what_it_says(t: Totals, lines: Seq<Seq<char>>, line: Seq<char>)
    ensures
        ({
            let before = with_lines(t, lines);
            let after = with_lines(t, lines.push(line));
            &&& after.words == (before.words + words_in(line)) as nat
            &&& after.characters == before.characters + clusters_of(line).len()
            &&& after.solid == before.solid + solid_in(clusters_of(line))
        }),
{
    assert(lines.push(line).drop_last() =~= lines);
}

} // verus!

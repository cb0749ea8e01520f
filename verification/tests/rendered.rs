//! Motion and editing in the rendered view, over a small layout.

use leaf_core::doc::Doc;
use leaf_core::marks::InlineKind;
use leaf_core::modes::{LineFlow, View};
use leaf_core::node::{Kind, Node};
use leaf_core::visual::{Cell, MediaKind, MediaMap, MediaStop, Stop, TableMap, VisualMap};
use unicode_segmentation::UnicodeSegmentation;
use unicode_width::UnicodeWidthStr;

/// A drawn cluster: its source offset, and the text drawn for it. `None` ends the row.
type Drawn = (usize, Option<String>);

/// A row of the layout: the column its text starts in, its clusters, and the offset
/// behind the last of them.
struct Row {
    indent: usize,
    glyphs: Vec<(usize, String)>,
    end: Option<usize>,
}

impl Row {
    fn blank() -> Row {
        Row { indent: 0, glyphs: Vec::new(), end: None }
    }

    fn width(&self) -> usize {
        self.glyphs.iter().map(|(_, t)| t.width()).sum()
    }
}

/// A small layout, as a frontend hands one over: markup hidden, a blank row between
/// blocks, tables on a grid, and words wrapped at the width.
struct Layout<'a> {
    nodes: &'a [Node],
    source: &'a str,
    wrap: Option<usize>,
    preserve: bool,
    media_rows: Vec<(String, usize)>,
    rows: Vec<Row>,
    tables: Vec<TableMap>,
    media: Vec<MediaMap>,
    /// Where the last block laid out ends.
    laid: Option<usize>,
}

impl Layout<'_> {
    fn children(&self, at: usize) -> Vec<usize> {
        let mut out = Vec::new();
        let mut next = self.nodes[at].first_child;
        while let Some(i) = next {
            out.push(i);
            next = self.nodes[i].next_sibling;
        }
        out
    }

    fn clusters(&self, start: usize, end: usize) -> Vec<Drawn> {
        self.source[start..end]
            .grapheme_indices(true)
            .map(|(i, g)| (start + i, Some(g.to_string())))
            .collect()
    }

    fn inline(&self, at: usize, out: &mut Vec<Drawn>) {
        let n = &self.nodes[at];
        match n.kind {
            Kind::Str => out.extend(self.clusters(n.span.start, n.span.end)),
            Kind::SoftBreak if self.preserve => out.push((n.span.start, None)),
            Kind::SoftBreak => out.push((n.span.start, Some(" ".to_string()))),
            Kind::HardBreak => out.push((n.span.start, None)),
            Kind::Image => out.push((n.span.start, Some("▣".to_string()))),
            Kind::Verbatim => {
                let span = n.content.unwrap_or(n.span);
                out.extend(self.clusters(span.start, span.end));
            }
            _ => {
                for child in self.children(at) {
                    self.inline(child, out);
                }
            }
        }
    }

    fn push_line(&mut self, indent: usize, glyphs: Vec<(usize, String)>, end: usize) {
        let mut line: Vec<(usize, String)> = glyphs;
        if let Some(width) = self.wrap {
            let room = width.saturating_sub(indent).max(1);
            while line.iter().map(|(_, t)| t.width()).sum::<usize>() > room {
                let mut used = 0;
                let mut space = None;
                for (i, (_, t)) in line.iter().enumerate() {
                    if used > room {
                        break;
                    }
                    if t == " " && i > 0 {
                        space = Some(i);
                    }
                    used += t.width();
                }
                let Some(cut) = space else { break };
                let rest = line.split_off(cut + 1);
                let end = rest.first().map_or(end, |(at, _)| *at);
                self.rows.push(Row { indent, glyphs: line, end: Some(end) });
                line = rest;
            }
        }
        self.rows.push(Row { indent, glyphs: line, end: Some(end) });
    }

    fn push_text(&mut self, indent: usize, drawn: Vec<Drawn>, end: usize) {
        let mut line: Vec<(usize, String)> = Vec::new();
        for (at, text) in drawn {
            match text {
                Some(text) => line.push((at, text)),
                None => {
                    let done = std::mem::take(&mut line);
                    self.push_line(indent, done, at);
                }
            }
        }
        let end = line.last().map_or(end, |(at, t)| at + t.len());
        self.push_line(indent, line, end);
    }

    /// The rows between the last block and the next one, which starts at `next`: the gap,
    /// and a row for each empty paragraph.
    fn gap(&mut self, next: usize, last: bool) {
        let Some(end) = self.laid else { return };
        if next < end {
            return;
        }
        let breaks = self.source[end..next].matches('\n').count();
        if self.preserve {
            let blanks = breaks.saturating_sub(1);
            for k in 0..blanks {
                self.rows.push(Row { end: Some(end + 1 + k), ..Row::blank() });
            }
            return;
        }
        let mut at = end;
        while at + 2 <= next && self.source[at..next].starts_with("\n\n") && (last || at + 4 <= next) {
            at += 2;
            self.rows.push(Row::blank());
            self.rows.push(Row { end: Some(at), ..Row::blank() });
        }
        if !last && breaks >= 2 {
            self.rows.push(Row::blank());
        }
    }

    fn cell(&self, row: usize, col: usize, at: usize) -> (Vec<(usize, String)>, Cell) {
        let mut drawn = Vec::new();
        for child in self.children(at) {
            self.inline(child, &mut drawn);
        }
        let glyphs: Vec<(usize, String)> =
            drawn.into_iter().map(|(o, t)| (o, t.unwrap_or("\n".to_string()))).collect();
        match (glyphs.first(), glyphs.last()) {
            (Some((start, _)), Some((end, t))) => {
                let cell = Cell { start: *start, end: end + t.len() };
                (glyphs, cell)
            }
            _ => {
                let span = self.nodes[row].span;
                let pipes: Vec<usize> =
                    self.source[span.start..].match_indices('|').map(|(i, _)| span.start + i).collect();
                let home = (pipes[col] + 2).min(pipes[col + 1]);
                (glyphs, Cell { start: home, end: home })
            }
        }
    }

    fn table(&mut self, indent: usize, at: usize) {
        let mut grid = Vec::new();
        let mut texts = Vec::new();
        for row in self.children(at) {
            if self.nodes[row].kind != Kind::Row {
                continue;
            }
            let mut cells = Vec::new();
            let mut line = Vec::new();
            for (col, cell) in self.children(row).into_iter().enumerate() {
                let (glyphs, cell) = self.cell(row, col, cell);
                cells.push(cell);
                line.push(glyphs);
            }
            grid.push(cells);
            texts.push(line);
        }
        let columns = texts.iter().map(Vec::len).max().unwrap_or(0);
        let widths: Vec<usize> = (0..columns)
            .map(|c| {
                texts
                    .iter()
                    .filter_map(|row| row.get(c))
                    .map(|cell| cell.iter().map(|(_, t)| t.width()).sum::<usize>())
                    .max()
                    .unwrap_or(0)
            })
            .collect();
        self.rows.push(Row::blank());
        for (r, line) in texts.into_iter().enumerate() {
            let mut glyphs = Vec::new();
            for (c, cell) in line.into_iter().enumerate() {
                let home = grid[r][c];
                let used: usize = cell.iter().map(|(_, t)| t.width()).sum();
                glyphs.push((usize::MAX, "│ ".to_string()));
                glyphs.extend(cell);
                glyphs.push((home.end, " ".repeat(widths[c] - used + 1)));
            }
            self.rows.push(Row { indent, glyphs, end: None });
            self.rows.push(Row::blank());
        }
        self.tables.push(TableMap { grid });
    }

    fn block(&mut self, indent: usize, at: usize) {
        let n = &self.nodes[at];
        let (start, end) = (n.span.start, n.span.end);
        match n.kind {
            Kind::Metadata | Kind::Reference => {}
            Kind::Para | Kind::Heading | Kind::CodeBlock | Kind::Table | Kind::ThematicBreak => {
                let text = self.source[start..end].trim_end_matches('\n').len();
                self.gap(start, false);
                let kind = n.kind;
                let content = n.content;
                let children = self.children(at);
                match kind {
                    Kind::CodeBlock => {
                        let body = content.unwrap_or(n.span);
                        let text = self.source[body.start..body.end].trim_end_matches('\n').to_string();
                        let strip = if self.source[start..].starts_with("    ") { 4 } else { 0 };
                        let mut from = body.start;
                        for line in text.split('\n') {
                            let skip = strip.min(line.len() - line.trim_start().len());
                            let glyphs = self
                                .clusters(from + skip, from + line.len())
                                .into_iter()
                                .map(|(o, t)| (o, t.unwrap()))
                                .collect();
                            self.push_line(indent, glyphs, from + line.len());
                            from += line.len() + 1;
                        }
                    }
                    Kind::Table => self.table(indent, at),
                    Kind::ThematicBreak => self.push_line(indent, Vec::new(), start),
                    _ => {
                        let alone = children.len() == 1 && self.nodes[children[0]].kind == Kind::Image;
                        if alone {
                            let image = &self.nodes[children[0]];
                            let span = image.span;
                            let to = image.destination.clone().unwrap_or_default();
                            self.media.push(MediaMap { kind: MediaKind::Image, span });
                            self.push_line(indent, vec![(span.start, "▣".to_string())], span.end);
                            let tall = self.media_rows.iter().find(|(d, _)| *d == to).map_or(1, |(_, r)| *r);
                            for _ in 1..tall {
                                self.rows.push(Row::blank());
                            }
                        } else {
                            let mut drawn = Vec::new();
                            for child in children {
                                self.inline(child, &mut drawn);
                            }
                            let line = self.source[start + text..].find('\n').unwrap_or(0);
                            let shown = &self.source[start..start + text + line];
                            let tail = start + shown.trim_end_matches(' ').len();
                            if !drawn.is_empty() && drawn.iter().all(|(at, _)| *at < tail) {
                                drawn.extend(self.clusters(tail, start + shown.len()));
                            }
                            let line = self.source[start..].split('\n').next().unwrap_or("");
                            let marker = line.len() - line.trim_start_matches(['#', ' ']).len();
                            self.push_text(indent, drawn, start + marker);
                        }
                    }
                }
                self.laid = Some(start + text);
            }
            Kind::ListItem | Kind::TaskListItem if n.first_child.is_none() => {
                let line = self.source[start..].split('\n').next().unwrap_or("").len();
                self.gap(start, false);
                self.push_line(indent + 2, Vec::new(), start + line);
                self.laid = Some(start + line);
            }
            kind => {
                let deeper = match kind {
                    Kind::BlockQuote | Kind::ListItem | Kind::TaskListItem => indent + 2,
                    _ => indent,
                };
                for child in self.children(at) {
                    self.block(deeper, child);
                }
            }
        }
    }
}

/// The map of the document, and the text of its rows.
fn laid_out(d: &mut Doc, wrap: Option<usize>) -> (VisualMap, Vec<String>) {
    let nodes = d.nodes();
    let source = d.source.clone();
    let mut layout = Layout {
        nodes: &nodes,
        source: &source,
        wrap,
        preserve: d.line_flow() == LineFlow::Preserve,
        media_rows: d.media_rows.clone(),
        rows: Vec::new(),
        tables: Vec::new(),
        media: Vec::new(),
        laid: None,
    };
    layout.block(0, 0);
    layout.gap(source.len(), true);
    let content_start = nodes
        .iter()
        .filter(|n| n.kind == Kind::Metadata)
        .map(|n| source[n.span.end..].find(|c| c != '\n').map_or(source.len(), |p| n.span.end + p))
        .next()
        .unwrap_or(0);
    let mut stops = Vec::new();
    let mut widths = Vec::new();
    for (row, line) in layout.rows.iter().enumerate() {
        let mut col = line.indent;
        for (offset, text) in &line.glyphs {
            if *offset != usize::MAX {
                stops.push(Stop { offset: *offset, row, col });
            }
            col += text.width();
        }
        if let Some(offset) = line.end {
            stops.push(Stop { offset, row, col });
        }
        widths.push(line.width());
    }
    if stops.is_empty() {
        stops.push(Stop { offset: content_start, row: 0, col: 0 });
    }
    let texts = layout.rows.iter().map(|r| r.glyphs.iter().map(|(_, t)| t.as_str()).collect()).collect();
    let map = VisualMap { content_start, stops, widths, tables: layout.tables, media: layout.media };
    (map, texts)
}

/// Lays the document out and hands it the map.
fn show(d: &mut Doc, wrap: Option<usize>) {
    let (map, _) = laid_out(d, wrap);
    match wrap {
        Some(width) => d.build_visual(width, map),
        None => d.build_visual_unwrapped(map),
    }
}

fn drawn_rows(d: &mut Doc) -> Vec<String> {
    laid_out(d, Some(80)).1
}

const VIEWS: [(View, &str); 2] = [(View::Source, "source"), (View::Wysiwyg, "wysiwyg")];

const TABLE: &str = "| Name | Qty |\n|:-----|----:|\n| Pear | 3 |\n| Fig | 12 |\n";

fn doc_in(view: View, name: &str, body: &str) -> Doc {
    let file = format!("{name}.md");
    let mut d = Doc::opened(body.as_bytes().to_vec(), "md", file.clone(), file).unwrap();
    d.view = view;
    if view == View::Wysiwyg {
        show(&mut d, Some(80));
    }
    d
}

fn doc_with(name: &str, body: &str) -> Doc {
    doc_in(View::Source, name, body)
}

fn wysiwyg_doc(name: &str, body: &str) -> Doc {
    doc_in(View::Wysiwyg, name, body)
}

fn parse_caret(marked: &str) -> (String, usize) {
    let caret = marked.find('|').expect("fixture needs a `|` caret marker");
    (marked.replacen('|', "", 1), caret)
}

fn render_caret(d: &Doc) -> String {
    let mut marks: Vec<(usize, u8, char)> = vec![(d.caret, 1, '|')];
    if let Some((s, e)) = d.selection() {
        marks.push((s, 0, '['));
        marks.push((e, 2, ']'));
    }
    marks.sort_by(|a, b| b.0.cmp(&a.0).then(b.1.cmp(&a.1)));
    let mut out = d.source.clone();
    for (at, _, ch) in marks {
        out.insert(at, ch);
    }
    out
}

fn golden(name: &str, marked: &str, action: impl FnOnce(&mut Doc)) -> String {
    golden_in(View::Source, name, marked, action)
}

fn golden_in(view: View, name: &str, marked: &str, action: impl FnOnce(&mut Doc)) -> String {
    let (src, caret) = parse_caret(marked);
    let mut d = doc_in(view, name, &src);
    d.caret = caret;
    action(&mut d);
    render_caret(&d)
}

fn both_views(name: &str, marked: &str, action: fn(&mut Doc)) -> String {
    let (src, caret) = parse_caret(marked);
    let run = |view: View, tag: &str| {
        let mut d = doc_in(view, &format!("{name}_{tag}"), &src);
        d.caret = caret;
        action(&mut d);
        render_caret(&d)
    };
    let source = run(VIEWS[0].0, VIEWS[0].1);
    let wysiwyg = run(VIEWS[1].0, VIEWS[1].1);
    assert_eq!(source, wysiwyg, "the views disagree on {marked:?}");
    source
}

fn doc_at_picture(name: &str, src: &str, side: MediaStop) -> Doc {
    let mut d = doc_in(View::Wysiwyg, name, src);
    show(&mut d, None);
    let start = src.find("![").unwrap();
    d.caret = match side {
        MediaStop::Before => start,
        MediaStop::After => start + "![](p.png)".len(),
    };
    d
}

fn media_count(d: &mut Doc) -> usize {
    show(d, None);
    d.vmap.media.len()
}

fn wrapped_doc(name: &str) -> Doc {
    let mut d = wysiwyg_doc(name, "one two three four five six seven eight");
    show(&mut d, Some(12));
    d
}

fn walk_right(d: &mut Doc) -> Vec<usize> {
    let mut seen = vec![d.caret];
    for _ in 0..2000 {
        let before = d.caret;
        d.move_right(false);
        if d.caret == before {
            break;
        }
        seen.push(d.caret);
    }
    seen
}

#[test]
fn a_rebuild_with_nothing_changed_reuses_the_map() {
    let mut d = doc_in(View::Wysiwyg, "cache_hit", "# Title\n\nbody\n");
    show(&mut d, Some(80));
    assert!(!d.vmap.stops.is_empty());
    d.vmap.stops.clear();
    show(&mut d, Some(80));
    assert!(
        d.vmap.stops.is_empty(),
        "the map was rebuilt though nothing changed — the cache never fired"
    );
}

#[test]
fn an_edit_rebuilds_the_map() {
    let mut d = doc_in(View::Wysiwyg, "cache_edit", "# Title\n\nbody\n");
    show(&mut d, Some(80));
    let before = d.revision();
    d.vmap.stops.clear();
    d.insert("x");
    show(&mut d, Some(80));
    assert!(d.revision() > before, "an edit must move the revision");
    assert!(
        !d.vmap.stops.is_empty(),
        "an edited document must not paint from a stale map"
    );
}

#[test]
fn a_width_change_rebuilds_the_map() {
    let mut d = doc_in(View::Wysiwyg, "cache_width", "one two three four five six\n");
    show(&mut d, Some(80));
    d.vmap.stops.clear();
    show(&mut d, Some(12));
    assert!(!d.vmap.stops.is_empty(), "a resize must rebuild the map");
    d.vmap.stops.clear();
    show(&mut d, None);
    assert!(!d.vmap.stops.is_empty(), "unwrapped is a different map");
}

#[test]
fn a_motion_does_not_rebuild_the_map() {
    let mut d = doc_in(View::Wysiwyg, "cache_motion", "# Title\n\nbody text\n");
    show(&mut d, Some(80));
    let rev = d.revision();
    d.move_right(false);
    d.move_right(true);
    d.move_down(false);
    assert_eq!(d.revision(), rev, "a motion must not move the revision");
    d.vmap.stops.clear();
    show(&mut d, Some(80));
    assert!(d.vmap.stops.is_empty(), "a motion should not rebuild the map");
}

#[test]
fn home_toggles_between_the_line_s_text_and_its_margin() {
    let g = |m, f: fn(&mut Doc)| golden("smart_home", m, f);
    assert_eq!(g("    inden|ted", |d| d.move_home(false)), "    |indented");
    assert_eq!(g("    |indented", |d| d.move_home(false)), "|    indented");
    assert_eq!(g("|    indented", |d| d.move_home(false)), "    |indented");
    assert_eq!(g("hel|lo", |d| d.move_home(false)), "|hello");
    assert_eq!(g("|hello", |d| d.move_home(false)), "|hello");

    let mut d = wysiwyg_doc("smart_home_wys", "```\n    indented\n```\n");
    let indent = d.source.find("    indented").unwrap();
    d.caret = indent + 6; // inside "indented"
    d.move_home(false);
    assert_eq!(d.caret, indent + 4, "wysiwyg: Home aims at the code line's text");
    d.move_home(false);
    assert_eq!(d.caret, indent, "wysiwyg: the second press takes the indent");
    d.move_home(false);
    assert_eq!(d.caret, indent + 4, "wysiwyg: the toggle swaps back");
}

#[test]
fn end_takes_the_line_the_view_is_showing() {
    let mut d = doc_with("end_src", "one two\nthree\n");
    d.caret = 1;
    d.move_end(false);
    assert_eq!(d.caret, 7, "source: the end of the source line");

    let mut d = wysiwyg_doc("end_wys", "one two\nthree\n");
    d.caret = 1;
    d.move_end(false);
    assert_eq!(d.caret, 13, "wysiwyg: the end of the row, soft break and all");
}

#[test]
fn home_and_end_extend_the_selection_when_asked() {
    for (view, tag) in VIEWS {
        let mut d = doc_in(view, &format!("home_end_ext_{tag}"), "hello world");
        d.caret = 6;
        d.move_end(true);
        assert_eq!(d.selection(), Some((6, 11)), "{tag}: End extends");
        let mut d = doc_in(view, &format!("home_ext_{tag}"), "hello world");
        d.caret = 6;
        d.move_home(true);
        assert_eq!(d.selection(), Some((0, 6)), "{tag}: Home extends");
    }
}

#[test]
fn kill_to_the_line_start_and_end_in_both_views() {
    for (view, tag) in VIEWS {
        let gap = if view == View::Source { "\n" } else { "\n\n" };
        let mut d = doc_in(view, &format!("kill_end_{tag}"), &format!("one two{gap}three\n"));
        d.caret = 3;
        d.delete_to_line_end();
        assert_eq!(d.source, format!("one{gap}three\n"), "{tag}: ^K to the line's end");
        assert_eq!(d.caret, 3, "{tag}: the caret stays where it kills from");

        let mut d = doc_in(view, &format!("kill_start_{tag}"), &format!("one two{gap}three\n"));
        d.caret = 7;
        d.delete_to_line_start();
        assert_eq!(d.source, format!("{gap}three\n"), "{tag}: ⌘⌫ to the line's start");
        assert_eq!(d.caret, 0, "{tag}");
    }
}

#[test]
fn a_kill_at_the_line_s_edge_leaves_the_lines_joined() {
    for (view, tag) in VIEWS {
        let gap = if view == View::Source { "\n" } else { "\n\n" };
        let src = format!("one{gap}three\n");
        let mut d = doc_in(view, &format!("kill_edge_end_{tag}"), &src);
        d.caret = 3; // the end of "one"
        d.delete_to_line_end();
        assert_eq!(d.source, src, "{tag}: ^K at the line's end joined it to the next");

        let mut d = doc_in(view, &format!("kill_edge_start_{tag}"), &src);
        d.caret = 3 + gap.len(); // the start of "three"
        d.delete_to_line_start();
        assert_eq!(d.source, src, "{tag}: ⌘⌫ at the line's start joined it to the last");
    }
}

#[test]
fn a_kill_takes_the_markup_it_empties_with_it() {
    let mut d = wysiwyg_doc("kill_widen", "a **bold**\n");
    d.caret = d.source.find("bold").unwrap();
    d.delete_to_line_end();
    assert_eq!(d.source, "a \n");
}

#[test]
fn a_kill_is_undone_in_one_step() {
    for (view, tag) in VIEWS {
        let mut d = doc_in(view, &format!("kill_undo_{tag}"), "one two three\n");
        d.caret = 3;
        d.delete_to_line_end();
        assert_eq!(d.source, "one\n", "{tag}");
        d.undo();
        assert_eq!(d.source, "one two three\n", "{tag}: a kill takes one undo");
    }
}

#[test]
fn select_block_grabs_the_whole_paragraph_from_any_wrapped_row() {
    let body = "one two three four five six seven eight\n";
    let mut d = doc_with("sel_block", body);
    d.view = View::Wysiwyg;
    show(&mut d, Some(12));
    assert!(d.vmap.num_rows() > 1, "test needs a wrapped paragraph");
    let para = (0, "one two three four five six seven eight".len());
    for off in [0usize, 8, 19, 28, 38] {
        d.caret = 0;
        d.anchor = None;
        d.select_block_at(off);
        assert_eq!(d.selection(), Some(para), "offset {off} should select the paragraph");
    }
}

#[test]
fn a_space_typed_in_a_bold_run_never_leaves_the_delimiters_showing() {
    let mut d = wysiwyg_doc("edge_typing", "a \n");
    d.caret = 2;
    d.toggle(InlineKind::Strong);
    for c in "bold".chars() {
        d.insert(&c.to_string());
    }
    assert_eq!(d.source, "a **bold**\n");
    d.insert(" ");
    assert_eq!(d.source, "a **bold** \n", "the space belongs outside the run");
    assert!(
        d.active_inline_marks().contains(InlineKind::Strong),
        "bold is still what's being typed, so the button stays lit"
    );
    show(&mut d, Some(80));
    let drawn: String = drawn_rows(&mut d)[0].clone();
    assert_eq!(drawn, "a bold ", "no delimiter ever surfaces: {}", d.source);
    for c in "hey".chars() {
        d.insert(&c.to_string());
    }
    assert_eq!(d.source, "a **bold hey**\n", "one bold phrase, not two runs");
}

#[test]
fn a_delete_from_a_runs_outer_edge_reaches_into_the_run() {
    let mut d = wysiwyg_doc("edge_outer_close", "**bold** x\n");
    d.caret = 9;
    d.move_left(false);
    assert_eq!(d.caret, 8, "← rests past the delimiters, not inside them");
    d.backspace();
    assert_eq!(d.source, "**bol** x\n", "a letter of the phrase, not its `*`");
    assert_eq!(d.caret, 5);
    let mut d = wysiwyg_doc("edge_outer_open", "x**bold**\n");
    d.caret = 1;
    d.delete_forward();
    assert_eq!(d.source, "x**old**\n");
    assert_eq!(d.caret, 3, "inside the run, in front of what is left of it");
}

#[test]
fn preserve_enter_at_a_line_end_lands_the_caret_on_the_new_blank_line() {
    let src = "line one:\nsecond line\n";
    let mut d = wysiwyg_doc("pre_enter_lineend", src);
    d.set_line_flow(LineFlow::Preserve);
    show(&mut d, None);
    d.caret = 9;
    d.newline();
    show(&mut d, None);
    assert_eq!(d.source, "line one:\n\nsecond line\n");
    assert_eq!(d.caret, 10, "caret sits on the new blank line, not the next line");
    assert_eq!(d.vmap.pos_of_offset(10), (1, 0), "caret renders on the blank row");
    assert!(d.vmap.row_start(1).is_some(), "the blank line is navigable in Preserve");
    d.insert("new clause,");
    assert_eq!(d.source, "line one:\nnew clause,\nsecond line\n");
}

#[test]
fn enter_at_the_end_of_a_bold_run_keeps_its_closing_delimiter_attached() {
    let mut d = wysiwyg_doc("bold_eol_enter", "**bold**\n");
    d.move_end(false);
    assert_eq!(d.caret, 6, "caret rests right after \"bold\", before the hidden \"**\"");
    d.newline();
    assert!(
        d.source.starts_with("**bold**"),
        "the closing ** must stay attached to \"bold\": got {:?}",
        d.source
    );
    assert_eq!(
        d.source, "**bold**\n\n\n",
        "a fresh empty paragraph follows the still-intact bold run"
    );
}

#[test]
fn a_heading_typed_on_a_blank_line_keeps_the_caret_on_its_own_row() {
    let mut d = wysiwyg_doc("head_blank", "one\n\ntwo\n\n\n\n");
    show(&mut d, None);
    d.caret = d.vmap.offset_of_pos(4, 0);
    d.toggle_heading(1);
    for c in "title".chars() {
        d.insert(&c.to_string());
        show(&mut d, None);
    }
    assert_eq!(d.source, "one\n\ntwo\n\n# title\n\n");
    assert_eq!(d.caret_pos(), (4, 5), "the caret draws at the end of the heading");
}

#[test]
fn clicking_an_empty_heading_types_after_its_marker() {
    let mut d = wysiwyg_doc("head_click", "# \n");
    show(&mut d, None);
    d.caret = d.vmap.offset_of_pos(0, 0);
    d.insert("x");
    assert_eq!(d.source, "# x\n");
}

#[test]
fn wysiwyg_backspace_after_leaving_a_list_collapses_the_gap_cleanly() {
    let mut d = wysiwyg_doc("wys_exit_bksp", "- item\n\nnext\n");
    d.caret = 6; // end of "item"
    d.newline();
    show(&mut d, Some(80));
    d.newline();
    show(&mut d, Some(80));
    assert_eq!(d.source, "- item\n\n\n\nnext\n", "double-Enter opens the empty paragraph");
    d.backspace();
    assert_eq!(d.source, "- item\n\nnext\n", "one Backspace collapses the whole gap");
    assert_eq!(d.caret, 6, "and lands the caret back at the end of the list item");
}

#[test]
fn typing_past_a_block_picture_opens_a_paragraph_under_it() {
    let mut d = doc_at_picture("pic_after", "hi\n\n![](p.png)\n", MediaStop::After);
    d.insert("xy");
    assert_eq!(d.source, "hi\n\n![](p.png)\n\nxy\n");
    assert_eq!(media_count(&mut d), 1, "still a picture");
}

#[test]
fn typing_in_front_of_a_block_picture_opens_a_paragraph_above_it() {
    let mut d = doc_at_picture("pic_before", "hi\n\n![](p.png)\n", MediaStop::Before);
    d.insert("xy");
    assert_eq!(d.source, "hi\n\nxy\n\n![](p.png)\n");
    assert_eq!(media_count(&mut d), 1);
}

#[test]
fn a_picture_that_opens_the_document_still_takes_a_paragraph_above_it() {
    let mut d = doc_at_picture("pic_first", "![](p.png)\n", MediaStop::Before);
    d.insert("x");
    assert_eq!(d.source, "x\n\n![](p.png)\n");
    assert_eq!(media_count(&mut d), 1);
}

#[test]
fn one_undo_puts_the_picture_back_the_way_it_was_found() {
    let mut d = doc_at_picture("pic_undo", "hi\n\n![](p.png)\n", MediaStop::After);
    d.insert("x");
    assert_eq!(d.source, "hi\n\n![](p.png)\n\nx\n");
    d.undo();
    assert_eq!(d.source, "hi\n\n![](p.png)\n");
}

#[test]
fn pasting_against_a_block_picture_opens_a_paragraph_too() {
    let mut d = doc_at_picture("pic_paste", "hi\n\n![](p.png)\n", MediaStop::After);
    d.paste("pasted");
    assert_eq!(d.source, "hi\n\n![](p.png)\n\npasted\n");
    assert_eq!(media_count(&mut d), 1);
}

#[test]
fn typing_beside_an_inline_image_is_ordinary_editing() {
    let mut d = doc_in(View::Wysiwyg, "pic_inline", "see ![](p.png) here\n");
    show(&mut d, None);
    d.caret = "see ![](p.png)".len();
    d.insert("!");
    assert_eq!(d.source, "see ![](p.png)! here\n");
}

#[test]
fn typing_over_a_selection_that_starts_at_a_picture_stop_replaces_it() {
    let mut d = doc_at_picture("pic_sel", "hi\n\n![](p.png)\n", MediaStop::Before);
    d.anchor = Some(d.caret);
    d.caret = d.source.find("![").unwrap() + "![](p.png)".len();
    d.insert("x");
    assert_eq!(d.source, "hi\n\nx\n");
}

#[test]
fn backspace_past_a_block_picture_deletes_the_picture_not_its_last_byte() {
    let mut d = doc_at_picture("pic_bs", "hi\n\n![](p.png)\n", MediaStop::After);
    d.backspace();
    assert_eq!(d.source, "hi\n");
    assert_eq!(media_count(&mut d), 0, "the picture went, in one piece");
    d.undo();
    assert_eq!(d.source, "hi\n\n![](p.png)\n", "and comes back in one piece");
}

#[test]
fn backspace_in_front_of_a_block_picture_steps_out_instead_of_merging_it() {
    let mut d = doc_at_picture("pic_bs_before", "hi\n\n![](p.png)\n", MediaStop::Before);
    d.backspace();
    assert_eq!(d.source, "hi\n\n![](p.png)\n", "nothing deleted");
    assert_eq!(d.caret, 2, "the caret stepped up to the end of `hi`");
    d.backspace();
    assert_eq!(d.source, "h\n\n![](p.png)\n", "and now it deletes there");
    assert_eq!(media_count(&mut d), 1, "the picture was never at risk");
}

#[test]
fn forward_delete_in_front_of_a_block_picture_deletes_the_picture() {
    let mut d = doc_at_picture("pic_del", "hi\n\n![](p.png)\n\nbye\n", MediaStop::Before);
    d.delete_forward();
    assert_eq!(d.source, "hi\n\nbye\n");
    assert_eq!(media_count(&mut d), 0);
}

#[test]
fn forward_delete_past_a_block_picture_steps_over_the_boundary() {
    let mut d = doc_at_picture("pic_del_after", "hi\n\n![](p.png)\n\nbye\n", MediaStop::After);
    d.delete_forward();
    assert_eq!(d.source, "hi\n\n![](p.png)\n\nbye\n", "nothing deleted");
    assert_eq!(d.caret, d.source.find("bye").unwrap(), "the caret stepped down to `bye`");
}

#[test]
fn a_picture_that_is_the_whole_document_still_deletes_cleanly() {
    let mut d = doc_at_picture("pic_only", "![](p.png)\n", MediaStop::After);
    d.backspace();
    assert_eq!(d.source, "\n");
    assert_eq!(media_count(&mut d), 0);
}

#[test]
fn a_word_delete_takes_the_picture_whole_or_steps_out_of_it() {
    let mut d = doc_at_picture("pic_wordbs", "hi there\n\n![](p.png)\n", MediaStop::After);
    d.delete_word_back();
    assert_eq!(d.source, "hi there\n");
    let mut d = doc_at_picture("pic_wordbs2", "hi there\n\n![](p.png)\n", MediaStop::Before);
    d.delete_word_back();
    assert_eq!(d.source, "hi there\n\n![](p.png)\n");
    d.delete_word_back();
    assert_eq!(d.source, "hi \n\n![](p.png)\n", "the word above went, the picture stayed");
    assert_eq!(media_count(&mut d), 1);
}

#[test]
fn a_taller_image_adds_no_caret_stops_and_motion_steps_over_its_fillers() {
    let body = "ab\n\n![x](p.png)\n\ncd\n";
    let stops_at = |rows: usize| -> Vec<usize> {
        let mut d = wysiwyg_doc("img_stops", body);
        if rows > 1 {
            d.set_media_rows(vec![("p.png".to_string(), rows)]);
            show(&mut d, Some(80));
        }
        d.caret = 0;
        let mut seen = vec![d.caret];
        loop {
            d.move_right(false);
            if *seen.last().unwrap() == d.caret {
                break;
            }
            seen.push(d.caret);
        }
        seen
    };
    assert_eq!(stops_at(1), stops_at(5), "reserving rows must not add stops");
}

#[test]
fn place_caret_snaps_out_of_the_blank_gap_between_paragraphs() {
    let mut d = wysiwyg_doc("place_gap", "A\n\nB");
    assert!(!d.vmap.is_stop(2), "offset 2 should be an unreachable gap");
    d.place_caret(2, false);
    assert!(d.vmap.is_stop(d.caret), "caret {} is not a stop", d.caret);
    assert_eq!(d.caret, 1, "should snap to the end of the paragraph above");
}

#[test]
fn place_caret_dragging_through_the_gap_keeps_selection_on_stops() {
    let mut d = wysiwyg_doc("place_gap_drag", "A\n\nB");
    d.place_caret(0, false); // anchor at the start of "A"
    d.place_caret(2, true);
    assert!(d.vmap.is_stop(d.caret), "caret {} is not a stop", d.caret);
    let (s, e) = d.selection().expect("a selection");
    assert!(d.vmap.is_stop(s) && d.vmap.is_stop(e), "selection {s}..{e} off a stop");
}

#[test]
fn place_caret_rests_in_an_empty_paragraph() {
    let mut d = wysiwyg_doc("place_empty_para", "A\n\n\n\nB");
    let empty = 3;
    assert!(d.vmap.is_stop(empty));
    d.place_caret(empty, false);
    assert_eq!(d.caret, empty);
}

#[test]
fn wysiwyg_down_crosses_a_paragraph_boundary() {
    let mut d = wysiwyg_doc("wys_down", "abc\n\ndef\n");
    d.caret = 3; // end of "abc" (row 0)
    d.move_down(false);
    assert_eq!(d.caret_pos().0, 2, "Down should reach the second paragraph");
    assert_eq!(d.caret, 8); // end of "def", col 3 kept
    d.move_up(false);
    assert_eq!(d.caret_pos().0, 0, "Up should come back symmetrically");
    assert_eq!(d.caret, 3);
}

#[test]
fn wysiwyg_up_and_down_are_inverse_across_paragraphs() {
    let mut d = wysiwyg_doc("wys_updown", "abc\n\ndef\n");
    d.caret = 5; // start of "def"
    let start = d.caret_pos();
    d.move_up(false);
    assert_eq!(d.caret_pos().0, 0, "Up reaches the first paragraph");
    d.move_up(false);
    assert_eq!(d.caret, 0, "a second Up runs on to the document's start");
    d.move_down(false);
    assert_eq!(d.caret_pos(), start, "Down retraces Up exactly");
    d.move_down(false);
    assert_eq!(d.caret, 8, "a second Down runs on to the document's end");
}

#[test]
fn wysiwyg_new_paragraph_shows_before_typing() {
    let mut d = doc_with("wys_newpara", "abc\n");
    d.view = View::Wysiwyg;
    d.caret = 3;
    d.insert("\n");
    d.insert("\n"); // source is now "abc\n\n\n", caret at 5
    assert_eq!(d.source, "abc\n\n\n");
    show(&mut d, Some(80));
    let (row, _) = d.caret_pos();
    assert!(row >= 2, "caret should have moved down to the new line, got row {row}");
    assert!(d.vmap.num_rows() >= 3, "the blank lines should render as rows");
}

#[test]
fn wysiwyg_enter_between_paragraphs_lands_on_an_empty_line() {
    let mut d = wysiwyg_doc("wys_gap_mid", "Hello\n\nWorld\n");
    d.caret = 5; // end of "Hello"
    d.newline();
    show(&mut d, Some(80));
    let (row, col) = d.caret_pos();
    assert_eq!(col, 0, "caret should start an empty line, not sit in text");
    assert_eq!(d.vmap.row_width(row), 0, "caret's row must be empty, not 'World'");
    assert!(row >= 2, "a blank spacer row should sit above the caret, got row {row}");
    assert_eq!(d.vmap.row_width(row - 1), 0, "the row above the caret is a gap");
    let row0: String = drawn_rows(&mut d)[0].clone();
    assert_eq!(row0, "Hello", "the paragraph above the caret must not move");
}

#[test]
fn wysiwyg_enter_at_eof_shows_a_gap_before_typing() {
    let mut d = wysiwyg_doc("wys_gap_eof", "Hello");
    d.caret = 5; // end of "Hello", no trailing newline
    d.newline(); // source becomes "Hello\n\n"
    show(&mut d, Some(80));
    let (row, col) = d.caret_pos();
    assert_eq!(col, 0);
    assert!(row >= 2, "caret should sit below a blank spacer, got row {row}");
    assert_eq!(d.vmap.row_width(row - 1), 0, "the row above the caret is a gap");
}

#[test]
fn wysiwyg_typing_after_enter_does_not_shift_the_caret_row() {
    let mut d = wysiwyg_doc("wys_no_reflow", "Hello\n\nWorld\n");
    d.caret = 5;
    d.newline();
    show(&mut d, Some(80));
    let before = d.caret_pos();
    d.insert("New");
    show(&mut d, Some(80));
    let after = d.caret_pos();
    assert_eq!(
        after.0, before.0,
        "typing must not move the caret to another row ({before:?} -> {after:?})"
    );
}

#[test]
fn wysiwyg_hides_frontmatter_from_the_caret_and_copy() {
    let fm = "---\ntitle: hi\n---\n";
    let body = format!("{fm}# leaf\n\nbody\n");
    let mut d = wysiwyg_doc("wys_fm", &body);
    assert_eq!(d.caret, fm.len(), "caret should start at the first real block");
    d.move_left(false);
    assert_eq!(d.caret, fm.len(), "left must not enter frontmatter");
    d.move_doc_start(false);
    assert_eq!(d.caret, fm.len());
    d.select_all();
    let sel = d.selected_text().unwrap().to_string();
    assert!(!sel.contains("title"), "copy leaked frontmatter: {sel:?}");
    assert!(sel.starts_with("# leaf"), "selection should begin at content: {sel:?}");
}

#[test]
fn wysiwyg_backspace_at_content_start_leaves_frontmatter_intact() {
    let fm = "---\ntitle: hi\n---\n";
    let body = format!("{fm}leaf\n");
    let mut d = wysiwyg_doc("wys_fm_bs", &body);
    assert_eq!(d.caret, fm.len());
    d.backspace();
    assert_eq!(d.source, body, "backspace must not touch frontmatter");
    d.delete_word_back();
    assert_eq!(d.source, body, "word-delete must not touch frontmatter either");
}

#[test]
fn wysiwyg_right_crosses_a_cell_border_without_stalling() {
    let mut d = wysiwyg_doc("tbl_right", TABLE);
    d.caret = TABLE.find("Name").unwrap() + 4; // just after "Name"
    d.move_right(false);
    assert_eq!(d.caret, TABLE.find("Qty").unwrap(), "should land in the next cell");
    let (r, c) = d.caret_pos();
    assert!(d.source[d.vmap.offset_of_pos(r, c)..].starts_with('Q'));
}

#[test]
fn wysiwyg_left_crosses_back_to_the_previous_cell() {
    let mut d = wysiwyg_doc("tbl_left", TABLE);
    d.caret = TABLE.find("Qty").unwrap();
    d.move_left(false);
    assert_eq!(d.caret, TABLE.find("Name").unwrap() + 4, "end of the previous cell");
}

#[test]
fn wysiwyg_down_steps_over_a_table_rule() {
    let mut d = wysiwyg_doc("tbl_down", TABLE);
    d.caret = TABLE.find("Name").unwrap();
    d.move_down(false);
    assert_eq!(d.caret, TABLE.find("Pear").unwrap(), "one Down reaches the body row");
    d.move_down(false);
    assert_eq!(d.caret, TABLE.find("Fig").unwrap());
}

#[test]
fn wysiwyg_tab_walks_the_cells_and_shift_tab_walks_back() {
    let mut d = wysiwyg_doc("tbl_tab", TABLE);
    d.caret = TABLE.find("Name").unwrap();
    assert!(d.cell_hop(true));
    assert_eq!(d.selected_text(), Some("Qty"), "the target cell comes up selected");
    assert_eq!(d.caret, TABLE.find("Qty").unwrap() + "Qty".len());
    assert!(d.cell_hop(true), "Tab wraps onto the next row's first cell");
    assert_eq!(d.selected_text(), Some("Pear"));
    assert!(d.cell_hop(false));
    assert_eq!(d.selected_text(), Some("Qty"));
}

#[test]
fn tab_outside_a_table_is_not_a_cell_hop() {
    let mut d = wysiwyg_doc("tbl_none", "just a paragraph\n");
    d.caret = 4;
    assert!(!d.cell_hop(true));
    assert_eq!(d.caret, 4, "a refused hop leaves the caret alone");
}

#[test]
fn tab_at_the_last_cell_declines_rather_than_leaving_the_table() {
    let mut d = wysiwyg_doc("tbl_edge", TABLE);
    d.caret = TABLE.rfind("12").unwrap();
    assert!(!d.cell_hop(true), "no cell after the last one");
    d.caret = TABLE.find("Name").unwrap();
    assert!(!d.cell_hop(false), "no cell before the first one");
}

#[test]
fn wysiwyg_vertical_cell_motion_holds_the_column() {
    let mut d = wysiwyg_doc("tbl_vert", TABLE);
    d.caret = TABLE.find("Qty").unwrap();
    assert!(d.cell_move_vertical(true));
    assert_eq!(d.selected_text(), Some("3"), "Down holds column 1");
    assert!(d.cell_move_vertical(true));
    assert_eq!(d.selected_text(), Some("12"), "Down again, still column 1");
    assert!(!d.cell_move_vertical(true), "no row below the last");
    assert!(d.cell_move_vertical(false));
    assert_eq!(d.selected_text(), Some("3"), "Up holds column 1");
    assert!(d.cell_move_vertical(false));
    assert_eq!(d.selected_text(), Some("Qty"), "Up onto the header");
    assert!(!d.cell_move_vertical(false), "no row above the header");
}

#[test]
fn tab_off_the_last_cell_grows_a_row_and_enters_it() {
    let mut d = wysiwyg_doc("tbl_grow", TABLE);
    d.caret = TABLE.rfind("12").unwrap();
    let rows_before = d.source.matches('\n').count();
    assert!(d.cell_tab(true), "acts as a table key");
    assert_eq!(
        d.source.matches('\n').count(),
        rows_before + 1,
        "a fresh row was appended"
    );
    assert!(d.caret_in_table(), "the caret entered the new row");
    assert!(d.caret > TABLE.rfind("12").unwrap());
}

#[test]
fn return_in_a_table_drops_a_cell_and_grows_a_row_at_the_bottom() {
    let mut d = wysiwyg_doc("tbl_ret", TABLE);
    d.caret = TABLE.find("Name").unwrap();
    assert!(d.cell_return(), "acts as a table key");
    assert_eq!(d.selected_text(), Some("Pear"), "Return drops one cell, selecting it");
    d.caret = TABLE.rfind("Fig").unwrap();
    let rows_before = d.source.matches('\n').count();
    assert!(d.cell_return());
    assert_eq!(d.source.matches('\n').count(), rows_before + 1);
    assert!(d.caret_in_table());
}

#[test]
fn return_and_tab_outside_a_table_decline() {
    let mut d = wysiwyg_doc("tbl_decline", "just a paragraph\n");
    d.caret = 4;
    assert!(!d.cell_return(), "no table: the frontend inserts a newline");
    assert!(!d.cell_tab(true), "no table: the frontend indents");
    assert!(!d.cell_line_break(), "no table: the frontend breaks the line");
}

#[test]
fn each_empty_table_cell_has_its_own_editable_home() {
    let mut d = wysiwyg_doc("tbl_empty", "| a | b |\n| --- | --- |\n|  |  |\n");
    let (c0, c1) = {
        let cells = &d.vmap.tables[0].grid[1];
        (cells[0].start, cells[1].start)
    };
    assert!(c0 < c1, "the two empty cells have distinct homes: {c0} < {c1}");
    d.caret = c0;
    d.insert("x");
    assert_eq!(d.source, "| a | b |\n| --- | --- |\n| x |  |\n", "typed inside the cell");
}

#[test]
fn arrows_step_into_each_empty_table_cell() {
    let mut d = wysiwyg_doc("tbl_empty_nav", "| a | b |\n| --- | --- |\n|  |  |\n");
    let (c0, c1) = {
        let cells = &d.vmap.tables[0].grid[1];
        (cells[0].start, cells[1].start)
    };
    d.caret = d.source.find('b').unwrap();
    let mut seen = std::collections::HashSet::new();
    for _ in 0..6 {
        d.move_right(false);
        seen.insert(d.caret);
    }
    assert!(seen.contains(&c0), "right arrow reaches the first empty cell");
    assert!(seen.contains(&c1), "right arrow reaches the second empty cell");
}

#[test]
fn goal_column_state_is_set_by_vertical_motion_and_cleared_by_horizontal() {
    let mut d = doc_with("goalcol_state", "abcdef\nxy\nghijkl\n");
    assert_eq!(d.goal_col, None);
    d.caret = 4;
    d.move_down(false); // clamps into "xy"; goal stays the original col
    assert_eq!(d.goal_col, Some(4));
    assert_eq!(d.caret_pos(), (1, 2));
    d.move_left(false);
    assert_eq!(d.goal_col, None);
    d.move_down(false);
    assert_eq!(d.goal_col, Some(1));
    assert_eq!(d.caret_pos(), (2, 1));
}

#[test]
fn vertical_motion_at_the_document_edges_runs_to_them_in_both_views() {
    for (view, tag) in VIEWS {
        let mut d = doc_in(view, &format!("edge_{tag}"), "abc");
        d.caret = 1;
        d.move_down(false);
        assert_eq!(d.caret, 3, "{tag}: Down on the last line runs to the end");
        d.move_up(false);
        assert_eq!(d.caret, 0, "{tag}: Up on the first line runs to the start");
    }
}

#[test]
fn vertical_motion_at_the_edges_carries_the_column_across_the_lines_between() {
    for (view, tag) in VIEWS {
        let gap = if view == View::Source { "\n" } else { "\n\n" };
        let src = format!("abcdef{gap}ghijkl");
        let mut d = doc_in(view, &format!("edge_goal_{tag}"), &src);
        d.caret = 2;
        d.move_down(false);
        assert_eq!(d.caret_pos().1, 2, "{tag}: Down keeps the column");
        d.move_down(false);
        assert_eq!(d.caret, src.len(), "{tag}: Down off the bottom reaches the end");
        d.move_up(false);
        assert_eq!(d.caret_pos().1, 2, "{tag}: Up returns to the column Down left");
    }
}

#[test]
fn home_and_end_work_from_a_wrapped_row() {
    let mut d = wrapped_doc("wrap_home_end");
    d.caret = 19;
    assert_eq!(d.caret_pos(), (2, 0), "the wrap boundary opens the third row");
    d.move_end(false);
    assert_eq!(d.caret, 27, "End stalled at the wrap boundary");
    d.move_home(false);
    assert_eq!(d.caret, 19, "Home left the row the caret was on");
}

#[test]
fn end_of_a_wrapped_row_stays_put_when_pressed_again() {
    let mut d = wrapped_doc("wrap_end_twice");
    d.caret = 12; // inside "three", on the second row
    d.move_end(false);
    assert_eq!(d.caret, 18, "the end of `three four`, before the space the wrap ate");
    assert_eq!(d.caret_pos(), (1, 10), "drawn on the row it is the end of");
    d.move_end(false);
    assert_eq!(d.caret, 18, "a second End moved the caret");
    d.move_home(false);
    assert_eq!(d.caret, 8, "Home takes the row's own start");
}

#[test]
fn vertical_motion_crosses_a_soft_wrap() {
    let mut d = wrapped_doc("wrap_down");
    d.caret = 0;
    for (want, row) in [(8, 1), (19, 2), (28, 3), (39, 3)] {
        d.move_down(false);
        assert_eq!(d.caret, want, "Down stalled");
        assert_eq!(d.caret_pos().0, row, "Down landed on the wrong row");
    }
    d.move_down(false);
    assert_eq!(d.caret, 39, "the last row's Down runs to the end and stops");
    let mut d = wrapped_doc("wrap_up");
    d.caret = 39;
    for (want, pos) in [(27, (2, 8)), (18, (1, 10)), (7, (0, 7)), (0, (0, 0))] {
        d.move_up(false);
        assert_eq!(d.caret, want, "Up stalled");
        assert_eq!(d.caret_pos(), pos, "Up landed on the wrong row");
    }
}

#[test]
fn a_kill_on_a_wrapped_row_stops_at_the_row() {
    let mut d = wrapped_doc("wrap_kill");
    d.caret = 19; // the `f` of "five", opening the third row
    d.delete_to_line_end();
    assert_eq!(d.source, "one two three four seven eight");
    let mut d = wrapped_doc("wrap_kill_back");
    d.caret = 27;
    d.delete_to_line_start();
    assert_eq!(d.source, "one two three four  seven eight");
}

#[test]
fn the_caret_crosses_a_soft_break() {
    let mut d = wysiwyg_doc("soft_break_walk", "one two\nthree four\n");
    d.caret = 0;
    let seen = walk_right(&mut d);
    assert_eq!(seen, (0..=18).collect::<Vec<_>>(), "walk stalled: {seen:?}");
}

#[test]
fn line_flow_preserve_resplits_the_map_and_defaults_to_fold() {
    let mut d = wysiwyg_doc("line_flow", "one two\nthree four\n");
    assert_eq!(d.line_flow(), LineFlow::Fold, "fold is the default");
    show(&mut d, Some(80));
    assert_eq!(d.vmap.num_rows(), 1, "fold: one flowing row");

    d.set_line_flow(LineFlow::Preserve);
    show(&mut d, Some(80));
    assert_eq!(d.vmap.num_rows(), 2, "preserve: a row per source line");

    d.set_line_flow(LineFlow::Fold);
    show(&mut d, Some(80));
    assert_eq!(d.vmap.num_rows(), 1, "fold again: back to one row");
}

#[test]
fn the_caret_still_crosses_a_preserved_soft_break() {
    let mut d = wysiwyg_doc("preserve_walk", "one two\nthree four\n");
    d.set_line_flow(LineFlow::Preserve);
    show(&mut d, Some(80));
    d.caret = 0;
    let seen = walk_right(&mut d);
    assert_eq!(seen, (0..=18).collect::<Vec<_>>(), "walk stalled: {seen:?}");
}

#[test]
fn the_caret_walks_a_code_block() {
    let src = "```rust\nlet x = 1;\nfn f() {}\n```\n";
    let mut d = wysiwyg_doc("code_walk", src);
    d.caret = 0;
    let seen = walk_right(&mut d);
    let code = src.find("let").unwrap()..src.find("\n```").unwrap();
    for off in code.clone() {
        assert!(seen.contains(&off), "offset {off} unreachable: {seen:?}");
    }
    assert!(seen.contains(&code.end), "no stop after the last line");
}

#[test]
fn the_caret_walks_an_indented_code_block() {
    let src = "    indented\n    code\n";
    let mut d = wysiwyg_doc("indent_code_walk", src);
    d.caret = 0;
    let seen = walk_right(&mut d);
    assert!(seen.contains(&src.find("indented").unwrap()));
    assert!(seen.contains(&src.find("code").unwrap()));
    assert!(
        !seen.contains(&0) || seen[0] == 0,
        "the caret starts where it was put"
    );
    for off in [1, 2, 3] {
        assert!(!seen.contains(&off), "landed in the indent at {off}");
    }
}

#[test]
fn the_caret_leaves_a_tight_heading() {
    let mut d = wysiwyg_doc("tight_heading_walk", "# H\ntext\n");
    d.caret = 2; // the "H"
    let seen = walk_right(&mut d);
    assert!(seen.len() > 2, "Right stalled at the heading's end: {seen:?}");
    assert!(seen.contains(&8), "never reached the end of \"text\": {seen:?}");
}

#[test]
fn the_caret_skips_the_gap_between_two_paragraphs() {
    let mut d = wysiwyg_doc("gap_skip", "A\n\nB\n");
    d.caret = 1; // the end of "A"
    d.move_right(false);
    assert_eq!(d.caret, 3, "Right stopped in the gap");
    d.insert("x");
    assert_eq!(d.source, "A\n\nxB\n", "typing landed outside B");
}

#[test]
fn down_from_a_paragraph_lands_on_the_next_one() {
    let mut d = wysiwyg_doc("gap_down", "A\n\nB\n");
    d.caret = 0;
    d.move_down(false);
    assert_eq!(d.caret, 3, "Down stopped in the gap");
}

#[test]
fn clicking_the_gap_lands_on_real_text() {
    let mut d = wysiwyg_doc("gap_click", "A\n\nB\n");
    d.click(1, 0, false);
    assert!(d.caret == 1 || d.caret == 3, "click left the caret in the gap at {}", d.caret);
    d.insert("x");
    assert!(
        d.source == "Ax\n\nB\n" || d.source == "A\n\nxB\n",
        "click in the gap typed into the boundary: {:?}",
        d.source
    );
}

#[test]
fn enter_opens_an_empty_paragraph_the_caret_can_type_into() {
    let mut d = wysiwyg_doc("gap_enter", "A\n\nB\n");
    d.caret = 1;
    d.newline();
    assert_eq!(d.source, "A\n\n\n\nB\n");
    show(&mut d, Some(80));
    let (row, _) = d.caret_pos();
    assert!(d.vmap.row_start(row).is_some(), "the caret landed on a gap row");
    d.insert("x");
    assert_eq!(d.source, "A\n\nx\n\nB\n", "the new paragraph merged into a neighbour");
}

#[test]
fn enter_at_the_end_of_the_document_opens_a_paragraph_too() {
    let mut d = wysiwyg_doc("gap_eof", "A\n");
    d.caret = 1;
    d.newline();
    show(&mut d, Some(80));
    let (row, _) = d.caret_pos();
    assert!(d.vmap.row_start(row).is_some(), "the caret landed on a gap row");
    d.insert("x");
    assert!(
        d.source.starts_with("A\n\n") && d.source.contains('x'),
        "typing at the end merged into A: {:?}",
        d.source
    );
}

#[test]
fn moving_the_caret_brings_the_view_back_to_it() {
    let mut d = wysiwyg_doc("scroll_follow", "a\n\nb\n\nc\n\nd\n\ne\n");
    d.caret = 0;
    d.follow_caret(0, 3, 9);
    d.scroll = 6;
    d.move_right(false);
    let (row, _) = d.caret_pos();
    d.follow_caret(row, 3, 9);
    assert!(d.scroll <= row && row < d.scroll + 3, "caret row {row} off screen at scroll {}", d.scroll);
}

#[test]
fn every_cell_of_a_wide_table_is_reachable() {
    let src = "| Ingredient | Notes |\n|---|---|\n\
               | flour milled coarse | sift it twice before folding it in |\n";
    let mut d = wysiwyg_doc("wide_table_walk", src);
    show(&mut d, Some(30));
    d.caret = 0;
    let seen = walk_right(&mut d);
    for word in ["Ingredient", "Notes", "coarse", "folding"] {
        let at = src.find(word).unwrap();
        assert!(seen.contains(&at), "{word:?} at {at} unreachable: {seen:?}");
    }
}

#[test]
fn word_motion_agrees_across_the_views_on_plain_prose() {
    let g = both_views;
    assert_eq!(g("par_wl", "hello wor|ld", |d| d.move_word_left(false)), "hello |world");
    assert_eq!(g("par_wl2", "hello| world", |d| d.move_word_left(false)), "|hello world");
    assert_eq!(g("par_wr", "hel|lo world", |d| d.move_word_right(false)), "hello| world");
    assert_eq!(g("par_wr2", "hello| world", |d| d.move_word_right(false)), "hello world|");
    assert_eq!(g("par_punct", "|foo.bar", |d| d.move_word_right(false)), "foo|.bar");
    assert_eq!(
        g("par_ext", "hello |world", |d| d.move_word_right(true)),
        "hello [world|]"
    );
}

#[test]
fn word_deletion_agrees_across_the_views_on_plain_prose() {
    let g = both_views;
    assert_eq!(g("par_db", "hello world|", |d| d.delete_word_back()), "hello |");
    assert_eq!(g("par_df", "hello |world", |d| d.delete_word_forward()), "hello |");
    assert_eq!(g("par_db2", "foo |bar baz", |d| d.delete_word_back()), "|bar baz");
    assert_eq!(g("par_utf8", "café |ok", |d| d.delete_word_back()), "|ok");
}

#[test]
fn character_motion_and_deletion_agree_across_the_views_on_plain_prose() {
    let g = both_views;
    assert_eq!(g("par_r", "he|llo", |d| d.move_right(false)), "hel|lo");
    assert_eq!(g("par_l", "he|llo", |d| d.move_left(false)), "h|ello");
    assert_eq!(g("par_bs", "hel|lo", |d| d.backspace()), "he|lo");
    assert_eq!(g("par_del", "hel|lo", |d| d.delete_forward()), "hel|o");
}

#[test]
fn wysiwyg_motion_steps_a_grapheme_cluster_the_way_the_source_view_does() {
    let family = "👨‍👩‍👧";
    for (view, tag) in VIEWS {
        let mut d = doc_in(view, &format!("cluster_{tag}"), &format!("a{family}b\n"));
        d.caret = 1;
        d.move_right(false);
        assert_eq!(d.caret, 1 + family.len(), "{tag} parked inside the cluster");
        d.backspace();
        assert_eq!(d.source, "ab\n", "{tag} split the cluster");
        assert_eq!(d.caret, 1);
    }
}

#[test]
fn wysiwyg_motion_treats_a_combining_accent_as_one_character() {
    for (view, tag) in VIEWS {
        let mut d = doc_in(view, &format!("combining_{tag}"), "e\u{0301}x\n");
        d.caret = 0;
        d.move_right(false);
        assert_eq!(d.caret, "e\u{0301}".len(), "{tag} stopped on the combining mark");
    }
}

#[test]
fn no_wysiwyg_motion_can_park_the_caret_inside_a_cluster() {
    let src = "a👨‍👩‍👧b e\u{0301}mo👨‍👩‍👧ji\n\nnext 👩‍🚀 line\n";
    let mut d = wysiwyg_doc("cluster_walk", src);
    d.caret = 0;
    let boundaries: Vec<usize> = src
        .grapheme_indices(true)
        .map(|(i, _)| i)
        .chain(std::iter::once(src.len()))
        .collect();
    for off in walk_right(&mut d) {
        assert!(
            boundaries.contains(&off),
            "Right stopped at {off}, inside a grapheme cluster"
        );
    }
}

#[test]
fn wysiwyg_word_motion_stays_out_of_hidden_delimiters() {
    let mut d = wysiwyg_doc("wys_word_delim", "a **bold** c\n");
    d.caret = 2;
    d.move_word_right(false);
    assert!(d.vmap.is_stop(d.caret), "landed at {}, not a caret stop", d.caret);
    assert_eq!(d.caret, 10, "should land on the space after \"bold\"");
    assert_eq!(d.caret_pos(), (0, 6));
    d.move_word_left(false);
    assert_eq!(d.caret, 4);
    assert_eq!(d.caret_pos(), (0, 2));
}

#[test]
fn wysiwyg_word_delete_takes_the_markup_with_the_word() {
    let mut d = wysiwyg_doc("wys_word_del_back", "a **bold** c\n");
    d.caret = 10;
    d.delete_word_back();
    assert_eq!(d.source, "a  c\n");
    assert_eq!(d.caret, 2);

    let mut d = wysiwyg_doc("wys_word_del_fwd", "a **bold** c\n");
    d.caret = 4; // the "b"
    d.delete_word_forward();
    assert_eq!(d.source, "a  c\n");
}

#[test]
fn wysiwyg_word_delete_empties_a_nested_mark_and_a_code_span_too() {
    let src = "a ***bold*** c\n";
    let mut d = wysiwyg_doc("wys_word_del_nest", src);
    d.caret = src.find(" c").unwrap();
    d.delete_word_back();
    assert_eq!(d.source, "a  c\n", "the emph inside the strong empties it too");

    let src = "a `code` c\n";
    let mut d = wysiwyg_doc("wys_word_del_code", src);
    d.caret = src.find(" c").unwrap();
    d.delete_word_back();
    assert_eq!(d.source, "a  c\n");
}

#[test]
fn wysiwyg_word_delete_keeps_a_mark_that_still_has_text() {
    let src = "a **two words** c\n";
    let mut d = wysiwyg_doc("wys_word_del_partial", src);
    d.caret = src.find(" words").unwrap();
    d.delete_word_back();
    assert_eq!(d.source, "a  **words** c\n");
}

#[test]
fn every_wysiwyg_motion_lands_on_a_caret_stop() {
    let src = "# Title\n\na **bold** e\u{0301}mo👨‍👩‍👧ji `x` c\n\n\
               - item one\n\n| A | B |\n|---|---|\n| x | y |\n";
    let motions: [(&str, fn(&mut Doc)); 8] = [
        ("right", |d| d.move_right(false)),
        ("left", |d| d.move_left(false)),
        ("word_right", |d| d.move_word_right(false)),
        ("word_left", |d| d.move_word_left(false)),
        ("down", |d| d.move_down(false)),
        ("up", |d| d.move_up(false)),
        ("home", |d| d.move_home(false)),
        ("end", |d| d.move_end(false)),
    ];
    for width in [80, 12] {
        let mut d = wysiwyg_doc("stop_invariant", src);
        show(&mut d, Some(width));
        let stops: Vec<usize> = (0..=src.len()).filter(|&o| d.vmap.is_stop(o)).collect();
        assert!(stops.len() > 20, "fixture should have plenty of stops");
        for start in stops {
            for (name, motion) in &motions {
                d.caret = start;
                d.anchor = None;
                motion(&mut d);
                assert!(
                    d.vmap.is_stop(d.caret),
                    "{name} from {start} at width {width} landed at {} — not a caret stop",
                    d.caret
                );
            }
        }
    }
}

#[test]
fn no_wysiwyg_motion_is_a_dead_end() {
    let src = "# Title\n\none two three four five six seven eight nine ten\n\n\
               - item one two three four five\n\nlast\n";
    for width in [80, 12] {
        let mut d = wysiwyg_doc("no_dead_end", src);
        show(&mut d, Some(width));
        let stops: Vec<usize> = (0..=src.len()).filter(|&o| d.vmap.is_stop(o)).collect();
        let (first, last) = (stops[0], stops[stops.len() - 1]);
        for &start in &stops {
            for (name, motion, want) in [
                ("down", (|d: &mut Doc| d.move_down(false)) as fn(&mut Doc), last),
                ("up", |d: &mut Doc| d.move_up(false), first),
            ] {
                d.caret = start;
                d.anchor = None;
                d.goal_col = None;
                for _ in 0..d.vmap.num_rows() + 4 {
                    motion(&mut d);
                }
                assert_eq!(
                    d.caret, want,
                    "{name} held from {start} at width {width} never arrived"
                );
            }
        }
    }
}

#[test]
fn a_wide_character_is_two_columns_wide() {
    for (view, tag) in VIEWS {
        let mut d = doc_in(view, &format!("wide_col_{tag}"), "你好\n");
        d.caret = "你".len();
        assert_eq!(d.caret_pos(), (0, 2), "{tag}: caret drew inside 你");
        d.caret = "你好".len();
        assert_eq!(d.caret_pos(), (0, 4), "{tag}");
    }
}

#[test]
fn a_cluster_is_as_wide_as_it_is_drawn_not_as_its_codepoints_measure() {
    let family = "👨‍👩‍👧";
    for (view, tag) in VIEWS {
        let src = format!("a{family}b\n");
        let mut d = doc_in(view, &format!("wide_cluster_{tag}"), &src);
        d.caret = 1 + family.len();
        assert_eq!(d.caret_pos(), (0, 3), "{tag}: 'a' is one cell, the family two");
    }
}

#[test]
fn both_cells_of_a_wide_character_mean_the_character() {
    for (view, tag) in VIEWS {
        let mut d = doc_in(view, &format!("wide_click_{tag}"), "你好\n");
        for col in [2, 3] {
            d.caret = 0;
            d.click(0, col, false);
            assert_eq!(d.caret, "你".len(), "{tag}: click at col {col}");
            assert_eq!(d.caret_pos(), (0, 2), "{tag}: click at col {col}");
        }
        d.click(0, 9, false);
        assert_eq!(d.caret, "你好".len(), "{tag}: click past the end");
    }
}

#[test]
fn every_offset_survives_the_trip_out_to_a_column_and_back() {
    let src = "ab 你好 c\n\n👨‍👩‍👧 e\u{0301}x 漢字\n\nplain ascii\n";

    let mut d = doc_in(View::Source, "roundtrip_source", src);
    for (off, _) in src.grapheme_indices(true).chain(std::iter::once((src.len(), ""))) {
        d.caret = off;
        let (row, col) = d.caret_pos();
        d.click(row, col, false);
        assert_eq!(d.caret, off, "source: {off} → ({row}, {col}) → {}", d.caret);
    }
    let mut d = doc_in(View::Wysiwyg, "roundtrip_wysiwyg", src);
    let stops: Vec<usize> = (0..=src.len()).filter(|&o| d.vmap.is_stop(o)).collect();
    assert!(stops.len() > 20, "fixture should have plenty of stops");
    for off in stops {
        d.caret = off;
        let (row, col) = d.caret_pos();
        d.click(row, col, false);
        assert_eq!(d.caret, off, "wysiwyg: {off} → ({row}, {col}) → {}", d.caret);
    }
}

#[test]
fn vertical_motion_aims_at_a_column_the_reader_can_see() {
    for (view, tag) in VIEWS {
        let gap = if view == View::Source { "\n" } else { "\n\n" };
        let src = format!("你好世{gap}abcdef\n");
        let mut d = doc_in(view, &format!("goal_wide_{tag}"), &src);
        d.caret = "你好".len();
        assert_eq!(d.caret_pos().1, 4, "{tag}: `世` is drawn at column 4");
        d.move_down(false);
        assert_eq!(d.caret_pos().1, 4, "{tag}: goal column lost");
        assert!(d.source[d.caret..].starts_with('e'), "{tag}: landed on the wrong glyph");
    }
}

#[test]
fn a_goal_column_landing_inside_a_wide_character_lands_on_it() {
    for (view, tag) in VIEWS {
        let gap = if view == View::Source { "\n" } else { "\n\n" };
        let src = format!("abcdef{gap}你好\n");
        let mut d = doc_in(view, &format!("goal_inside_{tag}"), &src);
        let line = src.find('你').unwrap();
        d.caret = 3;
        d.move_down(false);
        assert_eq!(d.caret, line + "你".len(), "{tag}: landed off `好`'s start");
        assert_eq!(d.caret_pos().1, 2, "{tag}: drew between `好`'s cells");
    }
}

#[test]
fn a_caret_in_a_table_cell_of_wide_text_draws_where_the_text_is() {
    let mut d = wysiwyg_doc("table_wide", "| A | B |\n|---|---|\n| 你好 | y |\n");
    let at = d.source.find("你").unwrap();
    d.caret = at;
    let (row, col) = d.caret_pos();
    assert_eq!(col, 2, "the cell's first character");
    d.move_right(false);
    assert_eq!(d.caret_pos(), (row, 4), "`好` is drawn past `你`'s two cells");
    assert_eq!(d.caret, at + "你".len());
}

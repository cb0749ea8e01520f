//! Indentation, lists, typed markup and tables.

use leaf_core::doc::Doc;
use leaf_core::modes::{Alignment, MarkupMode, View};
use leaf_core::node::Kind;
use leaf_core::visual::VisualMap;

fn doc_in(view: View, name: &str, body: &str) -> Doc {
    let file = format!("{name}.md");
    let mut d = Doc::opened(body.as_bytes().to_vec(), "md", file.clone(), file).unwrap();
    d.view = view;
    if view == View::Wysiwyg {
        d.build_visual(80, VisualMap::default());
    }
    d
}

fn doc_with(name: &str, body: &str) -> Doc {
    doc_in(View::Source, name, body)
}

fn wysiwyg_doc(name: &str, body: &str) -> Doc {
    doc_in(View::Wysiwyg, name, body)
}

fn parse_caret(marked: &str) -> (String, usize) {
    let caret = marked.find('|').expect("fixture needs a `|` caret marker");
    (marked.replacen('|', "", 1), caret)
}

fn render_caret(d: &Doc) -> String {
    let mut marks: Vec<(usize, u8, char)> = vec![(d.caret, 1, '|')];
    if let Some((s, e)) = d.selection() {
        marks.push((s, 0, '['));
        marks.push((e, 2, ']'));
    }
    marks.sort_by(|a, b| b.0.cmp(&a.0).then(b.1.cmp(&a.1)));
    let mut out = d.source.clone();
    for (at, _, ch) in marks {
        out.insert(at, ch);
    }
    out
}

fn golden(name: &str, marked: &str, action: impl FnOnce(&mut Doc)) -> String {
    golden_in(View::Source, name, marked, action)
}

fn golden_in(view: View, name: &str, marked: &str, action: impl FnOnce(&mut Doc)) -> String {
    let (src, caret) = parse_caret(marked);
    let mut d = doc_in(view, name, &src);
    d.caret = caret;
    action(&mut d);
    render_caret(&d)
}

#[test]
fn indent_and_outdent_move_the_caret_line_with_its_text() {
    for view in [View::Source, View::Wysiwyg] {
        let g = |m, f: fn(&mut Doc)| golden_in(view, "indent_line", m, f);
        assert_eq!(g("he|llo\n", |d| d.indent()), "  he|llo\n");
        assert_eq!(g("  he|llo\n", |d| d.outdent()), "he|llo\n");
        assert_eq!(g("| hello\n", |d| d.outdent()), "|hello\n");
        assert_eq!(g("he|llo\n", |d| d.outdent()), "he|llo\n");
        assert_eq!(g(" he|llo\n", |d| d.outdent()), "he|llo\n");
        assert_eq!(g("\the|llo\n", |d| d.outdent()), "he|llo\n");
    }
}

#[test]
fn one_indent_level_leaves_a_paragraph_a_paragraph() {
    let mut d = doc_with("indent_kind", "hello\n");
    d.caret = 2;
    d.indent();
    assert_eq!(d.source, "  hello\n");
    assert!(
        d.nodes().iter().any(|n| n.kind == Kind::Para),
        "still prose after a Tab"
    );
    assert!(!d.nodes().iter().any(|n| n.kind == Kind::CodeBlock));
    let mut wide = doc_with("indent_kind_4", "    hello\n");
    wide.build_visual(80, VisualMap::default());
    assert!(
        wide.nodes().iter().any(|n| n.kind == Kind::CodeBlock),
        "four spaces is a code block, not an indented paragraph"
    );
}

#[test]
fn indent_nests_a_list_item_under_its_parent() {
    for view in [View::Source, View::Wysiwyg] {
        let mut d = doc_in(view, "indent_nest", "- a\n- b\n");
        d.caret = 6;
        d.indent();
        assert_eq!(d.source, "- a\n  - b\n");
        let lists = d.nodes().iter().filter(|n| n.kind == Kind::BulletList).count();
        assert_eq!(lists, 2, "the indented item is a nested list");
    }
}

#[test]
fn indent_nests_an_ordered_item_at_its_marker_width() {
    for view in [View::Source, View::Wysiwyg] {
        let mut d = doc_in(view, "indent_ord", "1. a\n2. b\n3. c\n");
        d.caret = d.source.find('b').unwrap();
        d.indent();
        assert_eq!(d.source, "1. a\n   1. b\n2. c\n");
        let lists = d.nodes().iter().filter(|n| n.kind == Kind::OrderedList).count();
        assert_eq!(lists, 2, "the indented item is a nested ordered list");
    }
}

#[test]
fn indent_leaves_a_lists_first_item_put() {
    for view in [View::Source, View::Wysiwyg] {
        let mut d = doc_in(view, "indent_first", "- a\n- b\n");
        d.caret = 1;
        d.indent();
        assert_eq!(d.source, "- a\n- b\n", "the first item doesn't nest");
        d.caret = d.source.find('b').unwrap();
        d.indent();
        assert_eq!(d.source, "- a\n  - b\n");
    }
}

#[test]
fn hidden_mode_keeps_typed_markup_literal() {
    let mut d = doc_in(View::Wysiwyg, "hidden_literal", "");
    d.insert("*hi*");
    assert_eq!(d.source, "\\*hi\\*");
    assert!(d.nodes().iter().all(|n| n.kind != Kind::Emph && n.kind != Kind::Strong));
}

#[test]
fn hidden_mode_escapes_a_line_start_block_marker() {
    let mut d = doc_in(View::Wysiwyg, "hidden_block", "");
    d.insert("# hi");
    assert_eq!(d.source, "\\# hi");
    assert!(d.nodes().iter().all(|n| n.kind != Kind::Heading));
}

#[test]
fn authoring_modes_keep_typed_markup_live() {
    for (view, mode) in [
        (View::Wysiwyg, MarkupMode::Shortcuts),
        (View::Wysiwyg, MarkupMode::Full),
        (View::Source, MarkupMode::Hidden),
    ] {
        let mut d = doc_in(view, "live_markup", "");
        d.set_markup_mode(mode);
        d.insert("*hi*");
        assert_eq!(d.source, "*hi*", "{mode:?} in {view:?} types raw markup");
    }
}

#[test]
fn hidden_mode_overwrite_undoes_in_one_step() {
    let mut d = doc_in(View::Wysiwyg, "hidden_overwrite", "a word b\n");
    d.anchor = Some(2);
    d.caret = 6; // "word"
    d.insert("*");
    assert_eq!(d.source, "a \\* b\n", "the replacement is escaped");
    d.undo();
    assert_eq!(d.source, "a word b\n");
    assert_eq!(d.selection(), Some((2, 6)), "one undo, selection restored");
}

#[test]
fn backspace_over_an_escaped_char_takes_the_hidden_backslash_too() {
    let mut d = doc_in(View::Wysiwyg, "bsp_escape", "");
    d.insert("*");
    assert_eq!(d.source, "\\*");
    d.backspace();
    assert_eq!(d.source, "", "the escape backslash went with the *");
    let mut s = doc_in(View::Source, "bsp_lit", "a\\b\n");
    s.caret = 3;
    s.backspace();
    assert_eq!(s.source, "a\\\n", "only the b is deleted, the \\ stays");
}

#[test]
fn hidden_mode_leaves_structural_markup_alone() {
    let mut d = doc_in(View::Wysiwyg, "hidden_struct", "- item\n");
    d.caret = 6;
    d.newline();
    d.insert("two");
    assert_eq!(d.source, "- item\n- two\n");
}

#[test]
fn markup_mode_defaults_to_none_and_round_trips() {
    let mut d = doc_in(View::Wysiwyg, "markup_mode", "hi\n");
    assert_eq!(d.markup_mode(), MarkupMode::Hidden, "None by default");
    for mode in [MarkupMode::Shortcuts, MarkupMode::Full, MarkupMode::Hidden] {
        d.set_markup_mode(mode);
        assert_eq!(d.markup_mode(), mode);
    }
}

#[test]
fn markup_mode_axes_split_the_ladder() {
    assert!(!MarkupMode::Hidden.authors());
    assert!(!MarkupMode::Hidden.reveals_caret_line());
    assert!(MarkupMode::Shortcuts.authors());
    assert!(!MarkupMode::Shortcuts.reveals_caret_line());
    assert!(MarkupMode::Full.authors());
    assert!(MarkupMode::Full.reveals_caret_line());
}

#[test]
fn indenting_an_empty_dash_item_under_text_dodges_the_setext_collapse() {
    for view in [View::Source, View::Wysiwyg] {
        let mut d = doc_in(view, "setext_guard", "- hello\n- \n");
        d.caret = d.source.find("- \n").unwrap() + 2;
        d.indent();
        assert_eq!(d.source, "- hello\n  * \n");
        assert!(d.nodes().iter().all(|n| n.kind != Kind::Heading), "no heading");
        assert_eq!(d.nodes().iter().filter(|n| n.kind == Kind::BulletList).count(), 2);
    }
}

#[test]
fn indenting_a_dash_item_with_content_keeps_its_dash() {
    let mut d = doc_in(View::Wysiwyg, "setext_ok", "- hello\n- x\n");
    d.caret = d.source.find('x').unwrap();
    d.indent();
    assert_eq!(d.source, "- hello\n  - x\n");
}

#[test]
fn the_setext_swap_undoes_as_one_step_with_the_indent() {
    let mut d = doc_in(View::Wysiwyg, "setext_undo", "- hello\n- \n");
    d.caret = d.source.find("- \n").unwrap() + 2;
    d.indent();
    assert_eq!(d.source, "- hello\n  * \n");
    d.undo();
    assert_eq!(d.source, "- hello\n- \n", "one undo, not two");
}

#[test]
fn indent_leaves_a_nested_lists_first_item_put_too() {
    let mut d = doc_in(View::Wysiwyg, "indent_first_nested", "- a\n  - b\n  - c\n");
    d.caret = d.source.find('b').unwrap();
    d.indent();
    assert_eq!(d.source, "- a\n  - b\n  - c\n", "inner first item holds");
    d.caret = d.source.find('c').unwrap();
    d.indent();
    assert_eq!(d.source, "- a\n  - b\n    - c\n");
}

#[test]
fn backspace_at_a_nested_item_start_outdents_it() {
    let mut d = doc_in(View::Wysiwyg, "bsp_outdent", "1. a\n   1. b\n2. c\n");
    d.caret = d.source.find('b').unwrap();
    d.backspace();
    assert_eq!(d.source, "1. a\n2. b\n3. c\n");
}

#[test]
fn backspace_at_a_top_level_item_start_strips_the_marker() {
    let mut d = doc_in(View::Wysiwyg, "bsp_strip", "- a\n- b\n");
    d.caret = d.source.find('b').unwrap();
    d.backspace();
    assert_eq!(d.source, "- a\nb\n", "the marker is gone, the text stays");
}

#[test]
fn backspace_mid_item_still_deletes_a_character() {
    let mut d = doc_in(View::Wysiwyg, "bsp_mid", "- ab\n");
    d.caret = d.source.find('b').unwrap();
    d.backspace();
    assert_eq!(d.source, "- b\n");
}

#[test]
fn backspace_at_a_heading_start_strips_the_marker() {
    let mut d = doc_in(View::Wysiwyg, "bsp_head", "## Title\n");
    d.caret = d.source.find('T').unwrap();
    d.backspace();
    assert_eq!(d.source, "Title\n");
    assert_eq!(d.caret, 0, "the caret stays with the text it was in front of");
}

#[test]
fn backspace_at_a_heading_start_keeps_the_block_around_it() {
    let mut d = doc_in(View::Wysiwyg, "bsp_head_quote", "> # Title\n");
    d.caret = d.source.find('T').unwrap();
    d.backspace();
    assert_eq!(d.source, "> Title\n");
}

#[test]
fn backspace_at_a_heading_start_takes_its_closing_sequence_too() {
    let mut d = doc_in(View::Wysiwyg, "bsp_head_closed", "# Title #\n");
    d.caret = d.source.find('T').unwrap();
    d.backspace();
    assert_eq!(d.source, "Title\n");
    d.undo();
    assert_eq!(d.source, "# Title #\n");
}

#[test]
fn backspace_mid_heading_still_deletes_a_character() {
    let mut d = doc_in(View::Wysiwyg, "bsp_head_mid", "# ab\n");
    d.caret = d.source.find('b').unwrap();
    d.backspace();
    assert_eq!(d.source, "# b\n");
}

#[test]
fn source_view_backspace_still_edits_the_heading_marker_literally() {
    let mut d = doc_with("bsp_head_src", "# Title\n");
    d.caret = d.source.find('T').unwrap();
    d.backspace();
    assert_eq!(d.source, "#Title\n");
}

#[test]
fn outdent_unnests_an_ordered_item_in_one_press() {
    let mut d = doc_with("outdent_ord", "1. a\n   2. b\n3. c\n");
    d.caret = d.source.find('b').unwrap();
    d.outdent();
    assert_eq!(d.source, "1. a\n2. b\n3. c\n");
    let lists = d.nodes().iter().filter(|n| n.kind == Kind::OrderedList).count();
    assert_eq!(lists, 1, "back to one flat list");
}

#[test]
fn table_insert_row_adds_a_row_below_the_caret() {
    let mut d = doc_with("tbl_ins_row", "| a | b |\n| --- | --- |\n| 1 | 2 |\n");
    d.caret = d.source.find('1').unwrap();
    d.table_insert_row(true);
    assert_eq!(
        d.source,
        "| a | b |\n| --- | --- |\n| 1 | 2 |\n|  |  |\n"
    );
}

#[test]
fn table_insert_and_delete_column_at_the_caret() {
    let mut d = doc_with("tbl_col", "| a | b |\n| --- | --- |\n| 1 | 2 |\n");
    d.caret = d.source.find('a').unwrap();
    d.table_insert_column(true);
    assert_eq!(
        d.source,
        "| a |  | b |\n| --- | --- | --- |\n| 1 |  | 2 |\n"
    );
    d.caret = d.source.find('b').unwrap();
    d.table_delete_column();
    assert_eq!(d.source, "| a |  |\n| --- | --- |\n| 1 |  |\n");
}

#[test]
fn table_set_alignment_respells_the_delimiter() {
    let mut d = doc_with("tbl_align", "| a | b |\n| --- | --- |\n| 1 | 2 |\n");
    d.caret = d.source.find('b').unwrap();
    d.table_set_alignment(Alignment::Right);
    assert_eq!(d.source, "| a | b |\n| --- | ---: |\n| 1 | 2 |\n");
}

#[test]
fn table_op_off_a_table_is_a_no_op_with_a_status() {
    let mut d = doc_with("tbl_none", "just text\n");
    d.caret = 3;
    d.table_insert_row(true);
    assert_eq!(d.source, "just text\n", "nothing changed");
    assert!(d.status.is_some(), "a status explains why");
    assert!(!d.caret_in_table());
}

#[test]
fn enter_in_an_ordered_list_renumbers_the_following_items() {
    let mut d = wysiwyg_doc("enter_renumber", "1. a\n2. b\n3. c\n");
    d.caret = d.source.find('a').unwrap() + 1;
    d.newline();
    d.insert("x");
    assert_eq!(d.source, "1. a\n2. x\n3. b\n4. c\n");
}

#[test]
fn outdent_with_nothing_to_give_back_records_no_undo_step() {
    for view in [View::Source, View::Wysiwyg] {
        let mut d = doc_in(view, "outdent_noop", "hello\n");
        d.caret = 2;
        d.outdent();
        assert_eq!(d.source, "hello\n");
        assert!(!d.dirty, "a no-op is not a modification");
        d.undo();
        assert_eq!(d.status.as_deref(), Some("nothing to undo"), "spends no undo step");
        assert_eq!(d.source, "hello\n");
    }
}

#[test]
fn indent_shifts_every_selected_line_and_keeps_them_selected() {
    for view in [View::Source, View::Wysiwyg] {
        let mut d = doc_in(view, "indent_sel", "one\n\ntwo\n");
        d.anchor = Some(0);
        d.caret = 7; // through "two"
        d.indent();
        assert_eq!(
            d.source, "  one\n\n  two\n",
            "the blank line keeps no trailing pad"
        );
        assert_eq!(d.selection(), Some((0, 12)));
        d.indent();
        assert_eq!(d.source, "    one\n\n    two\n");
    }
}

#[test]
fn outdent_takes_what_each_line_has_and_leaves_the_rest_alone() {
    for view in [View::Source, View::Wysiwyg] {
        let mut d = doc_in(view, "outdent_sel", "  two\n one\nnone\n");
        d.anchor = Some(0);
        d.caret = 15;
        d.outdent();
        assert_eq!(d.source, "two\none\nnone\n");
    }
}

#[test]
fn a_tab_undoes_as_one_step_however_many_lines_it_moved() {
    for view in [View::Source, View::Wysiwyg] {
        let mut d = doc_in(view, "indent_undo", "one\n\ntwo\n");
        d.anchor = Some(0);
        d.caret = 7;
        d.indent();
        assert_eq!(d.source, "  one\n\n  two\n");
        d.undo();
        assert_eq!(d.source, "one\n\ntwo\n", "one step, not one per line");
        assert_eq!(d.selection(), Some((0, 7)), "with the selection it was aimed at");
        d.redo();
        assert_eq!(d.source, "  one\n\n  two\n");
        assert_eq!(
            d.selection(),
            Some((0, 12)),
            "redo replays the caret the indent placed, not the one splice left"
        );
    }
}

#[test]
fn vertical_motion_keeps_the_column() {
    let mut d = doc_with("move", "abcd\nef\n");
    d.caret = 3; // "abc|d" on row 0, col 3
    d.move_down(false); // row 1 "ef" only has cols 0..2 -> clamps to end
    assert_eq!(d.caret, 7); // just after "ef"
}

#[test]
fn vertical_motion_goal_column_survives_a_short_line() {
    let g = |m, f: fn(&mut Doc)| golden("goalcol", m, f);
    assert_eq!(
        g("abcd|ef\nxy\nghijkl\n", |d| {
            d.move_down(false); // clamps to end of "xy"
            d.move_down(false);
        }),
        "abcdef\nxy\nghij|kl\n"
    );
}

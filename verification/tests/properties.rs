//! What holds of the operations together, and the parts that they are made of.

use leaf_core::blocks::{caret_line_tail, heading_prefix, line_tail_offset};
use leaf_core::caret::CaretState;
use leaf_core::counts::{is_text, tally, visible, Glyph, TextCounts, TextMap, TextRow, TextTable};
use leaf_core::doc::Doc;
use leaf_core::edges::{
    closing_at, marks_in_force, skip_leading_open_delims, skip_trailing_close_delims,
    step_inside_close, step_inside_open, step_past_marks, MarkAt,
};
use leaf_core::editor::{parse_features, Fault};
use leaf_core::edits::typed_edit_kind;
use leaf_core::format::{detect_format, Format};
use leaf_core::html::{
    css_emphasis, css_value, holds_table, is_unbolded, parse_fragment, paste, publish, sanitize,
    skip_tree, strip_paragraph_attributes, strip_sole_paragraph, style_of,
};
use leaf_core::indent::split_lines;
use leaf_core::lines::{
    line_start, next_boundary, offset_at_cell, offset_to_row_col, prev_boundary, row_below,
    row_col_to_offset, source_line_range,
};
use leaf_core::lists::{indent_unit, list_marker_width, next_list_marker, outdent_width};
use leaf_core::marks::{InlineKind, InlineMarks};
use leaf_core::modes::{Alignment, BlockKind, DiskState, EditKind, LineFlow, MarkupMode, View};
use leaf_core::node::{read_nodes, Kind, Parsed, Span};
use leaf_core::session::{hash_bytes, DiskRead, OpenFault};
use leaf_core::style::{Role, Token};
use leaf_core::syntax::{push_span, token_of_scope, token_of_stack};
use leaf_core::tables::{find_cell_home, find_row_cells, stands_in_a_column};
use leaf_core::typing::find_gap;
use leaf_core::visual::{Cell, MediaKind, MediaMap, MediaStop, Stop, TableMap, VisualMap};
use leaf_core::words::{classify, next_word, prev_word, word_range_at, Class};

fn markdown(source: &str) -> Doc {
    let mut d = Doc::from_source(source.to_string(), Format::Markdown).unwrap();
    d.view = View::Source;
    d
}

// ── edits and their history ────────────────────────────────────────────────────

#[test]
fn an_edit_replaces_its_range_and_an_undo_takes_it_back() {
    let mut d = markdown("one two three\n");
    d.caret = 7;
    d.anchor = Some(4);
    d.edit(4, 7, "2");
    assert_eq!(d.source, "one 2 three\n");
    assert_eq!((d.caret, d.anchor, d.dirty), (5, None, true));
    d.undo();
    assert_eq!(d.source, "one two three\n");
    assert_eq!((d.caret, d.anchor, d.dirty), (7, Some(4), false));
    d.redo();
    assert_eq!(d.source, "one 2 three\n");
    assert_eq!(d.caret, 5);
    d.redo();
    assert_eq!(d.status.as_deref(), Some("nothing to redo"));
}

#[test]
fn an_edit_past_the_end_changes_nothing_but_the_status() {
    let mut d = markdown("short\n");
    d.caret = 2;
    d.edit(4, 40, "x");
    assert_eq!(d.source, "short\n");
    assert_eq!((d.caret, d.dirty), (2, false));
    assert_eq!(d.status.as_deref(), Some("edit: invalid argument"));
}

#[test]
fn the_steps_of_a_composition_undo_together() {
    let mut d = markdown("a\n");
    d.caret = 1;
    d.edit_composing(1, 1, "n");
    d.edit_composing(1, 2, "ni");
    d.edit_composing(1, 3, "你");
    assert_eq!(d.source, "a你\n");
    d.end_composition();
    d.edit_composing(4, 4, "h");
    d.undo();
    assert_eq!(d.source, "a你\n", "the next composition is a step of its own");
    d.undo();
    assert_eq!(d.source, "a\n");
}

#[test]
fn a_gesture_is_one_step_back_to_where_it_was_made() {
    let mut d = markdown("word here\n");
    d.anchor = Some(0);
    d.caret = 4;
    d.toggle(InlineKind::Strong);
    assert_eq!(d.source, "**word** here\n");
    d.undo();
    assert_eq!(d.source, "word here\n");
    assert_eq!((d.caret, d.anchor), (4, Some(0)));
}

#[test]
fn an_image_with_words_of_its_own_takes_two_steps() {
    let mut d = markdown("before after\n");
    d.caret = 7;
    d.insert_image("cat.png", "a cat");
    assert_eq!(d.source, "before ![a cat](cat.png)after\n");
    d.undo();
    assert_eq!(d.source, "before a catafter\n", "the words go in first");
    d.undo();
    assert_eq!(d.source, "before after\n");
    assert_eq!((d.caret, d.dirty), (7, false));
}

#[test]
fn text_typed_with_a_mark_armed_takes_a_step_for_the_mark() {
    let mut d = markdown("one \n");
    d.caret = 4;
    d.toggle(InlineKind::Strong);
    d.insert("x");
    assert_eq!(d.source, "one **x**\n");
    d.undo();
    assert_eq!(d.source, "one x\n");
    d.undo();
    assert_eq!(d.source, "one \n");
}

#[test]
fn an_edit_leaves_nothing_to_redo() {
    let mut d = markdown("a\n");
    d.caret = 1;
    d.insert("b");
    d.undo();
    d.edit(0, 1, "c");
    d.redo();
    assert_eq!(d.source, "c\n");
    assert_eq!(d.status.as_deref(), Some("nothing to redo"));
}

#[test]
fn a_mark_armed_twice_is_not_armed() {
    let mut d = markdown("ab\n");
    d.caret = 1;
    d.toggle(InlineKind::Strong);
    assert!(d.active_inline_marks().contains(InlineKind::Strong));
    d.toggle(InlineKind::Strong);
    assert!(d.active_inline_marks().is_empty());
    d.insert("x");
    assert_eq!(d.source, "axb\n");
}

#[test]
fn a_gesture_that_a_format_cannot_spell_says_so() {
    let mut d = Doc::from_source("<r>word</r>".to_string(), Format::Xml).unwrap();
    d.view = View::Source;
    d.anchor = Some(3);
    d.caret = 7;
    d.toggle(InlineKind::Strong);
    assert_eq!(d.source, "<r>word</r>");
    assert!(d.status.as_deref().unwrap().ends_with(Fault::UnsupportedFormat.message()));
    d.table_set_alignment(Alignment::Center);
    assert_eq!(d.source, "<r>word</r>");
}

#[test]
fn the_text_follows_the_editor_through_every_gesture() {
    fn told_alike(d: &mut Doc) {
        let words: Vec<(Span, String)> = d
            .nodes()
            .into_iter()
            .filter(|n| n.kind == Kind::Str)
            .filter_map(|n| n.text.map(|text| (n.span, text)))
            .collect();
        assert!(!words.is_empty());
        for (span, text) in words {
            assert_eq!(d.source[span.start..span.end], text);
        }
    }
    let mut d = markdown("one\n\n| a | b |\n| - | - |\n| c | d |\n");
    d.toggle_heading(2);
    told_alike(&mut d);
    d.toggle_blockquote();
    told_alike(&mut d);
    d.caret = d.source.len() - 3;
    d.table_insert_row(true);
    told_alike(&mut d);
    d.undo();
    told_alike(&mut d);
    d.redo();
    told_alike(&mut d);
}

#[test]
fn a_column_moves_and_behind_the_last_there_is_none() {
    let src = "| a | b |\n| - | - |\n| 1 | 2 |\n";
    let mut d = markdown(src);
    d.caret = 9;
    d.table_move_column(false);
    assert_eq!(d.source, src);
    assert_eq!(
        d.status,
        Some(format!("table column: {}", Fault::NotEditable.message())),
        "behind the closing bar"
    );
    d.caret = 6;
    d.table_move_column(false);
    assert_eq!(d.status, None);
    assert!(d.source.starts_with("| b | a |\n"), "got {:?}", d.source);
    assert!(d.source.ends_with("| 2 | 1 |\n"), "got {:?}", d.source);

    let mut d = markdown(src);
    let nodes = d.nodes();
    for at in 0..9 {
        assert!(stands_in_a_column(&nodes, src.as_bytes(), at), "at {at}");
    }
    assert!(!stands_in_a_column(&nodes, src.as_bytes(), 9));
    assert!(stands_in_a_column(&nodes, src.as_bytes(), 22));
    let last = nodes.iter().filter(|n| n.kind == Kind::Row).last().unwrap().span;
    let cells = find_row_cells(&nodes, last);
    let texts: Vec<&str> = cells.iter().map(|c| src[c.start..c.end].trim()).collect();
    assert_eq!(texts, vec!["1", "2"]);
}

#[test]
fn a_row_that_is_refused_leaves_the_caret_in_the_last_one() {
    let src = "<table><tr><td>a</td><td>bc</td></tr></table>\n";
    let mut d = Doc::from_source(src.to_string(), Format::Html).unwrap();
    d.view = View::Source;
    let at = src.find("bc").unwrap();
    d.caret = at + 1;
    assert!(d.cell_return(), "acts as a table key");
    assert_eq!(d.source, src, "no row was put in");
    assert_eq!(d.status, None, "the refusal is not told");
    assert_eq!(d.selected_text(), Some("a"), "the caret is in a cell of the last row");

    let (a, b) = (src.find(">a<").unwrap() + 1, at);
    let grid = vec![vec![Cell { start: a, end: a + 1 }, Cell { start: b, end: b + 2 }]];
    let map = VisualMap { tables: vec![TableMap { grid }], ..VisualMap::default() };
    d.build_visual(80, map);
    d.caret = at + 1;
    d.anchor = None;
    assert!(d.cell_return());
    assert_eq!((d.selected_text(), d.status.as_deref()), (Some("bc"), None));
}

#[test]
fn a_blank_line_is_joined_to_the_one_above_without_a_layout() {
    let joined = |src: &str, flow: LineFlow| {
        let mut d = markdown(src);
        d.view = View::Wysiwyg;
        d.line_flow = flow;
        d.caret = src.len();
        d.backspace();
        d.source
    };
    assert_eq!(joined("a\n\n", LineFlow::Fold), "a");
    assert_eq!(joined("a\n\n\n", LineFlow::Fold), "a\n\n");
    assert_eq!(joined("a\n\n", LineFlow::Preserve), "a\n");
}

#[test]
fn text_next_to_a_block_medium_gets_a_paragraph_without_a_layout() {
    for name in ["video", "audio"] {
        let src = format!("one\n\n<{name} src=\"x\" controls>alt</{name}>\n\ntwo\n");
        let mut d = markdown(&src);
        d.view = View::Wysiwyg;
        let span = d
            .nodes()
            .into_iter()
            .find(|n| n.element.as_deref() == Some(name))
            .expect("an element is a node")
            .span;
        d.caret = span.start;
        d.insert("x");
        assert_eq!(d.source, format!("{}x\n\n{}", &src[..span.start], &src[span.start..]));

        let mut d = markdown(&src);
        d.view = View::Wysiwyg;
        d.caret = span.end;
        d.insert("x");
        assert_eq!(d.source, format!("{}\n\nx{}", &src[..span.end], &src[span.end..]));
    }
    let mut d = markdown("a ![b](c) d\n");
    d.view = View::Wysiwyg;
    d.caret = 2;
    d.insert("x");
    assert_eq!(d.source, "a x![b](c) d\n", "an image among words is no block");
}

#[test]
fn media_but_images_are_spelled_as_elements() {
    let mut d = markdown("\n");
    d.caret = 0;
    d.insert_media(MediaKind::Video, "clip.mp4", "a clip");
    assert_eq!(d.source, "<video src=\"clip.mp4\" controls>a clip</video>\n");

    let mut d = markdown("\n");
    d.caret = 0;
    d.insert_media(MediaKind::Audio, "take.mp3", "");
    assert_eq!(d.source, "<audio src=\"take.mp3\" controls></audio>\n");

    let mut d = markdown("\n");
    d.caret = 0;
    d.insert_media(MediaKind::Image, "cat.png", "a cat");
    assert_eq!(d.source, "![a cat](cat.png)\n");
}

#[test]
fn documents_that_cannot_be_opened_say_why() {
    let open = |bytes: &[u8], ext: &str| {
        Doc::opened(bytes.to_vec(), ext, "/f".to_string(), "f".to_string()).map(|_| ())
    };
    assert_eq!(open(b"x", "txt"), Err(OpenFault::UnknownExtension));
    assert_eq!(open(&[0xff], "md"), Err(OpenFault::NotText));
    assert_eq!(open(b"x", "MD"), Ok(()));
}

#[test]
fn formats_are_told_by_their_extensions() {
    let all = [
        ("dj", Format::Djot),
        ("djot", Format::Djot),
        ("md", Format::Markdown),
        ("Markdown", Format::Markdown),
        ("xml", Format::Xml),
        ("html", Format::Html),
        ("HTM", Format::Html),
    ];
    for (ext, format) in all {
        assert_eq!(detect_format(ext), Some(format), "{ext}");
    }
    assert_eq!(detect_format(""), None);
    assert_eq!(parse_features(Format::Markdown), vec!["html_elements", "directives"]);
    assert!(parse_features(Format::Djot).is_empty());
}

#[test]
fn equal_bytes_have_equal_digests() {
    assert_eq!(hash_bytes(b"body\n"), hash_bytes(b"body\n"));
    assert_ne!(hash_bytes(b"body\n"), hash_bytes(b"other\n"));
}

#[test]
fn preferences_are_kept_and_ask_for_a_new_map() {
    let mut d = Doc::from_source("*one* here\n\n*two* there\n".to_string(), Format::Markdown).unwrap();
    d.build_visual(80, VisualMap::default());
    let key = d.map_key(Some(80));
    d.caret = 14;
    assert_eq!(d.map_key(Some(80)), key, "a hidden mode lays out nothing anew on motion");
    d.set_markup_mode(MarkupMode::Full);
    assert_eq!(d.markup_mode(), MarkupMode::Full);
    assert_eq!(d.reveal_line(), Some(Span { start: 12, end: 23 }));
    let there = d.map_key(Some(80));
    d.caret = 2;
    assert_ne!(d.map_key(Some(80)), there, "the revealed line follows the caret");
    d.set_line_flow(LineFlow::Preserve);
    assert_eq!(d.line_flow(), LineFlow::Preserve);
    d.set_media_rows(vec![("p.png".to_string(), 3)]);
    assert!(d.vmap_key.is_none(), "media of another height are laid out anew");
    d.set_media_rows(vec![("p.png".to_string(), 3), ("q.png".to_string(), 2)]);
    d.build_visual(80, VisualMap::default());
    d.set_media_rows(vec![("q.png".to_string(), 2), ("p.png".to_string(), 3)]);
    assert!(d.vmap_key.is_some(), "the order says nothing");
}

#[test]
fn a_document_without_a_file_stays_without_one() {
    let mut d = markdown("x");
    d.mark_saved();
    assert!(!d.dirty && d.is_untitled());
    assert_eq!(d.disk_state(&DiskRead::Missing("gone".to_string())), DiskState::Untitled);
}

#[test]
fn redo_gives_back_where_the_edit_left_the_caret() {
    let mut d = markdown("one two\n");
    d.caret = 7;
    d.edit(0, 3, "1");
    assert_eq!((d.source.as_str(), d.caret), ("1 two\n", 1));
    d.move_right(false);
    d.undo();
    assert_eq!((d.source.as_str(), d.caret), ("one two\n", 7));
    d.redo();
    assert_eq!((d.source.as_str(), d.caret), ("1 two\n", 1));
}

#[test]
fn a_second_undo_leads_to_the_state_before_the_last() {
    let mut d = markdown("a\n");
    d.edit(1, 1, "b");
    d.edit(2, 2, "c");
    d.undo();
    assert_eq!(d.source, "ab\n");
    d.undo();
    assert_eq!(d.source, "a\n");
}

#[test]
fn a_refused_reload_keeps_the_history() {
    let mut d = Doc::opened(b"a\n".to_vec(), "md", "/n.md".to_string(), "n.md".to_string()).unwrap();
    d.edit(1, 1, "b");
    d.reload(DiskRead::Bytes(vec![0xff]));
    assert_eq!(d.status.as_deref(), Some("reload failed: file is not UTF-8"));
    d.undo();
    assert_eq!(d.source, "a\n");
    d.reload(DiskRead::Bytes(b"c\n".to_vec()));
    d.redo();
    assert_eq!(d.status.as_deref(), Some("nothing to redo"));
    d.undo();
    assert_eq!((d.source.as_str(), d.status.as_deref()), ("c\n", Some("nothing to undo")));
}

#[test]
fn a_picture_holds_between_two_frames() {
    let mut d = Doc::from_source("hi\n\n![](p.png)\n".to_string(), Format::Markdown).unwrap();
    d.caret = "hi\n\n![](p.png)".len();
    d.insert("x");
    assert_eq!(d.source, "hi\n\n![](p.png)\n\nx\n", "no map was laid out");
    d.undo();
    d.caret = 4;
    d.backspace();
    assert_eq!((d.source.as_str(), d.caret), ("hi\n\n![](p.png)\n", 2), "over the breaks");
    d.caret = "hi\n\n![](p.png)".len();
    d.backspace();
    assert_eq!(d.source, "hi\n");
}

#[test]
fn a_row_is_entered_by_its_bars() {
    let row = "| a | b |\n|  ||\n";
    let span = Span { start: 10, end: 15 };
    assert_eq!(find_cell_home(row, span, 0), Some(12));
    assert_eq!(find_cell_home(row, span, 1), Some(14), "no room for a space");
    assert_eq!(find_cell_home(row, span, 9), Some(14), "the last cell");
    assert_eq!(find_cell_home("none", Span { start: 0, end: 4 }, 0), None);
}

// ── text ───────────────────────────────────────────────────────────────────────

#[test]
fn a_caret_and_its_bytes_stand_for_each_other() {
    for state in [
        CaretState { caret: 0, anchor: None },
        CaretState { caret: 513, anchor: Some(0) },
        CaretState { caret: 7, anchor: Some(70_000) },
    ] {
        let blob = state.to_blob();
        assert_eq!(blob.len(), 17);
        assert_eq!(CaretState::from_blob(&blob), Some(state));
    }
    assert_eq!(CaretState::from_blob(b""), None);
    assert_eq!(CaretState::from_blob(&[0; 16]), None);
}

#[test]
fn words_are_runs_of_letters_digits_and_underscores() {
    assert_eq!(classify('é'), Class::Word);
    assert_eq!(classify('_'), Class::Word);
    assert_eq!(classify('\u{a0}'), Class::Space);
    assert_eq!(classify('-'), Class::Other);
    let s = "naïve café, x_1";
    assert_eq!(next_word(s, 0), "naïve".len());
    assert_eq!(next_word(s, "naïve".len()), "naïve café".len());
    assert_eq!(next_word(s, "naïve café".len()), s.len());
    assert_eq!(prev_word(s, s.len()), "naïve café, ".len());
    assert_eq!(prev_word(s, "naïve caf".len()), "naïve ".len());
    assert_eq!(prev_word(s, 0), 0);
    assert_eq!(word_range_at(s, 1), (0, "naïve".len()));
    assert_eq!(word_range_at(s, "naïve café".len()), ("naïve café".len(), "naïve café,".len()));
    assert_eq!(word_range_at(s, 900), ("naïve café, ".len(), s.len()));
    assert_eq!(word_range_at("", 0), (0, 0));
}

#[test]
fn characters_are_grapheme_clusters() {
    let s = "a👨‍👩‍👧e\u{301}";
    let family = "👨‍👩‍👧".len();
    assert_eq!(next_boundary(s, 0), 1);
    assert_eq!(next_boundary(s, 1), 1 + family);
    assert_eq!(next_boundary(s, 1 + family), s.len());
    assert_eq!(next_boundary(s, s.len()), s.len());
    assert_eq!(prev_boundary(s, s.len()), 1 + family);
    assert_eq!(prev_boundary(s, 1 + family), 1);
    assert_eq!(prev_boundary(s, 0), 0);
}

#[test]
fn rows_and_columns_lead_to_offsets_and_back() {
    let s = "ab 你好\n\nlast";
    assert_eq!(offset_to_row_col(s, 0), (0, 0));
    assert_eq!(offset_to_row_col(s, "ab 你".len()), (0, 5));
    assert_eq!(offset_to_row_col(s, s.len()), (2, 4));
    assert_eq!(row_col_to_offset(s, 0, 3), "ab ".len());
    assert_eq!(row_col_to_offset(s, 0, 4), "ab ".len(), "inside the wide character");
    assert_eq!(row_col_to_offset(s, 0, 5), "ab 你".len());
    assert_eq!(row_col_to_offset(s, 0, 99), "ab 你好".len());
    assert_eq!(row_col_to_offset(s, 2, 2), s.len() - 2);
    assert_eq!(line_start(s, 1), "ab 你好\n".len());
    assert_eq!(row_below(s, 1), Some(2));
    assert_eq!(row_below(s, 2), None);
    assert_eq!(source_line_range(s, 1), 0.."ab 你好".len());
}

#[test]
fn every_cluster_of_a_line_is_found_again_by_its_cells() {
    let s = "x\na👨‍👩‍👧e\u{301}🇫🇷你b\nend";
    let mut off = 0;
    loop {
        let (row, col) = offset_to_row_col(s, off);
        assert_eq!(row_col_to_offset(s, row, col), off, "at {off}");
        if off == s.len() {
            break;
        }
        let next = next_boundary(s, off);
        let (same, behind) = offset_to_row_col(s, next);
        if same == row {
            assert!(behind > col, "a cluster takes a cell at least");
            assert_eq!(row_col_to_offset(s, row, behind - 1), off, "its last cell too");
        }
        off = next;
    }
    assert_eq!(offset_to_row_col(s, s.find("你").unwrap()), (1, 6));
}

#[test]
fn a_cell_belongs_to_the_cluster_drawn_over_it() {
    let cells = vec![(3, 1), (6, 2), (7, 1)];
    assert_eq!(offset_at_cell(&cells, 2, 0), 2);
    assert_eq!(offset_at_cell(&cells, 2, 1), 3);
    assert_eq!(offset_at_cell(&cells, 2, 2), 3);
    assert_eq!(offset_at_cell(&cells, 2, 3), 6);
    assert_eq!(offset_at_cell(&cells, 2, 4), 7);
    assert_eq!(offset_at_cell(&cells, 2, 40), 7);
    assert_eq!(offset_at_cell(&vec![], 2, 5), 2);
}

#[test]
fn lines_join_to_the_text_they_were_split_from() {
    for s in ["", "a", "a\n", "a\n\nb", "\n"] {
        assert_eq!(split_lines(s).join("\n"), s, "{s:?}");
    }
    assert_eq!(split_lines("a\nb\n"), vec!["a", "b", ""]);
}

#[test]
fn list_markers_count_on_and_bullets_repeat() {
    assert_eq!(next_list_marker("- "), "- ");
    assert_eq!(next_list_marker("  * "), "  * ");
    assert_eq!(next_list_marker("9. "), "10. ");
    assert_eq!(next_list_marker("  99) "), "  100) ");
    assert_eq!(list_marker_width("- x"), Some(2));
    assert_eq!(list_marker_width("12. x"), Some(4));
    assert_eq!(list_marker_width("word"), None);
    assert_eq!(indent_unit("12. x"), 4);
    assert_eq!(indent_unit("word"), 2);
    assert_eq!(outdent_width("    x", 2), 2);
    assert_eq!(outdent_width(" x", 4), 1);
    assert_eq!(outdent_width("x", 4), 0);
}

#[test]
fn typing_folds_by_its_kind() {
    assert_eq!(typed_edit_kind("a"), EditKind::Insert);
    assert_eq!(typed_edit_kind("ab"), EditKind::Other);
    assert_eq!(typed_edit_kind("\n"), EditKind::Other);
    assert_eq!(find_gap("a \t b", 4), 1);
    assert_eq!(find_gap("ab", 1), 1);
    assert_eq!(heading_prefix(3), "### ");
}

#[test]
fn a_caret_keeps_its_place_before_the_end_of_its_line() {
    let old = "one\ntwo three\n";
    let place = caret_line_tail(old, 7, Span { start: 0, end: 13 });
    assert_eq!(place, (1, 6));
    let new = "> one\n> two three\n";
    assert_eq!(line_tail_offset(new, Span { start: 0, end: 17 }, place.0, place.1), 11);
}

// ── marks ──────────────────────────────────────────────────────────────────────

#[test]
fn marks_that_differ_twice_do_not() {
    let mut a = InlineMarks::empty();
    a.insert(InlineKind::Strong);
    a.insert(InlineKind::Emph);
    let mut b = InlineMarks::empty();
    b.insert(InlineKind::Emph);
    b.insert(InlineKind::Verbatim);
    let both = a.xor(b);
    assert!(both.contains(InlineKind::Strong) && both.contains(InlineKind::Verbatim));
    assert!(!both.contains(InlineKind::Emph));
    assert_eq!(both.xor(b), a);
    a.flip(InlineKind::Strong);
    a.flip(InlineKind::Emph);
    assert!(a.is_empty());
    assert_eq!(a.iter(), vec![]);
}

#[test]
fn the_two_sides_of_a_delimiter_lead_to_each_other() {
    // a **bold** c
    let source = "a **bold** c";
    let runs = vec![MarkAt {
        kind: InlineKind::Strong,
        span: Span { start: 2, end: 10 },
        content: Some(Span { start: 4, end: 8 }),
        id: 3,
    }];
    assert_eq!(skip_trailing_close_delims(source, &runs, 8), 10);
    assert_eq!(step_inside_close(source, &runs, 10), Some(8));
    assert_eq!(skip_leading_open_delims(source, &runs, 4), 2);
    assert_eq!(step_inside_open(source, &runs, 2), Some(4));
    assert_eq!(closing_at(source, &runs, 10), Some((InlineKind::Strong, 8)));
    assert_eq!(closing_at(source, &runs, 9), None);
    assert!(marks_in_force(&runs, 6).contains(InlineKind::Strong));
    assert!(marks_in_force(&runs, 11).is_empty());
    let mut shed = InlineMarks::empty();
    shed.insert(InlineKind::Strong);
    assert_eq!(step_past_marks(source, &runs, 8, shed), 10);
    assert_eq!(step_past_marks(source, &runs, 8, InlineMarks::empty()), 8);
}

#[test]
fn a_parsed_node_is_read_by_its_name() {
    let parsed = |name: &str| Parsed {
        name: name.to_string(),
        element: Some("em".to_string()),
        span: Span { start: 0, end: 3 },
        content: None,
        level: Some(2),
        parent: None,
        first_child: Some(1),
        next_sibling: None,
        text: None,
        destination: Some("x".to_string()),
        attrs: vec![("id".to_string(), None)],
    };
    let nodes = read_nodes(vec![parsed("heading"), parsed("str"), parsed("no_such_kind")]);
    let kinds: Vec<Kind> = nodes.iter().map(|n| n.kind).collect();
    assert_eq!(kinds, vec![Kind::Heading, Kind::Str, Kind::Other]);
    assert_eq!(nodes[0].level, Some(2));
    assert_eq!(nodes[1].element.as_deref(), Some("em"));
    assert_eq!(nodes[0].first_child, Some(1));
    assert_eq!(nodes[1].destination.as_deref(), Some("x"));
    assert_eq!(nodes[2].attrs.len(), 1);
}

// ── what a frontend lays out ───────────────────────────────────────────────────

fn row(text: &str, at: usize, role: Role) -> Vec<Glyph> {
    text.char_indices().map(|(i, ch)| Glyph { ch, src: at + i, stop: true, role }).collect()
}

#[test]
fn counts_run_over_what_a_reader_reads() {
    let mut title = row("• ", 0, Role::ListMarker);
    title.extend(row("Two words", 2, Role::Body));
    let map = TextMap {
        rows: vec![
            TextRow { glyphs: title, decoration: false },
            TextRow { glyphs: vec![], decoration: true },
            TextRow { glyphs: row("let x;", 20, Role::Code), decoration: false },
            TextRow { glyphs: row("e\u{301}", 30, Role::Code), decoration: false },
            TextRow { glyphs: vec![], decoration: false },
        ],
        tables: vec![TextTable {
            rows: Span { start: 4, end: 5 },
            cells: vec![row("cell", 40, Role::Body), row(" ", 50, Role::Body)],
        }],
        code_blocks: vec![Span { start: 2, end: 4 }],
    };
    let all = tally(&map, None);
    assert_eq!(all.words, 2 + 2 + 1 + 1);
    assert_eq!(all.characters, 9 + 6 + 1 + 4 + 1);
    assert_eq!(all.characters_without_spaces, 8 + 5 + 1 + 4);
    assert_eq!(all.paragraphs, 3);
    let some = tally(&map, Some(Span { start: 2, end: 5 }));
    assert_eq!((some.words, some.characters, some.paragraphs), (1, 3, 1));
    assert_eq!(tally(&map, Some(Span { start: 0, end: 0 })), TextCounts::default());
    assert_eq!(visible(&map.rows[0].glyphs, None), "Two words");
    assert!(is_text(Role::Heading(1)) && !is_text(Role::Rule));
}

#[test]
fn a_line_adds_its_clusters_and_words_and_stays_in_range() {
    let mut c = TextCounts { words: usize::MAX, ..TextCounts::default() };
    let clusters = vec!["a".to_string(), " ".to_string(), "e\u{301}".to_string()];
    assert!(c.add_line(&clusters, 2));
    assert_eq!((c.words, c.characters, c.characters_without_spaces), (usize::MAX, 3, 2));
    assert!(!c.add_line(&vec![" ".to_string()], 0));
    assert_eq!((c.characters, c.paragraphs), (4, 0));
}

fn map_of_two_rows() -> VisualMap {
    let stop = |offset, row, col| Stop { offset, row, col };
    VisualMap {
        content_start: 0,
        stops: vec![stop(0, 0, 0), stop(1, 0, 1), stop(3, 2, 0), stop(4, 2, 2), stop(9, 2, 4)],
        widths: vec![1, 0, 4],
        tables: vec![TableMap {
            grid: vec![
                vec![Cell { start: 0, end: 1 }, Cell { start: 3, end: 3 }],
                vec![Cell { start: 4, end: 9 }],
            ],
        }],
        media: vec![MediaMap { kind: MediaKind::Image, span: Span { start: 4, end: 9 } }],
    }
}

#[test]
fn a_map_tells_where_the_caret_can_go() {
    let m = map_of_two_rows();
    assert_eq!((m.stop_before(3), m.stop_after(3)), (Some(1), Some(4)));
    assert_eq!((m.stop_before(0), m.stop_after(9)), (None, None));
    assert_eq!((m.stop_at_or_before(7), m.stop_at_or_after(7)), (Some(4), Some(9)));
    assert_eq!((m.navigable_above(2), m.navigable_below(0)), (Some(0), Some(2)));
    assert_eq!((m.row_start(2), m.row_start(1)), (Some(3), None));
    assert_eq!(m.snap_to_stop(7), 4);
    assert_eq!(m.pos_of_offset(4), (2, 2));
    assert_eq!(m.offset_of_pos(2, 3), 4);
    assert_eq!(m.offset_of_pos(1, 0), 1, "a row without stops stands for the one above it");
    assert_eq!(m.block_media_stop(9), Some((MediaStop::After, Span { start: 4, end: 9 })));
    assert_eq!(m.block_media_stop(5), None);
    assert_eq!(m.table_grid_at(3), Some((0, 0, 1)));
    assert_eq!(m.table_grid_at(2), None);
    assert_eq!((m.num_rows(), m.row_width(2), m.row_width(7)), (3, 4, 0));
}

#[test]
fn a_click_on_the_caret_returns_to_it() {
    let m = map_of_two_rows();
    for stop in &m.stops {
        let (row, col) = m.pos_of_offset(stop.offset);
        assert_eq!(m.offset_of_pos(row, col), stop.offset);
    }
}

#[test]
fn a_map_without_stops_leads_nowhere() {
    let m = VisualMap { content_start: 5, ..VisualMap::default() };
    assert_eq!((m.stop_before(9), m.stop_after(0)), (None, None));
    assert_eq!(m.pos_of_offset(9), (0, 0));
    assert_eq!(m.offset_of_pos(0, 0), 5);
    assert_eq!(m.snap_to_stop(9), 9);
}

// ── code and the clipboard ─────────────────────────────────────────────────────

#[test]
fn scopes_name_tokens_and_touching_ones_merge() {
    assert_eq!(token_of_scope("source.rust"), None);
    assert_eq!(token_of_scope("keyword.control"), Some(Token::Keyword));
    assert_eq!(token_of_scope("punctuation.definition.string.begin"), Some(Token::String));
    let stack = vec!["string.quoted".to_string(), "meta.block".to_string()];
    assert_eq!(token_of_stack(&stack), Some(Token::String));
    let mut spans = Vec::new();
    push_span(&mut spans, 0..2, Some(Token::String));
    push_span(&mut spans, 2..5, Some(Token::String));
    push_span(&mut spans, 5..6, None);
    push_span(&mut spans, 6..7, Some(Token::String));
    assert_eq!(spans, vec![(0..5, Token::String), (6..7, Token::String)]);
}

#[test]
fn css_is_read_for_its_emphasis() {
    let attrs = " id=x STYLE=\"Color:red; Font-Weight : 700\"";
    let style = style_of(attrs);
    assert_eq!(style, "color:red; font-weight : 700");
    assert_eq!(css_value(&style, "font-weight").as_deref(), Some("700"));
    assert_eq!(css_value(&style, "margin"), None);
    assert_eq!(css_emphasis(attrs), Some(("<strong>", "</strong>")));
    assert_eq!(css_emphasis(" style='font-style:oblique'"), Some(("<em>", "</em>")));
    assert_eq!(css_emphasis(" style='font-weight:500'"), None);
    assert!(is_unbolded(" style=\"font-weight:normal\""));
    assert!(!is_unbolded(""));
}

#[test]
fn a_close_tag_is_of_its_own_element() {
    let html: Vec<char> = "x</header>y</head>z".chars().collect();
    assert_eq!(skip_tree(&html, 0, "head"), 18);
    assert_eq!(sanitize("<head>a</header>b</head>c"), "c");
    let two = r#"<p>a</p><p class="x">b</p>"#.to_string();
    assert_eq!(strip_sole_paragraph(two.clone()), two);
    assert_eq!(strip_sole_paragraph("<p>a <pre>b</pre></p>".to_string()), "a <pre>b</pre>");
}

#[test]
fn paragraphs_lose_their_attributes_and_tables_are_told() {
    let html = r#"<P class="x">a</p> <pre id="p">b</pre> 1 < 2"#;
    assert_eq!(sanitize(html), html, "a paragraph is left as it came");
    assert_eq!(
        strip_paragraph_attributes(html),
        r#"<p>a</p> <pre id="p">b</pre> 1 < 2"#,
        "and loses its attributes before it is converted"
    );
    let pasted = parse_fragment(r#"<p class="MsoNormal">plain words</p>"#, Format::Markdown);
    assert_eq!(pasted.as_deref(), Some("plain words"));
    assert!(holds_table("x <TABLE border=0><tr></tr></TABLE>"));
    assert!(!holds_table("a < table and <tablet>"));
    assert!(!holds_table(r#"<img alt="<table>">"#), "inside a tag");
}

#[test]
fn what_the_serializer_returns_is_published_or_declined() {
    assert_eq!(publish(None), None);
    assert_eq!(publish(Some(b" <p>x</p>\n".to_vec())).as_deref(), Some("<p>x</p>"));
    assert_eq!(publish(Some(b" \n".to_vec())), None);
    assert_eq!(publish(Some(vec![0xff])), None);
    assert_eq!(paste(Some(b"\nline  \n".to_vec())).as_deref(), Some("line  "));
    assert_eq!(paste(Some(b"::: x\n".to_vec())), None);
    assert_eq!(paste(Some(b"ok\n  <table>\n".to_vec())), None);
    assert_eq!(paste(None), None);
}

#[test]
fn blocks_are_named_in_a_status() {
    assert_eq!(BlockKind::Heading(2).label(), "Heading(2)");
    assert_eq!(BlockKind::Paragraph.label(), "Paragraph");
}

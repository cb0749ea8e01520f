//! Copy, paste, composition and undo.

use leaf_core::doc::Doc;
use leaf_core::format::Format;
use leaf_core::marks::InlineKind;
use leaf_core::modes::View;
use leaf_core::visual::VisualMap;

const TABLE: &str = "| Name | Qty |\n|:-----|----:|\n| Pear | 3 |\n| Fig | 12 |\n";

fn doc_in(view: View, name: &str, body: &str) -> Doc {
    let file = format!("{name}.md");
    let mut d = Doc::opened(body.as_bytes().to_vec(), "md", file.clone(), file).unwrap();
    d.view = view;
    if view == View::Wysiwyg {
        d.build_visual(80, VisualMap::default());
    }
    d
}

fn doc_with(name: &str, body: &str) -> Doc {
    doc_in(View::Source, name, body)
}

fn wysiwyg_doc(name: &str, body: &str) -> Doc {
    doc_in(View::Wysiwyg, name, body)
}

#[test]
fn delete_forward_over_an_in_cell_break_deletes_the_whole_br() {
    let mut d = wysiwyg_doc("tbl_break_del", TABLE);
    d.caret = TABLE.find("Pear").unwrap() + 4;
    assert!(d.cell_line_break());
    d.caret = TABLE.find("Pear").unwrap() + 4;
    d.delete_forward();
    assert!(!d.source.contains("<br"), "no half-deleted <br: {}", d.source);
    assert!(d.source.contains("| Pear |"), "cell back to one line: {}", d.source);
}

#[test]
fn shift_return_in_a_djot_cell_is_swallowed_and_leaves_the_row_intact() {
    let src = "| Name | Qty |\n|:-----|----:|\n| Pear | 3 |\n";
    let mut d = Doc::from_source(src.to_string(), Format::Djot).unwrap();
    d.caret = src.find("Pear").unwrap() + 4;
    assert!(d.caret_in_table(), "caret should be inside the djot table");
    assert!(d.cell_line_break(), "the key is consumed, not passed to the frontend");
    assert_eq!(d.source, src, "the djot cell is left untouched");
    assert!(!d.source.contains("<br>"), "no non-idiomatic <br> spliced into djot");
    assert!(d.status.is_some(), "the refusal is surfaced on the status line");
}

#[test]
fn typing_in_a_cell_edits_that_cell() {
    let mut d = wysiwyg_doc("tbl_type", TABLE);
    d.caret = TABLE.find("Pear").unwrap() + 4;
    d.insert("s");
    assert!(d.source.contains("| Pears | 3 |"), "got {:?}", d.source);
}

#[test]
fn motion_and_delete_treat_an_emoji_as_one_character() {
    let family = "👨‍👩‍👧";
    let mut d = doc_with("emoji", &format!("a{family}b\n"));
    d.caret = 1;
    d.move_right(false);
    assert_eq!(d.caret, 1 + family.len(), "one step clears the whole cluster");
    assert_eq!(&d.source[d.caret..d.caret + 1], "b");

    d.backspace();
    assert_eq!(d.source, "ab\n");
    assert_eq!(d.caret, 1);
}

#[test]
fn motion_handles_a_combining_accent_as_one_character() {
    let mut d = doc_with("combining", "e\u{0301}x\n");
    d.caret = 0;
    d.move_right(false);
    assert_eq!(d.caret, "e\u{0301}".len(), "steps past base + combining mark");
}

#[test]
fn undo_then_redo_round_trips_an_edit() {
    let mut d = doc_with("undo", "hello\n");
    d.caret = 5;
    d.insert("!");
    assert_eq!(d.source, "hello!\n");
    d.undo();
    assert_eq!(d.source, "hello\n");
    assert_eq!(d.caret, 5, "undo restores the caret");
    d.redo();
    assert_eq!(d.source, "hello!\n");
}

#[test]
fn a_run_of_typing_undoes_as_one_step() {
    let mut d = doc_with("coalesce", "\n");
    d.caret = 0;
    d.insert("a");
    d.insert("b");
    d.insert("c");
    assert_eq!(d.source, "abc\n");
    d.undo(); // the whole typed run, not just "c"
    assert_eq!(d.source, "\n");
    d.undo();
    assert_eq!(d.source, "\n");
    assert_eq!(d.status.as_deref(), Some("nothing to undo"));
}

#[test]
fn a_composition_run_undoes_as_one_step() {
    let mut d = doc_with("compose", "\n");
    d.caret = 0;
    d.edit_composing(0, 0, "k");
    d.edit_composing(0, 1, "か");
    d.edit_composing(0, 3, "かん");
    d.edit_composing(0, 6, "感");
    d.end_composition();
    assert_eq!(d.source, "感\n");
    d.undo();
    assert_eq!(d.source, "\n");
    assert_eq!(d.status.as_deref(), None, "the run was a single step");
}

#[test]
fn two_compositions_are_two_undo_steps() {
    let mut d = doc_with("compose_two", "\n");
    d.caret = 0;
    d.edit_composing(0, 0, "か");
    d.edit_composing(0, 3, "蚊");
    d.end_composition();
    d.edit_composing(3, 3, "き");
    d.edit_composing(3, 6, "木");
    d.end_composition();
    assert_eq!(d.source, "蚊木\n");
    d.undo();
    assert_eq!(d.source, "蚊\n", "only the second composition");
    d.undo();
    assert_eq!(d.source, "\n");
}

#[test]
fn a_composition_does_not_fold_into_the_typing_around_it() {
    let mut d = doc_with("compose_typing", "\n");
    d.caret = 0;
    d.insert("a");
    d.insert("b");
    d.edit_composing(2, 2, "か");
    d.edit_composing(2, 5, "蚊");
    d.end_composition();
    d.insert("c");
    assert_eq!(d.source, "ab蚊c\n");
    d.undo();
    assert_eq!(d.source, "ab蚊\n");
    d.undo();
    assert_eq!(d.source, "ab\n");
    d.undo();
    assert_eq!(d.source, "\n");
}

#[test]
fn ending_a_composition_that_never_began_leaves_a_typing_run_alone() {
    let mut d = doc_with("compose_spurious", "\n");
    d.caret = 0;
    d.insert("a");
    d.end_composition();
    d.insert("b");
    assert_eq!(d.source, "ab\n");
    d.undo();
    assert_eq!(d.source, "\n", "still one typed run");
}

#[test]
fn an_inline_selection_publishes_html_without_a_paragraph_wrapper() {
    let mut d = doc_with("sel_inline", "a **bold** c\n");
    d.anchor = Some(2);
    d.caret = 10;
    assert_eq!(d.selection_html().as_deref(), Some("<strong>bold</strong>"));
}

#[test]
fn a_whole_block_selection_keeps_its_paragraph() {
    let mut d = doc_with("sel_block", "a **bold** c\n");
    d.anchor = Some(0);
    d.caret = 12;
    assert_eq!(
        d.selection_html().as_deref(),
        Some("<p>a <strong>bold</strong> c</p>")
    );
}

#[test]
fn a_multi_block_selection_keeps_its_structure() {
    let mut d = doc_with("sel_multi", "para\n\n- one\n- two\n");
    d.select_all();
    let html = d.selection_html().expect("renders");
    assert!(html.contains("<p>para</p>"), "{html:?}");
    assert!(html.contains("<li>one</li>"), "{html:?}");
}

#[test]
fn a_word_inside_a_heading_publishes_as_text_not_a_heading() {
    let mut d = doc_with("sel_heading", "# Head line\n");
    d.anchor = Some(2);
    d.caret = 6;
    assert_eq!(d.selection_html().as_deref(), Some("Head"));
}

#[test]
fn no_selection_publishes_no_html() {
    let mut d = doc_with("sel_none", "a b\n");
    d.caret = 1;
    assert_eq!(d.selection_html(), None);
}

#[test]
fn pasting_html_converts_it_and_is_one_undo_step() {
    let mut d = doc_with("paste_html", "x\n");
    d.caret = 1;
    assert!(d.paste_html("<p>a <strong>b</strong> c</p>"));
    assert_eq!(d.source, "xa **b** c\n");
    d.undo();
    assert_eq!(d.source, "x\n", "the whole paste, in one step");
}

#[test]
fn pasting_html_replaces_the_selection() {
    let mut d = doc_with("paste_html_sel", "keep drop\n");
    d.anchor = Some(5);
    d.caret = 9;
    assert!(d.paste_html("<em>new</em>"));
    assert_eq!(d.source, "keep *new*\n");
}

#[test]
fn html_that_would_paste_garbage_declines_so_the_caller_falls_back() {
    let mut d = doc_with("paste_html_bad", "x\n");
    d.caret = 1;
    assert!(!d.paste_html("<table><tr><td>a</td></tr></table>"));
    assert_eq!(d.source, "x\n", "declined edits nothing");
}

#[test]
fn copy_then_paste_round_trips_through_the_html_flavor() {
    let mut d = doc_with("clip_round", "a **b** and [l](https://x.dev)\n");
    d.select_all();
    let html = d.selection_html().expect("renders");
    let mut into = doc_with("clip_round_dst", "\n");
    into.caret = 0;
    assert!(into.paste_html(&html));
    assert_eq!(into.source, "a **b** and [l](https://x.dev)\n");
}

#[test]
fn moving_the_caret_starts_a_new_undo_group() {
    let mut d = doc_with("break", "\n");
    d.caret = 0;
    d.insert("a");
    d.insert("b"); // "ab\n", caret at 2
    d.move_left(false);
    d.insert("X"); // "aXb\n"
    assert_eq!(d.source, "aXb\n");
    d.undo();
    assert_eq!(d.source, "ab\n", "first undo removes only the post-move insert");
    d.undo();
    assert_eq!(d.source, "\n", "second undo removes the earlier run");
}

#[test]
fn undo_reverses_a_format_toggle() {
    let mut d = doc_with("fmt_undo", "a word b\n");
    d.anchor = Some(2);
    d.caret = 6;
    d.toggle(InlineKind::Strong);
    assert_eq!(d.source, "a **word** b\n");
    d.undo();
    assert_eq!(d.source, "a word b\n");
}

#[test]
fn undo_back_to_the_saved_state_clears_dirty() {
    let mut d = doc_with("dirty_undo", "hello\n");
    assert!(!d.dirty);
    d.caret = 5;
    d.insert("!");
    assert!(d.dirty);
    d.undo();
    assert!(!d.dirty, "undoing to the saved source is not a modification");
}

#[test]
fn a_new_edit_invalidates_redo() {
    let mut d = doc_with("redo_inv", "\n");
    d.caret = 0;
    d.insert("a");
    d.undo();
    d.insert("b"); // diverges — the redo of "a" is now gone
    d.redo();
    assert_eq!(d.source, "b\n");
}

#[test]
fn undo_on_empty_history_is_a_no_op() {
    let mut d = doc_with("undo_empty", "hi\n");
    d.undo();
    assert_eq!(d.source, "hi\n");
    assert_eq!(d.status.as_deref(), Some("nothing to undo"));
}

#[test]
fn a_one_character_paste_is_its_own_undo_step() {
    for view in [View::Source, View::Wysiwyg] {
        let mut d = doc_in(view, "paste_step", "ab\n");
        d.caret = 0;
        d.insert("x");
        d.insert("y");
        d.paste("z");
        assert_eq!(d.source, "xyzab\n");
        d.undo();
        assert_eq!(d.source, "xyab\n", "the paste undoes on its own");
        assert_eq!(d.caret, 2, "and hands back the caret it found");
        d.undo();
        assert_eq!(d.source, "ab\n", "the typed run is still one step under it");
    }
}

#[test]
fn the_same_character_typed_still_joins_the_run() {
    for view in [View::Source, View::Wysiwyg] {
        let mut d = doc_in(view, "typed_run", "ab\n");
        d.caret = 0;
        d.insert("x");
        d.insert("y");
        d.insert("z");
        d.undo();
        assert_eq!(d.source, "ab\n", "one run, one step");
    }
}

#[test]
fn undo_restores_the_caret_to_where_it_was_not_to_the_edit_site() {
    for view in [View::Source, View::Wysiwyg] {
        let mut d = doc_in(view, "undo_caret", "hello world\n");
        d.caret = 11; // standing at the end of "world", away from the edit
        d.edit(0, 5, "goodbye");
        assert_eq!(d.source, "goodbye world\n");
        d.undo();
        assert_eq!(d.source, "hello world\n");
        assert_eq!(d.caret, 11, "the caret comes back with the bytes");
    }
}

#[test]
fn undo_restores_the_selection_the_edit_replaced() {
    for view in [View::Source, View::Wysiwyg] {
        let mut d = doc_in(view, "undo_sel", "a word b\n");
        d.anchor = Some(2);
        d.caret = 6; // "word" selected
        d.insert("X");
        assert_eq!(d.source, "a X b\n");
        d.undo();
        assert_eq!(d.source, "a word b\n");
        assert_eq!(d.selection(), Some((2, 6)), "the selection comes back too");
    }
}

#[test]
fn redo_restores_the_caret_the_edit_left_behind() {
    for view in [View::Source, View::Wysiwyg] {
        let mut d = doc_in(view, "redo_caret", "hello world\n");
        d.caret = 11;
        d.edit(0, 5, "goodbye");
        assert_eq!(d.caret, 7, "the edit left the caret after its new text");
        d.undo();
        d.redo();
        assert_eq!(d.source, "goodbye world\n");
        assert_eq!(d.caret, 7, "redo puts it back where the edit had it");
    }
}

#[test]
fn undoing_a_typed_run_restores_the_caret_from_before_the_whole_run() {
    for view in [View::Source, View::Wysiwyg] {
        let mut d = doc_in(view, "run_caret", "hi\n");
        d.caret = 2;
        d.insert("a");
        d.insert("b");
        d.insert("c");
        assert_eq!(d.source, "hiabc\n");
        d.undo();
        assert_eq!(d.source, "hi\n");
        assert_eq!(d.caret, 2, "before the run, not before its last keystroke");
        d.redo();
        assert_eq!(d.caret, 5, "and redo restores the end of the whole run");
    }
}

#[test]
fn undo_restores_the_caret_across_a_format_toggle() {
    for view in [View::Source, View::Wysiwyg] {
        let mut d = doc_in(view, "fmt_caret", "a word b\n");
        d.caret = 8;
        d.anchor = Some(2);
        d.caret = 6;
        d.toggle(InlineKind::Strong);
        assert_eq!(d.source, "a **word** b\n");
        d.undo();
        assert_eq!(d.source, "a word b\n");
        assert_eq!(d.selection(), Some((2, 6)), "the toggled selection comes back");
    }
}

#[test]
fn an_edit_after_an_undo_truncates_the_caret_history_with_twigs() {
    for view in [View::Source, View::Wysiwyg] {
        let mut d = doc_in(view, "redo_trunc", "hello world\n");
        d.caret = 11;
        d.edit(0, 5, "goodbye");
        d.undo();
        assert_eq!(d.caret, 11);
        d.caret = 0;
        d.insert("X");
        assert_eq!(d.source, "Xhello world\n");

        d.redo();
        assert_eq!(d.source, "Xhello world\n", "nothing to redo onto");
        assert_eq!(d.status.as_deref(), Some("nothing to redo"));
        d.undo();
        assert_eq!(d.source, "hello world\n");
        assert_eq!(d.caret, 0, "the surviving step's caret, not the dropped one");
    }
}

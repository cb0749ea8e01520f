//! Inline marks: toggling, typing at their edges, and what stays lit.

use leaf_core::doc::Doc;
use leaf_core::marks::InlineKind;
use leaf_core::modes::{BlockKind, View};
use leaf_core::visual::VisualMap;

fn doc_in(view: View, name: &str, body: &str) -> Doc {
    let file = format!("{name}.md");
    let mut d = Doc::opened(body.as_bytes().to_vec(), "md", file.clone(), file).unwrap();
    d.view = view;
    if view == View::Wysiwyg {
        d.build_visual(80, VisualMap::default());
    }
    d
}

fn doc_with(name: &str, body: &str) -> Doc {
    doc_in(View::Source, name, body)
}

fn wysiwyg_doc(name: &str, body: &str) -> Doc {
    doc_in(View::Wysiwyg, name, body)
}

fn parse_caret(marked: &str) -> (String, usize) {
    let caret = marked.find('|').expect("fixture needs a `|` caret marker");
    (marked.replacen('|', "", 1), caret)
}

fn marks(view: View, name: &str, marked: &str) -> Vec<InlineKind> {
    let (src, caret) = parse_caret(marked);
    let mut d = doc_in(view, name, &src);
    d.caret = caret;
    d.active_inline_marks().iter()
}

#[test]
fn backspace_deletes_the_char_before_the_caret() {
    let mut d = doc_with("bs", "hello\n");
    d.caret = 3; // after "hel"
    d.backspace();
    assert_eq!(d.source, "helo\n");
    assert_eq!(d.caret, 2);
}

#[test]
fn typing_replaces_the_selection() {
    let mut d = doc_with("replace", "a word b\n");
    d.anchor = Some(2);
    d.caret = 6; // "word" selected
    d.insert("X");
    assert_eq!(d.source, "a X b\n");
    assert_eq!(d.caret, 3);
    assert_eq!(d.anchor, None);
}

#[test]
fn toggle_bold_wraps_then_unwraps_the_selection() {
    let mut d = doc_with("bold", "a word b\n");
    d.anchor = Some(2);
    d.caret = 6;
    d.toggle(InlineKind::Strong);
    assert_eq!(d.source, "a **word** b\n");
    d.toggle(InlineKind::Strong);
    assert_eq!(d.source, "a word b\n");
}

#[test]
fn toggle_code_wraps_then_unwraps_the_selection() {
    let mut d = doc_with("code_rt", "a word b\n");
    d.anchor = Some(2);
    d.caret = 6;
    d.toggle(InlineKind::Verbatim);
    assert_eq!(d.source, "a `word` b\n");
    d.toggle(InlineKind::Verbatim);
    assert_eq!(d.source, "a word b\n");
}

#[test]
fn sticky_bold_with_no_selection_wraps_the_next_typed_text() {
    let mut d = doc_with("sticky_wrap", "xy\n");
    d.caret = 1;
    d.toggle(InlineKind::Strong);
    assert_eq!(d.source, "xy\n", "arming a mark must not edit the document");
    d.insert("A");
    assert_eq!(d.source, "x**A**y\n");
}

#[test]
fn sticky_bold_lights_the_toolbar_before_any_typing() {
    let mut d = doc_with("sticky_light", "xy\n");
    d.caret = 1;
    assert!(!d.active_inline_marks().contains(InlineKind::Strong));
    d.toggle(InlineKind::Strong);
    assert!(d.active_inline_marks().contains(InlineKind::Strong));
}

#[test]
fn sticky_bold_toggled_off_types_normally_again() {
    let mut d = doc_with("sticky_off", "\n");
    d.caret = 0;
    d.toggle(InlineKind::Strong);
    d.insert("a");
    d.insert("b");
    assert_eq!(d.source, "**ab**\n");
    d.toggle(InlineKind::Strong);
    d.insert("c");
    assert_eq!(d.source, "**ab**c\n");
}

#[test]
fn continued_typing_after_a_sticky_run_stays_in_the_run() {
    let mut d = doc_with("sticky_cont", "\n");
    d.caret = 0;
    d.toggle(InlineKind::Emph);
    d.insert("h");
    d.insert("i");
    assert_eq!(d.source, "*hi*\n");
}

#[test]
fn moving_the_caret_disarms_a_sticky_mark() {
    let mut d = doc_with("sticky_disarm", "xy\n");
    d.caret = 0;
    d.toggle(InlineKind::Strong);
    d.move_right(false);
    assert!(!d.active_inline_marks().contains(InlineKind::Strong));
    d.insert("A");
    assert_eq!(d.source, "xAy\n", "the mark must not follow the caret");
}

#[test]
fn stacked_sticky_marks_apply_together() {
    let mut d = doc_with("sticky_stack", "\n");
    d.caret = 0;
    d.toggle(InlineKind::Strong);
    d.toggle(InlineKind::Emph);
    d.insert("x");
    d.anchor = Some(d.source.find('x').unwrap());
    d.caret = d.anchor.unwrap() + 1;
    let marks = d.active_inline_marks();
    assert!(marks.contains(InlineKind::Strong), "bold: {}", d.source);
    assert!(marks.contains(InlineKind::Emph), "italic: {}", d.source);
}

#[test]
fn typing_past_a_space_can_still_leave_the_bold_behind() {
    let mut d = wysiwyg_doc("edge_shed", "\n");
    d.caret = 0;
    d.toggle(InlineKind::Strong);
    for c in "bold ".chars() {
        d.insert(&c.to_string());
    }
    assert_eq!(d.source, "**bold** \n");
    d.toggle(InlineKind::Strong);
    assert!(!d.active_inline_marks().contains(InlineKind::Strong));
    d.insert("x");
    assert_eq!(d.source, "**bold** x\n");
}

#[test]
fn a_space_typed_first_of_all_still_leaves_the_mark_armed() {
    let mut d = wysiwyg_doc("edge_space_first", "a\n");
    d.caret = 1;
    d.toggle(InlineKind::Strong);
    d.insert(" ");
    assert_eq!(d.source, "a \n");
    assert!(d.active_inline_marks().contains(InlineKind::Strong));
    d.insert("b");
    assert_eq!(d.source, "a **b**\n");
}

#[test]
fn a_space_typed_at_either_edge_of_an_existing_mark_steps_outside_it() {
    let mut d = wysiwyg_doc("edge_tail", "x **bold**\n");
    d.caret = 8;
    d.insert(" ");
    assert_eq!(d.source, "x **bold** \n", "the space lands past the delimiters");
    assert_eq!(d.caret, 11, "and the caret stands past it, outside the run");

    let mut d = wysiwyg_doc("edge_head", "x **bold** y\n");
    d.caret = 4; // in front of the "b"
    d.insert(" ");
    assert_eq!(d.source, "x  **bold** y\n");
    assert_eq!(d.caret, 3, "in front of the run, where the space was typed");
}

#[test]
fn a_delete_that_backs_a_space_onto_a_delimiter_moves_the_delimiter() {
    let mut d = wysiwyg_doc("edge_bksp", "a **bold h**\n");
    d.caret = 10; // past the "h"
    d.backspace();
    assert_eq!(d.source, "a **bold** \n");
    assert_eq!(d.caret, 11, "the caret keeps the place on screen it had");
    assert!(d.active_inline_marks().contains(InlineKind::Strong));
    d.insert("x");
    assert_eq!(d.source, "a **bold x**\n", "and typing rejoins the run");
}

#[test]
fn deleting_the_last_of_a_run_takes_its_delimiters_with_it() {
    let mut d = wysiwyg_doc("edge_empty", "a **b** c\n");
    d.caret = 5;
    d.backspace();
    assert_eq!(d.source, "a  c\n");
    assert!(d.active_inline_marks().contains(InlineKind::Strong));
    d.insert("x");
    assert_eq!(d.source, "a **x** c\n");
}

#[test]
fn typing_over_a_whole_bold_word_keeps_it_bold() {
    let mut d = wysiwyg_doc("edge_replace", "a **bold** c\n");
    d.anchor = Some(4);
    d.caret = 8;
    d.insert("x");
    assert_eq!(d.source, "a **x** c\n");
}

#[test]
fn a_code_span_keeps_the_space_it_is_given() {
    let mut d = wysiwyg_doc("edge_code", "a `code` c\n");
    d.caret = 7;
    d.insert(" ");
    assert_eq!(d.source, "a `code ` c\n");
}

#[test]
fn a_delete_at_a_run_edge_never_eats_a_delimiter() {
    let mut d = wysiwyg_doc("edge_open_bksp", "a **bold** c\n");
    d.caret = 4; // in front of the "b"
    d.backspace();
    assert_eq!(d.source, "a**bold** c\n", "the space goes, the run stands");

    let mut d = wysiwyg_doc("edge_close_del", "a **bold** c\n");
    d.caret = 8; // past the "d"
    d.delete_forward();
    assert_eq!(d.source, "a **bold**c\n");
    assert_eq!(d.caret, 8, "and the caret stays inside the run");
    d.insert("x");
    assert_eq!(d.source, "a **boldx**c\n");
    let mut d = wysiwyg_doc("edge_open_code", "a `code` c\n");
    d.caret = 3;
    d.backspace();
    assert_eq!(d.source, "a`code` c\n");
}

#[test]
fn the_source_view_deletes_the_delimiter_byte_it_is_shown() {
    let mut d = doc_with("edge_open_src", "a **bold** c\n");
    d.caret = 4;
    d.backspace();
    assert_eq!(d.source, "a *bold** c\n");

    let mut d = doc_with("edge_close_src", "a **bold** c\n");
    d.caret = 8;
    d.delete_forward();
    assert_eq!(d.source, "a **bold* c\n");
}

#[test]
fn backspacing_the_space_out_of_a_bold_phrase_leaves_the_caret_in_it() {
    let mut d = wysiwyg_doc("edge_bksp_space", "\n");
    d.caret = 0;
    d.toggle(InlineKind::Strong);
    for c in "bold".chars() {
        d.insert(&c.to_string());
    }
    d.insert(" ");
    assert_eq!(d.source, "**bold** \n");
    d.backspace();
    assert_eq!(d.source, "**bold**\n", "the space goes, the delimiters stay");
    assert_eq!(d.caret, 6, "and the caret comes back inside the run");
    assert!(
        d.active_inline_marks().contains(InlineKind::Strong),
        "so the button is still lit"
    );
    d.insert("x");
    assert_eq!(d.source, "**boldx**\n", "and the next character is still bold");
}

#[test]
fn a_second_backspace_there_deletes_a_letter_of_the_phrase() {
    let mut d = wysiwyg_doc("edge_bksp_twice", "\n");
    d.caret = 0;
    d.toggle(InlineKind::Strong);
    for c in "bold ".chars() {
        d.insert(&c.to_string());
    }
    assert_eq!(d.source, "**bold** \n");
    d.backspace();
    d.backspace();
    assert_eq!(d.source, "**bol**\n", "the delete lands inside the run");
    assert_eq!(d.caret, 5);
}

#[test]
fn a_delete_that_ends_at_a_nested_run_settles_inside_every_delimiter() {
    let mut d = wysiwyg_doc("edge_bksp_nested", "***both*** \n");
    d.caret = 11;
    d.backspace();
    assert_eq!(d.source, "***both***\n");
    assert_eq!(d.caret, 7, "past the last letter, inside both runs");
    d.insert("x");
    assert_eq!(d.source, "***bothx***\n");
}

#[test]
fn a_delete_that_ends_mid_run_leaves_the_caret_where_it_fell() {
    let mut d = wysiwyg_doc("edge_bksp_mid", "a **bold** c\n");
    d.caret = 8;
    d.backspace();
    assert_eq!(d.source, "a **bol** c\n");
    assert_eq!(d.caret, 7);

    let mut d = wysiwyg_doc("edge_bksp_plain", "plain\n");
    d.caret = 5;
    d.backspace();
    assert_eq!(d.source, "plai\n");
    assert_eq!(d.caret, 4);
}

#[test]
fn the_source_view_leaves_a_delete_where_it_landed() {
    let mut d = doc_with("edge_bksp_src", "**bold** \n");
    d.caret = 9;
    d.backspace();
    assert_eq!(d.source, "**bold**\n");
    assert_eq!(d.caret, 8);
}

#[test]
fn the_mark_edge_rule_clears_every_delimiter_of_a_nested_run() {
    let mut d = wysiwyg_doc("edge_nested", "a ***both***\n");
    d.caret = 9;
    d.insert(" ");
    assert_eq!(d.source, "a ***both*** \n");
    assert_eq!(d.caret, 13);
    d.insert("x");
    assert_eq!(d.source, "a ***both x***\n");
}

#[test]
fn the_mark_edge_repair_undoes_with_the_keystroke_that_caused_it() {
    let mut d = wysiwyg_doc("edge_undo", "a **bold**\n");
    d.caret = 8;
    d.insert(" ");
    assert_eq!(d.source, "a **bold** \n");
    d.undo();
    assert_eq!(d.source, "a **bold**\n");
}

#[test]
fn the_source_view_types_the_space_where_it_was_asked_to() {
    let mut d = doc_with("edge_src", "a **bold** c\n");
    d.caret = 8;
    d.insert(" ");
    assert_eq!(d.source, "a **bold ** c\n");
}

#[test]
fn toggling_a_mark_over_a_selection_leaves_its_edge_whitespace_out() {
    let mut d = wysiwyg_doc("edge_sel", "a word b\n");
    d.anchor = Some(2);
    d.caret = 7; // "word "
    d.toggle(InlineKind::Strong);
    assert_eq!(d.source, "a **word** b\n");
    let mut d = wysiwyg_doc("edge_sel_ws", "a word b\n");
    d.anchor = Some(6);
    d.caret = 7;
    d.toggle(InlineKind::Strong);
    assert_eq!(d.source, "a word b\n");
    assert!(d.status.is_some());
}

#[test]
fn set_block_turns_a_paragraph_into_a_heading_at_the_caret() {
    let mut d = doc_with("head_set", "hello\n");
    d.caret = 2;
    d.set_block(BlockKind::Heading(1));
    assert_eq!(d.source, "# hello\n");
}

#[test]
fn set_block_heading_works_in_wysiwyg_view() {
    let mut d = wysiwyg_doc("head_wys", "hello\n");
    d.caret = 2;
    d.set_block(BlockKind::Heading(1));
    assert_eq!(d.source, "# hello\n");
}

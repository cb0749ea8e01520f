//! Paragraphs, headings, quotes, links and media.

use leaf_core::doc::Doc;
use leaf_core::modes::{BlockKind, LineFlow, View};
use leaf_core::node::Kind;
use leaf_core::visual::{MediaKind, VisualMap};

fn doc_in(view: View, name: &str, body: &str) -> Doc {
    let file = format!("{name}.md");
    let mut d = Doc::opened(body.as_bytes().to_vec(), "md", file.clone(), file).unwrap();
    d.view = view;
    if view == View::Wysiwyg {
        d.build_visual(80, VisualMap::default());
    }
    d
}

fn doc_with(name: &str, body: &str) -> Doc {
    doc_in(View::Source, name, body)
}

fn wysiwyg_doc(name: &str, body: &str) -> Doc {
    doc_in(View::Wysiwyg, name, body)
}

fn parse_caret(marked: &str) -> (String, usize) {
    let caret = marked.find('|').expect("fixture needs a `|` caret marker");
    (marked.replacen('|', "", 1), caret)
}

fn render_caret(d: &Doc) -> String {
    let mut marks: Vec<(usize, u8, char)> = vec![(d.caret, 1, '|')];
    if let Some((s, e)) = d.selection() {
        marks.push((s, 0, '['));
        marks.push((e, 2, ']'));
    }
    marks.sort_by(|a, b| b.0.cmp(&a.0).then(b.1.cmp(&a.1)));
    let mut out = d.source.clone();
    for (at, _, ch) in marks {
        out.insert(at, ch);
    }
    out
}

fn golden(name: &str, marked: &str, action: impl FnOnce(&mut Doc)) -> String {
    golden_in(View::Source, name, marked, action)
}

fn golden_in(view: View, name: &str, marked: &str, action: impl FnOnce(&mut Doc)) -> String {
    let (src, caret) = parse_caret(marked);
    let mut d = doc_in(view, name, &src);
    d.caret = caret;
    action(&mut d);
    render_caret(&d)
}

fn kind_at(d: &mut Doc, caret: usize) -> Option<Kind> {
    d.nodes()
        .into_iter()
        .filter(|n| n.span.start <= caret && caret < n.span.end)
        .map(|n| n.kind)
        .last()
}

#[test]
fn toggle_heading_applies_switches_and_reverts() {
    let mut d = doc_with("head_toggle", "hello\n");
    d.caret = 2;
    d.toggle_heading(1);
    assert_eq!(d.source, "# hello\n");
    d.toggle_heading(2);
    assert_eq!(d.source, "## hello\n");
    d.toggle_heading(2);
    assert_eq!(d.source, "hello\n");
}

#[test]
fn preserve_enter_makes_a_soft_break_not_a_paragraph() {
    let mut d = wysiwyg_doc("pre_enter_mid", "abcdef\n");
    d.set_line_flow(LineFlow::Preserve);
    d.caret = 3;
    d.newline();
    assert_eq!(d.source, "abc\ndef\n", "mid-line Enter is a soft break");
    let mut d = wysiwyg_doc("pre_enter_end", "abc\n");
    d.set_line_flow(LineFlow::Preserve);
    d.caret = 3;
    d.newline();
    d.insert("def");
    assert_eq!(d.source, "abc\ndef\n", "end-of-line Enter + typing is a soft break");
}

#[test]
fn preserve_double_enter_still_makes_a_paragraph() {
    let mut d = wysiwyg_doc("pre_enter_dbl", "abc\n");
    d.set_line_flow(LineFlow::Preserve);
    d.caret = 3;
    d.newline();
    d.newline();
    d.insert("def");
    assert_eq!(d.source, "abc\n\ndef\n", "double Enter is a paragraph break");
}

#[test]
fn preserve_backspace_joins_across_a_soft_break() {
    let mut d = wysiwyg_doc("pre_bs", "abc\ndef\n");
    d.set_line_flow(LineFlow::Preserve);
    d.build_visual(80, VisualMap::default());
    d.caret = 4; // start of "def", just past the soft break
    d.backspace();
    assert_eq!(d.source, "abcdef\n", "Backspace joins across the soft break");
    assert_eq!(d.caret, 3, "caret lands where the lines meet");
}

#[test]
fn fold_enter_still_starts_a_new_paragraph() {
    let mut d = wysiwyg_doc("fold_enter", "abcdef\n");
    d.caret = 3;
    d.newline();
    assert_eq!(d.source, "abc\n\ndef\n", "Fold mid-line Enter is a paragraph break");
}

#[test]
fn wysiwyg_one_enter_starts_a_new_paragraph() {
    let mut d = wysiwyg_doc("wys_enter", "abc\n");
    d.caret = 3;
    d.newline();
    d.insert("def");
    assert_eq!(d.source, "abc\n\ndef\n"); // two paragraphs, not "abc\ndef\n"
}

#[test]
fn source_view_enter_is_a_single_newline() {
    let mut d = doc_with("src_enter", "abc\n");
    d.caret = 3;
    d.newline();
    assert_eq!(d.source, "abc\n\n");
}

#[test]
fn heading_applies_at_the_end_of_a_paragraph() {
    let mut d = doc_with("head_end", "abc\n");
    d.caret = 3; // end of "abc"
    d.toggle_heading(1);
    assert_eq!(d.source, "# abc\n");
}

#[test]
fn heading_on_an_empty_new_paragraph_creates_one() {
    let mut d = wysiwyg_doc("head_empty", "abc\n");
    d.caret = 3;
    d.newline();
    d.toggle_heading(1);
    d.insert("Title");
    assert!(d.source.contains("# Title"), "got {:?}", d.source);
}

#[test]
fn wysiwyg_enter_after_a_heading_makes_a_paragraph() {
    let mut d = wysiwyg_doc("head_enter", "# Title\n");
    d.caret = 7;
    d.newline();
    d.insert("body");
    assert_eq!(d.source, "# Title\n\nbody\n");
}

#[test]
fn wysiwyg_enter_continues_a_bullet_list() {
    let mut d = wysiwyg_doc("wys_bullet", "- item\n");
    d.caret = 6; // end of "item"
    d.newline();
    d.insert("two");
    assert_eq!(d.source, "- item\n- two\n");
}

#[test]
fn wysiwyg_enter_increments_an_ordered_list() {
    let mut d = wysiwyg_doc("wys_ol", "1. one\n");
    d.caret = 6; // end of "one"
    d.newline();
    d.insert("two");
    assert_eq!(d.source, "1. one\n2. two\n");
}

#[test]
fn wysiwyg_backspace_on_stacked_blank_lines_still_removes_just_one() {
    let mut d = wysiwyg_doc("wys_stack", "abc\n\n\n");
    d.caret = 5;
    d.build_visual(80, VisualMap::default());
    d.newline();
    d.build_visual(80, VisualMap::default());
    assert_eq!(d.source, "abc\n\n\n\n", "Enter on the blank line adds one newline");
    d.backspace();
    assert_eq!(d.source, "abc\n\n\n", "Backspace takes back exactly that one newline");
}

#[test]
fn wysiwyg_enter_on_an_empty_list_item_exits_the_list() {
    let mut d = wysiwyg_doc("wys_exit", "- a\n- \n");
    d.caret = 6; // end of the empty "- " item
    d.newline();
    d.insert("p");
    assert_eq!(d.source, "- a\n\np\n");
}

#[test]
fn wysiwyg_enter_does_not_mistake_a_setext_underline_for_a_list() {
    let mut d = wysiwyg_doc("wys_setext", "text\n- \n");
    assert!(
        d.nodes().iter().any(|n| n.kind == Kind::Heading),
        "precondition: twig parses this as a heading, not a list",
    );
    d.caret = 7;
    d.newline();
    assert!(
        d.source.contains("- "),
        "the setext underline survives, not spliced away as a list item: {:?}",
        d.source,
    );
}

#[test]
fn wysiwyg_enter_in_a_code_block_is_a_literal_newline() {
    let mut d = wysiwyg_doc("wys_code", "```\nabc\n```\n");
    d.caret = 7; // end of "abc" inside the fence
    d.newline();
    d.insert("def");
    assert_eq!(d.source, "```\nabc\ndef\n```\n");
}

#[test]
fn wysiwyg_enter_continues_a_block_quote() {
    let mut d = wysiwyg_doc("wys_quote", "> quote\n");
    d.caret = 7; // end of "quote"
    d.newline();
    d.insert("more");
    assert_eq!(d.source, "> quote\n> more\n");
}

#[test]
fn set_block_makes_a_heading_at_the_caret() {
    let mut d = doc_with("head", "Title\n\nbody\n");
    d.caret = 0;
    d.set_block(BlockKind::Heading(2));
    assert_eq!(d.source, "## Title\n\nbody\n");
    d.set_block(BlockKind::Paragraph);
    assert_eq!(d.source, "Title\n\nbody\n");
}

#[test]
fn toggle_blockquote_wraps_the_block_at_the_caret_and_reverses() {
    let g = |m, f: fn(&mut Doc)| golden("quote", m, f);
    assert_eq!(g("hel|lo\n", |d| d.toggle_blockquote()), "> hel|lo\n");
    assert_eq!(g("> hel|lo\n", |d| d.toggle_blockquote()), "hel|lo\n");
    assert_eq!(g("hello|\n", |d| d.toggle_blockquote()), "> hello|\n");
}

#[test]
fn toggle_blockquote_keeps_the_caret_in_a_hard_wrapped_paragraph() {
    assert_eq!(
        golden("quote_wrap", "aaa\nb|bb\nccc\n", |d| d.toggle_blockquote()),
        "> aaa\n> b|bb\n> ccc\n"
    );
}

#[test]
fn toggle_blockquote_works_in_wysiwyg_view() {
    let g = |n, m, f: fn(&mut Doc)| golden_in(View::Wysiwyg, n, m, f);
    assert_eq!(g("q_wys", "hel|lo\n", |d| d.toggle_blockquote()), "> hel|lo\n");
    assert_eq!(g("q_wys2", "> hel|lo\n", |d| d.toggle_blockquote()), "hel|lo\n");
}

#[test]
fn toggle_list_makes_a_list_and_converts_between_the_kinds() {
    let g = |m, f: fn(&mut Doc)| golden("list", m, f);
    assert_eq!(g("hel|lo\n", |d| d.toggle_list(false)), "- hel|lo\n");
    assert_eq!(g("hel|lo\n", |d| d.toggle_list(true)), "1. hel|lo\n");
    assert_eq!(g("- hel|lo\n", |d| d.toggle_list(true)), "1. hel|lo\n");
    assert_eq!(g("1. hel|lo\n", |d| d.toggle_list(false)), "- hel|lo\n");
    assert_eq!(g("- hel|lo\n", |d| d.toggle_list(false)), "hel|lo\n");
}

#[test]
fn toggle_list_works_in_wysiwyg_view() {
    let g = |n, m, f: fn(&mut Doc)| golden_in(View::Wysiwyg, n, m, f);
    assert_eq!(g("l_wys", "hel|lo\n", |d| d.toggle_list(true)), "1. hel|lo\n");
    assert_eq!(g("l_wys2", "1. hel|lo\n", |d| d.toggle_list(false)), "- hel|lo\n");
    assert_eq!(g("l_wys3", "- hel|lo\n", |d| d.toggle_list(false)), "hel|lo\n");
}

#[test]
fn a_list_over_a_selection_numbers_each_block_and_stays_selected() {
    let mut d = doc_with("list_sel", "abc\n\ndef\n");
    d.select_all();
    d.toggle_list(true);
    assert_eq!(d.source, "1. abc\n\n2. def\n");
    assert_eq!(d.selection(), Some((0, d.source.len())));
    d.toggle_list(true);
    assert_eq!(d.source, "abc\n\ndef\n");
}

#[test]
fn toggle_blockquote_nests_a_partly_covered_quote() {
    let mut d = doc_with("quote_nest", "> a\n>\n> b\n");
    d.caret = 2;
    d.toggle_blockquote();
    assert_eq!(d.source, "> > a\n>\n> b\n");
}

#[test]
fn a_container_toggle_on_a_blank_line_reports_and_changes_nothing() {
    let mut d = doc_with("quote_blank", "\nabc\n");
    d.caret = 0;
    d.toggle_blockquote();
    assert_eq!(d.source, "\nabc\n");
    assert!(d.status.is_some(), "the refusal should reach the status line");
    assert!(!d.dirty);
}

#[test]
fn a_container_toggle_is_one_undo_step() {
    let mut d = doc_with("quote_undo", "hello\n");
    d.caret = 3;
    d.insert("X");
    d.toggle_blockquote();
    assert_eq!(d.source, "> helXlo\n");
    d.undo();
    assert_eq!(d.source, "helXlo\n");
}

#[test]
fn insert_link_wraps_the_selection_and_leaves_its_text_selected() {
    let mut d = doc_with("link_sel", "word here\n");
    d.anchor = Some(0);
    d.caret = 4;
    d.insert_link("http://x.dev");
    assert_eq!(d.source, "[word](http://x.dev) here\n");
    assert_eq!(d.selected_text(), Some("word"));
    d.insert_link("http://y.dev");
    assert_eq!(d.source, "[word](http://y.dev) here\n");
    assert_eq!(d.selected_text(), Some("word"));
}

#[test]
fn insert_image_at_the_caret_spells_the_markup_and_lands_past_it() {
    let mut d = doc_with("img_caret", "before after\n");
    d.caret = 7; // between "before " and "after"
    d.insert_image("cat.png", "a cat");
    assert_eq!(d.source, "before ![a cat](cat.png)after\n");
    assert_eq!(d.selection(), None);
    assert_eq!(d.caret, 7 + "![a cat](cat.png)".len());
}

#[test]
fn insert_image_spells_a_destination_with_spaces_so_it_stays_an_image() {
    let mut d = doc_with("img_space", "x\n");
    d.caret = 0;
    d.insert_image("Jesus Commands the Apostles to Rest.jpg", "");
    assert_eq!(
        d.source,
        "![](<Jesus Commands the Apostles to Rest.jpg>)x\n"
    );
    d.caret = 2;
    assert_eq!(
        d.image_destination_at_caret(),
        Some("Jesus Commands the Apostles to Rest.jpg".to_string())
    );
}

#[test]
fn insert_image_escapes_a_paren_in_either_half() {
    let mut d = doc_with("img_paren", "x\n");
    d.caret = 0;
    d.insert_image("a)b.png", "");
    assert_eq!(d.source, "![](a\\)b.png)x\n");
    d.caret = 2;
    assert_eq!(d.image_destination_at_caret(), Some("a)b.png".to_string()));
}

#[test]
fn insert_image_uses_the_selection_as_alt_text() {
    let mut d = doc_with("img_sel", "caption here\n");
    d.anchor = Some(0);
    d.caret = 7; // "caption"
    d.insert_image("p.png", "ignored fallback");
    assert_eq!(d.source, "![caption](p.png) here\n");
}

#[test]
fn insert_image_with_no_alt_leaves_empty_brackets() {
    let mut d = doc_with("img_noalt", "\n");
    d.caret = 0;
    d.insert_image("logo.svg", "");
    assert_eq!(d.source, "![](logo.svg)\n");
}

#[test]
fn insert_media_uses_the_selection_as_fallback_text() {
    let mut d = doc_with("vid_sel", "the talk here\n");
    d.anchor = Some(0);
    d.caret = 8; // "the talk"
    d.insert_media(MediaKind::Video, "talk.mp4", "ignored fallback");
    assert_eq!(d.source, "<video src=\"talk.mp4\" controls>the talk</video> here\n");
}

#[test]
fn insert_media_with_an_image_kind_is_just_insert_image() {
    let mut d = doc_with("img_via_media", "\n");
    d.caret = 0;
    d.insert_media(MediaKind::Image, "logo.svg", "x");
    assert_eq!(d.source, "![x](logo.svg)\n");
}

#[test]
fn insert_thematic_break_splits_a_paragraph_and_lands_past_it() {
    let mut d = doc_with("hr_mid", "before after\n");
    d.caret = 7; // between "before " and "after"
    d.insert_thematic_break();
    assert_eq!(d.source, "before \n\n---\n\nafter\n");
    assert_eq!(d.selection(), None);
    assert_eq!(d.caret, "before \n\n---\n\n".len());
    assert_eq!(kind_at(&mut d, "before \n\n".len()), Some(Kind::ThematicBreak));
}

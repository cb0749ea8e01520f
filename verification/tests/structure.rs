//! Rules, pictures, tables and the caret between blocks.

use leaf_core::doc::Doc;
use leaf_core::modes::View;
use leaf_core::node::Kind;
use leaf_core::visual::VisualMap;

const TABLE: &str = "| Name | Qty |\n|:-----|----:|\n| Pear | 3 |\n| Fig | 12 |\n";

fn doc_in(view: View, name: &str, body: &str) -> Doc {
    let file = format!("{name}.md");
    let mut d = Doc::opened(body.as_bytes().to_vec(), "md", file.clone(), file).unwrap();
    d.view = view;
    if view == View::Wysiwyg {
        d.build_visual(80, VisualMap::default());
    }
    d
}

fn doc_with(name: &str, body: &str) -> Doc {
    doc_in(View::Source, name, body)
}

fn wysiwyg_doc(name: &str, body: &str) -> Doc {
    doc_in(View::Wysiwyg, name, body)
}

fn kind_at(d: &mut Doc, caret: usize) -> Option<Kind> {
    d.nodes()
        .into_iter()
        .filter(|n| n.span.start <= caret && caret < n.span.end)
        .map(|n| n.kind)
        .last()
}

#[test]
fn insert_thematic_break_on_a_blank_line_needs_no_leading_break() {
    let mut d = doc_with("hr_blank", "abc\n\n\ndef\n");
    d.caret = "abc\n\n".len();
    d.insert_thematic_break();
    assert_eq!(d.source, "abc\n\n---\n\n\ndef\n");
}

#[test]
fn insert_thematic_break_replaces_the_selection() {
    let mut d = doc_with("hr_sel", "one two three\n");
    d.anchor = Some(4);
    d.caret = 7; // "two"
    d.insert_thematic_break();
    assert_eq!(d.source, "one \n\n---\n\n three\n");
}

#[test]
fn insert_thematic_break_refuses_inside_a_code_block() {
    let mut d = doc_with("hr_code", "```\nfn x() {}\n```\n");
    d.caret = 5;
    d.insert_thematic_break();
    assert_eq!(d.source, "```\nfn x() {}\n```\n", "refused, so nothing changed");
    assert!(d.status.is_some(), "the refusal should reach the status line");
}

#[test]
fn insert_thematic_break_in_a_list_item_ends_the_list() {
    let mut d = doc_with("hr_list", "- one\n- two\n");
    d.caret = "- one\n- tw".len(); // mid "two"
    d.insert_thematic_break();
    d.build_visual(80, VisualMap::default());
    let rule_at = d.source.find("---\n\n").unwrap();
    assert_eq!(kind_at(&mut d, rule_at), Some(Kind::ThematicBreak));
    assert!(
        !d.nodes().iter().any(|n| n.kind == Kind::BulletList
            && n.span.start <= rule_at
            && rule_at < n.span.end),
        "the rule must not be nested inside the list"
    );
}

#[test]
fn insert_thematic_break_in_a_blockquote_ends_the_quote() {
    let mut d = doc_with("hr_quote", "> hello\n");
    d.caret = 4;
    d.insert_thematic_break();
    d.build_visual(80, VisualMap::default());
    let rule_at = d.source.find("---\n\n").unwrap();
    assert_eq!(kind_at(&mut d, rule_at), Some(Kind::ThematicBreak));
    assert!(
        !d.nodes().iter().any(|n| n.kind == Kind::BlockQuote
            && n.span.start <= rule_at
            && rule_at < n.span.end),
        "the rule must not be nested inside the quote"
    );
}

#[test]
fn source_view_types_raw_markup_against_an_image_untouched() {
    let mut d = doc_in(View::Source, "pic_src", "![](p.png)\n");
    d.caret = "![](p.png)".len();
    d.insert("x");
    assert_eq!(d.source, "![](p.png)x\n");
}

#[test]
fn source_view_deletes_raw_markup_against_an_image_untouched() {
    let mut d = doc_in(View::Source, "pic_src_del", "![](p.png)\n");
    d.caret = "![](p.png)".len();
    d.backspace();
    assert_eq!(d.source, "![](p.png\n", "raw editing, byte by byte");
}

#[test]
fn image_destination_at_caret_reads_the_image_under_the_caret() {
    let mut d = doc_with("img_read", "![a cat](cat.png)\n");
    d.caret = 3;
    assert_eq!(d.image_destination_at_caret(), Some("cat.png".to_string()));
    d.caret = "![a cat](cat.png)".len();
    assert_eq!(d.image_destination_at_caret(), None);
}

#[test]
fn insert_link_repoints_the_link_at_a_bare_caret() {
    let mut d = doc_with("link_repoint", "[word](http://x.dev)\n");
    d.caret = 3;
    d.insert_link("http://y.dev");
    assert_eq!(d.source, "[word](http://y.dev)\n");
    assert_eq!(d.selected_text(), Some("word"));
}

#[test]
fn insert_link_on_an_empty_range_autolinks_a_url() {
    let mut d = doc_with("link_empty", "\n");
    d.caret = 0;
    d.insert_link("http://x.dev");
    assert_eq!(d.source, "<http://x.dev>\n");
    assert_eq!(d.selection(), None);
    assert_eq!(d.caret, 14);
}

#[test]
fn insert_link_on_an_empty_range_falls_back_for_a_non_url() {
    let mut d = doc_with("link_rel", "\n");
    d.caret = 0;
    d.insert_link("./notes.md");
    assert_eq!(d.source, "[./notes.md](./notes.md)\n");
    assert_eq!(d.selection(), Some((1, 11)));
    d.insert("Notes");
    assert_eq!(d.source, "[Notes](./notes.md)\n");
}

#[test]
fn insert_link_repoints_the_autolink_the_caret_stands_in() {
    let mut d = doc_with("link_repoint_auto", "see <https://x.dev> ok\n");
    d.caret = 10;
    d.insert_link("https://y.dev");
    assert_eq!(d.source, "see <https://y.dev> ok\n");
}

#[test]
fn code_language_reads_and_edits_through_the_fence() {
    let mut d = doc_with("code_lang", "```rust\nlet x = 1;\n```\n");
    d.caret = 10;
    assert_eq!(d.code_language_at_caret().as_deref(), Some("rust"));
    assert!(d.caret_in_fenced_code());

    d.set_code_language("python");
    assert!(d.source.starts_with("```python\n"), "source: {:?}", d.source);
    assert_eq!(d.code_language_at_caret().as_deref(), Some("python"));
    d.set_code_language("");
    assert!(d.source.starts_with("```\n"), "source: {:?}", d.source);
    assert_eq!(d.code_language_at_caret(), None);
    let mut p = doc_with("code_lang_none", "just prose\n");
    assert!(!p.caret_in_fenced_code());
    p.set_code_language("rust");
    assert_eq!(p.source, "just prose\n");
}

#[test]
fn link_destination_at_caret_reads_both_spellings() {
    let mut d = doc_with("link_dest", "see [t](https://x.dev) ok\n");
    d.caret = 5;
    assert_eq!(d.link_destination_at_caret().as_deref(), Some("https://x.dev"));
    d.caret = 0;
    assert_eq!(d.link_destination_at_caret(), None);
    let mut a = doc_with("link_dest_auto", "see <https://x.dev> ok\n");
    a.caret = 10;
    assert_eq!(a.link_destination_at_caret().as_deref(), Some("https://x.dev"));
    a.caret = 21;
    assert_eq!(a.link_destination_at_caret(), None);
}

#[test]
fn insert_link_hands_the_destination_to_twig_raw() {
    let mut d = doc_with("link_space", "word\n");
    d.anchor = Some(0);
    d.caret = 4;
    d.insert_link("a b");
    assert_eq!(d.source, "[word](<a b>)\n");
}

#[test]
fn insert_link_reports_a_destination_no_format_can_carry() {
    let mut d = doc_with("link_bad", "word\n");
    d.anchor = Some(0);
    d.caret = 4;
    d.insert_link("a\nb");
    assert_eq!(d.source, "word\n");
    assert!(d.status.is_some(), "InvalidArgument should reach the status line");
    assert!(!d.dirty);
}

#[test]
fn insert_link_works_in_wysiwyg_view() {
    let mut d = wysiwyg_doc("link_wys", "word here\n");
    d.anchor = Some(0);
    d.caret = 4;
    d.insert_link("http://x.dev");
    assert_eq!(d.source, "[word](http://x.dev) here\n");
    assert_eq!(d.selected_text(), Some("word"));
    d.build_visual(80, VisualMap::default());
    d.move_right(false);
    d.move_left(false);
}

#[test]
fn click_maps_a_row_col_to_a_byte_offset() {
    let mut d = doc_with("click", "ab\ncd\n");
    d.click(1, 1, false); // row 1 ("cd"), col 1 -> the 'd'
    assert_eq!(d.caret, 4);
}

#[test]
fn place_caret_on_a_real_stop_is_left_untouched() {
    let mut d = wysiwyg_doc("place_stop", "A\n\nB");
    d.place_caret(3, false); // the start of "B" — a genuine stop
    assert_eq!(d.caret, 3);
}

#[test]
fn wysiwyg_edits_inside_a_vis_directive_block_without_disturbing_its_fences() {
    let body = ":::vis{.public .family}\nhello\n:::\nafter\n";
    let mut d = wysiwyg_doc("wys_vis", body);
    d.caret = body.find("hello").unwrap() + "hello".len();
    d.insert("!");
    assert_eq!(
        d.source,
        ":::vis{.public .family}\nhello!\n:::\nafter\n",
        "typing inside the block edits its content in place"
    );
    assert!(d.source.contains(":::vis{.public .family}"), "opening fence survives");
    assert!(d.source.contains(":::\nafter"), "closing fence survives");
}

#[test]
fn source_view_still_reaches_frontmatter() {
    let fm = "---\ntitle: hi\n---\n";
    let body = format!("{fm}# leaf\n");
    let mut d = doc_with("src_fm", &body);
    d.select_all();
    let sel = d.selected_text().unwrap();
    assert!(sel.contains("title"), "source view should select everything");
    d.move_doc_start(false);
    assert_eq!(d.caret, 0, "source view can reach offset 0");
}

#[test]
fn shift_return_in_a_markdown_cell_leaves_a_semantic_hard_break_not_raw_html() {
    let mut d = wysiwyg_doc("tbl_break_semantic", TABLE);
    d.caret = TABLE.find("Pear").unwrap() + 4;
    assert!(d.cell_line_break());
    let kinds: Vec<Kind> = d.nodes().iter().map(|n| n.kind).collect();
    assert!(kinds.iter().any(|k| *k == Kind::HardBreak), "got {kinds:?}");
    assert!(!kinds.iter().any(|k| *k == Kind::RawInline), "still raw HTML: {kinds:?}");
}

#[test]
fn backspace_over_an_in_cell_break_deletes_the_whole_br_not_a_byte() {
    let mut d = wysiwyg_doc("tbl_break_bs", TABLE);
    d.caret = TABLE.find("Pear").unwrap() + 4;
    assert!(d.cell_line_break());
    assert!(d.source.contains("Pear<br>"), "precondition: {}", d.source);
    d.backspace();
    assert!(!d.source.contains("<br"), "no half-deleted <br left: {}", d.source);
    assert!(d.source.contains("| Pear |"), "the cell is back to one line: {}", d.source);
}

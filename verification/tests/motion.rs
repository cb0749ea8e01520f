//! Motion, scrolling and the document as a file.

use leaf_core::doc::Doc;
use leaf_core::marks::InlineKind;
use leaf_core::modes::View;
use leaf_core::visual::VisualMap;

const VIEWS: [(View, &str); 2] = [(View::Source, "source"), (View::Wysiwyg, "wysiwyg")];

fn doc_in(view: View, name: &str, body: &str) -> Doc {
    let file = format!("{name}.md");
    let mut d = Doc::opened(body.as_bytes().to_vec(), "md", file.clone(), file).unwrap();
    d.view = view;
    if view == View::Wysiwyg {
        d.build_visual(80, VisualMap::default());
    }
    d
}

fn doc_with(name: &str, body: &str) -> Doc {
    doc_in(View::Source, name, body)
}

fn wysiwyg_doc(name: &str, body: &str) -> Doc {
    doc_in(View::Wysiwyg, name, body)
}

fn parse_caret(marked: &str) -> (String, usize) {
    let caret = marked.find('|').expect("fixture needs a `|` caret marker");
    (marked.replacen('|', "", 1), caret)
}

fn render_caret(d: &Doc) -> String {
    let mut marks: Vec<(usize, u8, char)> = vec![(d.caret, 1, '|')];
    if let Some((s, e)) = d.selection() {
        marks.push((s, 0, '['));
        marks.push((e, 2, ']'));
    }
    marks.sort_by(|a, b| b.0.cmp(&a.0).then(b.1.cmp(&a.1)));
    let mut out = d.source.clone();
    for (at, _, ch) in marks {
        out.insert(at, ch);
    }
    out
}

fn golden(name: &str, marked: &str, action: impl FnOnce(&mut Doc)) -> String {
    golden_in(View::Source, name, marked, action)
}

fn golden_in(view: View, name: &str, marked: &str, action: impl FnOnce(&mut Doc)) -> String {
    let (src, caret) = parse_caret(marked);
    let mut d = doc_in(view, name, &src);
    d.caret = caret;
    action(&mut d);
    render_caret(&d)
}

fn marks(view: View, name: &str, marked: &str) -> Vec<InlineKind> {
    let (src, caret) = parse_caret(marked);
    let mut d = doc_in(view, name, &src);
    d.caret = caret;
    d.active_inline_marks().iter()
}

fn marks_over(view: View, name: &str, src: &str, start: usize, end: usize) -> Vec<InlineKind> {
    let mut d = doc_in(view, name, src);
    d.anchor = Some(start);
    d.caret = end;
    d.active_inline_marks().iter()
}

#[test]
fn editing_clears_the_goal_column() {
    let mut d = doc_with("goalcol_edit", "abcdef\nxy\nghijkl\n");
    d.caret = 4;
    d.move_down(false);
    assert_eq!(d.goal_col, Some(4));
    d.insert("Z");
    assert_eq!(d.goal_col, None);
}

#[test]
fn vertical_motion_on_an_empty_document_is_a_no_op() {
    let mut d = doc_with("empty_vert", "");
    d.move_down(false);
    assert_eq!(d.caret, 0);
    d.move_up(false);
    assert_eq!(d.caret, 0);
}

#[test]
fn vertical_motion_with_nowhere_to_go_latches_no_goal_column() {
    for (view, tag) in VIEWS {
        let mut d = doc_in(view, &format!("noop_goal_{tag}"), "abc\n\ndef");
        d.caret = 0;
        d.move_up(false);
        assert_eq!(d.caret, 0, "{tag}: already at the start");
        assert_eq!(d.goal_col, None, "{tag}: a no-op Up latched a goal column");

        d.caret = d.source.len();
        d.move_down(false);
        assert_eq!(d.caret, d.source.len(), "{tag}: already at the end");
        assert_eq!(d.goal_col, None, "{tag}: a no-op Down latched a goal column");
    }
}

#[test]
fn move_doc_start_and_end_jump_to_the_edges() {
    let g = |m, f: fn(&mut Doc)| golden("doc_edges", m, f);
    assert_eq!(g("hello\nwor|ld\n", |d| d.move_doc_start(false)), "|hello\nworld\n");
    assert_eq!(g("hel|lo\nworld\n", |d| d.move_doc_end(false)), "hello\nworld\n|");
    assert_eq!(g("|hello\n", |d| d.move_doc_start(false)), "|hello\n");
    assert_eq!(g("hello|\n", |d| d.move_doc_end(false)), "hello\n|");
}

#[test]
fn move_doc_start_and_end_extend_the_selection() {
    assert_eq!(
        golden("doc_edges_ext_end", "hello wor|ld\n", |d| d.move_doc_end(true)),
        "hello wor[ld\n|]"
    );
    assert_eq!(
        golden("doc_edges_ext_start", "hello wor|ld\n", |d| d.move_doc_start(true)),
        "[|hello wor]ld\n"
    );
}

#[test]
fn move_doc_start_and_end_on_an_empty_document_are_a_no_op() {
    let mut d = doc_with("empty_edges", "");
    d.move_doc_end(false);
    assert_eq!(d.caret, 0);
    d.move_doc_start(false);
    assert_eq!(d.caret, 0);
}

#[test]
fn arrow_collapses_selection_to_its_near_edge() {
    let mut d = doc_with("collapse", "hello world\n");
    d.anchor = Some(2);
    d.caret = 7;
    d.move_right(false);
    assert_eq!((d.caret, d.anchor), (7, None));

    d.anchor = Some(2);
    d.caret = 7;
    d.move_left(false);
    assert_eq!((d.caret, d.anchor), (2, None));
    d.anchor = Some(7);
    d.caret = 2;
    d.move_right(false);
    assert_eq!((d.caret, d.anchor), (7, None));

    d.anchor = Some(7);
    d.caret = 2;
    d.move_left(false);
    assert_eq!((d.caret, d.anchor), (2, None));
}

#[test]
fn arrow_with_extend_keeps_growing_the_selection() {
    let mut d = doc_with("collapse_extend", "hello world\n");
    d.anchor = Some(2);
    d.caret = 7;
    d.move_right(true);
    assert_eq!((d.caret, d.anchor), (8, Some(2)));
}

#[test]
fn arrow_without_a_selection_moves_one_character_as_before() {
    let mut d = doc_with("no_collapse", "hello\n");
    d.caret = 2;
    d.move_right(false);
    assert_eq!(d.caret, 3);
    d.move_left(false);
    assert_eq!(d.caret, 2);
}

#[test]
fn triple_click_selects_a_paragraph_across_its_soft_breaks() {
    let src = "one two\nthree four\n\nnext\n";
    let mut d = wysiwyg_doc("triple_para", src);
    d.select_block_at(2);
    assert_eq!(d.selected_text(), Some("one two\nthree four"), "stopped at the soft break");
}

#[test]
fn the_wheel_can_scroll_away_from_a_caret_that_stays_put() {
    let mut d = wysiwyg_doc("scroll_free", "a\n\nb\n\nc\n\nd\n\ne\n");
    d.caret = 0;
    d.follow_caret(0, 3, 9);
    d.scroll = 4;
    d.follow_caret(0, 3, 9);
    assert_eq!(d.scroll, 4, "the wheel was overruled by a caret that never moved");
}

#[test]
fn scrolling_stops_at_the_last_row() {
    let mut d = wysiwyg_doc("scroll_clamp", "a\n\nb\n");
    d.caret = 0;
    d.follow_caret(0, 3, 3); // a first frame, so the caret isn't "new"
    d.scroll = 999;
    d.follow_caret(0, 3, 3);
    assert_eq!(d.scroll, 2, "scrolled into the void past the document");
}

#[test]
fn source_view_word_motion_still_walks_the_markup() {
    let g = |n, m, f: fn(&mut Doc)| golden(n, m, f);
    assert_eq!(
        g("src_word_motion", "a |**bold** c\n", |d| d.move_word_right(false)),
        "a **bold|** c\n"
    );
    assert_eq!(
        g("src_word_del", "a **bold**| c\n", |d| d.delete_word_back()),
        "a **| c\n"
    );
}

#[test]
fn a_caret_in_a_mark_reports_it() {
    for (view, tag) in VIEWS {
        let m = |marked| marks(view, &format!("marks_in_{tag}"), marked);
        assert_eq!(m("a **bo|ld** b"), [InlineKind::Strong], "{tag}");
        assert_eq!(m("a *it|alic* b"), [InlineKind::Emph], "{tag}");
        assert_eq!(m("a `co|de` b"), [InlineKind::Verbatim], "{tag}");
        assert_eq!(m("a| **bold** b"), [], "{tag}");
        assert!(m("plain t|ext").is_empty(), "{tag}");
    }
}

#[test]
fn nested_marks_all_report() {
    for (view, tag) in VIEWS {
        assert_eq!(
            marks(view, &format!("marks_nested_{tag}"), "**bold and *bo|th*** end"),
            [InlineKind::Strong, InlineKind::Emph],
            "{tag}"
        );
    }
}

#[test]
fn the_caret_at_a_marks_edge_reports_it_where_typing_would_extend_it() {
    let src = "a **bold** b";
    let inner_start = src.find("bold").unwrap();
    let inner_end = inner_start + "bold".len();
    for (view, tag) in VIEWS {
        let mut d = doc_in(view, &format!("marks_edge_{tag}"), src);
        for off in [2, 3, inner_start, inner_end, 9] {
            d.caret = off;
            assert!(
                d.active_inline_marks().contains(InlineKind::Strong),
                "{tag}: offset {off} is inside the strong span"
            );
        }
        for off in [0, 1, 10, 11, 12] {
            d.caret = off;
            assert!(
                !d.active_inline_marks().contains(InlineKind::Strong),
                "{tag}: offset {off} is outside the strong run"
            );
        }
    }
}

#[test]
fn a_mark_ends_the_same_way_at_the_end_of_the_buffer_as_in_the_middle() {
    for (view, tag) in VIEWS {
        let m = |name: String, marked| marks(view, &name, marked);
        assert_eq!(m(format!("marks_eob_{tag}"), "**bold**|"), [], "{tag}: no trailing newline");
        assert_eq!(m(format!("marks_eol_{tag}"), "**bold**|\n"), [], "{tag}: with one");
        assert_eq!(
            m(format!("marks_eob_in_{tag}"), "**bold*|*"),
            [InlineKind::Strong],
            "{tag}"
        );
    }
}

#[test]
fn a_selection_reports_a_mark_only_when_it_covers_the_whole_thing() {
    let src = "a **bold** b";
    let (b, d_) = (src.find("bold").unwrap(), src.find("bold").unwrap() + 4);
    for (view, tag) in VIEWS {
        let m = |s, e| marks_over(view, &format!("marks_sel_{tag}"), src, s, e);
        assert_eq!(m(b, d_), [InlineKind::Strong], "{tag}: the whole word");
        assert_eq!(m(b + 1, d_ - 1), [InlineKind::Strong], "{tag}: a slice");
        assert_eq!(m(b, d_ + 2), [InlineKind::Strong], "{tag}: through the close");
        assert_eq!(m(0, d_), [], "{tag}: leading plain text");
        assert_eq!(m(b, src.len()), [], "{tag}: trailing plain text");
    }
}

#[test]
fn a_selection_across_two_runs_of_the_same_mark_reports_nothing() {
    let src = "**one** **two**";
    for (view, tag) in VIEWS {
        let m = marks_over(view, &format!("marks_runs_{tag}"), src, 2, 13);
        assert_eq!(m, [], "{tag}: `one** **two` is not all bold");
    }
}

#[test]
fn marks_read_the_document_as_it_is_edited() {
    let mut d = wysiwyg_doc("marks_live", "one two\n");
    d.anchor = Some(0);
    d.caret = 3;
    assert!(d.active_inline_marks().is_empty(), "plain to start");
    d.toggle(InlineKind::Strong);
    assert_eq!(d.source, "**one** two\n");
    assert!(d.active_inline_marks().contains(InlineKind::Strong));
    d.toggle(InlineKind::Strong);
    assert!(d.active_inline_marks().is_empty(), "and off again");
}

#[test]
fn a_link_is_not_an_inline_mark() {
    for (view, tag) in VIEWS {
        assert_eq!(marks(view, &format!("marks_link_{tag}"), "a [te|xt](u) b"), [], "{tag}");
    }
}

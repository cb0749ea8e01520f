//! Word motion, selection and the edit history.

use leaf_core::doc::Doc;
use leaf_core::modes::View;
use leaf_core::visual::VisualMap;

const VIEWS: [(View, &str); 2] = [(View::Source, "source"), (View::Wysiwyg, "wysiwyg")];

fn doc_in(view: View, name: &str, body: &str) -> Doc {
    let file = format!("{name}.md");
    let mut d = Doc::opened(body.as_bytes().to_vec(), "md", file.clone(), file).unwrap();
    d.view = view;
    if view == View::Wysiwyg {
        d.build_visual(80, VisualMap::default());
    }
    d
}

fn doc_with(name: &str, body: &str) -> Doc {
    doc_in(View::Source, name, body)
}

fn parse_caret(marked: &str) -> (String, usize) {
    let caret = marked.find('|').expect("fixture needs a `|` caret marker");
    (marked.replacen('|', "", 1), caret)
}

fn render_caret(d: &Doc) -> String {
    let mut marks: Vec<(usize, u8, char)> = vec![(d.caret, 1, '|')];
    if let Some((s, e)) = d.selection() {
        marks.push((s, 0, '['));
        marks.push((e, 2, ']'));
    }
    marks.sort_by(|a, b| b.0.cmp(&a.0).then(b.1.cmp(&a.1)));
    let mut out = d.source.clone();
    for (at, _, ch) in marks {
        out.insert(at, ch);
    }
    out
}

fn golden(name: &str, marked: &str, action: impl FnOnce(&mut Doc)) -> String {
    golden_in(View::Source, name, marked, action)
}

fn golden_in(view: View, name: &str, marked: &str, action: impl FnOnce(&mut Doc)) -> String {
    let (src, caret) = parse_caret(marked);
    let mut d = doc_in(view, name, &src);
    d.caret = caret;
    action(&mut d);
    render_caret(&d)
}

#[test]
fn word_motion_walks_word_by_word() {
    let g = |m, f: fn(&mut Doc)| golden("word_motion", m, f);
    assert_eq!(g("hello wor|ld", |d| d.move_word_left(false)), "hello |world");
    assert_eq!(g("hello| world", |d| d.move_word_left(false)), "|hello world");
    assert_eq!(g("hel|lo world", |d| d.move_word_right(false)), "hello| world");
    assert_eq!(g("hello| world", |d| d.move_word_right(false)), "hello world|");
    assert_eq!(g("|foo.bar", |d| d.move_word_right(false)), "foo|.bar");
}

#[test]
fn word_motion_extends_the_selection_when_asked() {
    assert_eq!(
        golden("word_sel", "hello |world", |d| d.move_word_right(true)),
        "hello [world|]"
    );
}

#[test]
fn delete_word_removes_a_whole_word() {
    let g = |m, f: fn(&mut Doc)| golden("del_word", m, f);
    assert_eq!(g("hello world|", |d| d.delete_word_back()), "hello |");
    assert_eq!(g("hello |world", |d| d.delete_word_forward()), "hello |");
    assert_eq!(g("foo |bar baz", |d| d.delete_word_back()), "|bar baz");
}

#[test]
fn a_kill_takes_the_selection_when_there_is_one() {
    for (view, tag) in VIEWS {
        for (name, kill) in [
            ("end", (|d: &mut Doc| d.delete_to_line_end()) as fn(&mut Doc)),
            ("start", |d: &mut Doc| d.delete_to_line_start()),
        ] {
            let mut d = doc_in(view, &format!("kill_sel_{name}_{tag}"), "one two three\n");
            d.anchor = Some(4);
            d.caret = 7; // "two"
            kill(&mut d);
            assert_eq!(d.source, "one  three\n", "{tag}: {name} ignored the selection");
            assert_eq!(d.selection(), None, "{tag}: {name}");
        }
    }
}

#[test]
fn select_block_uses_content_span_for_a_heading() {
    let mut d = doc_with("sel_head", "# Title\n\nbody\n");
    d.select_block_at(4); // inside "Title"
    assert_eq!(d.selected_text(), Some("Title"));
    d.select_block_at(10); // inside "body"
    assert_eq!(d.selected_text(), Some("body"));
}

#[test]
fn select_all_spans_the_document() {
    let mut d = doc_with("sel_all", "abc\n\ndef\n");
    d.select_all();
    assert_eq!(d.selection(), Some((0, d.source.len())));
}

#[test]
fn select_word_at_picks_the_surrounding_word() {
    let mut d = doc_with("sel_word", "hello world\n");
    d.select_word_at(8); // inside "world"
    assert_eq!(d.selection(), Some((6, 11)));
    d.select_word_at(5);
    assert_eq!(d.selection(), Some((5, 6)));
}

#[test]
fn word_helpers_respect_utf8_boundaries() {
    assert_eq!(golden("utf8", "|café ok", |d| d.move_word_right(false)), "café| ok");
    assert_eq!(golden("utf8b", "café |ok", |d| d.delete_word_back()), "|ok");
}

#[test]
fn typing_inserts_at_the_caret_and_advances_it() {
    let mut d = doc_with("type", "hello\n");
    d.insert("Hi ");
    assert_eq!(d.source, "Hi hello\n");
    assert_eq!(d.caret, 3);
    assert!(d.dirty);
}

//! The clipboard: fragments rendered to HTML and read back from it.

use leaf_core::format::Format;
use leaf_core::html::{parse_fragment, render_fragment, sanitize, strip_sole_paragraph, unfaithful};

fn md(html: &str) -> Option<String> {
    parse_fragment(html, Format::Markdown)
}
fn html(src: &str) -> Option<String> {
    render_fragment(src, Format::Markdown)
}

#[test]
fn renders_inline_and_block_markdown() {
    assert_eq!(html("a **b** c").as_deref(), Some("<p>a <strong>b</strong> c</p>"));
    assert_eq!(html("- one\n- two").as_deref(), Some("<ul>\n<li>one</li>\n<li>two</li>\n</ul>"));
    assert_eq!(html("# head").as_deref(), Some("<h1>head</h1>"));
}

#[test]
fn empty_selection_renders_nothing() {
    assert_eq!(html("   "), None);
}

#[test]
fn strip_sole_paragraph_unwraps_only_a_lone_paragraph() {
    assert_eq!(strip_sole_paragraph("<p><strong>b</strong></p>".into()), "<strong>b</strong>");
    let two = "<p>a</p>\n<p>b</p>".to_string();
    assert_eq!(strip_sole_paragraph(two.clone()), two);
    let list = "<ul>\n<li>one</li>\n</ul>".to_string();
    assert_eq!(strip_sole_paragraph(list.clone()), list);
}

#[test]
fn converts_clean_fragments() {
    assert_eq!(md("<ul><li>one</li></ul>").as_deref(), Some("- one"));
    assert_eq!(md("<p>a <strong>b</strong> c</p>").as_deref(), Some("a **b** c"));
    assert_eq!(md("<strong>bold</strong>").as_deref(), Some("**bold**"));
    assert_eq!(md("<h1>head</h1>").as_deref(), Some("# head"));
    assert_eq!(
        md(r#"<a href="https://x.dev">l</a>"#).as_deref(),
        Some("[l](https://x.dev)")
    );
}

#[test]
fn round_trips_through_html() {
    for src in ["a **b** and [l](https://x.dev)", "- one\n- two", "# head", "> quote"] {
        let rendered = html(src).expect("render");
        assert_eq!(md(&rendered).as_deref(), Some(src), "round trip of {src:?}");
    }
}

#[test]
fn paste_does_not_carry_the_serializer_s_trailing_newline() {
    assert_eq!(md("<p>word</p>").as_deref(), Some("word"));
}

#[test]
fn google_docs_paste_keeps_its_emphasis_and_drops_the_wrapper() {
    let clip = r#"<meta charset='utf-8'><b style="font-weight:normal;" id="docs-internal-guid-9c1">"#.to_string()
        + r#"<p dir="ltr" style="line-height:1.38;margin-top:0pt;"><span style="font-size:11pt;font-family:Arial;font-weight:400;">Hello </span>"#
        + r#"<span style="font-size:11pt;font-weight:700;">bold</span><span style="font-size:11pt;"> world</span></p></b>"#;
    assert_eq!(md(&clip).as_deref(), Some("Hello **bold** world"));
}

#[test]
fn word_paste_drops_the_head_and_the_office_cruft() {
    let clip = r#"<html xmlns:o="urn:schemas-microsoft-com:office:office"><head>"#.to_string()
        + r#"<meta http-equiv=Content-Type content="text/html; charset=utf-8">"#
        + r#"<meta name=Generator content="Microsoft Word 15">"#
        + r#"<!--[if gte mso 9]><xml><o:OfficeDocumentSettings/></xml><![endif]-->"#
        + r#"<style><!-- p.MsoNormal {margin:0in;font-size:11.0pt;} --></style></head>"#
        + r#"<body lang=EN-US><p class=MsoNormal><span style='font-size:12.0pt'>Word <b>bold</b> text<o:p></o:p></span></p></body></html>"#;
    assert_eq!(md(&clip).as_deref(), Some("Word **bold** text"));
}

#[test]
fn div_per_line_html_becomes_paragraphs_not_djot_fences() {
    assert_eq!(
        md(r#"<div class="p-rich_text_section">hi <b>there</b></div>"#).as_deref(),
        Some("hi **there**")
    );
    assert_eq!(md("<div>a</div><div>b</div>").as_deref(), Some("a\n\nb"));
}

#[test]
fn arboard_s_own_wrapper_survives_the_round_trip() {
    let clip = r#"<html><head><meta http-equiv="content-type" content="text/html; charset=utf-8"></head><body><p>a <strong>b</strong> c</p></body></html>"#;
    assert_eq!(md(clip).as_deref(), Some("a **b** c"));
}

#[test]
fn script_and_style_never_reach_the_document() {
    assert_eq!(
        md("<p>ok</p><script>alert(1)</script><style>p{color:red}</style>").as_deref(),
        Some("ok")
    );
}

#[test]
fn fragment_comments_are_dropped() {
    assert_eq!(md("<!--StartFragment--><p>frag</p><!--EndFragment-->").as_deref(), Some("frag"));
}

#[test]
fn plain_text_and_entities_convert() {
    assert_eq!(md("just some plain text").as_deref(), Some("just some plain text"));
    assert_eq!(md("<p>a &amp; b &lt;c&gt;</p>").as_deref(), Some("a & b <c>"));
}

#[test]
fn unclosed_tags_are_tolerated() {
    assert_eq!(md("<p>unclosed <strong>bold").as_deref(), Some("unclosed **bold**"));
}

#[test]
fn code_and_hard_breaks_survive() {
    assert_eq!(md("<pre><code>fn x() {}</code></pre>").as_deref(), Some("```\nfn x() {}\n```"));
    assert_eq!(md("<p>line1<br>line2</p>").as_deref(), Some("line1  \nline2"));
}

#[test]
fn a_table_declines_rather_than_pasting_raw_html() {
    assert_eq!(md("<table><tr><td>a</td><td>b</td></tr></table>"), None);
}

#[test]
fn empty_and_whitespace_html_declines() {
    assert_eq!(md(""), None);
    assert_eq!(md("   "), None);
    assert_eq!(md("<meta charset='utf-8'>"), None);
}

#[test]
fn unfaithful_reads_the_two_failure_shapes() {
    assert!(unfaithful("::: \n  x\n:::"));
    assert!(unfaithful("<table><tr><td>a"));
    assert!(unfaithful("ok\n\n<script>alert(1)"));
    for good in ["a **b** c", "- one", "# head", "> quote", "```\nx\n```", "![p](u)"] {
        assert!(!unfaithful(good), "{good:?} should be faithful");
    }
}

#[test]
fn sanitize_rewrites_divs_and_keeps_nesting_straight() {
    assert_eq!(sanitize("<div>a</div>"), "<p>a</p>");
    assert_eq!(sanitize("<div><b>a</b></div>"), "<p><b>a</b></p>");
    assert_eq!(
        sanitize(r#"<b style="font-weight:normal"><b>x</b></b>"#),
        "<b>x</b>"
    );
}

#[test]
fn sanitize_maps_css_emphasis_onto_tags() {
    assert_eq!(
        sanitize(r#"<span style="font-weight:700">b</span>"#),
        "<strong>b</strong>"
    );
    assert_eq!(sanitize(r#"<span style="font-weight:bold">b</span>"#), "<strong>b</strong>");
    assert_eq!(sanitize(r#"<span style="font-style:italic">i</span>"#), "<em>i</em>");
    assert_eq!(sanitize(r#"<span style="color:red">x</span>"#), "x");
    assert_eq!(sanitize("<span>x</span>"), "x");
}

#[test]
fn sanitize_steps_over_a_gt_inside_a_quoted_attribute() {
    assert_eq!(sanitize(r#"<span style="font-family:'a>b'">x</span>"#), "x");
}

#[test]
fn sanitize_leaves_a_bare_less_than_as_text() {
    assert_eq!(sanitize("a < b"), "a < b");
}

#[test]
fn sanitize_leaves_unknown_elements_for_twig() {
    assert_eq!(sanitize("<figure>x</figure>"), "<figure>x</figure>");
}

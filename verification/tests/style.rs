//! The tables of colours, tokens and presentation.

use leaf_core::style::{Align, FontFamily, LineSpacing, MarkColor, SizeStep, Token};

#[test]
fn the_colour_tables_agree_with_each_other() {
    for (i, c) in MarkColor::ALL.into_iter().enumerate() {
        assert_eq!(c.index(), i, "{} is not where ALL puts it", c.name());
        assert_eq!(MarkColor::from_attr(c.name()), Some(c), "name round-trip");
    }
    assert_eq!(MarkColor::from_attr("chartreuse"), None);
    assert_eq!(MarkColor::from_attr(""), None);
}

#[test]
fn the_token_tables_agree_with_each_other() {
    for (i, t) in Token::ALL.into_iter().enumerate() {
        assert_eq!(t.index(), i, "{} is not where ALL puts it", t.name());
        assert_eq!(Token::from_name(t.name()), Some(t), "name round-trip");
    }
    assert_eq!(Token::from_name("meta"), None);
    assert_eq!(Token::from_name(""), None);
}

#[test]
fn the_presentation_tables_agree_with_each_other() {
    for (i, a) in Align::ALL.into_iter().enumerate() {
        assert_eq!(a.index(), i, "{} is not where ALL puts it", a.name());
        assert_eq!(Align::from_token(a.name()), Some(a), "name round-trip");
    }
    for (i, l) in LineSpacing::ALL.into_iter().enumerate() {
        assert_eq!(l.index(), i, "{} is not where ALL puts it", l.name());
        assert_eq!(LineSpacing::from_attr(l.name()), Some(l), "name round-trip");
    }
    for (i, z) in SizeStep::ALL.into_iter().enumerate() {
        assert_eq!(z.index(), i, "{} is not where ALL puts it", z.name());
        assert_eq!(SizeStep::from_attr(z.name()), Some(z), "name round-trip");
    }
    for (i, f) in FontFamily::ALL.into_iter().enumerate() {
        assert_eq!(f.index(), i, "{} is not where ALL puts it", f.name());
        assert_eq!(FontFamily::from_attr(f.name()), Some(f), "name round-trip");
    }
    assert_eq!(Align::from_token("left"), None);
    assert_eq!(LineSpacing::from_attr("1"), None);
    assert_eq!(SizeStep::from_attr("medium"), None);
    assert_eq!(SizeStep::from_attr("14pt"), None);
    assert_eq!(FontFamily::from_attr("Garamond"), None);
    assert_eq!(FontFamily::from_attr("fantasy"), None);
}

#[test]
fn an_alignment_is_one_token_of_a_class_and_the_rest_is_somebody_else_s() {
    let class = |v: &str| vec![("class".to_string(), Some(v.to_string()))];
    assert_eq!(Align::from_attrs(&class("center")), Some(Align::Center));
    assert_eq!(
        Align::from_attrs(&class("lead center")),
        Some(Align::Center)
    );
    assert_eq!(
        Align::from_attrs(&class("center lead")),
        Some(Align::Center)
    );
    assert_eq!(Align::from_attrs(&class("lead wide")), None);
    assert_eq!(Align::from_attrs(&class("")), None);
    assert_eq!(Align::from_attrs(&[]), None);
    assert_eq!(Align::from_attrs(&[("class".to_string(), None)]), None);
    let attr = |k: &str, v: &str| vec![(k.to_string(), Some(v.to_string()))];
    assert_eq!(
        LineSpacing::from_attrs(&attr("data-line-height", "1.5")),
        Some(LineSpacing::OneHalf)
    );
    assert_eq!(LineSpacing::from_attrs(&attr("class", "1.5")), None);
    assert_eq!(
        SizeStep::from_attrs(&attr("data-size", "large")),
        Some(SizeStep::Large)
    );
    assert_eq!(
        FontFamily::from_attrs(&attr("data-font", "monospace")),
        Some(FontFamily::Monospace)
    );
    assert_eq!(
        MarkColor::from_attrs(&attr("data-color", "blue")),
        Some(MarkColor::Blue)
    );
}

#[test]
fn a_colour_is_read_out_of_the_data_color_attribute_and_nothing_else() {
    let attr = |k: &str, v: &str| vec![(k.to_string(), Some(v.to_string()))];
    assert_eq!(
        MarkColor::from_attrs(&attr("data-color", "green")),
        Some(MarkColor::Green)
    );
    assert_eq!(MarkColor::from_attrs(&[]), None);
    assert_eq!(MarkColor::from_attrs(&attr("id", "red")), None);
    assert_eq!(
        MarkColor::from_attrs(&[("data-color".to_string(), None)]),
        None
    );
}

//! Border styles and text alignment keywords.

use muskitty::render::{parse_border_style, resolve_text_align, BorderStyle, TextAlign};

#[test]
fn border_style_painted_predicate() {
    assert!(!BorderStyle::NoBorder.is_painted());
    assert!(!BorderStyle::Hidden.is_painted());
    assert!(BorderStyle::Solid.is_painted());
    assert!(BorderStyle::Double.is_painted());
    assert!(BorderStyle::Groove.is_painted());
}

#[test]
fn border_style_default_is_no_border() {
    assert_eq!(BorderStyle::default(), BorderStyle::NoBorder);
    assert_eq!(TextAlign::default(), TextAlign::Left);
}

#[test]
fn border_style_keywords_ignore_case() {
    assert_eq!(parse_border_style("SOLID"), BorderStyle::Solid);
    assert_eq!(parse_border_style("dashed"), BorderStyle::Dashed);
    assert_eq!(parse_border_style("Outset"), BorderStyle::Outset);
    assert_eq!(parse_border_style("none"), BorderStyle::NoBorder);
    assert_eq!(parse_border_style("wavy"), BorderStyle::NoBorder);
    assert!(!parse_border_style("hidden").is_painted());
}

#[test]
fn text_align_keywords() {
    assert_eq!(resolve_text_align(Some("CENTER")), TextAlign::Center);
    assert_eq!(resolve_text_align(Some("end")), TextAlign::Right);
    assert_eq!(resolve_text_align(Some("right")), TextAlign::Right);
    assert_eq!(resolve_text_align(Some("justify")), TextAlign::Left);
    assert_eq!(resolve_text_align(None), TextAlign::Left);
}

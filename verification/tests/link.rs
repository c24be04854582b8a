use http_deprecation::link::find_deprecation_link;
use http_deprecation::parse_deprecation_link;

#[test]
fn parse_link_header() {
    let link =
        r#"<https://developer.example.com/deprecation>; rel="deprecation"; type="text/html""#;

    let link = parse_deprecation_link(link).unwrap();

    assert_eq!(link, "https://developer.example.com/deprecation")
}

#[test]
fn parse_link_header_different_order() {
    let link =
        r#"<https://developer.example.com/deprecation>;  type="text/html"; rel="deprecation";"#;

    let link = parse_deprecation_link(link).unwrap();

    assert_eq!(link, "https://developer.example.com/deprecation")
}

#[test]
fn link_with_relation_only() {
    assert_eq!(
        parse_deprecation_link(r#"<https://example.com/d>; rel="deprecation""#),
        Some("https://example.com/d")
    );
    assert_eq!(parse_deprecation_link(r#"<https://example.com/d>; rel="alternate""#), None);
}

#[test]
fn link_without_parameters_gives_nothing() {
    assert_eq!(parse_deprecation_link(""), None);
    assert_eq!(parse_deprecation_link("<https://example.com/d>"), None);
    assert_eq!(parse_deprecation_link("<https://example.com/d>;"), None);
    assert_eq!(parse_deprecation_link(";"), None);
    assert_eq!(parse_deprecation_link(r#"rel="deprecation""#), None);
}

#[test]
fn target_must_stand_in_angle_brackets() {
    assert_eq!(parse_deprecation_link(r#"https://example.com/d; rel="deprecation""#), None);
    assert_eq!(parse_deprecation_link(r#"<https://example.com/d; rel="deprecation""#), None);
    assert_eq!(parse_deprecation_link(r#"https://example.com/d>; rel="deprecation""#), None);
    assert_eq!(parse_deprecation_link(r#"<; rel="deprecation""#), None);
    assert_eq!(parse_deprecation_link(r#">; rel="deprecation""#), None);
    assert_eq!(parse_deprecation_link(r#"; rel="deprecation""#), None);
    assert_eq!(parse_deprecation_link(r#"<>; rel="deprecation""#), Some(""));
}

#[test]
fn every_bracket_at_the_ends_is_stripped() {
    assert_eq!(parse_deprecation_link(r#"<<a>>; rel="deprecation""#), Some("a"));
    assert_eq!(parse_deprecation_link(r#"<<<>; rel="deprecation""#), Some(""));
    assert_eq!(parse_deprecation_link(r#"<a<b>c>; rel="deprecation""#), Some("a<b>c"));
    assert_eq!(parse_deprecation_link(r#"< a >; rel="deprecation""#), Some(" a "));
}

#[test]
fn white_space_around_segments_is_ignored() {
    assert_eq!(
        parse_deprecation_link("  <a> \t;\u{a0}rel=\"deprecation\"\u{3000}; x"),
        Some("a")
    );
    assert_eq!(parse_deprecation_link("<a>;rel=\"deprecation\""), Some("a"));
    assert_eq!(parse_deprecation_link("\n<a>\r\n;\n rel=\"deprecation\" \n"), Some("a"));
    assert_eq!(parse_deprecation_link("<a>; rel = \"deprecation\""), None);
    assert_eq!(parse_deprecation_link("<a>; rel= \"deprecation\""), None);
}

#[test]
fn relation_is_compared_exactly() {
    assert_eq!(parse_deprecation_link("<a>; rel=deprecation"), None);
    assert_eq!(parse_deprecation_link("<a>; REL=\"deprecation\""), None);
    assert_eq!(parse_deprecation_link("<a>; rel=\"Deprecation\""), None);
    assert_eq!(parse_deprecation_link("<a>; rel=\"deprecation \""), None);
    assert_eq!(parse_deprecation_link("<a>; rel=\"deprecation\"x"), None);
    assert_eq!(parse_deprecation_link("<a>; xrel=\"deprecation\""), None);
    assert_eq!(parse_deprecation_link("<a>; rel='deprecation'"), None);
}

#[test]
fn segment_that_is_no_parameter_ends_the_scan() {
    assert_eq!(parse_deprecation_link("<a>; type; rel=\"deprecation\""), None);
    assert_eq!(parse_deprecation_link("<a>; ; rel=\"deprecation\""), None);
    assert_eq!(parse_deprecation_link("<a>;; rel=\"deprecation\""), None);
    assert_eq!(parse_deprecation_link("<a>; a=b=c; rel=\"deprecation\""), None);
    assert_eq!(parse_deprecation_link("<a>; =b; rel=\"deprecation\""), None);
    assert_eq!(parse_deprecation_link("<a>; a=; rel=\"deprecation\""), None);
    assert_eq!(parse_deprecation_link("<a>; =; rel=\"deprecation\""), None);
    assert_eq!(parse_deprecation_link("<a>; a=b; rel=\"deprecation\""), Some("a"));
}

#[test]
fn what_follows_the_relation_is_not_read() {
    assert_eq!(parse_deprecation_link("<a>; rel=\"deprecation\"; type"), Some("a"));
    assert_eq!(parse_deprecation_link("<a>; rel=\"deprecation\";;;"), Some("a"));
    assert_eq!(parse_deprecation_link("<a>; rel=\"deprecation\"; a=b=c"), Some("a"));
}

#[test]
fn separator_inside_the_target_splits_it() {
    assert_eq!(parse_deprecation_link("<a;b>; rel=\"deprecation\""), None);
}

#[test]
fn target_may_hold_any_characters() {
    assert_eq!(
        parse_deprecation_link(
            "<https://example.com/\u{e9}t\u{e9}?q=1&r=\u{1F600}>; rel=\"deprecation\""
        ),
        Some("https://example.com/\u{e9}t\u{e9}?q=1&r=\u{1F600}")
    );
}

#[test]
fn parameter_order_does_not_matter() {
    let orders = [
        r#"<U>; rel="deprecation"; type="text/html"; title="gone""#,
        r#"<U>; type="text/html"; rel="deprecation"; title="gone""#,
        r#"<U>; type="text/html"; title="gone"; rel="deprecation""#,
        r#"<U>; title="gone"; type="text/html"; rel="deprecation""#,
    ];
    for link in orders {
        assert_eq!(parse_deprecation_link(link), Some("U"));
    }
}

#[test]
fn find_takes_the_first_value_with_the_relation() {
    let alternate = Some(r#"<https://example.com>; rel="alternate""#);
    let first = Some(r#"<https://example.com/first>; rel="deprecation""#);
    let second = Some(r#"<https://example.com/second>; rel="deprecation""#);

    assert_eq!(find_deprecation_link(&[]), None);
    assert_eq!(find_deprecation_link(&[alternate]), None);
    assert_eq!(find_deprecation_link(&[None, alternate, None]), None);
    assert_eq!(
        find_deprecation_link(&[alternate, None, first, second]),
        Some("https://example.com/first".to_owned())
    );
    assert_eq!(
        find_deprecation_link(&[second, alternate, first]),
        Some("https://example.com/second".to_owned())
    );
}

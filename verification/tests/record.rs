use http_deprecation::Deprecation;
use time::OffsetDateTime;

const EPOCH: &str = "Thu, 01 Jan 1970 00:00:00 +0000";
const ALTERNATE: &str = r#"<https://example.com>; rel="alternate""#;
const DEPRECATION: &str =
    r#"<https://example.com/deprecation>; rel="deprecation"; type="text/html""#;

#[test]
fn no_record_without_a_deprecation_value() {
    assert!(Deprecation::from_header_texts(&[], &[]).is_none());
    assert!(Deprecation::from_header_texts(&[], &[Some(DEPRECATION)]).is_none());
    let links = [Some(ALTERNATE), None, Some(DEPRECATION)];
    assert!(Deprecation::from_header_texts(&[], &links).is_none());
}

#[test]
fn record_for_the_flag() {
    let record = Deprecation::from_header_texts(&[Some("true")], &[]).unwrap();
    assert_eq!(record.timestamp, None);
    assert_eq!(record.deprecation_link, None);
}

#[test]
fn record_for_a_date() {
    let record = Deprecation::from_header_texts(&[Some(EPOCH)], &[]).unwrap();
    assert_eq!(record.timestamp, Some(OffsetDateTime::UNIX_EPOCH));
    assert_eq!(record.deprecation_link, None);
}

#[test]
fn record_for_a_value_that_is_no_date() {
    let record = Deprecation::from_header_texts(&[Some("2021-01-01T10:00:13Z")], &[]).unwrap();
    assert_eq!(record.timestamp, None);
    assert_eq!(record.deprecation_link, None);

    let record = Deprecation::from_header_texts(&[None], &[]).unwrap();
    assert_eq!(record.timestamp, None);
    assert_eq!(record.deprecation_link, None);

    let record = Deprecation::from_header_texts(&[Some("")], &[Some(DEPRECATION)]).unwrap();
    assert_eq!(record.timestamp, None);
    assert_eq!(
        record.deprecation_link,
        Some("https://example.com/deprecation".to_owned())
    );
}

#[test]
fn record_with_flag_and_links() {
    let record =
        Deprecation::from_header_texts(&[Some("true")], &[Some(ALTERNATE), Some(DEPRECATION)])
            .unwrap();
    assert_eq!(record.timestamp, None);
    assert_eq!(
        record.deprecation_link,
        Some("https://example.com/deprecation".to_owned())
    );
}

#[test]
fn record_with_date_and_link() {
    let record =
        Deprecation::from_header_texts(&[Some(EPOCH)], &[Some(DEPRECATION), Some(ALTERNATE)])
            .unwrap();
    assert_eq!(record.timestamp, Some(OffsetDateTime::UNIX_EPOCH));
    assert_eq!(
        record.deprecation_link,
        Some("https://example.com/deprecation".to_owned())
    );
}

#[test]
fn link_does_not_depend_on_the_deprecation_value() {
    let links = [None, Some(ALTERNATE), Some(DEPRECATION)];
    for value in [Some("true"), Some(EPOCH), Some("2021-01-01T10:00:13Z"), Some(""), None] {
        let record = Deprecation::from_header_texts(&[value], &links).unwrap();
        assert_eq!(
            record.deprecation_link,
            Some("https://example.com/deprecation".to_owned())
        );
        let record = Deprecation::from_header_texts(&[value], &[Some(ALTERNATE)]).unwrap();
        assert_eq!(record.deprecation_link, None);
        let record = Deprecation::from_header_texts(&[value], &[]).unwrap();
        assert_eq!(record.deprecation_link, None);
    }
}

#[test]
fn only_the_first_deprecation_value_counts() {
    let record = Deprecation::from_header_texts(&[Some("true"), Some(EPOCH)], &[]).unwrap();
    assert_eq!(record.timestamp, None);
    let record = Deprecation::from_header_texts(&[Some(EPOCH), Some("true")], &[]).unwrap();
    assert_eq!(record.timestamp, Some(OffsetDateTime::UNIX_EPOCH));
    let record = Deprecation::from_header_texts(&[None, Some(EPOCH)], &[]).unwrap();
    assert_eq!(record.timestamp, None);
}

#[test]
fn record_can_be_printed() {
    let record = Deprecation::from_header_texts(&[Some("true")], &[Some(DEPRECATION)]).unwrap();
    let printed = format!("{:?}", record);
    assert!(printed.contains("timestamp: None"));
    assert!(printed.contains("https://example.com/deprecation"));
}

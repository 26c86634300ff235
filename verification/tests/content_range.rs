use blobservices::http_content_range::{matches_content_range, unsatisfied_range, ContentRange};

#[test]
fn size_counts_both_ends() {
    assert_eq!(ContentRange { start: 0, end: 0, entire_size: 1 }.size(), 1);
    assert_eq!(ContentRange { start: 10, end: 19, entire_size: 100 }.size(), 10);
}

#[test]
fn formats_header_value() {
    assert_eq!(
        ContentRange { start: 0, end: 499, entire_size: 1234 }.to_string(),
        "bytes 0-499/1234"
    );
    assert_eq!(
        ContentRange { start: 7, end: u64::MAX - 1, entire_size: u64::MAX }.to_string(),
        format!("bytes 7-{}/{}", u64::MAX - 1, u64::MAX)
    );
}

#[test]
fn parses_header_value() {
    assert_eq!(
        ContentRange::parse("bytes 0-499/1234"),
        Some(ContentRange { start: 0, end: 499, entire_size: 1234 })
    );
    assert_eq!(ContentRange::parse("bytes 0-499/*"), None);
    assert_eq!(ContentRange::parse("bytes */1234"), None);
    assert_eq!(ContentRange::parse("Bytes 0-499/1234"), None);
    assert_eq!(ContentRange::parse("bytes 0-499/1234 "), None);
    assert_eq!(ContentRange::parse("bytes 0-18446744073709551616/1"), None);
    assert_eq!(ContentRange::parse("bytes"), None);
    assert_eq!(ContentRange::parse(""), None);
}

#[test]
fn formatted_values_read_back() {
    for r in [
        ContentRange { start: 0, end: 0, entire_size: 1 },
        ContentRange { start: 3, end: 9, entire_size: 10 },
        ContentRange { start: 0, end: u64::MAX - 1, entire_size: u64::MAX },
    ] {
        assert_eq!(ContentRange::parse(&r.to_string()), Some(r));
    }
}

#[test]
fn asks_for_the_same_range() {
    assert_eq!(
        ContentRange { start: 5, end: 9, entire_size: 20 }.to_range_request(),
        "bytes=5-9"
    );
}

#[test]
fn matches_only_the_expected_range() {
    let expected = ContentRange { start: 5, end: 9, entire_size: 20 };
    assert!(matches_content_range(Some("bytes 5-9/20"), &expected));
    assert!(!matches_content_range(Some("bytes 5-9/21"), &expected));
    assert!(!matches_content_range(Some("bytes 5-9"), &expected));
    assert!(!matches_content_range(None, &expected));
}

#[test]
fn refused_range_names_the_size() {
    assert_eq!(unsatisfied_range(1234), "bytes */1234");
    assert_eq!(unsatisfied_range(0), "bytes */0");
}

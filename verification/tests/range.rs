use echofs::range::{parse_range, plan_range_reply, RangeReply};

fn assert_range(header: &str, file_size: u64, expected_start: u64, expected_end: u64) {
    let r = parse_range(header, file_size)
        .unwrap_or_else(|| panic!("expected Some for {:?} (size={})", header, file_size));
    assert_eq!((r.start, r.end), (expected_start, expected_end), "range mismatch for {:?} (size={})", header, file_size);
}

#[test]
fn valid_ranges() {
    let cases = [
        ("bytes=0-499", 1000, 0, 499),
        ("bytes=500-", 1000, 500, 999),
        ("bytes=-200", 1000, 800, 999),
        ("bytes=0-0", 1000, 0, 0),
        ("bytes=0-9999", 500, 0, 499),
        ("bytes=999-999", 1000, 999, 999),
    ];
    for (header, size, start, end) in cases {
        assert_range(header, size, start, end);
    }
}

#[test]
fn rejected_ranges() {
    let cases = [
        ("0-499", 1000),
        ("bytes=1000-", 1000),
        ("bytes=500-100", 1000),
        ("bytes=-0", 1000),
        ("bytes=-2000", 1000),
        ("bytes=0-0", 0),
        ("bytes=abc-def", 1000),
        ("garbage", 1000),
    ];
    for (header, size) in cases {
        assert!(parse_range(header, size).is_none(), "expected None for {:?} (size={})", header, size);
    }
}

#[test]
fn range_edge_cases() {
    // whitespace around the numbers is trimmed; a `+` sign is accepted
    assert_range("bytes= 10 - 20 ", 100, 10, 20);
    assert_range("bytes=+5-", 10, 5, 9);
    // an open end on an empty file is refused, as is a second dash
    assert!(parse_range("bytes=5-", 0).is_none());
    assert!(parse_range("bytes=1-2-3", 100).is_none());
    assert!(parse_range("Bytes=0-1", 100).is_none());
    // a suffix of the whole file
    assert_range("bytes=-1000", 1000, 0, 999);
}

#[test]
fn range_replies_and_headers() {
    match plan_range_reply(None, 10) {
        RangeReply::Full { length } => assert_eq!(length, 10),
        _ => panic!("expected full"),
    }
    match plan_range_reply(Some("bytes=0-4"), 10) {
        RangeReply::Partial { start, end, length, content_range } => {
            assert_eq!((start, end, length), (0, 4, 5));
            assert_eq!(content_range, "bytes 0-4/10");
        }
        _ => panic!("expected partial"),
    }
    match plan_range_reply(Some("bytes=-3"), 10) {
        RangeReply::Partial { start, end, content_range, .. } => {
            assert_eq!((start, end), (7, 9));
            assert_eq!(content_range, "bytes 7-9/10");
        }
        _ => panic!("expected partial"),
    }
    match plan_range_reply(Some("bytes=100-200"), 10) {
        RangeReply::Unsatisfiable { content_range } => assert_eq!(content_range, "bytes */10"),
        _ => panic!("expected 416"),
    }
}

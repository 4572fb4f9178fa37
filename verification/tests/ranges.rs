use tcrelay::ranges::{content_range_value, parse, ranged_response, slice_range};

#[test]
fn valid_ranges() {
    assert_eq!(parse(b"bytes=0-0", 1), Some((0, 0)));
    assert_eq!(parse(b"bytes=0-", 43), Some((0, 42)));
    assert_eq!(parse(b"bytes=5-9", 10), Some((5, 9)));
    assert_eq!(parse(b"bytes=5-10", 10), Some((5, 9)));
    assert_eq!(parse(b"bytes=5-90", 10), Some((5, 9)));
    assert_eq!(parse(b"bytes=5-90, 4-5", 10), Some((5, 9)));
    assert_eq!(parse(b"bytes=5-90 ", 10), Some((5, 9)));
    assert_eq!(parse(b"bytes=555555-", 1000000), Some((555555, 999999)));
}

#[test]
fn invalid_ranges() {
    assert_eq!(parse(b"bytes=0-0", 0), None);
    assert_eq!(parse(b"bytes=69-", 42), None);
    assert_eq!(parse(b"bytes=69-420", 31), None);
    assert_eq!(parse(b"bytes=420-69", 621), None);
    assert_eq!(parse(b"bytes=3-3.14", 3621), None);
    assert_eq!(parse(b"boots=5-9", 10), None);
    assert_eq!(parse(b"bytes==5-9", 10), None);
}

#[test]
fn valid_request() {
    let data = b"beep boop".to_vec();
    let res = ranged_response(&data, b"bytes=3-5");
    assert_eq!(res.status, 206);
    assert!(res.accept_ranges);
    assert_eq!(res.content_range, Some((3, 5, 9)));
    assert_eq!(content_range_value(3, 5, 9), b"3-5/9".to_vec());
    assert_eq!(res.body.len(), 3);
    assert_eq!(res.body, b"p b".to_vec());
}

#[test]
fn invalid_request() {
    let data = b"beep boop".to_vec();
    let res = ranged_response(&data, b"bytes=meow");
    assert_eq!(res.status, 416);
    assert!(res.accept_ranges);
    assert_eq!(res.content_range, None);
    assert_eq!(res.body, b"U WOT M8\n".to_vec());
}

#[test]
fn round_trip_interval() {
    let header = format!("bytes={}-{}", 7, 123);
    assert_eq!(parse(header.as_bytes(), 1000), Some((7, 123)));
    assert_eq!(parse(header.as_bytes(), 100), Some((7, 99)));
    assert_eq!(parse(header.as_bytes(), 7), None);
}

#[test]
fn huge_numbers_clamp_or_reject() {
    assert_eq!(parse(b"bytes=99999999999999999999999999-", 10), None);
    assert_eq!(parse(b"bytes=0-99999999999999999999999999", 10), Some((0, 9)));
}

#[test]
fn empty_left_defaults_to_zero() {
    assert_eq!(parse(b"bytes=-5", 10), Some((0, 5)));
    assert_eq!(parse(b"bytes=", 10), Some((0, 9)));
}

#[test]
fn slice_range_copies() {
    assert_eq!(slice_range(b"abcdef", 1, 3), b"bcd".to_vec());
    assert_eq!(slice_range(b"abcdef", 0, 5), b"abcdef".to_vec());
}

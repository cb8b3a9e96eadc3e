use recall::digits::int_text;
use recall::timestamp::{parse_datetime, Timestamp};
use recall::urls::{original_url_endpoint, page_url, save_endpoint, search_url};

#[test]
fn timestamp_iso_layout() {
    let t = parse_datetime("2024-01-15T10:30:00.123456").ok().unwrap();
    assert_eq!((t.year, t.month, t.day), (2024, 1, 15));
    assert_eq!((t.hour, t.minute, t.second), (10, 30, 0));
    assert_eq!(t.to_text(), "2024-01-15 10:30:00");
}

#[test]
fn timestamp_spaced_layout() {
    let t = parse_datetime("1999-12-31 23:59:58.1").ok().unwrap();
    assert_eq!(t.to_text(), "1999-12-31 23:59:58");
    let t = parse_datetime("2001-02-03T04:05:06").ok().unwrap();
    assert_eq!(t.to_text(), "2001-02-03 04:05:06");
}

#[test]
fn timestamp_rejects_other_shapes() {
    assert!(parse_datetime("2024/01/15 10:30:00").is_err());
    assert!(parse_datetime("").is_err());
    assert!(parse_datetime("2024-13-01T00:00:00").is_err());
}

#[test]
fn timestamp_year_padding_and_sign() {
    let t = Timestamp { year: 7, month: 3, day: 4, hour: 5, minute: 6, second: 7 };
    assert_eq!(t.to_text(), "0007-03-04 05:06:07");
    let t = Timestamp { year: -44, month: 3, day: 15, hour: 0, minute: 0, second: 0 };
    assert_eq!(t.to_text(), "-0044-03-15 00:00:00");
    let t = Timestamp { year: 12345, month: 1, day: 1, hour: 0, minute: 0, second: 0 };
    assert_eq!(t.to_text(), "+12345-01-01 00:00:00");
}

#[test]
fn decimal_text() {
    assert_eq!(int_text(0), "0");
    assert_eq!(int_text(907), "907");
    assert_eq!(int_text(-12), "-12");
    assert_eq!(int_text(i64::MIN), "-9223372036854775808");
}

#[test]
fn search_url_encodes_query_and_tags() {
    let tags = vec!["a b".to_string(), "c&d".to_string()];
    assert_eq!(
        search_url("http://h", "rust lang/é", 5, &tags, true),
        "http://h/search_text?q=rust%20lang%2F%C3%A9&limit=5&whole_word=true&tags=a%20b&tags=c%26d"
    );
    assert_eq!(
        search_url("http://h", "x-y_z.~", 10, &vec![], false),
        "http://h/search_text?q=x-y_z.~&limit=10&whole_word=false"
    );
}

#[test]
fn page_and_endpoint_urls() {
    assert_eq!(page_url("http://localhost:8000", 17), "http://localhost:8000/page/17");
    assert_eq!(page_url("http://h", -3), "http://h/page/-3");
    assert_eq!(original_url_endpoint("http://h", 9), "http://h/get_url?id=9");
    assert_eq!(save_endpoint("http://h"), "http://h/save/");
}

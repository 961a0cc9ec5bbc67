use audiobench::text::{
    ends_with, increment_name, integer_text, last_index_of, parse_digits, parse_i32, part,
    push_decimal, same_bytes, same_text,
};

#[test]
fn names_are_counted_up() {
    assert_eq!(increment_name("Patch"), "Patch 2");
    assert_eq!(increment_name("Patch 2"), "Patch 3");
    assert_eq!(increment_name("Patch 9"), "Patch 10");
    assert_eq!(increment_name("Patch 199"), "Patch 200");
    assert_eq!(increment_name("Lead7"), "Lead8");
    assert_eq!(increment_name(""), " 2");
    assert_eq!(increment_name("41"), "42");
    assert_eq!(increment_name("Bass 007"), "Bass 8");
    assert_eq!(increment_name("Größe 3"), "Größe 4");
    assert_eq!(increment_name("Ünïcödé"), "Ünïcödé 2");
    assert_eq!(increment_name("Take 3 b"), "Take 3 b 2");
    assert_eq!(
        increment_name("n 72057594037927934"),
        "n 72057594037927935"
    );
    assert_eq!(
        increment_name("n 72057594037927935"),
        "n 72057594037927935 2"
    );
    assert_eq!(
        increment_name("n 99999999999999999999"),
        "n 99999999999999999999 2"
    );
}

#[test]
fn whole_numbers_are_read() {
    assert_eq!(parse_i32("0"), Some(0));
    assert_eq!(parse_i32("42"), Some(42));
    assert_eq!(parse_i32("-42"), Some(-42));
    assert_eq!(parse_i32("+7"), Some(7));
    assert_eq!(parse_i32("007"), Some(7));
    assert_eq!(parse_i32("2147483647"), Some(i32::MAX));
    assert_eq!(parse_i32("-2147483648"), Some(i32::MIN));
    assert_eq!(parse_i32("2147483648"), None);
    assert_eq!(parse_i32("-2147483649"), None);
    assert_eq!(parse_i32("99999999999999999999999"), None);
    assert_eq!(parse_i32(""), None);
    assert_eq!(parse_i32("-"), None);
    assert_eq!(parse_i32("+"), None);
    assert_eq!(parse_i32(" 1"), None);
    assert_eq!(parse_i32("1 "), None);
    assert_eq!(parse_i32("1.0"), None);
    assert_eq!(parse_i32("--1"), None);
    assert_eq!(parse_i32("１"), None);
    assert_eq!(parse_digits(b"a123b", 1, 4, 1000), Some(123));
    assert_eq!(parse_digits(b"a123b", 1, 4, 122), None);
    assert_eq!(parse_digits(b"a123b", 1, 5, 1000), None);
    assert_eq!(parse_digits(b"a123b", 2, 2, 1000), None);
}

#[test]
fn whole_numbers_are_written() {
    assert_eq!(integer_text(0), "0");
    assert_eq!(integer_text(7), "7");
    assert_eq!(integer_text(-7), "-7");
    assert_eq!(integer_text(1205), "1205");
    assert_eq!(integer_text(i32::MAX), "2147483647");
    assert_eq!(integer_text(i32::MIN), "-2147483648");
    let mut text = "x".to_owned();
    push_decimal(18446744073709551615, &mut text);
    assert_eq!(text, "x18446744073709551615");
    for v in [-1000, -1, 0, 1, 9, 10, 11, 99, 100, 101, 65535] {
        assert_eq!(parse_i32(&integer_text(v)), Some(v));
    }
}

#[test]
fn texts_are_compared_and_cut() {
    assert!(same_text("abc", "abc"));
    assert!(!same_text("abc", "abd"));
    assert!(!same_text("abc", "ab"));
    assert!(same_text("", ""));
    assert!(same_text("héllo", "héllo"));
    assert!(same_bytes(&[1, 2], &[1, 2]));
    assert!(!same_bytes(&[1, 2], &[1]));
    assert!(ends_with("a/b.icon.svg", ".icon.svg"));
    assert!(!ends_with("a/b.icon.svgz", ".icon.svg"));
    assert!(ends_with("x", ""));
    assert!(!ends_with("svg", ".icon.svg"));
    assert!(ends_with("dir/", "/"));
    assert!(ends_with("größe", "öße"));
    assert_eq!(last_index_of("a/b/c", '/'), Some(3));
    assert_eq!(last_index_of("abc", '/'), None);
    assert_eq!(last_index_of("ä/ö", '/'), Some(1));
    assert_eq!(part("größer", 2, 5), "öße");
    assert_eq!(part("abc", 1, 1), "");
}

use otdm::number::{parse_customer_id, usize_to_string};
use otdm::text::{chars_of, last_word_chars, lines_of, remove_all_chars, split_trimmed, string_of, trim_str};

fn strings(v: &Vec<Vec<char>>) -> Vec<String> {
    v.iter().map(|l| l.iter().collect()).collect()
}

#[test]
fn trim_removes_unicode_white_space() {
    assert_eq!(trim_str("  key\t\n"), "key");
    assert_eq!(trim_str("\u{3000}\u{00A0}x y\u{2009}"), "x y");
    assert_eq!(trim_str(" \r\n "), "");
    assert_eq!(trim_str("a"), "a");
}

#[test]
fn lines_split_like_str_lines() {
    let text = chars_of("one\r\ntwo\n\nthree\r");
    assert_eq!(strings(&lines_of(&text)), vec!["one", "two", "", "three\r"]);
    let text = chars_of("a\n");
    assert_eq!(strings(&lines_of(&text)), vec!["a"]);
    let text = chars_of("");
    assert!(lines_of(&text).is_empty());
    let text = chars_of("x\r\r\n");
    assert_eq!(strings(&lines_of(&text)), vec!["x\r"]);
}

#[test]
fn split_trims_each_cell() {
    let line = chars_of("  a | b|c  ||");
    assert_eq!(strings(&split_trimmed(&line, '|')), vec!["a", "b", "c", "", ""]);
    let line = chars_of("");
    assert_eq!(strings(&split_trimmed(&line, '|')), vec![""]);
}

#[test]
fn last_word_of_notice() {
    let w = last_word_chars(&chars_of("INSERT completed for Customer ID 42  \n")).unwrap();
    assert_eq!(string_of(&w), "42");
    assert!(last_word_chars(&chars_of(" \t ")).is_none());
}

#[test]
fn remove_all_is_left_to_right() {
    let r = remove_all_chars(&chars_of("aaa"), &chars_of("aa"));
    assert_eq!(string_of(&r), "a");
    let r = remove_all_chars(&chars_of("public_key:abcpublic_key:d"), &chars_of("public_key:"));
    assert_eq!(string_of(&r), "abcd");
}

#[test]
fn decimal_numerals() {
    assert_eq!(usize_to_string(0), "0");
    assert_eq!(usize_to_string(7), "7");
    assert_eq!(usize_to_string(10), "10");
    assert_eq!(usize_to_string(1234567890), "1234567890");
    assert_eq!(usize_to_string(usize::MAX), usize::MAX.to_string());
}

#[test]
fn customer_id_parsing_follows_str_parse() {
    assert_eq!(parse_customer_id("42"), 42);
    assert_eq!(parse_customer_id("+7"), 7);
    assert_eq!(parse_customer_id("007"), 7);
    assert_eq!(parse_customer_id("0"), 0);
    assert_eq!(parse_customer_id("-1"), 0);
    assert_eq!(parse_customer_id("+"), 0);
    assert_eq!(parse_customer_id(""), 0);
    assert_eq!(parse_customer_id(" 5"), 0);
    assert_eq!(parse_customer_id("5\n"), 0);
    assert_eq!(parse_customer_id("12a"), 0);
    let too_big = format!("{}0", usize::MAX);
    assert_eq!(parse_customer_id(&too_big), 0);
    assert_eq!(parse_customer_id(&usize::MAX.to_string()), usize::MAX);
}

#[test]
fn customer_id_round_trip_values() {
    for n in [1usize, 9, 10, 99, 100, 65535, 4294967296, usize::MAX] {
        assert_eq!(parse_customer_id(&usize_to_string(n)), n);
    }
}

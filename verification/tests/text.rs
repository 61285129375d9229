//! The text helpers every protocol here is written with.

use airwave::text::{
    decimal_string, parse_u32, parse_u64, parse_usize, remove_all, split_char, split_once,
    rsplit_once, strip_prefix, trim, trim_end_matches, trim_matches, utf8_len_at_least,
    zero_padded_string,
};

#[test]
fn numbers_read_back_as_written() {
    for n in [0u64, 7, 10, 99, 12345, u64::MAX] {
        assert_eq!(parse_u64(&decimal_string(n)), Some(n));
    }
    assert_eq!(decimal_string(405), "405");
    assert_eq!(zero_padded_string(5, 2), "05");
    assert_eq!(zero_padded_string(123, 2), "123");
}

#[test]
fn numbers_parse_like_std() {
    assert_eq!(parse_u64("+42"), Some(42));
    assert_eq!(parse_u64(""), None);
    assert_eq!(parse_u64("4a"), None);
    assert_eq!(parse_u64("18446744073709551616"), None);
    assert_eq!(parse_u32("4294967295"), Some(4294967295));
    assert_eq!(parse_u32("4294967296"), None);
    assert_eq!(parse_usize("0"), Some(0));
}

#[test]
fn trimming_and_splitting() {
    assert_eq!(trim("\t a b \r\n"), "a b");
    assert_eq!(trim_matches("//a/b//", '/'), "a/b");
    assert_eq!(trim_end_matches("http://h///", '/'), "http://h");
    assert_eq!(split_char("a,,b", ','), vec!["a", "", "b"]);
    assert_eq!(split_once("k=v=w", '='), Some(("k".to_string(), "v=w".to_string())));
    assert_eq!(rsplit_once("a:b:c", ':'), Some(("a:b".to_string(), "c".to_string())));
    assert_eq!(split_once("abc", '='), None);
    assert_eq!(strip_prefix("bytes=1-2", "bytes="), Some("1-2".to_string()));
    assert_eq!(strip_prefix("items=1", "bytes="), None);
    assert_eq!(remove_all("uuid:uuid:x", "uuid:"), "x");
}

#[test]
fn byte_lengths_count_utf8() {
    assert!(utf8_len_at_least("abcd", 4));
    assert!(!utf8_len_at_least("abc", 4));
    assert!(utf8_len_at_least("éé", 4));
    assert!(utf8_len_at_least("", 0));
}

use carrier::paths::{is_absolute_path, is_root_child};
use carrier::text::{joined, decimal_string, parse_u16, parse_u32, same_text, split_two, trim};
use std::path::Path;

#[test]
fn parse_u16_accepts_plain_and_plus_signed_numbers() {
    assert_eq!(parse_u16("80"), Some(80));
    assert_eq!(parse_u16("+80"), Some(80));
    assert_eq!(parse_u16("0"), Some(0));
    assert_eq!(parse_u16("007"), Some(7));
    assert_eq!(parse_u16("65535"), Some(65535));
}

#[test]
fn parse_u16_refuses_what_str_parse_refuses() {
    for s in ["", "+", "-", "-1", "-0", "65536", "99999999999", " 1", "1 ", "1a", "++1", "٣"] {
        assert_eq!(parse_u16(s), None, "{:?}", s);
        assert!(s.parse::<u16>().is_err(), "{:?}", s);
    }
}

#[test]
fn parse_u16_agrees_with_std_on_many_inputs() {
    let samples = [
        "0", "1", "+1", "10", "0010", "655", "6553", "65535", "65536", "70000", "+65535", "+0",
        "00000000000000000001", "123456789012345678901234567890",
    ];
    for s in samples {
        assert_eq!(parse_u16(s), s.parse::<u16>().ok(), "{:?}", s);
    }
}

#[test]
fn parse_u32_limits() {
    assert_eq!(parse_u32("4294967295"), Some(u32::MAX));
    assert_eq!(parse_u32("4294967296"), None);
    assert_eq!(parse_u32("2"), Some(2));
    assert_eq!(parse_u32("two"), None);
    for s in ["0", "+7", "4294967295", "4294967296", "-3", "", "12x", "1024"] {
        assert_eq!(parse_u32(s), s.parse::<u32>().ok(), "{:?}", s);
    }
}

#[test]
fn decimal_string_writes_like_to_string() {
    for n in [0u32, 1, 9, 10, 99, 100, 1024, 65535, 65536, u32::MAX] {
        assert_eq!(decimal_string(n), n.to_string());
    }
}

#[test]
fn decimal_round_trip() {
    for n in [0u32, 5, 42, 8080, 65535] {
        assert_eq!(parse_u16(&decimal_string(n)), Some(n as u16));
    }
    for n in [0u32, 77, 4294967295] {
        assert_eq!(parse_u32(&decimal_string(n)), Some(n));
    }
}

#[test]
fn trim_drops_unicode_white_space() {
    assert_eq!(trim("  abc \n"), "abc");
    assert_eq!(trim("\u{3000}x y\u{a0}\u{2028}"), "x y");
    assert_eq!(trim("   "), "");
    assert_eq!(trim(""), "");
    assert_eq!(trim("a"), "a");
    for s in ["\t\r\n container-id \n", "\u{85}\u{1680}z\u{205f}", " a b ", "\u{200b}x"] {
        assert_eq!(trim(s), s.trim(), "{:?}", s);
    }
}

#[test]
fn split_two_needs_exactly_one_separator() {
    assert_eq!(split_two("a:b", ':'), Some(("a".to_string(), "b".to_string())));
    assert_eq!(split_two(":", ':'), Some((String::new(), String::new())));
    assert_eq!(split_two("/h:/g", ':'), Some(("/h".to_string(), "/g".to_string())));
    assert_eq!(split_two("a", ':'), None);
    assert_eq!(split_two("a:b:c", ':'), None);
    assert_eq!(split_two("", ':'), None);
}

#[test]
fn same_text_and_concat() {
    assert!(same_text("abc", "abc"));
    assert!(!same_text("abc", "abd"));
    assert!(!same_text("abc", "ab"));
    assert_eq!(joined("ab", "cd"), "abcd");
}

#[test]
fn absolute_paths() {
    assert!(is_absolute_path("/a"));
    assert!(is_absolute_path("/"));
    assert!(!is_absolute_path("a/b"));
    assert!(!is_absolute_path(""));
    for p in ["/a", "/", "a", "./a", ""] {
        assert_eq!(is_absolute_path(p), Path::new(p).is_absolute(), "{:?}", p);
    }
}

#[test]
fn root_children_agree_with_path_components() {
    let samples = [
        "/a", "/a/", "//a", "/./a", "/a/.", "/a/./", "/..", "/a/b", "/a/..", "/", "//", "/.",
        "/abc/def/", "/.a", "/a.", "/a//", "/./", "/x/./.",
    ];
    for p in samples {
        assert_eq!(is_root_child(p), Path::new(p).components().count() == 2, "{:?}", p);
    }
    assert!(is_root_child("/data"));
    assert!(!is_root_child("/data/more"));
}

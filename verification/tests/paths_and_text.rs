use pore::path::{
    enclosing_paths, file_name, is_path_before, join_path, parent_path, same_path, starts_with_path,
};
use pore::text::{
    decimal_of_i32, hexadecimal8, join, parse_bool, parse_u32, split, trim_end_char,
};

#[test]
fn split_and_join_are_inverse() {
    let pieces = split("a,,b,", ',');
    assert_eq!(pieces, vec!["a", "", "b", ""]);
    assert_eq!(join(&pieces, ","), "a,,b,");
    assert_eq!(split("", ','), vec![""]);
    assert_eq!(join(&Vec::new(), ","), "");
}

#[test]
fn numbers_as_text() {
    assert_eq!(decimal_of_i32(-16), "-16");
    assert_eq!(decimal_of_i32(i32::MIN), "-2147483648");
    assert_eq!(decimal_of_i32(0), "0");
    assert_eq!(hexadecimal8(0xbeef), "0000beef");
    assert_eq!(hexadecimal8(u32::MAX), "ffffffff");
}

#[test]
fn text_as_numbers() {
    assert_eq!(parse_u32("4294967295"), Some(4294967295));
    assert_eq!(parse_u32("4294967296"), None);
    assert_eq!(parse_u32("+007"), Some(7));
    assert_eq!(parse_u32("+"), None);
    assert_eq!(parse_u32(""), None);
    assert_eq!(parse_u32("-1"), None);
    assert_eq!(parse_bool("true"), Some(true));
    assert_eq!(parse_bool("false"), Some(false));
    assert_eq!(parse_bool("True"), None);
}

#[test]
fn trimming() {
    assert_eq!(trim_end_char("a//", '/'), "a");
    assert_eq!(trim_end_char("//", '/'), "");
    assert_eq!(trim_end_char("a/b", '/'), "a/b");
}

#[test]
fn joining_paths() {
    assert_eq!(join_path("a", "b"), "a/b");
    assert_eq!(join_path("a/", "b"), "a/b");
    assert_eq!(join_path("a", "/b"), "/b");
    assert_eq!(join_path("", "b"), "b");
    assert_eq!(join_path("a", ""), "a/");
}

#[test]
fn paths_beneath_paths() {
    assert!(starts_with_path("a/b/c", "a/b"));
    assert!(starts_with_path("a/b", "a/b/"));
    assert!(!starts_with_path("a/bc", "a/b"));
    assert!(starts_with_path("a", ""));
    assert!(!starts_with_path("/a", "a"));
    assert!(same_path("a//b/.", "a/b"));
    assert!(!same_path("./a", "a"));
}

#[test]
fn parents() {
    assert_eq!(parent_path("/a/b"), Some("/a".to_string()));
    assert_eq!(parent_path("/a"), Some("/".to_string()));
    assert_eq!(parent_path("/"), None);
    assert_eq!(parent_path("a//b/"), Some("a".to_string()));
    assert_eq!(parent_path("a"), Some("".to_string()));
    assert_eq!(parent_path(""), None);
    assert_eq!(file_name("a/.git/"), Some(".git".to_string()));
    assert_eq!(file_name("a/.."), None);
    assert_eq!(enclosing_paths("/a/b"), vec!["/a/b", "/a", "/"]);
}

#[test]
fn order_of_paths() {
    assert!(is_path_before("a", "a/b"));
    assert!(is_path_before("a/b", "a-b"));
    assert!(!is_path_before("a-b", "a/b"));
    assert!(!is_path_before("a", "a/"));
}

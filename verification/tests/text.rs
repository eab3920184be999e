use choreo_tools::bytes::{bytes_of, decode_text};
use choreo_tools::matching::{ascii_lower, contains, ends_with, replace_all, starts_with};
use choreo_tools::order::{order_by_name, precedes, sorted_pairs, sorted_texts};
use choreo_tools::text::{cut_to, join_lines, push_decimal, push_signed, split, trim};

#[test]
fn numbers_are_written_in_decimal() {
    let mut s = String::new();
    for n in [0, 7, 10, u64::MAX] {
        push_decimal(&mut s, n);
        s.push(' ');
    }
    for n in [0, -1, i32::MIN, i32::MAX] {
        push_signed(&mut s, n);
        s.push(' ');
    }
    assert_eq!(s, "0 7 10 18446744073709551615 0 -1 -2147483648 2147483647 ");
}

#[test]
fn texts_are_cut_split_and_joined() {
    assert_eq!(cut_to("ab€c", 4), "ab");
    assert_eq!(cut_to("ab€c", 5), "ab€");
    assert_eq!(split("a,,b", ','), vec!["a", "", "b"]);
    assert_eq!(join_lines(&vec!["a".to_string(), "b".to_string()]), "a\nb");
    assert_eq!(trim(" \t\u{a0}a b\n"), "a b");
    assert_eq!(trim("  "), "");
}

#[test]
fn texts_are_matched() {
    assert_eq!(ascii_lower("AbÉ"), "abÉ");
    assert!(starts_with("abc", "ab") && !starts_with("a", "ab"));
    assert!(ends_with("abc", "bc") && !ends_with("c", "bc"));
    assert!(contains("abc", "b") && contains("abc", "") && !contains("abc", "d"));
    assert_eq!(replace_all("aXbXX", "X", "yy"), "ayybyyyy");
    assert_eq!(replace_all("aaa", "aa", "b"), "ba");
}

#[test]
fn names_are_ordered_and_equal_names_keep_their_places() {
    assert!(precedes("a", "b") && precedes("a", "ab"));
    let names: Vec<String> = ["b", "a", "b", "a"].iter().map(|s| s.to_string()).collect();
    assert_eq!(order_by_name(&names), vec![1, 3, 0, 2]);
    assert_eq!(sorted_texts(names), vec!["a", "a", "b", "b"]);
    let pairs = vec![("b".to_string(), 1), ("a".to_string(), 2)];
    assert_eq!(sorted_pairs(pairs), vec![("a".to_string(), 2), ("b".to_string(), 1)]);
}

#[test]
fn bytes_are_decoded() {
    assert_eq!(decode_text("é€😀".as_bytes()).unwrap(), "é€😀");
    assert_eq!(decode_text(b"ab\xff"), Err(2));
    assert_eq!(bytes_of("é"), vec![0xc3, 0xa9]);
}

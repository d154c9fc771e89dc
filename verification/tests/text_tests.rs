use gidterm::strmap::StrMap;
use gidterm::text::{
    blank, chars_of, contains, find_text, matches_at, push_capped, push_decimal, push_scaled,
    push_signed, round_to, sorted_strings, str_contains, str_eq, str_le, string_of, strip_line_end,
    join_lines,
};

fn chars(s: &str) -> Vec<char> {
    s.chars().collect()
}

#[test]
fn strings_and_characters_go_back_and_forth() {
    assert_eq!(chars_of("héllo"), chars("héllo"));
    assert_eq!(string_of(&chars("héllo")), "héllo");
    assert!(str_eq("a", "a") && !str_eq("a", "b"));
}

#[test]
fn searching_text() {
    let hay = chars("one two one");
    assert!(matches_at(&hay, &chars("two"), 4));
    assert!(!matches_at(&hay, &chars("two"), 3));
    assert!(!matches_at(&hay, &chars("one"), 9));
    assert!(matches_at(&hay, &chars(""), 11));
    assert_eq!(find_text(&hay, &chars("one"), 0), Some(0));
    assert_eq!(find_text(&hay, &chars("one"), 1), Some(8));
    assert_eq!(find_text(&hay, &chars("one"), 9), None);
    assert_eq!(find_text(&hay, &chars("three"), 0), None);
    assert!(contains(&hay, &chars("e t")));
    assert!(str_contains("Loss is NaN", "NaN"));
    assert!(!str_contains("Loss is NaN", "nan"));
    assert!(str_contains("x", ""));
}

#[test]
fn numbers_in_words() {
    let mut out = Vec::new();
    push_decimal(&mut out, 0);
    push_decimal(&mut out, 1234567890);
    push_decimal(&mut out, u64::MAX);
    assert_eq!(string_of(&out), "0123456789018446744073709551615");
    let mut out = Vec::new();
    push_signed(&mut out, -1);
    push_signed(&mut out, 0);
    push_signed(&mut out, i64::MIN);
    assert_eq!(string_of(&out), "-10-9223372036854775808");
}

fn scaled(n: i64, places: usize) -> String {
    let mut out = Vec::new();
    push_scaled(&mut out, n, places);
    string_of(&out)
}

#[test]
fn fixed_point_numbers_in_words() {
    assert_eq!(scaled(2500, 3), "2.500");
    assert_eq!(scaled(-20, 4), "-0.0020");
    assert_eq!(scaled(50, 0), "50");
    assert_eq!(scaled(995, 1), "99.5");
    assert_eq!(scaled(7, 3), "0.007");
    assert_eq!(scaled(0, 2), "0.00");
}

#[test]
fn rounding_is_to_the_nearest() {
    assert_eq!(round_to(1499, 1000), 1);
    assert_eq!(round_to(1500, 1000), 2);
    assert_eq!(round_to(-1499, 1000), -1);
    assert_eq!(round_to(-1500, 1000), -2);
    assert_eq!(round_to(7, 1), 7);
    assert_eq!(round_to(i64::MAX, 2), 4611686018427387904);
    assert_eq!(round_to(i64::MIN, 1), i64::MIN);
}

#[test]
fn line_ends_and_blanks() {
    let mut v = chars("text \r\n\n");
    strip_line_end(&mut v);
    assert_eq!(string_of(&v), "text ");
    assert!(blank(""));
    assert!(blank(" \t\r\n\u{3000}"));
    assert!(!blank(" x "));
    assert!(!blank("\u{200b}"));
}

#[test]
fn capped_lists_drop_the_oldest() {
    let mut v = vec![1, 2, 3];
    push_capped(&mut v, 4, 3);
    assert_eq!(v, vec![2, 3, 4]);
    push_capped(&mut v, 5, 10);
    assert_eq!(v, vec![2, 3, 4, 5]);
    push_capped(&mut v, 6, 0);
    assert!(v.is_empty());
}

#[test]
fn strings_are_sorted_as_strings() {
    let names: Vec<String> = ["web", "api", "Zed", "api2", "", "ab", "api"].iter().map(|s| s.to_string()).collect();
    let mut expected = names.clone();
    expected.sort();
    assert_eq!(sorted_strings(&names), expected);
    assert!(str_le("", "a") && str_le("a", "a") && str_le("a", "ab") && !str_le("b", "ab"));
    assert!(str_le("Z", "a") && !str_le("é", "z"));
}

#[test]
fn lines_are_joined_with_line_feeds() {
    let lines: Vec<String> = ["a", "b", "c"].iter().map(|s| s.to_string()).collect();
    assert_eq!(join_lines(&lines, 0), "a\nb\nc");
    assert_eq!(join_lines(&lines, 2), "c");
    assert_eq!(join_lines(&lines, 3), "");
}

#[test]
fn a_map_keeps_the_order_of_its_keys() {
    let mut m: StrMap<u32> = StrMap::new();
    assert!(m.is_empty());
    assert_eq!(m.insert("b".to_string(), 1), None);
    assert_eq!(m.insert("a".to_string(), 2), None);
    assert_eq!(m.insert("b".to_string(), 3), Some(1));
    assert_eq!(m.key_list(), vec!["b", "a"]);
    assert_eq!(m.get("b"), Some(&3));
    assert_eq!(m.get("c"), None);
    assert_eq!(m.position("a"), Some(1));
    assert!(m.contains_key("a") && !m.contains_key("c"));
    assert_eq!((m.key_at(0).as_str(), *m.value_at(0)), ("b", 3));
    assert_eq!(m.remove("b"), Some(3));
    assert_eq!(m.remove("b"), None);
    assert_eq!(m.len(), 1);
    m.insert_at(0, "z".to_string(), 9);
    assert_eq!(m.key_list(), vec!["z", "a"]);
    assert_eq!(m.remove_at(1), ("a".to_string(), 2));
    let built = StrMap::from_entries(vec![
        ("x".to_string(), 1),
        ("y".to_string(), 2),
        ("x".to_string(), 3),
    ]);
    assert_eq!(built.key_list(), vec!["x", "y"]);
    assert_eq!(built.get("x"), Some(&3));
}

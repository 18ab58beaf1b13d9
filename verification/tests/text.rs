use a3mo::text::{
    bool_string, chars_of, contains, decimal_string, ends_with, join2, join3, matches_at,
    separator, signed_decimal_string, starts_with, string_of, string_of_range,
};

fn chars(s: &str) -> Vec<char> {
    s.chars().collect()
}

#[test]
fn decimal_numerals() {
    assert_eq!(decimal_string(0), "0");
    assert_eq!(decimal_string(7), "7");
    assert_eq!(decimal_string(10), "10");
    assert_eq!(decimal_string(123456789), "123456789");
    assert_eq!(decimal_string(u64::MAX), u64::MAX.to_string());
    for n in [1u64, 9, 99, 100, 1001, 4294967296, 9999999999999999999] {
        assert_eq!(decimal_string(n), n.to_string());
    }
}

#[test]
fn signed_decimal_numerals() {
    assert_eq!(signed_decimal_string(0), "0");
    assert_eq!(signed_decimal_string(-1), "-1");
    assert_eq!(signed_decimal_string(42), "42");
    assert_eq!(signed_decimal_string(i64::MAX), i64::MAX.to_string());
    assert_eq!(signed_decimal_string(i64::MIN), i64::MIN.to_string());
}

#[test]
fn truth_values_as_text() {
    assert_eq!(bool_string(true), "true");
    assert_eq!(bool_string(false), "false");
}

#[test]
fn strings_and_their_characters() {
    assert_eq!(chars_of("a\u{e9}/b"), vec!['a', '\u{e9}', '/', 'b']);
    assert_eq!(string_of(&chars("h\u{e9}llo")), "h\u{e9}llo");
    assert_eq!(string_of_range(&chars("hello"), 1, 3), "el");
    assert_eq!(string_of_range(&chars("hello"), 2, 2), "");
    assert_eq!(join2("ab", "cd"), "abcd");
    assert_eq!(join3("a", "/", "b"), "a/b");
}

#[test]
fn separators() {
    assert!(separator('/'));
    assert!(separator('\\'));
    assert!(!separator('.'));
}

#[test]
fn searching_in_text() {
    let hay = chars("a.pbo.a3mo_delta");
    assert!(contains(&hay, &chars(".a3mo_delta")));
    assert!(contains(&hay, &chars("")));
    assert!(contains(&hay, &chars("a.pbo.a3mo_delta")));
    assert!(!contains(&hay, &chars("a.pbo.a3mo_deltas")));
    assert!(!contains(&chars(""), &chars("x")));
    assert!(contains(&chars(""), &chars("")));
    assert!(matches_at(&hay, &chars("pbo"), 2));
    assert!(!matches_at(&hay, &chars("pbo"), 3));
    assert!(!matches_at(&hay, &chars("pbo"), 100));
    assert!(starts_with(&hay, &chars("a.p")));
    assert!(!starts_with(&hay, &chars(".p")));
    assert!(ends_with(&hay, &chars("delta")));
    assert!(!ends_with(&hay, &chars("delt")));
    assert!(ends_with(&hay, &chars("")));
}

use csaf_lib::csaf::text::{
    braced_string, bracketed_string, contains_id, debug_list_string, debug_set_string,
    decimal_string, join_strings, same_text, string_lt,
};

fn strings(ids: &[&str]) -> Vec<String> {
    ids.iter().map(|s| s.to_string()).collect()
}

#[test]
fn decimal_numerals() {
    assert_eq!(decimal_string(0), "0");
    assert_eq!(decimal_string(7), "7");
    assert_eq!(decimal_string(10), "10");
    assert_eq!(decimal_string(109), "109");
    assert_eq!(decimal_string(1234567890), "1234567890");
    assert_eq!(decimal_string(usize::MAX), usize::MAX.to_string());
}

#[test]
fn joined_strings() {
    assert_eq!(join_strings(&strings(&[]), ", "), "");
    assert_eq!(join_strings(&strings(&["a"]), ", "), "a");
    assert_eq!(join_strings(&strings(&["a", "", "c"]), " -> "), "a ->  -> c");
    assert_eq!(join_strings(&strings(&["a", "b"]), ""), "ab");
}

#[test]
fn lists_between_brackets() {
    assert_eq!(bracketed_string(&strings(&[])), "[]");
    assert_eq!(bracketed_string(&strings(&["a", "b"])), "[a, b]");
    assert_eq!(debug_list_string(&strings(&[])), "[]");
    assert_eq!(debug_list_string(&strings(&["a", "b c"])), "[\"a\", \"b c\"]");
    let odd = strings(&["tab\there", "quote\"", "back\\slash", "é"]);
    assert_eq!(debug_list_string(&odd), format!("{:?}", odd));
    assert_eq!(braced_string(&strings(&["a", "b"])), "{a, b}");
    assert_eq!(debug_set_string(&strings(&[])), "{}");
    assert_eq!(debug_set_string(&strings(&["a", "b c"])), "{\"a\", \"b c\"}");
}

#[test]
fn lexicographic_order_of_strings() {
    let words = ["", "A", "B", "a", "ab", "abc", "b", "é", "😀"];
    for (i, a) in words.iter().enumerate() {
        for (j, b) in words.iter().enumerate() {
            assert_eq!(string_lt(&a.to_string(), &b.to_string()), i < j);
            assert_eq!(string_lt(&a.to_string(), &b.to_string()), a < b);
            assert_eq!(same_text(a, b), i == j);
        }
    }
}

#[test]
fn membership_in_a_list_of_strings() {
    let ids = strings(&["a", "b", ""]);
    assert!(contains_id(&ids, &"b".to_string()));
    assert!(contains_id(&ids, &"".to_string()));
    assert!(!contains_id(&ids, &"c".to_string()));
    assert!(!contains_id(&strings(&[]), &"a".to_string()));
}

use gateway_core::text::{
    chars_of, compare, contains, contains_ignoring_case, contains_text, insert_unique, is_blank,
    is_whitespace, joined, lower, lowered_chars, same_text, sorted_unique, starts_with, to_decimal,
    trim_end_char, Rank,
};

#[test]
fn chars_of_lists_scalar_values() {
    assert_eq!(chars_of("aé✅"), vec!['a', 'é', '✅']);
    assert!(chars_of("").is_empty());
}

#[test]
fn contains_finds_substrings() {
    assert!(contains("Test hint Another hint", "Another"));
    assert!(contains("abc", ""));
    assert!(contains("", ""));
    assert!(!contains("", "a"));
    assert!(!contains("abc", "abcd"));
    assert!(contains("xxabc", "abc"));
    assert!(!contains("Visual property", "visual property"));
    assert!(contains("naïve ✅ café", "✅ ca"));
}

#[test]
fn starts_with_checks_the_beginning() {
    assert!(starts_with("mcp__pencil__x", "mcp__pencil__"));
    assert!(starts_with("abc", ""));
    assert!(!starts_with("ab", "abc"));
    assert!(!starts_with("xabc", "abc"));
}

#[test]
fn same_text_compares_whole_texts() {
    assert!(same_text("", ""));
    assert!(same_text("abc", "abc"));
    assert!(!same_text("abc", "abd"));
    assert!(!same_text("abc", "ab"));
}

#[test]
fn blank_texts_hold_only_white_space() {
    assert!(is_blank(""));
    assert!(is_blank("  \t\r\n"));
    assert!(is_blank("\u{00a0}\u{2003}\u{3000}"));
    assert!(!is_blank(" a "));
    assert!(!is_blank("\u{200b}"));
}

#[test]
fn whitespace_agrees_with_the_standard_library() {
    for n in 0u32..0x3100 {
        if let Some(c) = char::from_u32(n) {
            assert_eq!(is_whitespace(c), c.is_whitespace(), "U+{:04X}", n);
        }
    }
}

#[test]
fn trim_end_char_removes_the_trailing_run() {
    assert_eq!(trim_end_char("http://x///", '/'), "http://x");
    assert_eq!(trim_end_char("///", '/'), "");
    assert_eq!(trim_end_char("a/b", '/'), "a/b");
    assert_eq!(trim_end_char("", '/'), "");
}

#[test]
fn compare_orders_by_scalar_value() {
    assert_eq!(compare("a", "b"), Rank::Before);
    assert_eq!(compare("b", "a"), Rank::After);
    assert_eq!(compare("abc", "abc"), Rank::Same);
    assert_eq!(compare("ab", "abc"), Rank::Before);
    assert_eq!(compare("abc", "ab"), Rank::After);
    assert_eq!(compare("", ""), Rank::Same);
    assert_eq!(compare("Z", "a"), Rank::Before);
    assert_eq!(compare("z", "é"), Rank::Before);
}

#[test]
fn compare_agrees_with_the_standard_order() {
    let samples = ["", "a", "ab", "b", "B", "é", "z", "✅", "glm-4", "glm-4.5", "model"];
    for x in samples {
        for y in samples {
            let expected = match x.cmp(y) {
                std::cmp::Ordering::Less => Rank::Before,
                std::cmp::Ordering::Equal => Rank::Same,
                std::cmp::Ordering::Greater => Rank::After,
            };
            assert_eq!(compare(x, y), expected, "{:?} against {:?}", x, y);
        }
    }
}

#[test]
fn to_decimal_renders_numbers() {
    assert_eq!(to_decimal(0), "0");
    assert_eq!(to_decimal(7), "7");
    assert_eq!(to_decimal(10), "10");
    assert_eq!(to_decimal(8045), "8045");
    assert_eq!(to_decimal(u64::MAX), "18446744073709551615");
}

#[test]
fn joined_concatenates() {
    assert_eq!(joined("sk-", "abc"), "sk-abc");
    assert_eq!(joined("", ""), "");
}

#[test]
fn sorted_unique_sorts_and_drops_repeats() {
    let items: Vec<String> =
        ["glm-4", "chat", "glm-4", "a", "chat", "B"].iter().map(|s| s.to_string()).collect();
    assert_eq!(sorted_unique(&items), vec!["B", "a", "chat", "glm-4"]);
    assert!(sorted_unique(&Vec::new()).is_empty());
}

#[test]
fn sorted_unique_agrees_with_sort_and_dedup() {
    let items: Vec<String> = ["m3", "m1", "m2", "m1", "", "m10", "M1", "é", "m3"]
        .iter()
        .map(|s| s.to_string())
        .collect();
    let mut expected = items.clone();
    expected.sort();
    expected.dedup();
    assert_eq!(sorted_unique(&items), expected);
}

#[test]
fn insert_unique_keeps_the_order() {
    let mut out: Vec<String> = vec!["b".to_string(), "d".to_string()];
    insert_unique(&mut out, "c");
    insert_unique(&mut out, "a");
    insert_unique(&mut out, "e");
    insert_unique(&mut out, "c");
    assert_eq!(out, vec!["a", "b", "c", "d", "e"]);
}

#[test]
fn contains_text_looks_for_a_member() {
    let items: Vec<String> = vec!["a".to_string(), "bc".to_string()];
    assert!(contains_text(&items, "bc"));
    assert!(!contains_text(&items, "b"));
    assert!(!contains_text(&Vec::new(), ""));
}

#[test]
fn lower_changes_ascii_capitals_only() {
    assert_eq!(lower('A'), 'a');
    assert_eq!(lower('Z'), 'z');
    assert_eq!(lower('V'), 'v');
    assert_eq!(lower('a'), 'a');
    assert_eq!(lower('@'), '@');
    assert_eq!(lower('['), '[');
    assert_eq!(lower('É'), 'É');
    assert_eq!(lowered_chars("Ab-Z é"), vec!['a', 'b', '-', 'z', ' ', 'é']);
}

#[test]
fn contains_ignoring_case_finds_in_any_case() {
    assert!(contains_ignoring_case("Visual property for UI elements", "visual property"));
    assert!(contains_ignoring_case("x VISUAL PROPERTY", "Visual Property"));
    assert!(contains_ignoring_case("abc", ""));
    assert!(!contains_ignoring_case("visual-property", "visual property"));
    assert!(!contains_ignoring_case("", "a"));
}

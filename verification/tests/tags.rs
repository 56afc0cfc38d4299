use project_hub::tags::{bool_from, encode_list, encode_tags, json_list, json_tags, normalize_tags};
use project_hub::text::{decimal, trim};

fn strings(items: &[&str]) -> Vec<String> {
    items.iter().map(|s| s.to_string()).collect()
}

#[test]
fn tags_are_trimmed_deduplicated_and_kept_in_order() {
    assert_eq!(normalize_tags(strings(&["验收", "验收", " 核心 "])), strings(&["验收", "核心"]));
    assert_eq!(normalize_tags(strings(&["前端", "前端", " Web "])), strings(&["前端", "Web"]));
    assert_eq!(normalize_tags(strings(&["  ", "", "a", " a", "b ", "a"])), strings(&["a", "b"]));
    assert!(normalize_tags(vec![]).is_empty());
}

#[test]
fn normalizing_twice_changes_nothing() {
    let once = normalize_tags(strings(&[" x ", "y", "x", "\u{3000}z\u{3000}", ""]));
    assert_eq!(once, strings(&["x", "y", "z"]));
    assert_eq!(normalize_tags(once.clone()), once);
}

#[test]
fn trimming_removes_unicode_whitespace() {
    assert_eq!(trim("\u{3000} 项目\t\n"), "项目");
    assert_eq!(trim("  "), "");
    assert_eq!(trim("a b"), "a b");
}

#[test]
fn stored_lists_are_json() {
    assert_eq!(encode_list(&strings(&["{path}", "--reuse-window"])).unwrap(), "[\"{path}\",\"--reuse-window\"]");
    assert_eq!(encode_tags(strings(&["验收", "验收", " 核心 "])).unwrap(), "[\"验收\",\"核心\"]");
    assert_eq!(json_list("[\"a\",\" b \"]".to_string()), strings(&["a", " b "]));
    assert!(json_list("not json".to_string()).is_empty());
    assert_eq!(json_tags("[\" a \",\"a\",\"\"]".to_string()), strings(&["a"]));
    assert!(json_tags("{}".to_string()).is_empty());
}

#[test]
fn stored_flags() {
    assert!(bool_from(1));
    assert!(bool_from(-3));
    assert!(!bool_from(0));
}

#[test]
fn decimal_numbers() {
    assert_eq!(decimal(0), "0");
    assert_eq!(decimal(3), "3");
    assert_eq!(decimal(1024), "1024");
    assert_eq!(decimal(u32::MAX), "4294967295");
}

#[test]
fn lists_are_written_as_compact_json() {
    assert_eq!(encode_list(&vec![]).unwrap(), "[]");
    assert_eq!(
        encode_list(&vec!["a\"b\\c\n\u{1}\u{7f}".to_string(), "项目".to_string()]).unwrap(),
        "[\"a\\\"b\\\\c\\n\\u0001\u{7f}\",\"项目\"]"
    );
    assert_eq!(
        json_list(encode_list(&vec!["a\"b\\c\n\u{1}".to_string()]).unwrap()),
        vec!["a\"b\\c\n\u{1}".to_string()]
    );
}

use opz::envfile::{
    count_plaintext_env_entries, is_op_reference, merge_env_file, normalize_env_value,
    parse_env_key, parse_env_line_kv, parse_env_text, strip_inline_comment, temp_env_file_name,
};
use opz::resolver::{merge_env_lines, sectioned_env_output_string, show_output_string};

fn pair(key: &str, value: &str) -> (String, String) {
    (key.to_string(), value.to_string())
}

fn lines(values: &[&str]) -> Vec<String> {
    values.iter().map(|value| value.to_string()).collect()
}

#[test]
fn test_parse_env_key_basic() {
    assert_eq!(parse_env_key("KEY=value"), Some("KEY"));
    assert_eq!(parse_env_key("FOO_BAR=baz"), Some("FOO_BAR"));
}

#[test]
fn test_parse_env_key_with_quotes() {
    assert_eq!(parse_env_key(r#"KEY="value""#), Some("KEY"));
}

#[test]
fn test_parse_env_key_comments_and_empty() {
    assert_eq!(parse_env_key("# comment"), None);
    assert_eq!(parse_env_key(""), None);
    assert_eq!(parse_env_key("   "), None);
    assert_eq!(parse_env_key("  # indented comment"), None);
}

#[test]
fn test_write_env_file_creates_file() {
    let content = merge_env_file(None, &lines(&[r#"KEY1="value1""#, r#"KEY2="value2""#]));
    assert!(content.contains(r#"KEY1="value1""#));
    assert!(content.contains(r#"KEY2="value2""#));
}

#[test]
fn test_write_env_file_with_newlines() {
    let content = merge_env_file(None, &lines(&[r#"MULTI="line1\nline2""#]));
    assert!(content.contains(r#"MULTI="line1\nline2""#));
}

#[test]
fn test_write_env_file_empty_lines() {
    let content = merge_env_file(None, &[]);
    assert!(content.is_empty());
}

#[test]
fn test_write_env_file_appends_new_keys() {
    let content = merge_env_file(
        Some("OLD_KEY=old_value\n"),
        &lines(&[r#"NEW_KEY="new_value""#]),
    );
    assert!(content.contains("OLD_KEY=old_value"));
    assert!(content.contains(r#"NEW_KEY="new_value""#));
}

#[test]
fn test_write_env_file_overwrites_duplicates() {
    let content = merge_env_file(
        Some("API_KEY=old_secret\nOTHER_KEY=keep_me\n"),
        &lines(&[r#"API_KEY="new_secret""#]),
    );
    assert!(content.contains(r#"API_KEY="new_secret""#));
    assert!(!content.contains("API_KEY=old_secret"));
    assert!(content.contains("OTHER_KEY=keep_me"));
}

#[test]
fn test_write_env_file_preserves_comments() {
    let content = merge_env_file(
        Some("# This is a comment\nKEY1=value1\n\n# Another comment\n"),
        &lines(&[r#"KEY2="value2""#]),
    );
    assert!(content.contains("# This is a comment"));
    assert!(content.contains("# Another comment"));
    assert!(content.contains("KEY1=value1"));
    assert!(content.contains(r#"KEY2="value2""#));
}

#[test]
fn test_write_env_file_mixed_overwrite_and_append() {
    let content = merge_env_file(
        Some("KEY1=original1\nKEY2=original2\n"),
        &lines(&[r#"KEY1="updated1""#, r#"KEY3="new3""#]),
    );
    let content_lines: Vec<&str> = content.lines().collect();
    assert!(content_lines[0].contains(r#"KEY1="updated1""#));
    assert!(content_lines[1].contains("KEY2=original2"));
    assert!(content_lines[2].contains(r#"KEY3="new3""#));
    assert_eq!(
        content,
        "KEY1=\"updated1\"\nKEY2=original2\nKEY3=\"new3\"\n"
    );
}

#[test]
fn test_parse_env_file_basic() {
    let (pairs, notices) = parse_env_text("API_KEY=secret\nDB_HOST=localhost\n");
    assert_eq!(pairs.len(), 2);
    assert_eq!(pairs[0], pair("API_KEY", "secret"));
    assert_eq!(pairs[1], pair("DB_HOST", "localhost"));
    assert!(notices.is_empty());
}

#[test]
fn test_parse_env_file_handles_comments_export_and_quotes() {
    let (pairs, _) = parse_env_text(
        r#"# comment
export TOKEN=abc
QUOTED="hello"
SINGLE='world'
"#,
    );
    assert_eq!(pairs.len(), 3);
    assert_eq!(pairs[0], pair("TOKEN", "abc"));
    assert_eq!(pairs[1], pair("QUOTED", "hello"));
    assert_eq!(pairs[2], pair("SINGLE", "world"));
}

#[test]
fn test_parse_env_file_skips_invalid_keys() {
    let (pairs, _) = parse_env_text("VALID=value\nINVALID-KEY=value\n1INVALID=value\n");
    assert_eq!(pairs.len(), 1);
    assert_eq!(pairs[0], pair("VALID", "value"));
}

#[test]
fn test_parse_env_file_supports_inline_comments_and_hash_in_quotes() {
    let (pairs, _) = parse_env_text(
        r#"PLAIN=value # comment
NO_COMMENT=value#hash
DOUBLE="value # kept"
SINGLE='value # kept'
"#,
    );
    assert_eq!(pairs.len(), 4);
    assert_eq!(pairs[0], pair("PLAIN", "value"));
    assert_eq!(pairs[1], pair("NO_COMMENT", "value#hash"));
    assert_eq!(pairs[2], pair("DOUBLE", "value # kept"));
    assert_eq!(pairs[3], pair("SINGLE", "value # kept"));
}

#[test]
fn test_parse_env_file_allows_export_with_multiple_spaces() {
    let (pairs, _) = parse_env_text("export   TOKEN=abc\n");
    assert_eq!(pairs.len(), 1);
    assert_eq!(pairs[0], pair("TOKEN", "abc"));
}

#[test]
fn test_parse_env_file_duplicate_keys_last_wins() {
    let (pairs, _) = parse_env_text("A=first\nB=keep\nA=last\n");
    assert_eq!(pairs.len(), 2);
    assert_eq!(pairs[0], pair("B", "keep"));
    assert_eq!(pairs[1], pair("A", "last"));
}

#[test]
fn test_parse_env_file_skips_existing_op_references() {
    let (pairs, _) = parse_env_text("NEW_SECRET=plain\nEXISTING=op://vault/item/EXISTING\n");
    assert_eq!(pairs.len(), 1);
    assert_eq!(pairs[0], pair("NEW_SECRET", "plain"));
}

#[test]
fn test_is_op_reference() {
    assert!(is_op_reference("op://vault/item/key"));
    assert!(!is_op_reference("value"));
}

#[test]
fn test_count_plaintext_env_entries_ignores_op_references() {
    assert_eq!(
        count_plaintext_env_entries(
            "API_KEY=plain\nEXISTING=op://vault/item/EXISTING\nEMPTY=\n# COMMENT=ignored\n"
        ),
        1
    );
}

#[test]
fn lines_are_split_at_the_first_sign() {
    assert_eq!(parse_env_line_kv("A=op://v/i/A"), Some(("A", "op://v/i/A")));
    assert_eq!(parse_env_line_kv("A=b=c"), Some(("A", "b=c")));
    assert_eq!(parse_env_line_kv("# A=b"), None);
    assert_eq!(parse_env_line_kv("nothing"), None);
}

#[test]
fn comments_end_values_outside_quotes() {
    assert_eq!(strip_inline_comment("a # b"), "a");
    assert_eq!(strip_inline_comment("a#b"), "a#b");
    assert_eq!(strip_inline_comment("\"a # b\""), "\"a # b\"");
    assert_eq!(normalize_env_value(" 'a b' "), "a b");
    assert_eq!(normalize_env_value("plain"), "plain");
}

#[test]
fn temporary_files_are_named_by_process_time_and_attempt() {
    assert_eq!(
        temp_env_file_name(42, "test-vault", 3),
        "opz-env-42-18e1186c195d50bc-3.env"
    );
}

#[test]
fn test_merge_env_lines_last_item_wins() {
    let sections = vec![
        (
            "foo".to_string(),
            vec![
                "A=op://vault1/item1/A".to_string(),
                "B=op://vault1/item1/B".to_string(),
            ],
        ),
        (
            "bar".to_string(),
            vec![
                "A=op://vault2/item2/A".to_string(),
                "C=op://vault2/item2/C".to_string(),
            ],
        ),
    ];

    let merged = merge_env_lines(&sections);
    assert_eq!(
        merged,
        vec![
            "A=op://vault2/item2/A".to_string(),
            "B=op://vault1/item1/B".to_string(),
            "C=op://vault2/item2/C".to_string(),
        ]
    );
}

#[test]
fn test_sectioned_env_output_string() {
    let sections = vec![
        (
            "foo".to_string(),
            vec!["A=op://v1/i1/A".to_string(), "B=op://v1/i1/B".to_string()],
        ),
        ("bar".to_string(), vec!["C=op://v2/i2/C".to_string()]),
    ];

    let rendered = sectioned_env_output_string(&sections);
    assert_eq!(
        rendered,
        "# --- item: foo ---\nA=op://v1/i1/A\nB=op://v1/i1/B\n\n# --- item: bar ---\nC=op://v2/i2/C\n"
    );
}

#[test]
fn test_show_output_string_plain() {
    let sections = vec![
        ("foo".to_string(), vec!["A".to_string(), "B".to_string()]),
        ("bar".to_string(), vec!["C".to_string()]),
    ];

    let rendered = show_output_string(&sections, false);
    assert_eq!(rendered, "A\nB\nC\n");
}

#[test]
fn test_show_output_string_with_item() {
    let sections = vec![
        ("foo".to_string(), vec!["A".to_string(), "B".to_string()]),
        ("bar".to_string(), vec!["C".to_string()]),
    ];

    let rendered = show_output_string(&sections, true);
    assert_eq!(
        rendered,
        "# --- item: foo ---\nA\nB\n\n# --- item: bar ---\nC\n"
    );
}

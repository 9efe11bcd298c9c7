//! Variables that steps hand on.

use botforge_plan::env::{env_merge, parse_env_file};

#[test]
fn test_parse_env_file_empty() {
    let result = parse_env_file("").unwrap();
    assert!(result.is_empty());
}

#[test]
fn test_parse_env_file_single_line() {
    let result = parse_env_file("FOO=bar\n").unwrap();
    assert_eq!(result, vec![("FOO".to_string(), "bar".to_string())]);
}

#[test]
fn test_parse_env_file_value_contains_equals() {
    let result = parse_env_file("URL=https://example.com/a=1&b=2\n").unwrap();
    assert_eq!(
        result,
        vec![("URL".to_string(), "https://example.com/a=1&b=2".to_string())]
    );
}

#[test]
fn test_parse_env_file_value_preserves_interior_spaces() {
    let result = parse_env_file("MSG=  hello world  \n").unwrap();
    assert_eq!(
        result,
        vec![("MSG".to_string(), "  hello world  ".to_string())]
    );
}

#[test]
fn test_parse_env_file_multiple_single_line() {
    let result = parse_env_file("A=1\nB=2\nC=3\n").unwrap();
    assert_eq!(
        result,
        vec![
            ("A".to_string(), "1".to_string()),
            ("B".to_string(), "2".to_string()),
            ("C".to_string(), "3".to_string()),
        ]
    );
}

#[test]
fn test_parse_env_file_skips_blank_lines() {
    let result = parse_env_file("\nA=1\n\nB=2\n\n").unwrap();
    assert_eq!(
        result,
        vec![
            ("A".to_string(), "1".to_string()),
            ("B".to_string(), "2".to_string()),
        ]
    );
}

#[test]
fn test_parse_env_file_heredoc_basic() {
    let input = "BODY<<EOF\nline1\nline2\nEOF\n";
    let result = parse_env_file(input).unwrap();
    assert_eq!(
        result,
        vec![("BODY".to_string(), "line1\nline2".to_string())]
    );
}

#[test]
fn test_parse_env_file_heredoc_custom_delimiter() {
    let input = "MSG<<ENDOFMSG\nhello\nworld\nENDOFMSG\n";
    let result = parse_env_file(input).unwrap();
    assert_eq!(
        result,
        vec![("MSG".to_string(), "hello\nworld".to_string())]
    );
}

#[test]
fn test_parse_env_file_heredoc_single_line_value() {
    let input = "KEY<<DELIM\nonly line\nDELIM\n";
    let result = parse_env_file(input).unwrap();
    assert_eq!(result, vec![("KEY".to_string(), "only line".to_string())]);
}

#[test]
fn test_parse_env_file_heredoc_empty_value() {
    let input = "KEY<<DELIM\nDELIM\n";
    let result = parse_env_file(input).unwrap();
    assert_eq!(result, vec![("KEY".to_string(), "".to_string())]);
}

#[test]
fn test_parse_env_file_mixed_single_and_heredoc() {
    let input = "A=1\nBODY<<EOF\nline1\nline2\nEOF\nZ=last\n";
    let result = parse_env_file(input).unwrap();
    assert_eq!(
        result,
        vec![
            ("A".to_string(), "1".to_string()),
            ("BODY".to_string(), "line1\nline2".to_string()),
            ("Z".to_string(), "last".to_string()),
        ]
    );
}

#[test]
fn test_parse_env_file_unterminated_heredoc_is_error() {
    let input = "KEY<<DELIM\nsome line\n";
    assert!(parse_env_file(input).is_err());
}

#[test]
fn test_parse_env_file_value_with_heredoc_markers_in_single_line() {
    // Single-line value that contains "<<" should be treated as single-line
    // because there's an "=" before the "<<".
    let input = "KEY=value<<not-heredoc\n";
    let result = parse_env_file(input).unwrap();
    assert_eq!(
        result,
        vec![("KEY".to_string(), "value<<not-heredoc".to_string())]
    );
}

#[test]
fn test_env_merge_appends_new_keys() {
    let mut acc: Vec<(String, String)> = vec![("A".to_string(), "1".to_string())];
    env_merge(&mut acc, vec![("B".to_string(), "2".to_string())]);
    assert_eq!(
        acc,
        vec![
            ("A".to_string(), "1".to_string()),
            ("B".to_string(), "2".to_string()),
        ]
    );
}

#[test]
fn test_env_merge_updates_existing_key_in_place() {
    let mut acc: Vec<(String, String)> = vec![
        ("A".to_string(), "old".to_string()),
        ("B".to_string(), "keep".to_string()),
    ];
    env_merge(&mut acc, vec![("A".to_string(), "new".to_string())]);
    // A's value updated; B preserved; order unchanged
    assert_eq!(
        acc,
        vec![
            ("A".to_string(), "new".to_string()),
            ("B".to_string(), "keep".to_string()),
        ]
    );
}

#[test]
fn test_env_merge_empty_new_entries_is_noop() {
    let mut acc: Vec<(String, String)> = vec![("A".to_string(), "1".to_string())];
    env_merge(&mut acc, vec![]);
    assert_eq!(acc, vec![("A".to_string(), "1".to_string())]);
}

#[test]
fn test_env_merge_last_write_wins_for_duplicate_new_keys() {
    let mut acc: Vec<(String, String)> = vec![];
    env_merge(
        &mut acc,
        vec![
            ("X".to_string(), "first".to_string()),
            ("X".to_string(), "second".to_string()),
        ],
    );
    // Second write overwrites first; X appears once
    assert_eq!(acc, vec![("X".to_string(), "second".to_string())]);
}

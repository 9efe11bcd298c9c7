//! What is expected of a step's outcome.

use botforge_plan::expect::{check_expect_block, check_stdio_expect, StepCapture};
use botforge_plan::step::{ExpectBlock, StdioExpect};

fn make_capture(stdout: &str, stderr: &str) -> StepCapture {
    StepCapture {
        stdout: stdout.to_string(),
        stderr: stderr.to_string(),
    }
}

fn make_expect(
    exit: Option<i32>,
    stdout: Option<StdioExpect>,
    stderr: Option<StdioExpect>,
) -> ExpectBlock {
    ExpectBlock {
        exit,
        stdout,
        stderr,
    }
}

#[test]
fn test_check_expect_exit_code_matches_succeeds() {
    let expect = make_expect(Some(0), None, None);
    let cap = make_capture("", "");
    assert!(check_expect_block("step", &expect, &cap, 0).is_ok());
}

#[test]
fn test_check_expect_exit_code_mismatch_fails() {
    let expect = make_expect(Some(0), None, None);
    let cap = make_capture("", "");
    let err = check_expect_block("step", &expect, &cap, 1).unwrap_err();
    let msg = err.to_string();
    assert!(msg.contains("exit"), "should mention 'exit': {msg}");
    assert!(
        msg.contains("expected 0"),
        "should mention expected 0: {msg}"
    );
    assert!(msg.contains("got 1"), "should mention got 1: {msg}");
}

#[test]
fn test_check_expect_nonzero_exit_matches_succeeds() {
    let expect = make_expect(Some(2), None, None);
    let cap = make_capture("", "");
    assert!(check_expect_block("must-exit-2", &expect, &cap, 2).is_ok());
}

#[test]
fn test_check_expect_default_exit_zero() {
    // No `exit:` in expect block → defaults to 0
    let expect = make_expect(None, None, None);
    let cap = make_capture("", "");
    assert!(check_expect_block("step", &expect, &cap, 0).is_ok());
    let err = check_expect_block("step", &expect, &cap, 1).unwrap_err();
    assert!(err.to_string().contains("expected 0, got 1"));
}

#[test]
fn test_check_expect_stdout_contains_present_succeeds() {
    let expect = make_expect(
        None,
        Some(StdioExpect {
            contains: vec!["hello".to_string(), "world".to_string()],
            not_contains: vec![],
        }),
        None,
    );
    let cap = make_capture("hello world\n", "");
    assert!(check_expect_block("step", &expect, &cap, 0).is_ok());
}

#[test]
fn test_check_expect_stdout_contains_missing_fails() {
    let expect = make_expect(
        None,
        Some(StdioExpect {
            contains: vec!["missing".to_string()],
            not_contains: vec![],
        }),
        None,
    );
    let cap = make_capture("something else\n", "");
    let err = check_expect_block("step", &expect, &cap, 0).unwrap_err();
    let msg = err.to_string();
    assert!(msg.contains("stdout"), "should mention stdout: {msg}");
    assert!(msg.contains("missing"), "should mention needle: {msg}");
    assert!(msg.contains("not found"), "should say not found: {msg}");
}

#[test]
fn test_check_expect_stdout_not_contains_absent_succeeds() {
    let expect = make_expect(
        None,
        Some(StdioExpect {
            contains: vec![],
            not_contains: vec!["error".to_string()],
        }),
        None,
    );
    let cap = make_capture("all good\n", "");
    assert!(check_expect_block("step", &expect, &cap, 0).is_ok());
}

#[test]
fn test_check_expect_stdout_not_contains_present_fails() {
    let expect = make_expect(
        None,
        Some(StdioExpect {
            contains: vec![],
            not_contains: vec!["denied".to_string()],
        }),
        None,
    );
    let cap = make_capture("permission denied\n", "");
    let err = check_expect_block("step", &expect, &cap, 0).unwrap_err();
    let msg = err.to_string();
    assert!(msg.contains("stdout"), "should mention stdout: {msg}");
    assert!(msg.contains("denied"), "should mention needle: {msg}");
    assert!(
        msg.contains("NOT to contain"),
        "should say NOT to contain: {msg}"
    );
}

#[test]
fn test_check_expect_stderr_matchers_work() {
    let expect = make_expect(
        None,
        None,
        Some(StdioExpect {
            contains: vec!["warn".to_string()],
            not_contains: vec!["error".to_string()],
        }),
    );
    // passes: stderr contains "warn" and does not contain "error"
    let cap = make_capture("", "warning: something\n");
    assert!(check_expect_block("step", &expect, &cap, 0).is_ok());
    // fails: stderr contains forbidden "error"
    let cap_bad = make_capture("", "error: bad\n");
    let err = check_expect_block("step", &expect, &cap_bad, 0).unwrap_err();
    assert!(err.to_string().contains("stderr"));
}

#[test]
fn test_check_expect_multiple_failures_all_reported() {
    let expect = make_expect(
        Some(0),
        Some(StdioExpect {
            contains: vec!["expected1".to_string(), "expected2".to_string()],
            not_contains: vec!["forbidden".to_string()],
        }),
        None,
    );
    let cap = make_capture("forbidden text\n", "");
    let err = check_expect_block("step", &expect, &cap, 1).unwrap_err();
    let msg = err.to_string();
    // All three failures (wrong exit, missing expected1, missing expected2, forbidden present)
    // should appear in the error
    assert!(msg.contains("exit"), "should mention exit: {msg}");
    assert!(msg.contains("expected1"), "should mention expected1: {msg}");
    assert!(msg.contains("expected2"), "should mention expected2: {msg}");
    assert!(msg.contains("forbidden"), "should mention forbidden: {msg}");
}

#[test]
fn test_check_stdio_expect_all_contains_must_match() {
    let expect = StdioExpect {
        contains: vec!["a".to_string(), "b".to_string(), "c".to_string()],
        not_contains: vec![],
    };
    let mut failures = Vec::new();
    check_stdio_expect("a b", "stdout", &expect, &mut failures);
    // "c" is missing
    assert_eq!(failures.len(), 1, "one failure expected: {failures:?}");
    assert!(
        failures[0].contains("c"),
        "failure should mention 'c': {:?}",
        failures[0]
    );
}

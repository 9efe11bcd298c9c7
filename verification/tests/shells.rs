//! Interpreters of scripts.

use botforge_plan::step::resolve_shell;

#[test]
fn test_resolve_shell_absent_returns_bash_template() {
    let tmpl = resolve_shell(None).unwrap();
    assert_eq!(
        tmpl,
        vec![
            "bash",
            "--noprofile",
            "--norc",
            "-e",
            "-o",
            "pipefail",
            "{0}"
        ]
    );
}

#[test]
fn test_resolve_shell_bash_returns_bash_template() {
    let tmpl = resolve_shell(Some("bash")).unwrap();
    assert_eq!(
        tmpl,
        vec![
            "bash",
            "--noprofile",
            "--norc",
            "-e",
            "-o",
            "pipefail",
            "{0}"
        ]
    );
}

#[test]
fn test_resolve_shell_sh_returns_sh_template() {
    let tmpl = resolve_shell(Some("sh")).unwrap();
    assert_eq!(tmpl, vec!["sh", "-e", "{0}"]);
}

#[test]
fn test_resolve_shell_python_returns_python3_template() {
    let tmpl = resolve_shell(Some("python")).unwrap();
    assert_eq!(tmpl, vec!["python3", "{0}"]);
}

#[test]
fn test_resolve_shell_custom_with_placeholder_is_split() {
    let tmpl = resolve_shell(Some("python3 -u {0}")).unwrap();
    assert_eq!(tmpl, vec!["python3", "-u", "{0}"]);
}

#[test]
fn test_resolve_shell_custom_without_placeholder_is_error() {
    let err = resolve_shell(Some("python3 -u")).unwrap_err();
    assert!(
        err.to_string().contains("{0}"),
        "error should mention '{{0}}': {err:?}"
    );
}

#[test]
fn test_resolve_shell_unknown_named_shell_is_error() {
    let err = resolve_shell(Some("fish")).unwrap_err();
    let msg = err.to_string();
    assert!(
        msg.contains("fish"),
        "error should mention the shell name: {msg}"
    );
    assert!(
        msg.contains("bash") && msg.contains("sh") && msg.contains("python"),
        "error should list supported shells: {msg}"
    );
}

#[test]
fn test_apply_shell_template_substitutes_placeholder() {
    let tmpl = resolve_shell(None).unwrap();
    let argv: Vec<String> = tmpl
        .iter()
        .map(|a| {
            if a == "{0}" {
                "/tmp/my-script.sh".to_string()
            } else {
                a.clone()
            }
        })
        .collect();
    assert_eq!(
        argv,
        vec![
            "bash",
            "--noprofile",
            "--norc",
            "-e",
            "-o",
            "pipefail",
            "/tmp/my-script.sh"
        ]
    );
}

#[test]
fn test_apply_sh_template_substitutes_placeholder() {
    let tmpl = resolve_shell(Some("sh")).unwrap();
    let argv: Vec<String> = tmpl
        .iter()
        .map(|a| {
            if a == "{0}" {
                "/tmp/step.sh".to_string()
            } else {
                a.clone()
            }
        })
        .collect();
    assert_eq!(argv, vec!["sh", "-e", "/tmp/step.sh"]);
}

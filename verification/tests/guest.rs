//! Commands for the guest.

use botforge_plan::guest::{build_guest_ssh_cmd, guest_files_init_cmd};
use botforge_plan::shell::shell_single_quote;
use botforge_plan::step::{resolve_shell, RunStep, StepCondition, StepTarget};

fn run_step(name: &str, run: &str) -> RunStep {
    RunStep {
        target: StepTarget::Guest,
        name: name.to_string(),
        run: run.to_string(),
        timeout: None,
        shell: None,
        sudo: None,
        id: None,
        expect: None,
        condition: StepCondition::Always,
        outputs: Vec::new(),
        captured_outputs: None,
    }
}

#[test]
fn test_guest_files_init_cmd_uses_sudo_umask_and_quoted_paths() {
    let env_path = "/tmp/botforge env 1";
    let out_path = "/tmp/botforge-out-1";
    let cmd = guest_files_init_cmd(env_path, out_path);
    assert!(
        cmd.starts_with("sudo sh -c "),
        "expected sudo sh -c prefix: {cmd}"
    );
    assert!(cmd.contains("umask 000"), "expected umask 000: {cmd}");
    assert!(cmd.contains("chmod 0666"), "expected chmod 0666: {cmd}");
    let quoted_env = shell_single_quote(env_path);
    let quoted_out = shell_single_quote(out_path);
    assert!(
        cmd.contains(&quoted_env),
        "expected env path {quoted_env} in command: {cmd}"
    );
    assert!(
        cmd.contains(&quoted_out),
        "expected out path {quoted_out} in command: {cmd}"
    );
}

#[test]
fn test_build_guest_ssh_cmd_prefixes_sudo_for_guest_root_step() {
    let tmpl = resolve_shell(None).unwrap();
    let cmd = build_guest_ssh_cmd(
        &tmpl,
        "/tmp/botforge-step.sh",
        true,
        &[],
        "/tmp/botforge-env-1",
        "/tmp/botforge-out-1",
    );
    assert_eq!(
        cmd,
        "sudo -E env BF_ENV='/tmp/botforge-env-1' BF_OUT='/tmp/botforge-out-1' bash --noprofile --norc -e -o pipefail '/tmp/botforge-step.sh'"
    );
}

#[test]
fn test_build_guest_ssh_cmd_without_sudo_injects_env_prefix() {
    let tmpl = resolve_shell(Some("sh")).unwrap();
    let cmd = build_guest_ssh_cmd(
        &tmpl,
        "/tmp/botforge-step.sh",
        false,
        &[],
        "/tmp/botforge-env-1",
        "/tmp/botforge-out-1",
    );
    assert_eq!(
        cmd,
        "env BF_ENV='/tmp/botforge-env-1' BF_OUT='/tmp/botforge-out-1' sh -e '/tmp/botforge-step.sh'"
    );
}

#[test]
fn test_guest_step_omitted_sudo_defaults_to_sudo_prefix() {
    let step = run_step("default-root", "echo ok");
    let tmpl = resolve_shell(None).unwrap();
    let cmd = build_guest_ssh_cmd(
        &tmpl,
        "/tmp/botforge-step.sh",
        step.sudo_enabled(),
        &[],
        "/tmp/botforge-env-1",
        "/tmp/botforge-out-1",
    );
    assert_eq!(
        cmd,
        "sudo -E env BF_ENV='/tmp/botforge-env-1' BF_OUT='/tmp/botforge-out-1' bash --noprofile --norc -e -o pipefail '/tmp/botforge-step.sh'"
    );
}

#[test]
fn test_build_guest_ssh_cmd_injects_accumulated_env_via_posix_env() {
    let tmpl = resolve_shell(None).unwrap();
    let acc = vec![
        ("FOO".to_string(), "bar".to_string()),
        ("MSG".to_string(), "hello world".to_string()),
    ];
    let cmd = build_guest_ssh_cmd(
        &tmpl,
        "/tmp/botforge-step.sh",
        true,
        &acc,
        "/tmp/env",
        "/tmp/out",
    );
    assert!(
        cmd.starts_with("sudo -E env "),
        "expected sudo -E env prefix: {cmd}"
    );
    assert!(cmd.contains("FOO='bar'"), "expected FOO: {cmd}");
    assert!(cmd.contains("MSG='hello world'"), "expected MSG: {cmd}");
    assert!(cmd.contains("BF_ENV='/tmp/env'"), "expected BF_ENV: {cmd}");
    assert!(cmd.contains("BF_OUT='/tmp/out'"), "expected BF_OUT: {cmd}");
    // No bash-syntax export statements in the command
    assert!(
        !cmd.contains("export "),
        "must not contain bash export: {cmd}"
    );
}

#[test]
fn test_build_guest_ssh_cmd_quotes_special_chars_in_env() {
    let tmpl = resolve_shell(Some("sh")).unwrap();
    let acc = vec![("VAL".to_string(), "it's a value".to_string())];
    let cmd = build_guest_ssh_cmd(&tmpl, "/tmp/s.sh", false, &acc, "/tmp/env", "/tmp/out");
    let expected_val = format!("VAL={}", shell_single_quote("it's a value"));
    assert!(cmd.contains(&expected_val), "cmd: {cmd}");
}

#[test]
fn test_build_guest_ssh_cmd_empty_env_includes_only_botforge_env() {
    let tmpl = resolve_shell(None).unwrap();
    let cmd = build_guest_ssh_cmd(
        &tmpl,
        "/tmp/botforge-step.sh",
        true,
        &[],
        "/tmp/botforge-env-1",
        "/tmp/botforge-out-1",
    );
    assert!(cmd.contains("BF_ENV='/tmp/botforge-env-1'"), "cmd: {cmd}");
    assert!(cmd.contains("BF_OUT='/tmp/botforge-out-1'"), "cmd: {cmd}");
    // No extra env var assignments beyond BF_ENV/BF_OUT
    assert!(!cmd.contains("FOO="), "unexpected extra env var: {cmd}");
}

#[test]
fn test_build_guest_ssh_cmd_python_interpreter_no_bash_syntax() {
    let tmpl = resolve_shell(Some("python")).unwrap();
    let acc = vec![("MYVAR".to_string(), "myval".to_string())];
    let cmd = build_guest_ssh_cmd(&tmpl, "/tmp/script.py", false, &acc, "/tmp/env", "/tmp/out");
    // No bash-specific syntax in the SSH command
    assert!(!cmd.contains("export "), "must not have bash export: {cmd}");
    assert!(
        !cmd.contains(": > "),
        "must not have bash redirect init: {cmd}"
    );
    // POSIX env prefix carries the variable
    assert!(cmd.contains("env "), "must have env prefix: {cmd}");
    assert!(cmd.contains("MYVAR='myval'"), "must pass MYVAR: {cmd}");
    assert!(
        cmd.contains("python3 '/tmp/script.py'"),
        "must invoke python3: {cmd}"
    );
}

//! What holds of the library as a whole, on concrete values.

use botforge_plan::env::{env_merge, parse_env_file};
use botforge_plan::error::PlanError;
use botforge_plan::expect::{check_stdio_expect, failure_lines, outcome_failures, StepCapture};
use botforge_plan::guest::{
    build_guest_ssh_cmd, cleanup_cmd, collect_test_diagnostics, guest_step_files, log_tail,
    place_script, read_cmd, replace_char,
};
use botforge_plan::inputs::{resolve_fragment_inputs, InputDeclaration, InputType};
use botforge_plan::logging::{flush_log_lines, sanitize_step_log_name, StepOutputStream};
use botforge_plan::outputs::{coerce_output_value, output_value_to_evaluated};
use botforge_plan::records::{log_line, record_line};
use botforge_plan::shell::shell_single_quote;
use botforge_plan::staging::{
    stage_files, FileStaging, ResolvedFile, StagingAction, StagingEvent, StagingMode,
};
use botforge_plan::step::{
    parse_positive_seconds, resolve_shell, CapturedOutput, ExpectBlock, OutputType, OutputValue,
    RunStep, SecondsValue, StdioExpect, StepCondition, StepTarget,
};
use botforge_plan::step_rules::validate_build_output_filename;
use botforge_plan::template::{substitute_inputs_in_string, substitute_namespace_in_string};
use botforge_plan::uploads::{
    stage_top_level_uploads, TopLevelUpload, UploadAction, UploadEvent, UploadFound, UploadQuery,
    UploadStaging,
};
use botforge_plan::validate::{
    validate_owner_group_string, validate_test_ports, FileEntry, PortSpec,
};

fn pair(k: &str, v: &str) -> (String, String) {
    (k.to_string(), v.to_string())
}

fn step(name: &str, sudo: Option<bool>, expect: Option<ExpectBlock>) -> RunStep {
    RunStep {
        target: StepTarget::Guest,
        name: name.to_string(),
        run: "echo ok".to_string(),
        timeout: None,
        shell: None,
        sudo,
        id: None,
        expect,
        condition: StepCondition::Always,
        outputs: Vec::new(),
        captured_outputs: None,
    }
}

#[test]
fn test_run_step_sudo_enabled_uses_default_true() {
    assert!(step("sudo-default", None, None).sudo_enabled());
    assert!(!step("sudo-false", Some(false), None).sudo_enabled());
    assert!(step("sudo-true", Some(true), None).sudo_enabled());
}

#[test]
fn test_expect_block_exit_only() {
    let expect = ExpectBlock { exit: Some(2), stdout: None, stderr: None };
    let step = step("must-fail", None, Some(expect));
    let expect = step.expect.expect("expect should be Some");
    assert_eq!(expect.exit, Some(2));
    assert!(expect.stdout.is_none());
    assert!(expect.stderr.is_none());
    assert_eq!(expect.expected_exit(), 2);
}

#[test]
fn test_expect_block_default_exit_is_zero() {
    let stdout = StdioExpect { contains: vec!["hi".to_string()], not_contains: Vec::new() };
    let expect = ExpectBlock { exit: None, stdout: Some(stdout), stderr: None };
    let step = step("default-exit", None, Some(expect));
    let expect = step.expect.expect("expect should be Some");
    assert_eq!(expect.exit, None);
    assert_eq!(expect.expected_exit(), 0);
}

#[test]
fn quoted_text_holds_no_bare_quote() {
    assert_eq!(shell_single_quote("a b"), "'a b'");
    assert_eq!(shell_single_quote("it's"), "'it'\\''s'");
    assert_eq!(shell_single_quote(""), "''");
}

#[test]
fn variables_written_one_per_line_read_back() {
    let env = vec![pair("A", "1"), pair("B", "x=y z")];
    let text: String = env.iter().map(|(k, v)| format!("{k}={v}\n")).collect();
    assert_eq!(parse_env_file(&text).unwrap(), env);
}

#[test]
fn values_of_several_lines_read_back() {
    let entries = parse_env_file("TEXT<<END\nfirst = 1\n\nEND of it\nEND\nB=2\n").unwrap();
    assert_eq!(entries, vec![pair("TEXT", "first = 1\n\nEND of it"), pair("B", "2")]);
}

#[test]
fn values_are_not_looked_at_again() {
    let inputs = vec![pair("a", "${{ inputs.b }}"), pair("b", "x")];
    let text = "<${{ inputs.a }}|${{ inputs.b }}>";
    assert_eq!(substitute_inputs_in_string(text, &inputs).unwrap(), "<${{ inputs.b }}|x>");
}

#[test]
fn merging_in_steps_is_merging_at_once() {
    let mut a = vec![pair("A", "1")];
    let mut b = vec![pair("A", "1")];
    env_merge(&mut a, vec![pair("B", "2"), pair("A", "3")]);
    env_merge(&mut a, vec![pair("B", "4")]);
    env_merge(&mut b, vec![pair("B", "2"), pair("A", "3"), pair("B", "4")]);
    assert_eq!(a, b);
    assert_eq!(a, vec![pair("A", "3"), pair("B", "4")]);
}

#[test]
fn secrets_are_not_shown() {
    let shown = |declared_type: OutputType, text: &str| {
        CapturedOutput {
            name: "n".to_string(),
            declared_type,
            value: OutputValue::String(text.to_string()),
        }
        .display_value()
    };
    assert_eq!(shown(OutputType::Secret, "hunter2"), shown(OutputType::Secret, "other"));
    assert_eq!(shown(OutputType::String, "plain"), "plain");
}

#[test]
fn outputs_keep_their_text() {
    let n = coerce_output_value("n", "42", OutputType::Number).unwrap();
    assert_eq!(n.to_use_string(), "42");
    assert_eq!(output_value_to_evaluated(n).render(), "42");
    let b = coerce_output_value("b", "true", OutputType::Bool).unwrap();
    assert_eq!(b, OutputValue::Bool(true));
    let error = |name: &str, text: &str, declared: OutputType| {
        coerce_output_value(name, text, declared).unwrap_err().to_string()
    };
    assert_eq!(error("b", "maybe", OutputType::Bool), "output 'b': expected a bool");
    assert_eq!(error("n", "many", OutputType::Number), "output 'n': expected a number");
}

#[test]
fn passes_over_inputs_and_arguments_commute() {
    let inputs = vec![pair("name", "web"), pair("zone", "z-1")];
    let args = vec![pair("0", "first"), pair("n", "7")];
    let text = "$${{inputs.name}}{{ ${{ args.0 }}-${{  inputs.zone }}${{ args.n}} end";
    let pass = |text: &str, namespace: &str, values: &Vec<(String, String)>| {
        substitute_namespace_in_string(text, namespace, values).unwrap()
    };
    let with_inputs = pass(text, "inputs", &inputs);
    assert_eq!(with_inputs, "$web{{ ${{ args.0 }}-z-1${{ args.n}} end");
    let with_args = pass(text, "args", &args);
    assert_eq!(with_args, "$${{inputs.name}}{{ first-${{  inputs.zone }}7 end");
    assert_eq!(pass(&with_inputs, "args", &args), "$web{{ first-z-17 end");
    assert_eq!(pass(&with_args, "inputs", &inputs), "$web{{ first-z-17 end");
}

#[test]
fn owners_hold_no_shell_metacharacters() {
    for name in ["root", "www-data", "a.b_c", "0"] {
        assert!(validate_owner_group_string(name, "owner", "@://f", "test").is_ok());
    }
    for c in "|&;<>()$`\\\"' \t/".chars() {
        let name = format!("a{c}b");
        let error = validate_owner_group_string(&name, "owner", "@://f", "test").unwrap_err();
        assert_eq!(
            error.to_string(),
            format!(
                "test files entry '@://f': `owner` contains invalid character '{c}'; \
                 must not contain whitespace, '/', or shell metacharacters"
            )
        );
    }
    assert!(validate_owner_group_string(" ", "group", "@://f", "test").is_err());
}

#[test]
fn messages_show_text_as_a_literal() {
    let mut failures = Vec::new();
    let expect = StdioExpect {
        contains: vec!["a \"b\"\n".to_string()],
        not_contains: vec!["tab\there".to_string()],
    };
    check_stdio_expect("tab\there", "stdout", &expect, &mut failures);
    assert_eq!(failures.len(), 2);
    assert!(failures[0].contains("\"a \\\"b\\\"\\n\""), "{failures:?}");
    assert!(failures[1].contains("\"tab\\there\""), "{failures:?}");
    assert_eq!(failure_lines(&vec!["x".to_string()]), ["  x"]);
    let none = outcome_failures(
        &ExpectBlock { exit: None, stdout: None, stderr: None },
        &StepCapture { stdout: String::new(), stderr: String::new() },
        0,
    );
    assert!(none.is_empty());
}

#[test]
fn log_lines_do_not_depend_on_chunks() {
    let all = b"one\ntwo\r\n\nrest";
    let mut pending = all.to_vec();
    let at_once = flush_log_lines(&mut pending);
    assert_eq!(pending, b"rest");
    for cut in 0..all.len() {
        let mut pending = all[..cut].to_vec();
        let mut lines = flush_log_lines(&mut pending);
        pending.extend_from_slice(&all[cut..]);
        lines.extend(flush_log_lines(&mut pending));
        assert_eq!(lines, at_once, "cut at {cut}");
        assert_eq!(pending, b"rest");
    }
    assert_eq!(at_once.len(), 3);
    assert_eq!(at_once[0], b"one");
    assert_eq!(StepOutputStream::Stdout.as_str(), "stdout");
    assert_eq!(StepOutputStream::Stderr.as_str(), "stderr");
}

#[test]
fn a_record_is_one_line_of_json() {
    assert_eq!(
        record_line("t", StepOutputStream::Stdout, "a\"b\\c\n\u{1}\u{1f}é\u{7f}").unwrap(),
        "{\"ts\":\"t\",\"stream\":\"stdout\",\"line\":\"a\\\"b\\\\c\\n\\u0001\\u001fé\u{7f}\"}\n"
    );
    assert_eq!(
        log_line("t", StepOutputStream::Stderr, "ok é".as_bytes()).unwrap(),
        "{\"ts\":\"t\",\"stream\":\"stderr\",\"line\":\"ok é\"}\n"
    );
    let broken = log_line("t", StepOutputStream::Stderr, b"a\xffb\n").unwrap();
    assert_eq!(
        broken,
        "{\"ts\":\"t\",\"stream\":\"stderr\",\"line\":\"a\u{fffd}b\\n\"}\n"
    );
    assert_eq!(broken.matches('\n').count(), 1);
}

#[test]
fn names_of_log_files_are_plain() {
    assert_eq!(sanitize_step_log_name("a b/c:d-e_f.g"), "a_b_c_d-e_f.g");
}

#[test]
fn commands_for_the_guest_carry_their_values() {
    let template = resolve_shell(Some("python")).unwrap();
    let command = build_guest_ssh_cmd(
        &template,
        "/tmp/it's",
        false,
        &[pair("A", "b c")],
        "/tmp/env",
        "/tmp/out",
    );
    assert!(command.contains("A='b c'"), "{command}");
    assert!(command.contains("'/tmp/it'\\''s'"), "{command}");
    assert_eq!(read_cmd("/tmp/x"), "cat '/tmp/x'");
    assert_eq!(cleanup_cmd("/o", "/e", "/s"), "rm -f '/o' '/e' '/s'");
    assert_eq!(
        place_script(&["sh".to_string(), "{0}".to_string()], "/s"),
        ["sh".to_string(), "/s".to_string()]
    );
    assert_eq!(replace_char("0.1.2", '.', '-'), "0-1-2");
    let files = guest_step_files("/t", "0.1", "x");
    assert!(!files.local_script.contains("0.1"), "{files:?}");
    assert_ne!(files.remote_env_path, files.remote_out_path);
}

#[test]
fn diagnostics_and_tails() {
    let requests = collect_test_diagnostics("journalctl -b");
    let commands: Vec<&str> = requests.iter().map(|r| r.command.as_str()).collect();
    assert_eq!(commands, ["systemctl --failed", "journalctl -b", "cloud-init status --long"]);
    for request in &requests {
        assert_eq!((request.retries.tries, request.secs), (1, 10));
    }
    let lines: Vec<String> = ["a", "b", "c"].iter().map(|s| s.to_string()).collect();
    assert_eq!(log_tail(&lines, 2), ["b", "c"]);
    assert_eq!(log_tail(&lines, 9), ["a", "b", "c"]);
    assert!(log_tail(&lines, 0).is_empty());
}

#[test]
fn inputs_resolve_to_what_was_given_or_declared() {
    let declare = |default: Option<&str>| InputDeclaration {
        input_type: InputType::String,
        required: false,
        default: default.map(str::to_string),
    };
    let declarations = vec![
        ("a".to_string(), declare(Some("da"))),
        ("b".to_string(), declare(Some("db"))),
        ("c".to_string(), declare(None)),
    ];
    let with = vec![pair("a", "__default__"), pair("b", "")];
    assert_eq!(
        resolve_fragment_inputs("f.yaml", &declarations, &with).unwrap(),
        vec![pair("a", "da"), pair("b", "")]
    );
}

#[test]
fn seconds_are_positive() {
    assert_eq!(parse_positive_seconds(SecondsValue::Integer(5)), Ok(5));
    assert_eq!(parse_positive_seconds(SecondsValue::String(" 7 ".to_string())), Ok(7));
    for bad in ["0", "-1", "x", ""] {
        assert!(parse_positive_seconds(SecondsValue::String(bad.to_string())).is_err(), "{bad}");
    }
    assert!(parse_positive_seconds(SecondsValue::Integer(0)).is_err());
    assert!(parse_positive_seconds(SecondsValue::Integer(-3)).is_err());
}

#[test]
fn ports_and_output_names_are_checked() {
    let port = |p: u16| PortSpec { addr: "127.0.0.1".to_string(), port: p };
    assert!(validate_test_ports(&[port(80), port(81)], 22).is_ok());
    assert!(validate_test_ports(&[port(80), port(80)], 22).is_err());
    assert!(validate_test_ports(&[port(22)], 22).is_err());
    assert_eq!(validate_build_output_filename("out.qcow2").unwrap(), "out.qcow2");
    assert!(validate_build_output_filename("a/b").is_err());
    assert!(validate_build_output_filename("").is_err());
}

fn entry(src: &str, dest: &str) -> FileEntry {
    FileEntry { src: src.to_string(), dest: dest.to_string(), ..Default::default() }
}

fn found(paths: &[&str]) -> StagingEvent {
    StagingEvent::Resolved(Ok(paths
        .iter()
        .map(|p| ResolvedFile { local_path: format!("/repo/{p}"), relative_path: p.to_string() })
        .collect()))
}

#[test]
fn all_files_are_placed_in_their_order() {
    let files = vec![entry("@://a/*", "/d/"), entry("@://none/*", "/e/"), entry("@://c", "/f")];
    let mut state = FileStaging::new(files);
    let next = stage_files(&mut state, StagingEvent::Begun);
    assert_eq!(next.action, StagingAction::Resolve { entry: 0 });
    let next = stage_files(&mut state, found(&["x", "y"]));
    assert_eq!(next.action, StagingAction::Place { entry: 0, index: 0 });
    assert_eq!(state.mappings[1].guest_dest, "/d/y");
    let next = stage_files(&mut state, StagingEvent::Placed(Ok(())));
    assert_eq!(next.line.as_deref(), Some("file 1 staged /repo/x -> /d/x"));
    assert_eq!(next.action, StagingAction::Place { entry: 0, index: 1 });
    let next = stage_files(&mut state, StagingEvent::Placed(Ok(())));
    assert_eq!(next.action, StagingAction::Resolve { entry: 1 });
    let next = stage_files(&mut state, found(&[]));
    assert_eq!(next.action, StagingAction::Resolve { entry: 2 });
    stage_files(&mut state, found(&["c"]));
    let next = stage_files(&mut state, StagingEvent::Placed(Ok(())));
    assert_eq!(next.line.as_deref(), Some("file 3 staged /repo/c -> /f"));
    assert_eq!(next.action, StagingAction::Done(Ok(())));
    assert_eq!(state.mode, StagingMode::Finished);
}

#[test]
fn staging_ends_at_the_first_failure() {
    let mut state = FileStaging::new(vec![entry("@://a", "/d"), entry("@://b", "/e")]);
    stage_files(&mut state, StagingEvent::Begun);
    stage_files(&mut state, found(&["a"]));
    let next = stage_files(&mut state, StagingEvent::Placed(Err(PlanError::text("full"))));
    assert_eq!(
        next.action,
        StagingAction::Done(Err(PlanError::text(
            "file entry '@://a' failed while staging '/repo/a' to '/d': full"
        )))
    );
    let mut state = FileStaging::new(vec![entry("plain", "/d")]);
    stage_files(&mut state, StagingEvent::Begun);
    let next = stage_files(&mut state, found(&["a"]));
    assert!(matches!(next.action, StagingAction::Done(Err(_))));
    let mut none = FileStaging::new(Vec::new());
    assert_eq!(stage_files(&mut none, StagingEvent::Begun).action, StagingAction::Done(Ok(())));
}

fn upload(src: &str, dest: &str) -> TopLevelUpload {
    TopLevelUpload {
        src: src.to_string(),
        dest: dest.to_string(),
        mode: None,
        owner: None,
        group: None,
        overwrite: None,
        parents: None,
    }
}

#[test]
fn all_uploads_are_placed_in_their_order() {
    let mut state = UploadStaging::new("/repo", vec![upload("a/b", "/d/"), upload("../x", "/e")]);
    let next = stage_top_level_uploads(&mut state, UploadEvent::Begun);
    assert_eq!(
        next.action,
        UploadAction::Look(UploadQuery::File { path: "/repo/a/b".to_string() })
    );
    let next =
        stage_top_level_uploads(&mut state, UploadEvent::Found(UploadFound::File { present: true }));
    assert_eq!(next.action, UploadAction::Place { entry: 0, index: 0 });
    let next = stage_top_level_uploads(&mut state, UploadEvent::Placed(Ok(())));
    assert_eq!(next.line.as_deref(), Some("top-level upload 1 staged /repo/a/b -> /d/b"));
    assert_eq!(
        next.action,
        UploadAction::Done(Err(PlanError::text(
            "upload src must contain no '.' or '..' segments: ../x"
        )))
    );
    let mut state = UploadStaging::new("/repo", vec![upload("a/b", "/d/")]);
    stage_top_level_uploads(&mut state, UploadEvent::Begun);
    stage_top_level_uploads(&mut state, UploadEvent::Found(UploadFound::File { present: true }));
    let failed = UploadEvent::Placed(Err(PlanError::text("full")));
    assert_eq!(
        stage_top_level_uploads(&mut state, failed).action,
        UploadAction::Done(Err(PlanError::text(
            "top-level upload 'a/b' failed while staging '/repo/a/b' to '/d/b': full"
        )))
    );
}

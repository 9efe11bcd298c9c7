//! Rules for steps and ports.

use botforge_plan::step::{
    ArchiveStep, ArchiveStepSpec, RunStep, StepCondition, StepTarget, TestStep,
};
use botforge_plan::step_rules::{validate_build_steps, validate_test_steps};
use botforge_plan::validate::{validate_test_ports, PortSpec};

fn loopback(port: u16) -> PortSpec {
    PortSpec { addr: "127.0.0.1".to_string(), port }
}

fn make_step(target: StepTarget, name: &str) -> TestStep {
    TestStep::Run(RunStep {
        target,
        name: name.to_string(),
        run: "echo ok".to_string(),
        timeout: None,
        shell: None,
        sudo: None,
        id: None,
        expect: None,
        condition: StepCondition::Always,
        outputs: Vec::new(),
        captured_outputs: None,
    })
}

#[test]
fn test_config_ports_validation_rejects_invalid_and_duplicate_values() {
    assert!(validate_test_ports(&[loopback(0)], 2222).is_err());
    assert!(validate_test_ports(&[loopback(2222)], 2222).is_err());
    assert!(validate_test_ports(&[loopback(22)], 2222).is_err());
    assert!(validate_test_ports(&[loopback(80), loopback(80)], 2222).is_err());
    // duplicate port number regardless of address
    assert!(validate_test_ports(
        &[
            loopback(80),
            PortSpec {
                addr: "0.0.0.0".into(),
                port: 80
            }
        ],
        2222
    )
    .is_err());
}

#[test]
fn test_config_ports_validation_accepts_distinct_ports() {
    assert!(validate_test_ports(
        &[
            loopback(80),
            PortSpec {
                addr: "0.0.0.0".into(),
                port: 9901
            }
        ],
        2222
    )
    .is_ok());
}

#[test]
fn test_validate_steps_accepts_host_step() {
    let steps = vec![make_step(StepTarget::Host, "s")];
    assert!(validate_test_steps(&steps, &[loopback(80)]).is_ok());
}

#[test]
fn test_validate_steps_rejects_host_step_without_ports() {
    let steps = vec![make_step(StepTarget::Host, "edge")];
    let err = validate_test_steps(&steps, &[]).unwrap_err();
    assert!(
        err.to_string().contains("ports"),
        "error should mention 'ports': {err:?}"
    );
}

#[test]
fn test_validate_steps_accepts_empty_steps_without_ports() {
    assert!(validate_test_steps(&[], &[]).is_ok());
}

#[test]
fn test_validate_steps_accepts_guest_only_without_ports() {
    let steps = vec![make_step(StepTarget::Guest, "s")];
    assert!(validate_test_steps(&steps, &[]).is_ok());
}

#[test]
fn test_validate_steps_rejects_host_step_with_sudo() {
    let mut step = make_step(StepTarget::Host, "host-root");
    let TestStep::Run(run) = &mut step else {
        panic!("expected run step");
    };
    run.sudo = Some(true);
    let err = validate_test_steps(&[step], &[loopback(80)]).unwrap_err();
    let msg = err.to_string();
    assert!(
        msg.contains("host-root"),
        "error should mention step name: {msg}"
    );
    assert!(msg.contains("sudo"), "error should mention sudo: {msg}");
    assert!(msg.contains("guest"), "error should mention guest: {msg}");
}

#[test]
fn test_validate_steps_accepts_host_step_with_explicit_sudo_false() {
    let mut step = make_step(StepTarget::Host, "host-unprivileged");
    let TestStep::Run(run) = &mut step else {
        panic!("expected run step");
    };
    run.sudo = Some(false);
    assert!(validate_test_steps(&[step], &[loopback(80)]).is_ok());
}

#[test]
fn test_validate_steps_accepts_guest_step_with_sudo() {
    let mut step = make_step(StepTarget::Guest, "guest-root");
    let TestStep::Run(run) = &mut step else {
        panic!("expected run step");
    };
    run.sudo = Some(true);
    assert!(validate_test_steps(&[step], &[]).is_ok());
}

#[test]
fn test_validate_steps_rejects_bad_shell() {
    let mut step = make_step(StepTarget::Guest, "bad-shell");
    let TestStep::Run(run) = &mut step else {
        panic!("expected run step");
    };
    run.shell = Some("fish".to_string());
    let err = validate_test_steps(&[step], &[]).unwrap_err();
    let msg = err.to_string();
    assert!(
        msg.contains("fish"),
        "error should mention shell name: {msg}"
    );
}

#[test]
fn test_validate_build_steps_accepts_guest_step() {
    let steps = vec![make_step(StepTarget::Guest, "s")];
    assert!(validate_build_steps(&steps).is_ok());
}

#[test]
fn test_validate_build_steps_accepts_host_step_without_ports() {
    // Unlike test, build does not require ports for host steps.
    let steps = vec![make_step(StepTarget::Host, "h")];
    assert!(validate_build_steps(&steps).is_ok());
}

#[test]
fn test_validate_build_steps_rejects_host_step_with_sudo() {
    let mut step = make_step(StepTarget::Host, "host-root");
    let TestStep::Run(run) = &mut step else {
        panic!("expected run step");
    };
    run.sudo = Some(true);
    let err = validate_build_steps(&[step]).unwrap_err();
    let msg = err.to_string();
    assert!(
        msg.contains("host-root"),
        "error should mention step name: {msg}"
    );
    assert!(msg.contains("sudo"), "error should mention sudo: {msg}");
    assert!(msg.contains("guest"), "error should mention guest: {msg}");
}

#[test]
fn test_validate_build_steps_accepts_host_step_with_explicit_sudo_false() {
    let mut step = make_step(StepTarget::Host, "host-unprivileged");
    let TestStep::Run(run) = &mut step else {
        panic!("expected run step");
    };
    run.sudo = Some(false);
    assert!(validate_build_steps(&[step]).is_ok());
}

#[test]
fn test_validate_build_steps_accepts_guest_step_with_sudo() {
    let mut step = make_step(StepTarget::Guest, "guest-root");
    let TestStep::Run(run) = &mut step else {
        panic!("expected run step");
    };
    run.sudo = Some(true);
    assert!(validate_build_steps(&[step]).is_ok());
}

#[test]
fn test_validate_build_steps_rejects_bad_shell() {
    let mut step = make_step(StepTarget::Guest, "bad-shell");
    let TestStep::Run(run) = &mut step else {
        panic!("expected run step");
    };
    run.shell = Some("fish".to_string());
    let err = validate_build_steps(&[step]).unwrap_err();
    assert!(err.to_string().contains("fish"));
}

#[test]
fn test_validate_build_steps_accepts_archive_step() {
    let steps = vec![TestStep::Archive(ArchiveStep {
        archive: ArchiveStepSpec {
            src: "@some-tool".to_string(),
            into: Some("some-tool".to_string()),
            name: Some("unpack".to_string()),
            dest: None,
        },
        target: None,
        run: None,
        timeout: None,
        shell: None,
    })];
    assert!(validate_build_steps(&steps).is_ok());
}

#[test]
fn test_validate_build_steps_rejects_archive_empty_src() {
    let steps = vec![TestStep::Archive(ArchiveStep {
        archive: ArchiveStepSpec {
            src: "   ".to_string(),
            into: None,
            name: Some("bad-archive".to_string()),
            dest: None,
        },
        target: None,
        run: None,
        timeout: None,
        shell: None,
    })];
    let err = validate_build_steps(&steps).unwrap_err();
    assert!(err.to_string().contains("src"));
    assert!(err.to_string().contains("bad-archive"));
}

#[test]
fn test_validate_build_steps_rejects_archive_without_at_prefix() {
    let steps = vec![TestStep::Archive(ArchiveStep {
        archive: ArchiveStepSpec {
            src: "some-tool".to_string(),
            into: None,
            name: Some("bad-archive".to_string()),
            dest: None,
        },
        target: None,
        run: None,
        timeout: None,
        shell: None,
    })];
    let err = validate_build_steps(&steps).unwrap_err();
    assert!(err.to_string().contains("must start with '@'"));
}

#[test]
fn test_validate_build_steps_rejects_archive_with_forbidden_fields() {
    let steps = vec![TestStep::Archive(ArchiveStep {
        archive: ArchiveStepSpec {
            src: "@some-tool".to_string(),
            into: None,
            name: Some("bad-archive".to_string()),
            dest: None,
        },
        target: Some(StepTarget::Host),
        run: Some("echo hi".to_string()),
        timeout: Some(30),
        shell: Some("bash".to_string()),
    })];
    let err = validate_build_steps(&steps).unwrap_err();
    // run/shell/timeout are still forbidden regardless of on: host.
    assert!(
        err.to_string().contains("run")
            || err.to_string().contains("shell")
            || err.to_string().contains("timeout"),
        "error should mention a forbidden field: {err:?}"
    );
}

#[test]
fn test_validate_build_steps_rejects_archive_src_traversal_scheme() {
    let steps = vec![TestStep::Archive(ArchiveStep {
        archive: ArchiveStepSpec {
            src: "@://provider/asset".to_string(),
            into: None,
            name: Some("bad-archive".to_string()),
            dest: None,
        },
        target: None,
        run: None,
        timeout: None,
        shell: None,
    })];
    let err = validate_build_steps(&steps).unwrap_err();
    assert!(err.to_string().contains("@://"));
}

#[test]
fn test_validate_build_steps_accepts_explicit_on_host_archive_step() {
    // on: host is now a legal explicit spelling of the default.
    let steps = vec![TestStep::Archive(ArchiveStep {
        archive: ArchiveStepSpec {
            src: "@some-tool".to_string(),
            into: None,
            name: Some("fetch-tool".to_string()),
            dest: None,
        },
        target: Some(StepTarget::Host),
        run: None,
        timeout: None,
        shell: None,
    })];
    assert!(validate_build_steps(&steps).is_ok());
}

#[test]
fn test_validate_build_steps_accepts_guest_archive_with_absolute_dest() {
    let steps = vec![TestStep::Archive(ArchiveStep {
        archive: ArchiveStepSpec {
            src: "@some-tool".to_string(),
            into: None,
            name: Some("install-tool".to_string()),
            dest: Some("/var/lib/foo".to_string()),
        },
        target: Some(StepTarget::Guest),
        run: None,
        timeout: None,
        shell: None,
    })];
    assert!(validate_build_steps(&steps).is_ok());
}

#[test]
fn test_validate_build_steps_rejects_guest_archive_without_dest() {
    let steps = vec![TestStep::Archive(ArchiveStep {
        archive: ArchiveStepSpec {
            src: "@some-tool".to_string(),
            into: None,
            name: Some("bad-guest".to_string()),
            dest: None,
        },
        target: Some(StepTarget::Guest),
        run: None,
        timeout: None,
        shell: None,
    })];
    let err = validate_build_steps(&steps).unwrap_err();
    let msg = err.to_string();
    assert!(msg.contains("dest"), "error should mention 'dest': {msg}");
    assert!(
        msg.contains("bad-guest"),
        "error should mention step name: {msg}"
    );
}

#[test]
fn test_validate_build_steps_rejects_guest_archive_with_relative_dest() {
    let steps = vec![TestStep::Archive(ArchiveStep {
        archive: ArchiveStepSpec {
            src: "@some-tool".to_string(),
            into: None,
            name: Some("bad-dest".to_string()),
            dest: Some("relative/path".to_string()),
        },
        target: Some(StepTarget::Guest),
        run: None,
        timeout: None,
        shell: None,
    })];
    let err = validate_build_steps(&steps).unwrap_err();
    let msg = err.to_string();
    assert!(
        msg.contains("absolute"),
        "error should mention absolute path: {msg}"
    );
}

#[test]
fn test_validate_build_steps_rejects_host_archive_with_dest() {
    // dest is only valid on on: guest — reject it for on: host or omitted.
    for (label, target) in [("on: host", Some(StepTarget::Host)), ("on: omitted", None)] {
        let steps = vec![TestStep::Archive(ArchiveStep {
            archive: ArchiveStepSpec {
                src: "@some-tool".to_string(),
                into: None,
                name: Some("bad-dest".to_string()),
                dest: Some("/var/lib/foo".to_string()),
            },
            target,
            run: None,
            timeout: None,
            shell: None,
        })];
        let err = validate_build_steps(&steps).unwrap_err();
        let msg = err.to_string();
        assert!(
            msg.contains("dest"),
            "error should mention 'dest' ({label}): {msg}"
        );
    }
}

//! Lines and log files of a run.

use botforge_plan::logging::{
    final_outcome_line, format_completion_duration, init_force_color, is_force_color_env,
    phase_status_marker_with_duration, phase_title_line, stderr_color_enabled, step_log_path,
    step_skipped_marker, step_status_marker, step_title_line, ColorSettings,
};

const SECOND: u128 = 1_000_000_000;
const MILLISECOND: u128 = 1_000_000;

fn settings(
    forced: bool,
    force_color: Option<&str>,
    clicolor_force: Option<&str>,
    no_color: Option<&str>,
) -> ColorSettings {
    let mut settings = ColorSettings {
        forced: false,
        force_color: force_color.map(str::to_string),
        clicolor_force: clicolor_force.map(str::to_string),
        no_color: no_color.is_some(),
        terminal: false,
    };
    init_force_color(&mut settings, forced);
    settings
}

#[test]
fn test_step_log_path_sanitizes_name() {
    let log_dir = "/tmp/botforge-step-logs";
    let path = step_log_path(log_dir, "7", "name with/slash\tand*chars");
    assert_eq!(path, "/tmp/botforge-step-logs/step-7-name_with_slash_and_chars.log");
}

#[test]
fn test_step_log_path_hierarchical_index() {
    let log_dir = "/tmp/botforge-step-logs";
    let path = step_log_path(log_dir, "3.2", "inner-step");
    // Dots in hierarchical index are replaced with '-' in the filename.
    assert_eq!(path, "/tmp/botforge-step-logs/step-3-2-inner-step.log");
}

#[test]
fn test_step_status_marker_formats_result() {
    assert_eq!(
        step_status_marker("4", "mcp-smoke", false, None, false, None),
        " ✗ (4) mcp-smoke"
    );
    assert_eq!(
        step_status_marker("4", "mcp-smoke", true, None, false, None),
        " ✓ (4) mcp-smoke"
    );
    let success_color = step_status_marker("4", "mcp-smoke", true, None, true, None);
    assert!(
        success_color.starts_with(' '),
        "success color marker should start with a space: {success_color:?}"
    );
    assert!(
        success_color.contains("\x1b[32m"),
        "success color should contain green: {success_color:?}"
    );
    assert!(
        success_color.contains('✓'),
        "success color should contain tick: {success_color:?}"
    );
    assert!(
        success_color.contains("\x1b[2m(4)\x1b[0m"),
        "success color should dim marker: {success_color:?}"
    );
    assert!(
        success_color.contains("\x1b[2mmcp-smoke\x1b[0m"),
        "success color should dim name: {success_color:?}"
    );
    assert!(
        success_color.contains("\x1b[0m"),
        "success color should reset: {success_color:?}"
    );
    let failure_color = step_status_marker("4", "mcp-smoke", false, None, true, None);
    assert!(
        failure_color.starts_with(' '),
        "failure color marker should start with a space: {failure_color:?}"
    );
    assert!(
        failure_color.contains("\x1b[31m"),
        "failure color should contain red: {failure_color:?}"
    );
    assert!(
        failure_color.contains('✗'),
        "failure color should contain cross: {failure_color:?}"
    );
    assert!(
        failure_color.contains("\x1b[2m(4)\x1b[0m"),
        "failure color should dim marker: {failure_color:?}"
    );
    assert!(
        !failure_color.contains("\x1b[2mmcp-smoke\x1b[0m"),
        "failure color should NOT dim name: {failure_color:?}"
    );
}

#[test]
fn test_step_status_marker_with_id() {
    assert_eq!(
        step_status_marker("4", "mcp-smoke", true, Some("build"), false, None),
        " ✓ (4/build) mcp-smoke"
    );
    assert_eq!(
        step_status_marker("4", "mcp-smoke", false, Some("build"), false, None),
        " ✗ (4/build) mcp-smoke"
    );
    let success_color = step_status_marker("4", "mcp-smoke", true, Some("build"), true, None);
    assert!(
        success_color.contains("\x1b[2m(4/build)\x1b[0m"),
        "success color with id should dim counter: {success_color:?}"
    );
    assert!(
        success_color.contains("\x1b[32m"),
        "success color with id should contain green: {success_color:?}"
    );
    assert!(
        success_color.contains('✓'),
        "success color with id should contain tick: {success_color:?}"
    );
    assert!(
        success_color.contains("\x1b[0m"),
        "success color with id should contain reset: {success_color:?}"
    );
    let failure_color = step_status_marker("4", "mcp-smoke", false, Some("build"), true, None);
    assert!(
        failure_color.contains("\x1b[2m(4/build)\x1b[0m"),
        "failure color with id should dim counter: {failure_color:?}"
    );
    assert!(
        failure_color.contains("\x1b[31m"),
        "failure color with id should contain red: {failure_color:?}"
    );
    assert!(
        failure_color.contains('✗'),
        "failure color with id should contain cross: {failure_color:?}"
    );
}

#[test]
fn test_step_title_line_formats() {
    assert_eq!(
        step_title_line("4", "mcp-smoke", None, false),
        "🤖 (4) mcp-smoke"
    );
    let colored = step_title_line("4", "mcp-smoke", None, true);
    assert!(
        colored.contains("🤖 \x1b[2m(4)\x1b[0m "),
        "colored title should contain robot prefix: {colored:?}"
    );
    assert!(
        colored.contains("\x1b[1m"),
        "colored title should contain bold code: {colored:?}"
    );
    assert!(
        colored.contains("mcp-smoke"),
        "colored title should contain name: {colored:?}"
    );
    assert!(
        colored.contains("\x1b[0m"),
        "colored title should contain reset: {colored:?}"
    );
}

#[test]
fn test_step_title_line_with_id() {
    assert_eq!(
        step_title_line("4", "mcp-smoke", Some("build"), false),
        "🤖 (4/build) mcp-smoke"
    );
    let colored = step_title_line("4", "mcp-smoke", Some("build"), true);
    assert!(
        colored.contains("\x1b[2m(4/build)\x1b[0m"),
        "colored title with id should dim counter: {colored:?}"
    );
    assert!(
        colored.contains("\x1b[1m"),
        "colored title with id should contain bold code: {colored:?}"
    );
    assert!(
        colored.contains("mcp-smoke"),
        "colored title with id should contain name: {colored:?}"
    );
    assert!(
        colored.contains("\x1b[0m"),
        "colored title with id should contain reset: {colored:?}"
    );
}

#[test]
fn test_step_skipped_marker_formats() {
    assert_eq!(
        step_skipped_marker("4", "mcp-smoke", None, false),
        " ⊘ (4) mcp-smoke"
    );
    let colored = step_skipped_marker("4", "mcp-smoke", None, true);
    assert!(
        colored.contains("\x1b[2m(4)\x1b[0m"),
        "colored skipped marker should dim counter: {colored:?}"
    );
    assert!(
        colored.contains("\x1b[2mmcp-smoke\x1b[0m"),
        "colored skipped marker should dim name: {colored:?}"
    );
    assert_eq!(
        step_skipped_marker("4", "mcp-smoke", Some("build"), false),
        " ⊘ (4/build) mcp-smoke"
    );
    let colored_with_id = step_skipped_marker("4", "mcp-smoke", Some("build"), true);
    assert!(
        colored_with_id.contains("\x1b[2m(4/build)\x1b[0m"),
        "colored skipped marker with id should dim counter: {colored_with_id:?}"
    );
}

#[test]
fn test_phase_title_line_no_color() {
    assert_eq!(
        phase_title_line("setup", "Preparing build environment (seed image)", false),
        "🤖 (setup) Preparing build environment (seed image)"
    );
    assert_eq!(
        phase_title_line(
            "output",
            "Final image written to /out.qcow2 (344.0 MiB)",
            false
        ),
        "🤖 (output) Final image written to /out.qcow2 (344.0 MiB)"
    );
}

#[test]
fn test_phase_title_line_color() {
    let colored = phase_title_line(
        "compress",
        "Compressing image (reclaim, sparsify, compression)",
        true,
    );
    assert!(
        colored.contains("🤖 \x1b[2m(compress)\x1b[0m "),
        "colored phase title should contain robot prefix: {colored:?}"
    );
    assert!(
        colored.contains("\x1b[1m"),
        "colored phase title should contain bold: {colored:?}"
    );
    assert!(
        colored.contains("Compressing image (reclaim, sparsify, compression)"),
        "colored phase title should contain description: {colored:?}"
    );
    assert!(
        colored.contains("\x1b[0m"),
        "colored phase title should contain reset: {colored:?}"
    );
}

#[test]
fn test_phase_status_marker_no_color_success() {
    assert_eq!(
        phase_status_marker_with_duration(
            "setup",
            "Preparing build environment (seed image)",
            true,
            false,
            None
        ),
        " ✓ (setup) Preparing build environment (seed image)"
    );
}

#[test]
fn test_phase_status_marker_no_color_failure() {
    assert_eq!(
        phase_status_marker_with_duration(
            "setup",
            "Preparing build environment (seed image)",
            false,
            false,
            None
        ),
        " ✗ (setup) Preparing build environment (seed image)"
    );
}

#[test]
fn test_phase_status_marker_color_success() {
    let s = phase_status_marker_with_duration("vm", "Stopping vm", true, true, None);
    assert!(s.starts_with(' '), "should start with space: {s:?}");
    assert!(s.contains("\x1b[32m"), "should contain green: {s:?}");
    assert!(s.contains('✓'), "should contain tick: {s:?}");
    assert!(s.contains("\x1b[2m(vm)\x1b[0m"), "should dim label: {s:?}");
    assert!(
        s.contains("\x1b[2mStopping vm\x1b[0m"),
        "should dim description: {s:?}"
    );
    assert!(s.contains("\x1b[0m"), "should reset: {s:?}");
}

#[test]
fn test_phase_status_marker_color_failure() {
    let s = phase_status_marker_with_duration("vm", "Stopping vm", false, true, None);
    assert!(s.starts_with(' '), "should start with space: {s:?}");
    assert!(s.contains("\x1b[31m"), "should contain red: {s:?}");
    assert!(s.contains('✗'), "should contain cross: {s:?}");
    assert!(s.contains("\x1b[2m(vm)\x1b[0m"), "should dim label: {s:?}");
    assert!(
        !s.contains("\x1b[2mStopping vm\x1b[0m"),
        "failure should NOT dim name: {s:?}"
    );
}

#[test]
fn test_format_completion_duration() {
    assert_eq!(format_completion_duration(250 * MILLISECOND), "0s");
    assert_eq!(format_completion_duration(9 * SECOND), "9s");
    assert_eq!(
        format_completion_duration(60 * SECOND),
        "1m 00s"
    );
    assert_eq!(
        format_completion_duration(125 * SECOND),
        "2m 05s"
    );
}

#[test]
fn test_step_status_marker_duration_suffix_only_when_present() {
    assert_eq!(
        step_status_marker("7", "warmup", true, None, false, None),
        " ✓ (7) warmup"
    );
    assert_eq!(
        step_status_marker(
            "7",
            "warmup",
            true,
            None,
            false,
            Some(125 * SECOND)
        ),
        " ✓ (7) warmup (completed in 2m 05s)"
    );
}

#[test]
fn test_phase_status_marker_duration_suffix_only_when_present() {
    assert_eq!(
        phase_status_marker_with_duration("vm", "Waiting for SSH", true, false, None),
        " ✓ (vm) Waiting for SSH"
    );
    assert_eq!(
        phase_status_marker_with_duration(
            "vm",
            "Waiting for SSH",
            true,
            false,
            Some(13 * SECOND)
        ),
        " ✓ (vm) Waiting for SSH (completed in 13s)"
    );
}

#[test]
fn test_final_outcome_line() {
    assert_eq!(
        final_outcome_line("build", true, false),
        "😎 build completed"
    );
    assert_eq!(final_outcome_line("test", false, false), "😩 test failed");
    let colored_success = final_outcome_line("build", true, true);
    assert!(
        colored_success.contains("\x1b[2mbuild completed\x1b[0m"),
        "success outcome should dim summary in color mode: {colored_success:?}"
    );
}

#[test]
fn color_gating_no_color_disables_when_no_force() {
    let s = settings(false, None, None, Some("1"));
    assert!(!is_force_color_env(&s), "nothing asks for colour");
    assert!(!stderr_color_enabled(&s), "NO_COLOR with no force-color should disable color");
}

#[test]
fn color_gating_force_color_flag_wins_over_no_color() {
    let s = settings(true, None, None, Some("1"));
    assert!(
        stderr_color_enabled(&s),
        "the command line should force color even when NO_COLOR is set"
    );
}

#[test]
fn color_gating_force_color_env_var_enables_color() {
    let s = settings(false, Some("1"), None, Some("1"));
    assert!(is_force_color_env(&s), "FORCE_COLOR=1 asks for colour");
    assert!(
        stderr_color_enabled(&s),
        "FORCE_COLOR=1 should enable color even when NO_COLOR is set"
    );

    let s = settings(false, None, Some("1"), Some("1"));
    assert!(is_force_color_env(&s), "CLICOLOR_FORCE=1 asks for colour");
    assert!(
        stderr_color_enabled(&s),
        "CLICOLOR_FORCE=1 should enable color even when NO_COLOR is set"
    );
}

#[test]
fn color_gating_force_color_env_truthy_values() {
    for truthy in &["1", "true", "TRUE", "True", "yes", "YES", "Yes"] {
        let s = settings(false, Some(truthy), None, None);
        assert!(is_force_color_env(&s), "FORCE_COLOR={truthy:?} asks for colour");
    }

    for falsy in &["0", "false", "no", "", "off"] {
        let s = settings(false, Some(falsy), None, None);
        assert!(!is_force_color_env(&s), "FORCE_COLOR={falsy:?} does not ask for colour");
    }
}

#[test]
fn color_gating_default_no_tty_no_force() {
    let s = settings(false, None, None, None);
    assert!(
        !stderr_color_enabled(&s),
        "without a TTY and without force-color, color should be disabled"
    );
}

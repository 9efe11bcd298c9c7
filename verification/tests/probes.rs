//! Probes of a guest and what their output means.

use botforge_plan::accounts::{check_one_user, check_user_groups, parse_names_from_dump};
use botforge_plan::checks::{check_one_path, normalize_mode};
use botforge_plan::document::{AssertFile, AssertFileType, AssertUser};
use botforge_plan::globbing::is_glob_pattern;
use botforge_plan::packages::parse_dpkg_installed;
use botforge_plan::probe::{
    build_file_probe_script, build_privileged_probe_script, LineCursor, FILE_PROBE_HEREDOC_DELIM,
    GROUPS_PROBE_HEREDOC_DELIM, USERS_PROBE_HEREDOC_DELIM,
};

fn file_expectation(
    exists: bool,
    filetype: Option<AssertFileType>,
    owner: Option<&str>,
    group: Option<&str>,
    mode: Option<&str>,
) -> AssertFile {
    AssertFile {
        exists,
        filetype,
        owner: owner.map(str::to_string),
        group: group.map(str::to_string),
        mode: mode.map(str::to_string),
    }
}

fn user_expectation(exists: bool, shell: Option<&str>, groups: Vec<&str>) -> AssertUser {
    AssertUser {
        exists,
        shell: shell.map(str::to_string),
        groups: groups.into_iter().map(str::to_string).collect(),
    }
}

#[test]
fn test_normalize_mode_pads_3_digits() {
    assert_eq!(normalize_mode("755"), "0755");
    assert_eq!(normalize_mode("644"), "0644");
}

#[test]
fn test_normalize_mode_keeps_4_digits() {
    assert_eq!(normalize_mode("0755"), "0755");
    assert_eq!(normalize_mode("0644"), "0644");
}

#[test]
fn modes_are_padded_to_four_digits() {
    assert_eq!(normalize_mode("44"), "0044");
    assert_eq!(normalize_mode("0"), "0000");
    assert_eq!(normalize_mode("1755"), "1755");
    for text in ["", "abc", "89", "01755", "٤٤"] {
        assert_eq!(normalize_mode(text), text);
    }
    let expectation = file_expectation(true, None, None, None, Some("0044"));
    let failures = check_one_path("/f", &expectation, "present:file:root:root:44");
    assert!(failures.is_empty(), "{failures:?}");
    let failures = check_one_path("/f", &expectation, "present:file:root:root:440");
    assert_eq!(failures, ["mode: expected 0044, got 0440"]);
}

#[test]
fn test_check_one_path_exists_true_absent_line_fails() {
    let exp = file_expectation(true, None, None, None, None);
    let failures = check_one_path("/usr/bin/foo", &exp, "absent");
    assert!(
        !failures.is_empty(),
        "should fail when exists:true but absent"
    );
    assert!(failures[0].contains("absent"), "message: {:?}", failures);
}

#[test]
fn test_check_one_path_exists_false_absent_line_passes() {
    let exp = file_expectation(false, None, None, None, None);
    let failures = check_one_path("/some/path", &exp, "absent");
    assert!(failures.is_empty(), "should pass: {:?}", failures);
}

#[test]
fn test_check_one_path_exists_false_present_fails() {
    let exp = file_expectation(false, None, None, None, None);
    let line = "present:file:root:root:755";
    let failures = check_one_path("/some/path", &exp, line);
    assert!(!failures.is_empty());
    assert!(failures[0].contains("expected absent"), "{:?}", failures);
}

#[test]
fn test_check_one_path_correct_attributes_pass() {
    let exp = file_expectation(
        true,
        Some(AssertFileType::File),
        Some("root"),
        Some("root"),
        Some("0755"),
    );
    let line = "present:file:root:root:755";
    let failures = check_one_path("/usr/bin/foo", &exp, line);
    assert!(failures.is_empty(), "should pass: {:?}", failures);
}

#[test]
fn test_check_one_path_wrong_filetype_fails() {
    let exp = file_expectation(true, Some(AssertFileType::File), None, None, None);
    let line = "present:directory:root:root:755";
    let failures = check_one_path("/some/dir", &exp, line);
    assert!(!failures.is_empty());
    assert!(failures[0].contains("filetype"), "{:?}", failures);
}

#[test]
fn test_check_one_path_wrong_owner_fails() {
    let exp = file_expectation(true, None, Some("root"), None, None);
    let line = "present:file:nobody:root:755";
    let failures = check_one_path("/some/file", &exp, line);
    assert!(!failures.is_empty());
    assert!(failures[0].contains("owner"), "{:?}", failures);
}

#[test]
fn test_check_one_path_wrong_mode_fails() {
    let exp = file_expectation(true, None, None, None, Some("0755"));
    let line = "present:file:root:root:644";
    let failures = check_one_path("/some/file", &exp, line);
    assert!(!failures.is_empty());
    assert!(failures[0].contains("mode"), "{:?}", failures);
}

#[test]
fn test_check_one_path_no_attributes_present_passes() {
    // When no attributes are specified (just exists: true), any present file passes.
    let exp = file_expectation(true, None, None, None, None);
    let line = "present:file:someuser:somegroup:644";
    let failures = check_one_path("/some/file", &exp, line);
    assert!(failures.is_empty(), "should pass: {:?}", failures);
}

#[test]
fn test_check_one_path_wrong_group_fails() {
    let exp = file_expectation(true, None, None, Some("root"), None);
    let line = "present:file:root:nobody:755";
    let failures = check_one_path("/some/file", &exp, line);
    assert!(!failures.is_empty());
    assert!(failures[0].contains("group"), "{:?}", failures);
}

#[test]
fn test_check_one_path_symlink_filetype() {
    let exp = file_expectation(true, Some(AssertFileType::Symlink), None, None, None);
    let line = "present:symlink:root:root:777";
    let failures = check_one_path("/some/link", &exp, line);
    assert!(failures.is_empty(), "should pass: {:?}", failures);
}

#[test]
fn test_check_one_path_directory_filetype() {
    let exp = file_expectation(true, Some(AssertFileType::Directory), None, None, None);
    let line = "present:directory:root:root:755";
    let failures = check_one_path("/some/dir", &exp, line);
    assert!(failures.is_empty(), "should pass: {:?}", failures);
}

#[test]
fn test_check_one_path_multiple_failures_reported() {
    let exp = file_expectation(
        true,
        Some(AssertFileType::File),
        Some("root"),
        Some("root"),
        Some("0755"),
    );
    let line = "present:directory:nobody:nobody:644";
    let failures = check_one_path("/some/path", &exp, line);
    assert_eq!(
        failures.len(),
        4,
        "all four attributes should fail: {:?}",
        failures
    );
}

#[test]
fn test_check_one_user_exists_true_absent_fails() {
    let exp = user_expectation(true, None, vec![]);
    let failures = check_one_user("bot", &exp, "absent", None);
    assert!(
        !failures.is_empty(),
        "should fail when exists:true but absent"
    );
    assert!(failures[0].contains("absent"), "{:?}", failures);
}

#[test]
fn test_check_one_user_exists_false_absent_passes() {
    let exp = user_expectation(false, None, vec![]);
    let failures = check_one_user("mallory", &exp, "absent", None);
    assert!(failures.is_empty(), "should pass: {:?}", failures);
}

#[test]
fn test_check_one_user_exists_false_present_fails() {
    let exp = user_expectation(false, None, vec![]);
    let failures = check_one_user("mallory", &exp, "present:/bin/bash", None);
    assert!(!failures.is_empty());
    assert!(failures[0].contains("expected absent"), "{:?}", failures);
}

#[test]
fn test_check_one_user_correct_shell_passes() {
    let exp = user_expectation(true, Some("/bin/bash"), vec![]);
    let failures = check_one_user("bot", &exp, "present:/bin/bash", None);
    assert!(failures.is_empty(), "should pass: {:?}", failures);
}

#[test]
fn test_check_one_user_wrong_shell_fails() {
    let exp = user_expectation(true, Some("/bin/bash"), vec![]);
    let failures = check_one_user("bot", &exp, "present:/usr/sbin/nologin", None);
    assert!(!failures.is_empty());
    assert!(failures[0].contains("shell"), "{:?}", failures);
    assert!(failures[0].contains("/bin/bash"), "{:?}", failures);
    assert!(failures[0].contains("/usr/sbin/nologin"), "{:?}", failures);
}

#[test]
fn test_check_one_user_no_shell_check_passes_any_shell() {
    let exp = user_expectation(true, None, vec![]);
    let failures = check_one_user("bot", &exp, "present:/usr/sbin/nologin", None);
    assert!(
        failures.is_empty(),
        "should pass when no shell check: {:?}",
        failures
    );
}

#[test]
fn test_check_user_groups_all_present_passes() {
    let exp = user_expectation(true, None, vec!["bot", "docker"]);
    let failures = check_user_groups("bot", &exp, "bot docker sudo");
    assert!(failures.is_empty(), "should pass: {:?}", failures);
}

#[test]
fn test_check_user_groups_missing_group_fails() {
    let exp = user_expectation(true, None, vec!["bot", "docker"]);
    let failures = check_user_groups("bot", &exp, "bot sudo");
    assert!(!failures.is_empty());
    assert!(failures[0].contains("docker"), "{:?}", failures);
    assert!(
        failures[0].contains("missing required group"),
        "{:?}",
        failures
    );
}

#[test]
fn test_check_user_groups_empty_required_passes() {
    let exp = user_expectation(true, None, vec![]);
    let failures = check_user_groups("bot", &exp, "bot sudo docker");
    assert!(
        failures.is_empty(),
        "no required groups = always pass: {:?}",
        failures
    );
}

#[test]
fn test_is_glob_pattern_exact_name_is_false() {
    assert!(!is_glob_pattern("bot"));
    assert!(!is_glob_pattern("mallory"));
    assert!(!is_glob_pattern("docker"));
}

#[test]
fn test_is_glob_pattern_star_is_true() {
    assert!(is_glob_pattern("botforge-*"));
    assert!(is_glob_pattern("*"));
}

#[test]
fn test_is_glob_pattern_question_mark_is_true() {
    assert!(is_glob_pattern("bot?"));
}

#[test]
fn test_is_glob_pattern_bracket_is_true() {
    assert!(is_glob_pattern("bot[0-9]"));
}

#[test]
fn test_parse_dpkg_installed_returns_only_installed_packages() {
    let raw = "git install ok installed\ntelnet deinstall ok config-files\ncurl install ok installed\n__END_DPKG__\n";
    let pkgs = parse_dpkg_installed(&mut LineCursor::new(raw));
    assert_eq!(pkgs, vec!["git", "curl"]);
}

#[test]
fn test_parse_dpkg_installed_stops_at_sentinel() {
    let raw = "git install ok installed\n__END_DPKG__\nextra install ok installed\n";
    let pkgs = parse_dpkg_installed(&mut LineCursor::new(raw));
    assert_eq!(pkgs, vec!["git"]);
}

#[test]
fn test_parse_dpkg_installed_empty_output() {
    let raw = "__END_DPKG__\n";
    let pkgs = parse_dpkg_installed(&mut LineCursor::new(raw));
    assert!(pkgs.is_empty());
}

#[test]
fn test_parse_dpkg_installed_excludes_half_removed() {
    // config-remains / half-removed should not count as installed
    let raw = "libssl-dev remove ok half-removed\nbash install ok installed\n__END_DPKG__\n";
    let pkgs = parse_dpkg_installed(&mut LineCursor::new(raw));
    assert_eq!(pkgs, vec!["bash"]);
}

#[test]
fn test_parse_dpkg_installed_excludes_config_files() {
    let raw = "telnet deinstall ok config-files\n__END_DPKG__\n";
    let pkgs = parse_dpkg_installed(&mut LineCursor::new(raw));
    assert!(pkgs.is_empty());
}

#[test]
fn test_build_file_probe_script_starts_with_set_e() {
    let script = build_file_probe_script(&["/etc/hosts"]);
    assert!(
        script.starts_with("set -e\n"),
        "probe script must start with 'set -e'"
    );
}

#[test]
fn test_build_file_probe_script_contains_sudo_n_wrapper() {
    let inner = build_file_probe_script(&["/etc/sudoers.d/90-botwork"]);
    let wrapped = build_privileged_probe_script(&inner, FILE_PROBE_HEREDOC_DELIM);
    assert!(
        wrapped.starts_with("sudo -n sh"),
        "outer wrapper must invoke sudo -n sh"
    );
    assert!(
        wrapped.contains(FILE_PROBE_HEREDOC_DELIM),
        "heredoc delimiter must be present"
    );
    assert!(
        wrapped.contains("/etc/sudoers.d/90-botwork"),
        "path must appear in the script body"
    );
}

#[test]
fn test_build_privileged_probe_script_supports_users_probe_wrapping() {
    let inner = "set -e\ngetent passwd\nprintf '__END_PASSWD__\\n'\n";
    let wrapped = build_privileged_probe_script(inner, USERS_PROBE_HEREDOC_DELIM);
    assert!(wrapped.starts_with("sudo -n sh"));
    assert!(wrapped.contains(USERS_PROBE_HEREDOC_DELIM));
    assert!(wrapped.contains("__END_PASSWD__"));
}

#[test]
fn test_build_privileged_probe_script_supports_groups_probe_wrapping() {
    let inner = "set -e\ngetent group\nprintf '__END_GROUP__\\n'\n";
    let wrapped = build_privileged_probe_script(inner, GROUPS_PROBE_HEREDOC_DELIM);
    assert!(wrapped.starts_with("sudo -n sh"));
    assert!(wrapped.contains(GROUPS_PROBE_HEREDOC_DELIM));
    assert!(wrapped.contains("__END_GROUP__"));
}

#[test]
fn test_build_file_probe_script_one_block_per_path() {
    let paths = ["/a", "/b", "/c"];
    let script = build_file_probe_script(&paths);
    // Each path produces exactly one `printf 'absent\n'` or `printf 'present:...`
    // block; count the number of `printf 'absent` occurrences as a proxy.
    let absent_count = script.matches("printf 'absent").count();
    assert_eq!(
        absent_count,
        paths.len(),
        "each path must have exactly one absent branch"
    );
}

#[test]
fn test_build_file_probe_script_empty_paths() {
    let script = build_file_probe_script(&[]);
    assert_eq!(
        script, "set -e\n",
        "empty paths produces only set -e header"
    );
}

#[test]
fn test_parse_names_from_dump_basic_passwd() {
    let raw =
        "root:x:0:0::/root:/bin/bash\nbot:x:1000:1000::/home/bot:/bin/bash\n__END_PASSWD__\n";
    let names = parse_names_from_dump(&mut LineCursor::new(raw), "__END_PASSWD__", None);
    assert_eq!(names, vec!["root", "bot"]);
}

#[test]
fn test_parse_names_from_dump_basic_group() {
    let raw = "root:x:0:\nbot:x:1000:bot\n__END_GROUP__\n";
    let names = parse_names_from_dump(&mut LineCursor::new(raw), "__END_GROUP__", None);
    assert_eq!(names, vec!["root", "bot"]);
}

#[test]
fn test_parse_names_from_dump_filters_installer_user() {
    // The installer user must be removed from the candidate set.
    let raw = "root:x:0:0::/root:/bin/bash\nbotforge-abc123:x:999:999::/home/botforge-abc123:/usr/sbin/nologin\nbot:x:1000:1000::/home/bot:/bin/bash\n__END_PASSWD__\n";
    let names =
        parse_names_from_dump(&mut LineCursor::new(raw), "__END_PASSWD__", Some("botforge-abc123"));
    assert_eq!(names, vec!["root", "bot"]);
}

#[test]
fn test_parse_names_from_dump_filters_installer_group() {
    // The installer's same-named primary group must be removed from the candidate set.
    let raw =
        "root:x:0:\nbotforge-abc123:x:999:botforge-abc123\nbot:x:1000:bot\n__END_GROUP__\n";
    let names =
        parse_names_from_dump(&mut LineCursor::new(raw), "__END_GROUP__", Some("botforge-abc123"));
    assert_eq!(names, vec!["root", "bot"]);
}

#[test]
fn test_parse_names_from_dump_filters_only_exact_installer() {
    // A genuinely leaked name that is different from the installer must NOT be filtered.
    let raw = "root:x:0:0::/root:/bin/bash\nbotforge-evil:x:998:998::/:/nologin\nbotforge-abc123:x:999:999::/:/nologin\n__END_PASSWD__\n";
    let names =
        parse_names_from_dump(&mut LineCursor::new(raw), "__END_PASSWD__", Some("botforge-abc123"));
    assert_eq!(names, vec!["root", "botforge-evil"]);
}

#[test]
fn test_parse_names_from_dump_stops_at_sentinel() {
    let raw = "foo:x:1:1::/:/nologin\n__END_PASSWD__\nbar:x:2:2::/:/nologin\n";
    let names = parse_names_from_dump(&mut LineCursor::new(raw), "__END_PASSWD__", None);
    assert_eq!(names, vec!["foo"]);
}

#[test]
fn test_parse_names_from_dump_no_installer_keeps_all() {
    // When installer is None, no filtering occurs.
    let raw = "botforge-abc123:x:999:999::/:/nologin\nbot:x:1000:1000::/home/bot:/bin/bash\n__END_PASSWD__\n";
    let names = parse_names_from_dump(&mut LineCursor::new(raw), "__END_PASSWD__", None);
    assert_eq!(names, vec!["botforge-abc123", "bot"]);
}

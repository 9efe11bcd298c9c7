//! Assertions on a guest, from the probe to the report.

use botforge_plan::accounts::{run_assert_groups, run_assert_users};
use botforge_plan::checks::{run_assert_files, AssertReport, ReportLine};
use botforge_plan::document::{
    AssertBlock, AssertFile, AssertGroup, AssertPackage, AssertService, AssertUser,
};
use botforge_plan::error::PlanError;
use botforge_plan::globbing::{accept_match, matching_names, name_matches};
use botforge_plan::ordered::{put_entry, text_precedes};
use botforge_plan::packages::{
    run_assert_packages, run_assert_services, run_plugin_assert_checks, PluginCheck,
};
use botforge_plan::probe::{
    files_probe, groups_probe, packages_probe, run_file_probe, run_privileged_probe,
    services_probe, users_probe,
};

fn report(r: AssertReport) -> (Vec<String>, Option<String>) {
    let lines = r
        .lines
        .iter()
        .map(|line| match line {
            ReportLine::Status { label, ok } => format!("{} {label}", if *ok { "+" } else { "-" }),
            ReportLine::Detail { text } => format!("  {text}"),
        })
        .collect();
    (lines, r.outcome.err().map(|e| e.to_string()))
}

fn user(exists: bool, shell: Option<&str>, groups: &[&str]) -> AssertUser {
    AssertUser {
        exists,
        shell: shell.map(str::to_string),
        groups: groups.iter().map(|g| g.to_string()).collect(),
    }
}

fn users(entries: Vec<(&str, AssertUser)>) -> AssertBlock {
    let mut block = AssertBlock::default();
    for (name, expected) in entries {
        put_entry(&mut block.users, name.to_string(), expected);
    }
    block
}

#[test]
fn entries_are_kept_in_the_order_of_their_keys() {
    let mut entries = Vec::new();
    for (k, v) in [("b", 1), ("a", 2), ("c", 3), ("b", 4), ("aa", 5), ("", 6)] {
        put_entry(&mut entries, k.to_string(), v);
    }
    let seen: Vec<(&str, i32)> = entries.iter().map(|(k, v)| (k.as_str(), *v)).collect();
    assert_eq!(seen, [("", 6), ("a", 2), ("aa", 5), ("b", 4), ("c", 3)]);
    assert!(text_precedes("a", "b"));
    assert!(text_precedes("a", "ab"));
    assert!(!text_precedes("b", "a"));
    assert!(!text_precedes("a", "a"));
}

#[test]
fn names_match_patterns() {
    assert!(name_matches("botforge-*", "botforge-x1"));
    assert!(!name_matches("botforge-*", "root"));
    assert!(name_matches("us[ab]r", "usar"));
    assert!(!name_matches("us[ab]r", "user"));
    assert!(name_matches("u?er", "user"));
    let names: Vec<String> = ["a1", "b1", "a2"].iter().map(|n| n.to_string()).collect();
    assert_eq!(matching_names("a*", &names), ["a1", "a2"]);
    assert!(matching_names("[", &names).is_empty());
    assert!(name_matches("[", "__no_match__"));
    assert!(accept_match(Some(true), false));
    assert!(accept_match(None, true));
    assert!(!accept_match(Some(false), true));
}

#[test]
fn files_are_held_against_what_is_expected() {
    let mut block = AssertBlock::default();
    let expected = |exists: bool, owner: Option<&str>| AssertFile {
        exists,
        filetype: None,
        owner: owner.map(str::to_string),
        group: None,
        mode: None,
    };
    put_entry(&mut block.files, "/b".to_string(), expected(false, None));
    put_entry(&mut block.files, "/a".to_string(), expected(true, Some("root")));
    let script = files_probe(&block.files).unwrap().script;
    assert!(script.find("'/a'").unwrap() < script.find("'/b'").unwrap());
    assert_eq!(run_file_probe(&["/a", "/b"]).script, script);
    let good = Ok("present:file:root:root:644\nabsent\n".to_string());
    assert_eq!(
        report(run_assert_files(&block, &good)),
        (vec!["+ /a".to_string(), "+ /b".to_string()], None)
    );
    let bad = Ok("present:file:bot:root:644\npresent:file:root:root:600\n".to_string());
    let (lines, error) = report(run_assert_files(&block, &bad));
    assert_eq!(lines[0], "- /a");
    assert!(lines[1].contains("root") && lines[1].contains("bot"), "{lines:?}");
    assert_eq!(lines[3], "  exists: expected absent, but path exists");
    assert_eq!(error.as_deref(), Some("one or more assert.files: checks failed"));
    let broken = Err(PlanError::text("timeout"));
    assert_eq!(
        report(run_assert_files(&block, &broken)).1.as_deref(),
        Some("assert.files: privileged probe failed: sudo -n not available or failed (timeout)")
    );
    assert_eq!(report(run_assert_files(&AssertBlock::default(), &broken)), (vec![], None));
}

#[test]
fn users_are_held_against_what_is_expected() {
    let block = users(vec![
        ("bot", user(true, Some("/bin/bash"), &["docker", "sudo"])),
        ("root", user(true, None, &["root"])),
        ("spy", user(false, None, &[])),
    ]);
    let script = users_probe(&block.users).unwrap().script;
    assert!(script.starts_with("sudo -n sh <<'__BOTFORGE_USERS_PROBE__'\nset -e\n"));
    assert!(!script.contains("__END_PASSWD__"));
    let output = "present:/bin/bash\npresent:/bin/sh\nabsent\nbot docker\nroot\n".to_string();
    assert_eq!(
        report(run_assert_users(&block, None, &Ok(output))),
        (
            vec![
                "+ user bot".to_string(),
                "- user bot groups".to_string(),
                "  user bot: missing required group \"sudo\"".to_string(),
                "+ user root".to_string(),
                "+ user root groups".to_string(),
                "+ user spy".to_string(),
            ],
            Some("one or more assert.users: checks failed".to_string())
        )
    );
    let (lines, _) = report(run_assert_users(&block, None, &Ok(String::new())));
    assert_eq!(lines[0], "- user bot");
    assert_eq!(lines[1], "  user bot: expected present, got absent");
    assert_eq!(
        report(run_assert_users(&block, None, &Err(PlanError::text("x")))).1.as_deref(),
        Some("assert.users: privileged probe failed: sudo -n not available or failed (x)")
    );
}

#[test]
fn the_installer_is_invisible_to_patterns_of_users() {
    let block = users(vec![("botforge-*", user(false, None, &[])), ("r*", user(true, None, &[]))]);
    assert!(users_probe(&block.users).unwrap().script.contains("__END_PASSWD__"));
    let dump = Ok("root:x:0:0::/root:/bin/sh\nbotforge-me:x:1:1::/:/bin/sh\n__END_PASSWD__\n"
        .to_string());
    assert_eq!(
        report(run_assert_users(&block, Some("botforge-me"), &dump)),
        (
            vec![
                "+ users: no user matching \"botforge-*\" (excluding installer \"botforge-me\")"
                    .to_string(),
                "+ users: at least one user matching \"r*\"".to_string(),
            ],
            None
        )
    );
    let (lines, error) = report(run_assert_users(&block, None, &dump));
    assert!(
        lines.contains(
            &"- users: expected no user matching \"botforge-*\", but found \"botforge-me\""
                .to_string()
        ),
        "{lines:?}"
    );
    assert!(error.is_some());
    let (lines, _) = report(run_assert_users(&block, None, &Ok("__END_PASSWD__".to_string())));
    assert!(
        lines.contains(
            &"- users: expected a user matching \"r*\", but none found".to_string()
        ),
        "{lines:?}"
    );
}

#[test]
fn groups_are_held_against_what_is_expected() {
    let mut block = AssertBlock::default();
    for (name, exists) in [("docker", true), ("evil", false), ("bot*", false)] {
        put_entry(&mut block.groups, name.to_string(), AssertGroup { exists });
    }
    assert!(groups_probe(&block.groups).unwrap().script.contains("__END_GROUP__"));
    let dump = Ok("absent\nabsent\nbotforge:x:1:\nbotforge-me:x:2:\n__END_GROUP__\n".to_string());
    assert_eq!(
        report(run_assert_groups(&block, Some("botforge-me"), &dump)),
        (
            vec![
                "- group docker".to_string(),
                "  group docker: expected present, got absent".to_string(),
                "+ group evil".to_string(),
                "  expected no group matching \"bot*\" (excluding installer \"botforge-me\"), but \
                 found \"botforge\""
                    .to_string(),
                "- groups: expected no group matching \"bot*\" (excluding installer \
                 \"botforge-me\"), but found \"botforge\""
                    .to_string(),
            ],
            Some("one or more assert.groups: checks failed".to_string())
        )
    );
}

#[test]
fn packages_are_held_against_what_is_expected() {
    let mut block = AssertBlock::default();
    for (name, installed) in [("curl", true), ("telnet", false), ("lib*", true), ("x*", false)] {
        put_entry(&mut block.packages, name.to_string(), AssertPackage { installed });
    }
    let script = packages_probe(&block.packages).unwrap().script;
    assert!(script.starts_with("set -e\n"), "{script}");
    let dump = Ok("present\npresent\nlibc install ok installed\nlibx deinstall ok config-files\n\
                   __END_DPKG__\n"
        .to_string());
    assert_eq!(
        report(run_assert_packages(&block, &dump)),
        (
            vec![
                "+ package curl".to_string(),
                "- package telnet".to_string(),
                "  package telnet: expected NOT installed, but present".to_string(),
                "+ packages: at least one installed matching \"lib*\"".to_string(),
                "+ packages: expected no installed package matching \"x*\"".to_string(),
            ],
            Some("one or more assert.packages: checks failed".to_string())
        )
    );
    let none = Ok("present\nabsent\n__END_DPKG__".to_string());
    let (lines, _) = report(run_assert_packages(&block, &none));
    assert!(
        lines.contains(
            &"- packages: expected ≥1 installed matching \"lib*\", found none".to_string()
        ),
        "{lines:?}"
    );
    assert_eq!(
        report(run_assert_packages(&block, &Err(PlanError::text("lost")))).1.as_deref(),
        Some("assert.packages: SSH probe failed: lost")
    );
}

#[test]
fn services_are_held_against_what_is_expected() {
    let mut block = AssertBlock::default();
    put_entry(
        &mut block.services,
        "ssh".to_string(),
        AssertService { enabled: Some(true), active: Some(true) },
    );
    let script = services_probe(&block.services).unwrap().script;
    assert!(script.contains("systemctl is-enabled") && script.contains("systemctl is-active"));
    let (lines, error) = report(run_assert_services(&block, &Ok(String::new())));
    assert!(!lines.is_empty());
    assert_eq!(error.as_deref(), Some("one or more assert.services: checks failed"));
    assert!(services_probe(&Vec::new()).is_none());
}

#[test]
fn checks_of_plugins_are_reported() {
    let check = |label: &str, ok: bool, message: Option<&str>| PluginCheck {
        label: label.to_string(),
        ok,
        message: message.map(str::to_string),
    };
    let checks = vec![check("a", true, Some("hidden")), check("b", false, Some("why"))];
    assert_eq!(
        report(run_plugin_assert_checks("ports", &Ok(checks))),
        (
            vec!["+ a".to_string(), "- b".to_string(), "  why".to_string()],
            Some("one or more assert.ports checks failed".to_string())
        )
    );
    assert_eq!(report(run_plugin_assert_checks("ports", &Ok(Vec::new()))), (vec![], None));
    assert_eq!(
        report(run_plugin_assert_checks("ports", &Err(PlanError::text("eof")))).1.as_deref(),
        Some("assert.ports: invalid results JSON: eof")
    );
}

#[test]
fn probes_run_with_few_retries() {
    let request = run_privileged_probe("echo hi\n", "END");
    assert_eq!(request.script, "sudo -n sh <<'END'\necho hi\nEND\n");
    let mut block = AssertBlock::default();
    put_entry(&mut block.packages, "curl".to_string(), AssertPackage { installed: true });
    for request in [request, packages_probe(&block.packages).unwrap()] {
        assert_eq!(request.retries, 3);
        assert_eq!(request.retry_delay_secs, 2);
        assert_eq!(request.connect_timeout_secs, 30);
    }
}

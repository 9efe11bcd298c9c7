//! Files and uploads that are placed in the guest.

use botforge_plan::budget::Retries;
use botforge_plan::error::PlanError;
use botforge_plan::staging::{
    install_file_to_guest, resolve_file_mappings, stage_file, staged_line, staging_error,
    FileMapping, GuestInstall, InstallAction, InstallOpts, InstallPhase, ResolvedFile,
};
use botforge_plan::uploads::{
    fixed_glob_prefix, path_below, resolve_top_level_upload_mappings, stage_top_level_upload,
    upload_query, validate_top_level_upload_src_for_runtime, TopLevelUpload, UploadFound,
    UploadMapping, UploadMatch, UploadQuery,
};
use botforge_plan::validate::FileEntry;

fn entry(src: &str, dest: &str) -> FileEntry {
    FileEntry { src: src.to_string(), dest: dest.to_string(), ..Default::default() }
}

fn resolved(local: &str, relative: &str) -> Result<Vec<ResolvedFile>, PlanError> {
    Ok(vec![ResolvedFile {
        local_path: local.to_string(),
        relative_path: relative.to_string(),
    }])
}

fn mapping(local: &str, dest: &str) -> FileMapping {
    FileMapping { local_path: local.to_string(), guest_dest: dest.to_string() }
}

#[test]
fn test_resolve_file_mappings_repo_glob_preserves_relative_paths() {
    let file = "/repo/images/botspace/envoy/ecds/ext_authz.yaml";
    let mappings = resolve_file_mappings(
        &entry("@://images/botspace/envoy/**/*.yaml", "/tmp/bake-staging/envoy/"),
        &resolved(file, "ecds/ext_authz.yaml"),
    )
    .unwrap();
    assert_eq!(mappings, vec![mapping(file, "/tmp/bake-staging/envoy/ecds/ext_authz.yaml")]);
}

#[test]
fn test_resolve_file_mappings_artifact_glob_preserves_flat_matches() {
    let file = "/repo/build/artifact/payload/mcp-fs.tar";
    let mappings = resolve_file_mappings(
        &entry("@artifact://payload/*.tar", "/usr/share/botwork/images/"),
        &resolved(file, "mcp-fs.tar"),
    )
    .unwrap();
    assert_eq!(mappings, vec![mapping(file, "/usr/share/botwork/images/mcp-fs.tar")]);
}

#[test]
fn test_resolve_file_mappings_repo_literal_dest_uses_relative_path() {
    let local = "/repo/scripts/setup.sh";
    let mappings = resolve_file_mappings(
        &entry("@://scripts/setup.sh", "/tmp/staging/setup.sh"),
        &resolved(local, "setup.sh"),
    )
    .unwrap();
    assert_eq!(mappings, vec![mapping(local, "/tmp/staging/setup.sh")]);
}

#[test]
fn test_resolve_file_mappings_repo_literal_dir_dest_appends_basename() {
    let local = "/repo/scripts/setup.sh";
    let mappings = resolve_file_mappings(
        &entry("@://scripts/setup.sh", "/tmp/staging/"),
        &resolved(local, "setup.sh"),
    )
    .unwrap();
    assert_eq!(mappings, vec![mapping(local, "/tmp/staging/setup.sh")]);
}

#[test]
fn test_resolve_file_mappings_zero_match_is_error() {
    let nothing = Err(PlanError::text("pattern matched no files"));
    let err =
        resolve_file_mappings(&entry("@://images/**/*.yaml", "/tmp/staging/"), &nothing).unwrap_err();
    assert_eq!(
        err.to_string(),
        "failed to resolve file src '@://images/**/*.yaml': pattern matched no files"
    );
}

#[test]
fn test_resolve_file_mappings_rejects_bare_path() {
    let err = resolve_file_mappings(
        &entry("images/botspace/envoy/**/*.yaml", "/tmp/staging/"),
        &resolved("x", "x"),
    )
    .unwrap_err();
    assert!(err.to_string().contains('@'), "error should mention @-reference: {err:?}");
    assert!(err.to_string().contains("is not a valid @-reference"), "{err:?}");
}

fn plain_opts() -> InstallOpts {
    InstallOpts { mode: None, owner: None, group: None, overwrite: None, parents: None }
}

fn ran(action: InstallAction) -> (String, u64) {
    match action {
        InstallAction::Run { command, retries, secs } => {
            assert_eq!(retries, Retries { tries: 1, delay_secs: 0 });
            (command, secs)
        }
        other => panic!("expected a command: {other:?}"),
    }
}

#[test]
fn a_file_is_copied_installed_and_its_temporary_file_removed() {
    let mut install = GuestInstall::new("file", "/etc/app.conf", plain_opts(), "0-1", "abc");
    let tmp = "/tmp/botforge-upload-0-1-abc";
    assert_eq!(
        install_file_to_guest(&mut install, &Ok(())),
        InstallAction::Copy {
            remote_tmp: tmp.to_string(),
            retries: Retries { tries: 10, delay_secs: 2 },
        }
    );
    assert_eq!(
        ran(install_file_to_guest(&mut install, &Ok(()))),
        (format!("sudo install -D -m 0644 -o 'root' -g 'root' '{tmp}' '/etc/app.conf'"), 30)
    );
    assert_eq!(
        ran(install_file_to_guest(&mut install, &Ok(()))),
        (format!("rm -f '{tmp}'"), 10)
    );
    assert_eq!(install_file_to_guest(&mut install, &Ok(())), InstallAction::Done(Ok(())));
    assert_eq!(install.phase, InstallPhase::Finished);
}

#[test]
fn an_install_that_fails_still_removes_the_temporary_file() {
    let opts = InstallOpts {
        mode: Some("0755".to_string()),
        owner: Some("bot".to_string()),
        group: Some("staff".to_string()),
        overwrite: Some(true),
        parents: Some(false),
    };
    let mut install = GuestInstall::new("file", "/opt/it's", opts, "2-0", "s");
    install_file_to_guest(&mut install, &Ok(()));
    let (command, _) = ran(install_file_to_guest(&mut install, &Ok(())));
    assert_eq!(
        command,
        "sudo install -m 0755 -o 'bot' -g 'staff' '/tmp/botforge-upload-2-0-s' '/opt/it'\\''s'"
    );
    let failed = Err(PlanError::text("no space"));
    assert_eq!(
        ran(install_file_to_guest(&mut install, &failed)).0,
        "rm -f '/tmp/botforge-upload-2-0-s'"
    );
    let InstallAction::Done(Err(e)) = install_file_to_guest(&mut install, &Ok(())) else {
        panic!("expected a failure");
    };
    assert_eq!(e.to_string(), "failed to install file to '/opt/it's' in guest: no space");
}

#[test]
fn a_file_that_is_there_is_not_overwritten() {
    let opts = InstallOpts { overwrite: Some(false), ..plain_opts() };
    let mut install = GuestInstall::new("upload", "/etc/app.conf", opts, "0-0", "s");
    install_file_to_guest(&mut install, &Ok(()));
    assert_eq!(
        ran(install_file_to_guest(&mut install, &Ok(()))),
        ("sudo test ! -e '/etc/app.conf'".to_string(), 30)
    );
    let taken = Err(PlanError::text("exit status 1"));
    assert_eq!(
        ran(install_file_to_guest(&mut install, &taken)).0,
        "rm -f '/tmp/botforge-upload-0-0-s'"
    );
    let InstallAction::Done(Err(e)) = install_file_to_guest(&mut install, &Ok(())) else {
        panic!("expected a failure");
    };
    assert_eq!(
        e.to_string(),
        "upload dest '/etc/app.conf' already exists and overwrite is false"
    );
}

#[test]
fn a_copy_that_fails_ends_the_install() {
    let mut install = GuestInstall::new("file", "/x", plain_opts(), "0-0", "s");
    install_file_to_guest(&mut install, &Ok(()));
    let lost = Err(PlanError::text("connection lost"));
    let InstallAction::Done(Err(e)) = install_file_to_guest(&mut install, &lost) else {
        panic!("expected a failure");
    };
    assert_eq!(
        e.to_string(),
        "failed to scp file to guest for install to '/x': connection lost"
    );
}

#[test]
fn staging_labels_files_by_entry_and_index() {
    let mut file = entry("@://a", "/b");
    file.mode = Some("0600".to_string());
    let m = mapping("/repo/a", "/b");
    let install = stage_file(&file, &m, 3, 4, "sfx");
    assert_eq!(install.remote_tmp, "/tmp/botforge-upload-3-4-sfx");
    assert_eq!(install.opts.mode.as_deref(), Some("0600"));
    assert_eq!(staged_line("file", 3, &m), "file 4 staged /repo/a -> /b");
    assert_eq!(
        staging_error("file entry", "@://a", &m, &PlanError::text("boom")).to_string(),
        "file entry '@://a' failed while staging '/repo/a' to '/b': boom"
    );
}

fn upload(src: &str, dest: &str) -> TopLevelUpload {
    TopLevelUpload {
        src: src.to_string(),
        dest: dest.to_string(),
        mode: None,
        owner: None,
        group: None,
        overwrite: None,
        parents: None,
    }
}

fn found(paths: &[(&str, bool)]) -> UploadFound {
    UploadFound::Matches(Ok(paths
        .iter()
        .map(|(p, is_file)| Ok(UploadMatch { path: p.to_string(), is_file: *is_file }))
        .collect()))
}

fn uploaded(local: &str, dest: &str) -> UploadMapping {
    UploadMapping { local_path: local.to_string(), guest_dest: dest.to_string() }
}

#[test]
fn test_resolve_top_level_upload_mappings_preserves_glob_relative_paths() {
    let file = "/repo/images/botspace/envoy/ecds/ext_authz.yaml";
    let mappings = resolve_top_level_upload_mappings(
        "/repo",
        &upload("images/botspace/envoy/**/*.yaml", "/tmp/bake-staging/envoy/"),
        &found(&[(file, true)]),
    )
    .unwrap();
    assert_eq!(mappings, vec![uploaded(file, "/tmp/bake-staging/envoy/ecds/ext_authz.yaml")]);
}

#[test]
fn test_resolve_top_level_upload_mappings_preserves_flat_glob_matches() {
    let file = "/repo/build/images/payload/mcp-fs.tar";
    let mappings = resolve_top_level_upload_mappings(
        "/repo",
        &upload("build/images/payload/*.tar", "/usr/share/botwork/images/"),
        &found(&[(file, true)]),
    )
    .unwrap();
    assert_eq!(mappings, vec![uploaded(file, "/usr/share/botwork/images/mcp-fs.tar")]);
}

#[test]
fn test_resolve_top_level_upload_mappings_literal_dest_directory_uses_basename() {
    let asked = upload("scripts/setup.sh", "/tmp/staging/");
    assert_eq!(
        upload_query("/repo", &asked).unwrap(),
        UploadQuery::File { path: "/repo/scripts/setup.sh".to_string() }
    );
    let mappings =
        resolve_top_level_upload_mappings("/repo", &asked, &UploadFound::File { present: true })
            .unwrap();
    assert_eq!(mappings, vec![uploaded("/repo/scripts/setup.sh", "/tmp/staging/setup.sh")]);
}

#[test]
fn test_resolve_top_level_upload_mappings_zero_match_is_error() {
    let err = resolve_top_level_upload_mappings(
        "/repo",
        &upload("images/**/*.yaml", "/tmp/staging/"),
        &found(&[]),
    )
    .unwrap_err();
    assert!(err.to_string().contains("no files matched"));
}

#[test]
fn test_resolve_top_level_upload_mappings_rejects_traversal() {
    let err = resolve_top_level_upload_mappings(
        "/repo",
        &upload("images/../secret.txt", "/tmp/staging/"),
        &UploadFound::File { present: true },
    )
    .unwrap_err();
    assert!(err.to_string().contains(".."));
}

#[test]
fn test_resolve_top_level_upload_mappings_skips_directories_and_requires_files() {
    let err = resolve_top_level_upload_mappings(
        "/repo",
        &upload("images/botspace/envoy/**", "/tmp/staging/"),
        &found(&[("/repo/images/botspace/envoy/ecds", false)]),
    )
    .unwrap_err();
    assert!(err.to_string().contains("no files matched"));
}

#[test]
fn uploads_report_what_went_wrong() {
    let by_pattern = upload("a/*.txt", "/d/");
    assert_eq!(
        upload_query("/repo", &by_pattern).unwrap(),
        UploadQuery::Pattern { pattern: "/repo/a/*.txt".to_string() }
    );
    let resolve = |found: &UploadFound| {
        resolve_top_level_upload_mappings("/repo", &by_pattern, found).unwrap_err().to_string()
    };
    assert_eq!(
        resolve(&UploadFound::Matches(Err(PlanError::text("bad pattern")))),
        "invalid upload src glob 'a/*.txt': bad pattern"
    );
    assert_eq!(
        resolve(&UploadFound::Matches(Ok(vec![Err(PlanError::text("denied"))]))),
        "failed while expanding upload src glob 'a/*.txt' under /repo: denied"
    );
    assert_eq!(
        resolve(&found(&[("/elsewhere/x.txt", true)])),
        "upload src glob 'a/*.txt' produced '/elsewhere/x.txt' outside fixed prefix '/repo/a'"
    );
    let missing = resolve_top_level_upload_mappings(
        "/repo",
        &upload("a/b", "/d"),
        &UploadFound::File { present: false },
    )
    .unwrap_err();
    assert_eq!(
        missing.to_string(),
        "upload src 'a/b' does not resolve to a regular file under /repo"
    );
    let renamed = resolve_top_level_upload_mappings(
        "/repo",
        &upload(" a/b ", " /d "),
        &UploadFound::File { present: true },
    )
    .unwrap();
    assert_eq!(renamed, vec![uploaded("/repo/a/b", "/d")]);
    let install = stage_top_level_upload(&by_pattern, &renamed[0], 1, 2, "s");
    assert_eq!(install.what, "upload");
    assert_eq!(install.remote_tmp, "/tmp/botforge-upload-1-2-s");
}

#[test]
fn upload_sources_stay_below_the_repository() {
    assert!(validate_top_level_upload_src_for_runtime("a/b").is_ok());
    assert!(validate_top_level_upload_src_for_runtime("a/./b").is_ok());
    assert_eq!(
        validate_top_level_upload_src_for_runtime("").unwrap_err().to_string(),
        "upload src must not be empty"
    );
    assert_eq!(
        validate_top_level_upload_src_for_runtime("/etc").unwrap_err().to_string(),
        "upload src must be repo-relative, got: /etc"
    );
    for bad in ["./a", "a/../b", ".."] {
        assert_eq!(
            validate_top_level_upload_src_for_runtime(bad).unwrap_err().to_string(),
            format!("upload src must contain no '.' or '..' segments: {bad}")
        );
    }
}

#[test]
fn patterns_fix_the_directory_before_their_first_special_part() {
    assert_eq!(fixed_glob_prefix("images/envoy/**/*.yaml"), "images/envoy");
    assert_eq!(fixed_glob_prefix("*.yaml"), "");
    assert_eq!(fixed_glob_prefix("a/b"), "a/b");
    assert_eq!(path_below("/r/a/b/c", "/r/a").as_deref(), Some("b/c"));
    assert_eq!(path_below("/r/ab/c", "/r/a"), None);
    assert_eq!(path_below("r/a", "/r"), None);
}

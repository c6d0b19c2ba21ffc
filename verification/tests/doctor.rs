use opz::doctor::{
    check_credential_files, check_op_accounts, check_op_auth, check_op_run_environments_support,
    check_required_cli_version, collect_doctor_steps, command_advice, command_with_args,
    credential_finding_path_list, doctor_has_required_failure, first_output_line,
    is_credential_env_file_name, optional_cli_check, read_command_output, read_scan_root,
    render_doctor_checks, run_failure, secretlint_outcome, should_skip_scan_dir, skipped_auth,
    sort_findings, summarize_op_whoami, CommandOutcome, CredentialFileFinding, DoctorCheck,
    DoctorStatus, DoctorStep, ScanOutcome, SecretlintOutcome, ToolProbe,
};

fn finding(path: &str, plaintext_entries: usize) -> CredentialFileFinding {
    CredentialFileFinding { path: path.to_string(), plaintext_entries }
}

#[test]
fn test_render_doctor_checks() {
    let checks = vec![
        DoctorCheck::ok("op", "/bin/op (2.0.0)".to_string(), true),
        DoctorCheck::warn("gh", "not found in PATH (needed by github-secret)".to_string()),
        DoctorCheck::error("op auth", "`op whoami --format json` failed".to_string()),
    ];

    let rendered = render_doctor_checks(&checks);
    assert!(rendered.contains("ok    op: /bin/op (2.0.0)\n"));
    assert!(rendered.contains("warn  gh: not found in PATH (needed by github-secret)\n"));
    assert!(rendered.contains("error op auth: `op whoami --format json` failed\n"));
}

#[test]
fn test_doctor_has_required_failure_only_for_required_errors() {
    let warnings_only = vec![
        DoctorCheck::ok("op", "/bin/op (2.0.0)".to_string(), true),
        DoctorCheck::warn("gh", "not found in PATH (needed by github-secret)".to_string()),
    ];
    assert!(!doctor_has_required_failure(&warnings_only));

    let required_error = vec![DoctorCheck::error("op", "not found in PATH".to_string())];
    assert!(doctor_has_required_failure(&required_error));
}

#[test]
fn test_summarize_op_whoami_uses_non_secret_metadata() {
    let summary = summarize_op_whoami(
        r#"{"email":"user@example.test","account_uuid":"A1","user_uuid":"U1"}"#,
    )
    .unwrap();
    assert_eq!(summary, "user@example.test (A1)");
}

#[test]
fn test_credential_env_file_name_patterns() {
    assert!(is_credential_env_file_name(".env"));
    assert!(is_credential_env_file_name(".env.local"));
    assert!(is_credential_env_file_name("service.env"));
    assert!(is_credential_env_file_name("service.env.production"));
    assert!(!is_credential_env_file_name(".env.example"));
    assert!(!is_credential_env_file_name(".env.sample"));
    assert!(!is_credential_env_file_name(".env.template"));
    assert!(!is_credential_env_file_name("backup.env.old"));
    assert!(!is_credential_env_file_name("foo.env.bak"));
    assert!(!is_credential_env_file_name(".envrc"));
    assert!(!is_credential_env_file_name("README.md"));
}

#[test]
fn authentication_is_looked_at_only_with_op() {
    assert!(collect_doctor_steps(true).len() > 0);
    assert!(collect_doctor_steps(false).contains(&DoctorStep::SkippedAuth));
    assert!(!collect_doctor_steps(true).contains(&DoctorStep::SkippedAuth));
    assert_eq!(skipped_auth().message, "skipped because op is not available");
    assert_eq!(skipped_auth().status, DoctorStatus::Failed);
}

#[test]
fn tools_are_looked_for() {
    let found = ToolProbe::Found {
        path: "/bin/gh".to_string(),
        stdout: "gh version 2\nmore".to_string(),
    };
    assert_eq!(optional_cli_check("gh", "note", &found).status, DoctorStatus::Passed);
    assert_eq!(
        optional_cli_check("gh", "needed by x", &ToolProbe::Missing).message,
        "not found in PATH (needed by x)"
    );
    assert!(check_required_cli_version("op", &ToolProbe::Missing).is_err());
    assert!(check_required_cli_version("op", &found).is_ok());
    assert_eq!(first_output_line("\n  2.30.0  \nrest"), "2.30.0");
    assert_eq!(
        command_with_args("op", &["whoami".to_string()]),
        "op whoami"
    );
    assert_eq!(run_failure("op x", "denied"), "failed to run `op x`: denied");
}

#[test]
fn output_of_commands_is_read() {
    assert_eq!(
        read_command_output("op", true, "exit status: 0", b"out", b"").unwrap(),
        "out"
    );
    assert!(read_command_output("op", false, "exit status: 1", b"", b"bad").is_err());
}

#[test]
fn accounts_are_counted() {
    let check = check_op_accounts(&Ok(r#"[{"a":1},{"a":2}]"#.to_string()));
    assert_eq!(check.status, DoctorStatus::Passed);
    assert!(check.message.contains('2'));
    assert_ne!(check_op_accounts(&Err("boom".to_string())).status, DoctorStatus::Passed);
    assert_eq!(check_op_auth(&Err("boom".to_string())).status, DoctorStatus::Failed);
}

#[test]
fn support_for_environments_is_read_from_the_help() {
    let help = CommandOutcome::Ended {
        success: true,
        stdout: b"--environments x".to_vec(),
        stderr: vec![],
    };
    assert_eq!(check_op_run_environments_support(&help).status, DoctorStatus::Passed);
    let none = CommandOutcome::Ended { success: true, stdout: vec![], stderr: vec![] };
    assert_eq!(check_op_run_environments_support(&none).status, DoctorStatus::Warned);
}

#[test]
fn findings_stand_in_the_order_of_their_paths() {
    let order = |paths: &[&str], windows: bool| -> Vec<String> {
        let findings = paths.iter().map(|path| finding(path, 1)).collect();
        sort_findings(findings, windows).into_iter().map(|one| one.path).collect()
    };
    assert_eq!(order(&["a-b/.env", "a/z/.env", "a/.env"], false), [
        "a/.env", "a/z/.env", "a-b/.env"
    ]);
    assert_eq!(order(&["a-b\\.env", "a\\z\\.env"], true), ["a\\z\\.env", "a-b\\.env"]);
    assert_eq!(order(&["a\\z\\.env", "a-b\\.env"], false), ["a-b\\.env", "a\\z\\.env"]);
}

#[test]
fn findings_are_sorted_and_listed() {
    let findings = sort_findings(vec![finding("b/.env", 1), finding("a/.env", 2)], false);
    assert_eq!(findings[0].path, "a/.env");
    let list = credential_finding_path_list(&findings);
    assert!(list.starts_with("a/.env"));
    assert!(command_advice("run", &vec![]).is_none());
    assert!(command_advice("run", &findings).unwrap().contains("a/.env"));
    assert!(should_skip_scan_dir("target"));
    assert!(should_skip_scan_dir("node_modules"));
    assert!(!should_skip_scan_dir("src"));
}

#[test]
fn scans_become_checks() {
    let clean = check_credential_files(&ScanOutcome::Scanned {
        findings: vec![],
        lint: None,
    });
    assert_eq!(clean.status, DoctorStatus::Passed);
    assert_eq!(secretlint_outcome(Some(0), "0", b"").unwrap(), SecretlintOutcome::Clean);
    assert_eq!(read_scan_root(b"/repo\n").unwrap().as_deref(), Some("/repo"));
    assert_eq!(read_scan_root(b"\n").unwrap(), None);
    assert!(read_scan_root(&[0xff]).is_err());
}

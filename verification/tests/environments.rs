use opz::environment::{
    build_op_run_environment_args, check_environment_run, detect_environment_flag_from_help,
    environment_flag,
};

#[test]
fn test_detect_environment_flag_from_help_prefers_plural() {
    assert_eq!(
        detect_environment_flag_from_help(
            "Flags:\n  --environment string\n  --environments stringArray\n"
        ),
        Some("--environments")
    );
}

#[test]
fn test_detect_environment_flag_from_help_accepts_singular() {
    assert_eq!(
        detect_environment_flag_from_help("Flags:\n  --environment string\n"),
        Some("--environment")
    );
}

#[test]
fn test_detect_environment_flag_from_help_rejects_unsupported() {
    assert_eq!(
        detect_environment_flag_from_help("Flags:\n  --env-file stringArray\n"),
        None
    );
}

#[test]
fn test_build_op_run_environment_args_excludes_secret_values() {
    let args = build_op_run_environment_args(
        "--environment",
        &["dev".to_string(), "staging".to_string()],
        &["printenv".to_string(), "API_TOKEN".to_string()],
    );
    assert_eq!(
        args,
        vec![
            "run".to_string(),
            "--environment".to_string(),
            "dev".to_string(),
            "--environment".to_string(),
            "staging".to_string(),
            "--".to_string(),
            "printenv".to_string(),
            "API_TOKEN".to_string(),
        ]
    );
    assert!(!args.contains(&"super-secret-value".to_string()));
}

#[test]
fn test_run_with_environments_rejects_items() {
    let err = check_environment_run(None, &["item".to_string()], None).unwrap_err();
    assert!(err.to_string().contains("cannot be combined with item"));
}

#[test]
fn test_run_with_environments_rejects_env_file() {
    let err = check_environment_run(None, &[], Some(".env")).unwrap_err();
    assert!(err
        .to_string()
        .contains("cannot be combined with `--env-file`"));
}

#[test]
fn test_run_with_environments_rejects_vault() {
    let err = check_environment_run(Some("Private"), &[], None).unwrap_err();
    assert!(err
        .to_string()
        .contains("cannot be combined with `--environment`"));
}

#[test]
fn a_run_with_environments_alone_is_accepted() {
    assert!(check_environment_run(None, &[], None).is_ok());
    assert_eq!(
        environment_flag(true, b"--environments", b"").unwrap(),
        "--environments"
    );
    assert_eq!(
        environment_flag(true, b"--environment", b"").unwrap(),
        "--environment"
    );
    assert!(environment_flag(true, b"", b"").is_err());
    assert!(environment_flag(false, b"--environments", b"").is_err());
}

use opz::json;
use opz::map::StringMap;
use opz::resolver::{merge_env_lines, ItemGithubRepositories};
use opz::targets::{
    build_gh_secret_set_args, build_secret_json_payload, build_wrangler_secret_bulk_args,
    check_any_secret, cloudflare_secret_line, cloudflare_target_label, github_secret_line,
    guard_github_secret_repo, read_current_repo, resolved_secret,
    validate_cloudflare_secret_lines, validate_github_secret_lines, validate_github_secret_name,
    CloudflareSecretTarget,
};

fn sections() -> Vec<(String, Vec<String>)> {
    vec![
        (
            "foo".to_string(),
            vec![
                "API_TOKEN=op://vault1/item1/API_TOKEN".to_string(),
                "DB_URL=op://vault1/item1/DB_URL".to_string(),
            ],
        ),
        (
            "bar".to_string(),
            vec!["API_TOKEN=op://vault2/item2/API_TOKEN".to_string()],
        ),
    ]
}

fn item(repositories: &[&str]) -> Vec<ItemGithubRepositories> {
    vec![ItemGithubRepositories {
        item_title: "service".to_string(),
        repositories: repositories.iter().map(|name| name.to_string()).collect(),
    }]
}

#[test]
fn test_validate_github_secret_name_rejects_reserved_prefix() {
    validate_github_secret_name("API_TOKEN").unwrap();
    validate_github_secret_name("_TOKEN").unwrap();
    assert!(validate_github_secret_name("GITHUB_TOKEN").is_err());
    assert!(validate_github_secret_name("github_token").is_err());
}

#[test]
fn test_guard_github_secret_repo_allows_matching_metadata() {
    guard_github_secret_repo("owner/repo", &item(&["Owner/Repo", "other/service"])).unwrap();
}

#[test]
fn test_guard_github_secret_repo_rejects_mismatch() {
    let err = guard_github_secret_repo("other/repo", &item(&["owner/repo"])).unwrap_err();
    assert!(err.to_string().contains("GitHub repository mismatch"));
}

#[test]
fn test_guard_github_secret_repo_allows_missing_metadata_with_warning_path() {
    let warning = guard_github_secret_repo("owner/repo", &item(&[])).unwrap();
    assert!(warning.is_some());
}

#[test]
fn test_validate_github_secret_lines_uses_merged_last_item_wins() {
    let merged = merge_env_lines(&sections());
    let names = validate_github_secret_lines(&merged).unwrap();
    assert_eq!(
        merged,
        vec![
            "API_TOKEN=op://vault2/item2/API_TOKEN".to_string(),
            "DB_URL=op://vault1/item1/DB_URL".to_string(),
        ]
    );
    assert_eq!(names, vec!["API_TOKEN".to_string(), "DB_URL".to_string()]);
}

#[test]
fn test_validate_cloudflare_secret_lines_uses_merged_last_item_wins() {
    let merged = merge_env_lines(&sections());
    let names = validate_cloudflare_secret_lines(&merged).unwrap();
    assert_eq!(
        merged,
        vec![
            "API_TOKEN=op://vault2/item2/API_TOKEN".to_string(),
            "DB_URL=op://vault1/item1/DB_URL".to_string(),
        ]
    );
    assert_eq!(names, vec!["API_TOKEN".to_string(), "DB_URL".to_string()]);
}

#[test]
fn test_build_gh_secret_set_args_excludes_secret_value() {
    let args = build_gh_secret_set_args("owner/repo", "API_TOKEN");
    assert_eq!(
        args,
        vec![
            "secret".to_string(),
            "set".to_string(),
            "API_TOKEN".to_string(),
            "--repo".to_string(),
            "owner/repo".to_string(),
        ]
    );
    assert!(!args.contains(&"super-secret-value".to_string()));
}

#[test]
fn test_build_wrangler_secret_bulk_args_excludes_secret_values() {
    let args = build_wrangler_secret_bulk_args(CloudflareSecretTarget {
        name: Some("worker-app"),
        env: Some("production"),
        config: Some("wrangler.jsonc"),
    });
    assert_eq!(
        args,
        vec![
            "secret".to_string(),
            "bulk".to_string(),
            "--name".to_string(),
            "worker-app".to_string(),
            "--env".to_string(),
            "production".to_string(),
            "--config".to_string(),
            "wrangler.jsonc".to_string(),
        ]
    );
    assert!(!args.contains(&"super-secret-value".to_string()));
}

#[test]
fn test_build_secret_json_payload_uses_names_and_values() {
    let names = vec!["API_TOKEN".to_string(), "DB_URL".to_string()];
    let mut env_vars = StringMap::empty_text();
    env_vars.insert_text("API_TOKEN".to_string(), "secret-token".to_string());
    env_vars.insert_text("DB_URL".to_string(), "postgres://example".to_string());
    env_vars.insert_text("UNUSED".to_string(), "unused".to_string());

    let payload = build_secret_json_payload(&names, &env_vars).unwrap();
    let value = json::parse(&payload).unwrap();
    assert_eq!(value.get_str("API_TOKEN"), Some("secret-token"));
    assert_eq!(value.get_str("DB_URL"), Some("postgres://example"));
    assert!(value.get("UNUSED").is_none());
}

#[test]
fn a_missing_value_stops_a_payload() {
    let env_vars = StringMap::empty_text();
    let failure = build_secret_json_payload(&["A".to_string()], &env_vars).unwrap_err();
    assert!(failure.to_string().contains("resolved value missing"));
    assert!(resolved_secret(&env_vars, "A", "GitHub secret ")
        .unwrap_err()
        .to_string()
        .contains("GitHub secret A"));
}

#[test]
fn lines_about_secrets() {
    assert_eq!(github_secret_line(true, "A", "o/r"), "Would set GitHub secret A in o/r");
    assert_eq!(github_secret_line(false, "A", "o/r"), "Set GitHub secret A in o/r");
    let target = CloudflareSecretTarget { name: None, env: None, config: None };
    let label = cloudflare_target_label(target);
    assert!(cloudflare_secret_line(true, "A", &label).starts_with("Would set Cloudflare"));
    assert!(check_any_secret(&[], "GitHub").is_err());
    assert!(check_any_secret(&["A".to_string()], "GitHub").is_ok());
    assert_eq!(read_current_repo(true, b"o/r\n", b"").unwrap(), "o/r");
    assert!(read_current_repo(false, b"", b"no").is_err());
}

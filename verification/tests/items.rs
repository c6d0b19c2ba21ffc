use opz::json;
use opz::json::Json;
use opz::op::{
    build_api_credential_template, build_create_item_args, build_create_item_json_args,
    build_edit_item_json_args, build_edit_title_args, build_get_item_args, build_list_items_args,
    build_op_item_edit_github_repositories_args, build_secure_note_body, build_secure_note_template,
    check_requested_repositories, collect_item_labels, dedupe_titles_with_sequence,
    extract_org_repo_from_remote_url, git_remotes_failure, is_metadata_label,
    is_plugin_metadata_label, item_field_string_value, item_github_repositories, item_to_env_lines,
    item_to_valid_labels, merge_github_repository_lists, normalize_github_repo_spec,
    parse_github_repositories_value, parse_remote_repo_names, read_secret, repositories_report,
    set_sdk_item_text_field, set_sdk_item_title, ItemField, ItemGet, ItemListEntry, ItemVault,
};
use opz::resolver::{
    choose_detected_item, choose_entry, collect_item_env_sections, collect_item_label_sections,
    collect_item_repositories, find_item_rows, is_op_lookup_miss,
    match_item_titles_by_github_repositories, note_title_lookup, resolve_vault_id, EntryChoice,
    ResolvedItem,
};
use opz::failure::Failure;

fn texts(values: &[&str]) -> Vec<String> {
    values.iter().map(|value| value.to_string()).collect()
}

fn make_field(label: Option<&str>, has_value: bool) -> ItemField {
    ItemField {
        label: label.map(String::from),
        value: if has_value {
            Some(Json::text("test"))
        } else {
            None
        },
    }
}

fn make_item(fields: Vec<ItemField>) -> ItemGet {
    ItemGet { id: None, title: None, fields, vault: None }
}

fn env_lines(item: &ItemGet) -> Vec<String> {
    item_to_env_lines(item, "vault-id", "abc123").unwrap()
}

fn vault(id: &str, name: &str) -> ItemVault {
    ItemVault { id: id.to_string(), name: name.to_string() }
}

fn entry(id: &str, title: &str, name: Option<&str>) -> ItemListEntry {
    ItemListEntry {
        id: id.to_string(),
        title: title.to_string(),
        vault: name.map(|name| vault("v", name)),
    }
}

#[test]
fn test_collect_item_labels_matches_env_key_rules() {
    let item = make_item(vec![
        make_field(Some("API_KEY"), true),
        make_field(Some("invalid-key"), true),
        make_field(Some("NO_VALUE"), false),
        make_field(None, true),
        make_field(Some("DB_HOST"), true),
        make_field(Some("github_repositories"), true),
    ]);

    let labels = collect_item_labels(&item).unwrap();
    assert_eq!(labels, vec!["API_KEY".to_string(), "DB_HOST".to_string()]);
}

#[test]
fn test_item_to_env_lines_basic() {
    let item = make_item(vec![
        make_field(Some("API_KEY"), true),
        make_field(Some("DB_HOST"), true),
    ]);
    let lines = env_lines(&item);
    assert_eq!(lines.len(), 2);
    assert!(lines.contains(&"API_KEY=op://vault-id/abc123/API_KEY".to_string()));
    assert!(lines.contains(&"DB_HOST=op://vault-id/abc123/DB_HOST".to_string()));
}

#[test]
fn test_item_to_env_lines_skips_invalid_labels() {
    let item = make_item(vec![
        make_field(Some("VALID_KEY"), true),
        make_field(Some("invalid-key"), true),
        make_field(Some("123_START"), true),
        make_field(Some("has space"), true),
    ]);
    let lines = env_lines(&item);
    assert_eq!(lines.len(), 1);
    assert_eq!(lines[0], "VALID_KEY=op://vault-id/abc123/VALID_KEY");
}

#[test]
fn test_item_to_env_lines_valid_label_patterns() {
    let item = make_item(vec![
        make_field(Some("_UNDERSCORE_START"), true),
        make_field(Some("lowercase"), true),
        make_field(Some("MixedCase123"), true),
        make_field(Some("WITH_123_NUMBERS"), true),
    ]);
    let lines = env_lines(&item);
    assert_eq!(lines.len(), 4);
}

#[test]
fn test_item_to_env_lines_skips_no_label() {
    let item = make_item(vec![make_field(None, true), make_field(Some("VALID"), true)]);
    let lines = env_lines(&item);
    assert_eq!(lines.len(), 1);
    assert_eq!(lines[0], "VALID=op://vault-id/abc123/VALID");
}

#[test]
fn test_item_to_env_lines_empty_fields() {
    let item = make_item(vec![]);
    let lines = env_lines(&item);
    assert!(lines.is_empty());
}

#[test]
fn test_item_to_env_lines_skips_no_value() {
    let item = make_item(vec![
        make_field(Some("NO_VALUE"), false),
        make_field(Some("HAS_VALUE"), true),
    ]);
    let lines = env_lines(&item);
    assert_eq!(lines.len(), 1);
    assert_eq!(lines[0], "HAS_VALUE=op://vault-id/abc123/HAS_VALUE");
}

#[test]
fn test_item_to_valid_labels_skips_invalid_and_missing() {
    let item = make_item(vec![
        make_field(Some("VALID_KEY"), false),
        make_field(Some("invalid-key"), true),
        make_field(None, true),
        make_field(Some("github_repositories"), true),
    ]);
    let labels = item_to_valid_labels(&item).unwrap();
    assert_eq!(labels, vec!["VALID_KEY".to_string()]);
}

#[test]
fn test_item_github_repositories_parses_metadata_field() {
    let item = make_item(vec![ItemField {
        label: Some("github_repositories".to_string()),
        value: Some(Json::text(
            "Owner/Repo\nhttps://github.com/Other/Service.git, git@github.com:Org/App.git",
        )),
    }]);

    let repos = item_github_repositories(&item);
    assert_eq!(
        repos,
        vec![
            "owner/repo".to_string(),
            "other/service".to_string(),
            "org/app".to_string()
        ]
    );
}

#[test]
fn test_normalize_github_repo_spec_accepts_urls_and_owner_repo() {
    assert_eq!(
        normalize_github_repo_spec("Owner/Repo"),
        Some("owner/repo".to_string())
    );
    assert_eq!(
        normalize_github_repo_spec("https://github.com/Owner/Repo.git"),
        Some("owner/repo".to_string())
    );
    assert_eq!(
        normalize_github_repo_spec("git@github.com:Owner/Repo.git"),
        Some("owner/repo".to_string())
    );
    assert_eq!(normalize_github_repo_spec("not-a-repo"), None);
}

#[test]
fn test_match_item_titles_by_github_repositories_matches_one() {
    let candidates = vec![
        ("service".to_string(), vec!["owner/repo".to_string()]),
        ("other".to_string(), vec!["other/repo".to_string()]),
    ];

    let matches = match_item_titles_by_github_repositories(&candidates, &["OWNER/REPO".to_string()]);

    assert_eq!(matches, vec!["service".to_string()]);
}

#[test]
fn test_match_item_titles_by_github_repositories_matches_none() {
    let candidates = vec![("service".to_string(), vec!["owner/repo".to_string()])];

    let matches = match_item_titles_by_github_repositories(&candidates, &["other/repo".to_string()]);

    assert!(matches.is_empty());
}

#[test]
fn test_match_item_titles_by_github_repositories_preserves_multiple_matches() {
    let candidates = vec![
        ("service".to_string(), vec!["owner/repo".to_string()]),
        ("shared".to_string(), vec!["owner/repo".to_string()]),
    ];

    let matches = match_item_titles_by_github_repositories(&candidates, &["owner/repo".to_string()]);

    assert_eq!(matches, vec!["service".to_string(), "shared".to_string()]);
}

#[test]
fn test_resolve_vault_id_prefers_id_even_with_unicode_name() {
    let list_vault = vault("vault-123", "情報管理共有");
    let item_vault = vault("vault-fallback", "別名");

    let resolved = resolve_vault_id(Some(&list_vault), Some(&item_vault));
    assert_eq!(resolved.as_deref(), Some("vault-123"));
}

#[test]
fn vault_of_the_item_is_used_without_one_in_the_list() {
    let item_vault = vault("vault-fallback", "x");
    assert_eq!(
        resolve_vault_id(None, Some(&item_vault)).as_deref(),
        Some("vault-fallback")
    );
    assert_eq!(resolve_vault_id(None, None), None);
}

#[test]
fn test_build_create_item_uses_stdin_template_without_secret_args() {
    let env_pairs = vec![
        ("API_KEY".to_string(), "secret".to_string()),
        ("DB_HOST".to_string(), "localhost".to_string()),
    ];

    let args = build_create_item_args(Some("Private"));
    let template = build_api_credential_template("my-item", &env_pairs, &[]);

    assert_eq!(args, vec!["item", "create", "--vault", "Private", "-"]);
    assert!(!args.iter().any(|arg| arg.contains("secret")));
    assert_eq!(template.title, "my-item");
    assert_eq!(template.category, "API_CREDENTIAL");
    assert_eq!(template.fields.len(), 2);
    assert_eq!(template.fields[0].id, "API_KEY");
    assert_eq!(template.fields[0].label, "API_KEY");
    assert_eq!(template.fields[0].field_type, "STRING");
    assert_eq!(template.fields[0].value, "secret");
    assert_eq!(template.fields[1].id, "DB_HOST");
    assert_eq!(template.fields[1].value, "localhost");
}

#[test]
fn test_build_create_item_adds_github_repository_metadata() {
    let env_pairs = vec![("API_KEY".to_string(), "secret".to_string())];
    let template = build_api_credential_template(
        "my-item",
        &env_pairs,
        &["owner/repo".to_string(), "other/service".to_string()],
    );

    let metadata = template
        .fields
        .iter()
        .find(|field| field.label == "github_repositories")
        .unwrap();
    assert_eq!(metadata.value, "owner/repo\nother/service");
    assert_eq!(metadata.field_type, "STRING");
}

#[test]
fn test_merge_github_repository_lists_dedupes_and_normalizes() {
    let merged = merge_github_repository_lists(
        &["Owner/Repo".to_string(), "old/service".to_string()],
        &[
            "https://github.com/owner/repo.git".to_string(),
            "git@github.com:New/App.git".to_string(),
        ],
    );

    assert_eq!(
        merged,
        vec![
            "owner/repo".to_string(),
            "old/service".to_string(),
            "new/app".to_string()
        ]
    );
}

#[test]
fn test_build_op_item_edit_github_repositories_args() {
    let args = build_op_item_edit_github_repositories_args(
        Some("Private"),
        "item-id",
        &["owner/repo".to_string(), "other/service".to_string()],
    );

    assert_eq!(
        args,
        vec![
            "item".to_string(),
            "edit".to_string(),
            "item-id".to_string(),
            "--vault".to_string(),
            "Private".to_string(),
            "github_repositories=owner/repo\nother/service".to_string(),
        ]
    );
}

#[test]
fn test_extract_org_repo_from_remote_url() {
    assert_eq!(
        extract_org_repo_from_remote_url("https://github.com/f4ah6o/opz.git"),
        Some("f4ah6o/opz".to_string())
    );
    assert_eq!(
        extract_org_repo_from_remote_url("git@github.com:f4ah6o/opz.git"),
        Some("f4ah6o/opz".to_string())
    );
    assert_eq!(
        extract_org_repo_from_remote_url("ssh://git@github.com/f4ah6o/opz.git"),
        Some("f4ah6o/opz".to_string())
    );
    assert_eq!(extract_org_repo_from_remote_url("file:///tmp/opz"), None);
}

#[test]
fn test_dedupe_titles_with_sequence() {
    let base = vec![
        "a/b".to_string(),
        "a/b".to_string(),
        "c/d".to_string(),
        "a/b".to_string(),
    ];
    let deduped = dedupe_titles_with_sequence(&base);
    assert_eq!(
        deduped,
        vec![
            "a/b".to_string(),
            "a/b-2".to_string(),
            "c/d".to_string(),
            "a/b-3".to_string()
        ]
    );
}

#[test]
fn test_build_secure_note_body() {
    let body = build_secure_note_body("app.conf", "line1\nline2");
    assert_eq!(body, "```app.conf\nline1\nline2\n```");
}

#[test]
fn test_build_secure_note_uses_stdin_template_without_body_args() {
    let args = build_create_item_args(Some("Private"));
    let template = build_secure_note_template("f4ah6o/opz", "```a\nb\n```");

    assert_eq!(args, vec!["item", "create", "--vault", "Private", "-"]);
    assert!(!args.iter().any(|arg| arg.contains("```a")));
    assert_eq!(template.title, "f4ah6o/opz");
    assert_eq!(template.category, "SECURE_NOTE");
    assert_eq!(template.fields.len(), 1);
    assert_eq!(template.fields[0].id, "notesPlain");
    assert_eq!(template.fields[0].label, "notesPlain");
    assert_eq!(template.fields[0].purpose.as_deref(), Some("NOTES"));
    assert_eq!(template.fields[0].value, "```a\nb\n```");
}

#[test]
fn plugin_metadata_namespace_is_never_projected() {
    assert!(is_plugin_metadata_label("OPZ_PLUGIN"));
    assert!(is_plugin_metadata_label("OPZ_PLUGIN_SHA256"));
    assert!(is_plugin_metadata_label("opz_plugin_future_field"));
    assert!(!is_plugin_metadata_label("OPENAI_API_KEY"));
}

#[test]
fn metadata_never_becomes_a_variable() {
    assert!(is_metadata_label("OPZ_PLUGIN"));
    assert!(is_metadata_label("github_repositories"));
    let item = make_item(vec![
        make_field(Some("OPZ_PLUGIN"), true),
        make_field(Some("opz_plugin_config"), true),
        make_field(Some("TOKEN"), true),
    ]);
    assert_eq!(item_to_valid_labels(&item).unwrap(), texts(&["TOKEN"]));
    assert_eq!(env_lines(&item), texts(&["TOKEN=op://vault-id/abc123/TOKEN"]));
}

#[test]
fn arguments_for_the_other_commands() {
    assert_eq!(build_create_item_args(None), texts(&["item", "create", "-"]));
    assert_eq!(
        build_create_item_json_args(Some("V")),
        texts(&["item", "create", "--vault", "V", "--format=json", "-"])
    );
    assert_eq!(
        build_edit_item_json_args(None, "id"),
        texts(&["item", "edit", "id", "--format=json"])
    );
    assert_eq!(
        build_get_item_args(Some("V"), "t"),
        texts(&["item", "get", "t", "--format", "json", "--vault", "V"])
    );
    assert_eq!(
        build_list_items_args(None),
        texts(&["item", "list", "--format", "json"])
    );
    assert_eq!(
        build_edit_title_args(None, "id", "o/r"),
        texts(&["item", "edit", "id", "title=o/r"])
    );
}

#[test]
fn remotes_become_repositories() {
    assert_eq!(
        parse_remote_repo_names(
            "remote.origin.url https://github.com/owner/repo.git\nremote.fork.url git@github.com:me/repo.git\nbroken\n"
        )
        .unwrap(),
        texts(&["owner/repo", "me/repo"])
    );
    assert!(parse_remote_repo_names("").is_err());
    assert!(git_remotes_failure("boom\n").to_string().ends_with(": boom"));
}

#[test]
fn requested_repositories_are_checked() {
    assert_eq!(
        check_requested_repositories(&texts(&["A/B", "https://github.com/a/b.git"])).unwrap(),
        texts(&["a/b"])
    );
    let failure = check_requested_repositories(&texts(&["A/B", "nothing"])).unwrap_err();
    assert!(failure.to_string().starts_with("Invalid GitHub repository."));
}

#[test]
fn repository_fields_are_split_at_commas_and_spaces() {
    assert_eq!(
        parse_github_repositories_value("a/b, c/d\ne/f"),
        texts(&["a/b", "c/d", "e/f"])
    );
}

#[test]
fn numbers_and_booleans_are_no_texts_of_fields() {
    let field = ItemField { label: None, value: Some(json::parse("null").unwrap()) };
    assert_eq!(item_field_string_value(&field), None);
    let field = ItemField { label: None, value: Some(Json::text("x")) };
    assert_eq!(item_field_string_value(&field).as_deref(), Some("x"));
}

#[test]
fn sdk_items_are_edited_in_place() {
    let mut item = json::parse(
        r#"{"title":"old","fields":[{"id":"a","title":"other","value":"keep"},{"id":"github_repositories","title":"github_repositories","value":"x"}]}"#,
    )
    .unwrap();
    set_sdk_item_text_field(&mut item, "github_repositories", "a/b").unwrap();
    set_sdk_item_title(&mut item, "new").unwrap();
    assert_eq!(
        item.print(),
        r#"{"fields":[{"id":"a","title":"other","value":"keep"},{"id":"github_repositories","title":"github_repositories","value":"a/b"}],"title":"new"}"#
    );
    let mut empty = json::parse(r#"{"fields":[]}"#).unwrap();
    set_sdk_item_text_field(&mut empty, "f", "v").unwrap();
    assert_eq!(
        empty.print(),
        r#"{"fields":[{"fieldType":"Text","id":"f","title":"f","value":"v"}]}"#
    );
    let mut broken = json::parse("[]").unwrap();
    assert_eq!(
        set_sdk_item_text_field(&mut broken, "f", "v").unwrap_err().to_string(),
        "desktop SDK item fields were malformed"
    );
    assert_eq!(
        set_sdk_item_title(&mut broken, "t").unwrap_err().to_string(),
        "desktop SDK item was malformed"
    );
}

#[test]
fn reports_on_repositories() {
    assert_eq!(
        repositories_report(true, "item", &texts(&["a/b", "c/d"])),
        "Would set github_repositories on item to a/b, c/d"
    );
    assert_eq!(
        repositories_report(false, "item", &texts(&["a/b"])),
        "Set github_repositories on item to a/b"
    );
}

#[test]
fn secrets_are_read_without_the_line_end() {
    assert_eq!(read_secret(b"value\n").unwrap(), "value");
    assert!(read_secret(&[0xff, 0xfe]).is_err());
}

fn resolved(title: &str, fields: Vec<ItemField>) -> ResolvedItem {
    ResolvedItem {
        item_id: "i".to_string(),
        vault_id: "v".to_string(),
        title: title.to_string(),
        item: make_item(fields),
    }
}

#[test]
fn sections_of_items() {
    let items = vec![
        resolved("a", vec![make_field(Some("A"), true), make_field(Some("B"), false)]),
        resolved("b", vec![]),
    ];
    assert_eq!(
        collect_item_env_sections(&items),
        vec![
            ("a".to_string(), texts(&["A=op://v/i/A"])),
            ("b".to_string(), vec![])
        ]
    );
    assert_eq!(
        collect_item_label_sections(&items),
        vec![("a".to_string(), texts(&["A", "B"])), ("b".to_string(), vec![])]
    );
    let repositories = collect_item_repositories(&items);
    assert_eq!(repositories.len(), 2);
    assert_eq!(repositories[0].item_title, "a");
    assert!(repositories[0].repositories.is_empty());
}

#[test]
fn an_item_is_detected_only_where_it_is_the_only_one() {
    let repositories = texts(&["o/r"]);
    assert_eq!(
        choose_detected_item(&repositories, &texts(&["o/r"])).unwrap(),
        texts(&["o/r"])
    );
    assert!(choose_detected_item(&repositories, &[])
        .unwrap_err()
        .to_string()
        .starts_with("No 1Password item matched git remote repository title: o/r."));
    assert!(choose_detected_item(&repositories, &texts(&["a", "b"]))
        .unwrap_err()
        .to_string()
        .starts_with("Multiple 1Password items matched"));
}

#[test]
fn a_missing_title_is_no_failure_of_detection() {
    let mut found = Vec::new();
    assert!(note_title_lookup(&mut found, Ok("o/r".to_string())).is_ok());
    assert!(note_title_lookup(&mut found, Err(Failure::new("op item not found".to_string()))).is_ok());
    assert!(note_title_lookup(&mut found, Err(Failure::new("denied".to_string()))).is_err());
    assert_eq!(found, texts(&["o/r"]));
    assert!(is_op_lookup_miss(&Failure::new("\"x\" isn't an item".to_string())));
    assert!(!is_op_lookup_miss(&Failure::new("denied".to_string())));
}

#[test]
fn rows_of_found_items() {
    let entries = vec![
        entry("1", "My Service", Some("Private")),
        entry("2", "other", None),
    ];
    assert_eq!(find_item_rows(&entries, "SERV"), texts(&["1\tPrivate\tMy Service"]));
    assert_eq!(find_item_rows(&entries, "other"), texts(&["2\t-\tother"]));
}

#[test]
fn an_exact_title_goes_before_a_part_of_one() {
    let entries = vec![
        entry("1", "service-a", None),
        entry("2", "service", None),
        entry("3", "Service B", Some("P")),
    ];
    assert!(matches!(choose_entry(&entries, "service"), EntryChoice::Found(1)));
    assert!(matches!(choose_entry(&entries, "SERVICE B"), EntryChoice::Found(2)));
    match choose_entry(&entries, "serv") {
        EntryChoice::Ambiguous(lines, failure) => {
            assert_eq!(
                lines,
                texts(&["  1  [-]  service-a", "  2  [-]  service", "  3  [P]  Service B"])
            );
            assert!(failure.to_string().starts_with("Please be more specific"));
        }
        _ => panic!("expected several entries"),
    }
    match choose_entry(&entries, "none") {
        EntryChoice::Missing(failure) => {
            assert_eq!(failure.to_string(), "No item matched title: none")
        }
        _ => panic!("expected no entry"),
    }
}

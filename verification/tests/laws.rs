use opz::cache::{cache_file_name, github_repository_index_cache_file_name, is_cache_file_name};
use opz::cloudflare::redact_cloudflare_json;
use opz::cloudflare_item::{
    merge_prepared_fields, merge_prepared_sdk_fields, unique_field_ids, DestinationField,
    PreparedCredential,
};
use opz::envfile::{merge_env_file, parse_env_text};
use opz::failure::Failure;
use opz::ids::{free_id, stable_id};
use opz::json;
use opz::mcp::sort_texts;
use opz::mcp_environment::{resolve_environment, sort_records, EnvironmentRecord};
use opz::namespace::{
    namespace_env_sections, normalize_item_title_namespace, strip_namespace_args,
};
use opz::op::{
    build_api_credential_template, build_env_line, check_any_repository, check_env_pairs,
    dedupe_titles_with_sequence, item_github_repositories, item_to_valid_labels,
    merge_github_repository_lists, normalize_github_repo_spec, parse_github_repositories_value,
    set_sdk_item_text_field, ItemField, ItemGet, ItemVault,
};
use opz::process::{expand_vars, op_command_timeout};
use opz::resolver::{env_references, merge_env_lines, ItemGithubRepositories};
use opz::sdk::sdk_item_get;
use opz::sdk_index::{needs_scan, note_repositories, plan_index, read_index, settle_detection};
use opz::security::Redactor;
use opz::seqs::dedupe_preserve_order;
use opz::targets::{guard_github_secret_repo, validate_github_secret_lines};
use opz::telemetry::sanitize_where_possible;
use opz::map::StringMap;

fn texts(values: &[&str]) -> Vec<String> {
    values.iter().map(|value| value.to_string()).collect()
}

fn labelled(labels: &[&str]) -> ItemGet {
    ItemGet {
        id: None,
        title: Some("t".to_string()),
        vault: None,
        fields: labels
            .iter()
            .map(|label| ItemField {
                label: Some(label.to_string()),
                value: Some(json::Json::text("a/b")),
            })
            .collect(),
    }
}

#[test]
fn no_secret_is_left_in_redacted_text() {
    let redactor = Redactor::from_strings(&texts(&["ab", "abc", "b a"]));
    let redacted = redactor.redact("ab abc b ab xabcx");
    for secret in ["ab", "abc", "b a"] {
        assert!(!redacted.contains(secret));
    }
    assert_eq!(redacted, "[REDACTED] [REDACTED] [REDACTED]b x[REDACTED]x");
}

#[test]
fn a_secret_that_overlaps_the_mark_can_come_back() {
    let redactor = Redactor::from_strings(&texts(&["x["]));
    assert_eq!(redactor.redact("xx["), "x[REDACTED]");
}

#[test]
fn one_repository_in_three_forms() {
    for form in ["Owner/My.Repo", "https://github.com/Owner/My.Repo.git", "git@github.com:Owner/My.Repo.git"] {
        assert_eq!(normalize_github_repo_spec(form).as_deref(), Some("owner/my.repo"));
    }
    assert_eq!(
        merge_github_repository_lists(&texts(&["a/b", "c/d"]), &texts(&["A/B", "e/f", ""])),
        texts(&["a/b", "c/d", "e/f"])
    );
}

#[test]
fn titles_of_notes_differ() {
    assert_eq!(
        dedupe_titles_with_sequence(&texts(&["a", "b", "a", "a"])),
        texts(&["a", "b", "a-2", "a-3"])
    );
    assert_eq!(
        dedupe_titles_with_sequence(&texts(&["a", "a", "a-2"])),
        texts(&["a", "a-2", "a-2"])
    );
}

#[test]
fn prefixes_are_upper_case_words() {
    assert_eq!(normalize_item_title_namespace("__my  app-1__").unwrap(), "MY_APP_1");
    assert_eq!(normalize_item_title_namespace("MY_APP_1").unwrap(), "MY_APP_1");
    assert_eq!(normalize_item_title_namespace("-- x").unwrap(), "X");
    assert_eq!(normalize_item_title_namespace("\u{e9}9").unwrap(), "9");
    assert!(normalize_item_title_namespace("").is_err());
    assert!(normalize_item_title_namespace("- _ /").is_err());
    assert!(normalize_item_title_namespace("\u{e9}").is_err());
}

#[test]
fn secrets_go_only_to_listed_repositories() {
    let items = |repositories: &[&str]| {
        vec![ItemGithubRepositories {
            item_title: "t".to_string(),
            repositories: texts(repositories),
        }]
    };
    assert_eq!(guard_github_secret_repo("A/B", &items(&["a/b"])).unwrap(), None);
    assert!(guard_github_secret_repo("a/b", &items(&[])).unwrap().is_some());
    assert!(guard_github_secret_repo("a/b", &items(&["c/d"])).is_err());
    assert_eq!(
        guard_github_secret_repo("b", &items(&[])).unwrap_err().to_string(),
        "Invalid GitHub repository: b"
    );
    assert!(validate_github_secret_lines(&texts(&["GITHUB_TOKEN=x"])).is_err());
}

#[test]
fn the_index_asks_for_each_item_once() {
    let items: Vec<String> = (0..101).map(|i| format!("{{\"id\":\"{i}\"}}")).collect();
    let overviews = json::parse(&format!("[{}]", items.join(","))).unwrap();
    let groups = plan_index(&overviews).unwrap();
    assert_eq!(groups.len(), 2);
    assert_eq!(groups[0].len(), 100);
    assert_eq!(groups[1], texts(&["100"]));
    assert!(plan_index(&json::parse("{}").unwrap()).is_err());
    assert!(plan_index(&json::parse("[{}]").unwrap()).is_err());
    assert!(plan_index(&json::parse("[]").unwrap()).unwrap().is_empty());
}

#[test]
fn the_index_keeps_items_with_repositories() {
    let vault = ItemVault { id: "v".to_string(), name: "n".to_string() };
    let response = json::parse(
        r#"{"individualResponses":[
            {"content":{"title":"a","fields":[{"title":"github_repositories","value":"O/R"}]}},
            {"content":{"title":"b"}}]}"#,
    )
    .unwrap();
    let index = read_index(&response, &vault, 2).unwrap();
    assert_eq!(index.len(), 1);
    assert_eq!(index[0].item_title, "a");
    assert_eq!(index[0].repositories, texts(&["o/r"]));
    assert!(read_index(&response, &vault, 3).is_err());

    let mut index = Vec::new();
    note_repositories(&mut index, "listed", &labelled(&["github_repositories"]));
    note_repositories(&mut index, "other", &labelled(&["X"]));
    assert_eq!(index.len(), 1);
    assert_eq!(index[0].item_title, "listed");
}

#[test]
fn a_search_by_repositories_is_the_last_resort() {
    assert!(needs_scan(&[], Some("1")));
    assert!(!needs_scan(&[], None));
    assert!(!needs_scan(&texts(&["t"]), Some("1")));
    let candidates = vec![
        ("a".to_string(), texts(&["O/R"])),
        ("b".to_string(), texts(&["x/y"])),
        ("a".to_string(), texts(&["o/r"])),
    ];
    assert_eq!(settle_detection(&[], Some(&candidates), &texts(&["o/r"])), texts(&["a"]));
    assert_eq!(
        settle_detection(&texts(&["t", "t"]), None, &texts(&["o/r"])),
        texts(&["t"])
    );
}

#[test]
fn what_is_missing_is_said() {
    assert_eq!(
        check_env_pairs(&[], ".env").unwrap_err().to_string(),
        "No valid env entries found in .env"
    );
    assert!(check_env_pairs(&[("A".to_string(), "1".to_string())], ".env").is_ok());
    assert!(check_any_repository(&[]).is_err());
    assert!(check_any_repository(&texts(&["a/b"])).is_ok());
    let failure = Failure::new("a".to_string()).context("b".to_string());
    assert_eq!(failure.messages(), &texts(&["b", "a"]));
}

#[test]
fn caches_are_found_again() {
    assert!(is_cache_file_name(&cache_file_name(Some("v"))));
    assert!(is_cache_file_name(&github_repository_index_cache_file_name(None)));
}

#[test]
fn a_second_redaction_changes_nothing() {
    let mut value = json::parse(r#"{"token":"t","a":[{"api_key":"k","name":"n"}]}"#).unwrap();
    redact_cloudflare_json(&mut value);
    let once = value.print();
    assert!(!once.contains("\"t\"") && !once.contains("\"k\"") && once.contains("\"n\""));
    redact_cloudflare_json(&mut value);
    assert_eq!(value.print(), once);
}

#[test]
fn a_merge_keeps_the_rest_of_an_item() {
    let field = |label: &str, value: &str| DestinationField {
        label: label.to_string(),
        value: value.to_string(),
    };
    let mut item =
        json::parse(r#"{"id":"i","notes":"n","fields":[{"id":"x","label":"Old","value":"1"}]}"#)
            .unwrap();
    let prepared = PreparedCredential {
        section_label: "S".to_string(),
        fields: vec![field("New", "2")],
    };
    let (_, ids) = merge_prepared_fields(&mut item, &prepared).unwrap();
    assert_eq!(ids.len(), 1);
    let printed = item.print();
    for part in [r#""notes":"n""#, r#""label":"Old","value":"1""#, r#""value":"2""#] {
        assert!(printed.contains(part), "{part}");
    }
    let ids = unique_field_ids(&[field("a b", "1"), field("a-b", "2"), field("!", "3")]);
    assert!(ids[0] != ids[1] && ids[1] != ids[2] && ids[0] != ids[2]);
    assert!(!stable_id("!", "field").is_empty());
    assert_eq!(free_id(&[Some("a".to_string()), Some("a_2".to_string())], "a"), "a_3");
}

#[test]
fn env_files_are_merged_by_key() {
    assert_eq!(
        merge_env_file(Some("# c\nA=1\n\nB=2\n"), &texts(&["A=3", "C=4"])),
        "# c\nA=3\n\nB=2\nC=4\n"
    );
    let (pairs, notices) = parse_env_text("A=1\nexport B=2\nA=3\nC=op://v/i/f\n1x=2\n");
    assert_eq!(
        pairs,
        vec![("B".to_string(), "2".to_string()), ("A".to_string(), "3".to_string())]
    );
    assert_eq!(notices.len(), 2);
    assert_eq!(
        merge_env_lines(&[
            ("x".to_string(), texts(&["A=1", "B=2"])),
            ("y".to_string(), texts(&["A=3"])),
        ]),
        texts(&["A=3", "B=2"])
    );
}

#[test]
fn a_written_line_reads_back() {
    let line = build_env_line("KEY", "v", "i");
    assert_eq!(
        env_references(&[line]),
        vec![("KEY".to_string(), "op://v/i/KEY".to_string())]
    );
}

#[test]
fn metadata_labels_are_passed_over() {
    let labels = item_to_valid_labels(&labelled(&[
        "github_repositories",
        "OPZ_PLUGIN",
        "opz_plugin_x",
        "not a name",
        "KEY",
    ]));
    assert_eq!(labels.unwrap(), texts(&["KEY"]));
}

#[test]
fn generated_variables_are_distinct() {
    let section = |title: &str| (title.to_string(), texts(&["A=op://v/i/A"]));
    assert!(namespace_env_sections(&vec![section("a b"), section("a-b")]).is_err());
    assert_eq!(
        namespace_env_sections(&vec![section("a"), section("b")]).unwrap()[1].1,
        texts(&["B__A=op://v/i/A"])
    );
    assert_eq!(
        strip_namespace_args(&texts(&["opz", "--namespace=item-title", "--", "--namespace", "x"]))
            .unwrap()
            .unwrap(),
        texts(&["opz", "--", "--namespace", "x"])
    );
}

#[test]
fn texts_are_sorted_and_deduplicated() {
    assert_eq!(sort_texts(&texts(&["b", "a", "b"])), texts(&["a", "b"]));
    assert_eq!(
        dedupe_preserve_order(&dedupe_preserve_order(&texts(&["b", "a", "b"]))),
        texts(&["b", "a"])
    );
}

#[test]
fn environments_are_named_exactly() {
    let record = |id: &str, name: &str| EnvironmentRecord {
        id: id.to_string(),
        name: name.to_string(),
    };
    let records = vec![record("1", "dev"), record("2", "prod"), record("3", "prod")];
    assert_eq!(resolve_environment(&records, "dev").unwrap().id, "1");
    assert_eq!(resolve_environment(&records, "2").unwrap().id, "2");
    assert!(resolve_environment(&records, "de").is_err());
    assert!(resolve_environment(&records, "prod").is_err());
}

#[test]
fn texts_without_values_stay() {
    let none = StringMap::empty_text();
    assert_eq!(expand_vars("a $B ${C} $", &none), "a $B ${C} $");
    let mut some = StringMap::empty_text();
    some.insert_text("B".to_string(), "1".to_string());
    assert_eq!(expand_vars("a $B ${B} $BC", &some), "a 1 1 $BC");
    assert_eq!(expand_vars("plain", &some), "plain");
}

#[test]
fn limits_hold() {
    assert!(op_command_timeout(Some("0")) > 0);
    assert_eq!(op_command_timeout(Some("7")), 7);
    let cut = sanitize_where_possible(&"a".repeat(1000)).unwrap();
    assert_eq!(cut.len(), 512 + "...[truncated]".len());
}

#[test]
fn a_file_stays_as_it_is_when_the_same_lines_are_merged_again() {
    let new = texts(&["A=3", "C=4", "export D=5"]);
    for existing in [None, Some(""), Some("# c\nA=1\n\nB=2"), Some("A=1\nA=2\nC=0\n")] {
        let once = merge_env_file(existing, &new);
        assert_eq!(merge_env_file(Some(&once), &new), once);
    }
}

#[test]
fn a_merge_made_again_adds_nothing() {
    let field = |label: &str, value: &str| DestinationField {
        label: label.to_string(),
        value: value.to_string(),
    };
    let prepared = PreparedCredential {
        section_label: "Keys".to_string(),
        fields: vec![field("Token", "1"), field("other", "2"), field("TOKEN", "3")],
    };
    for text in [
        r#"{}"#,
        r#"{"fields":[{"id":"t","label":"token","section":{"id":"keys"},"x":1}]}"#,
        r#"{"sections":[{"id":"s","label":"KEYS"}],"fields":[{"id":"token"}]}"#,
    ] {
        let mut item = json::parse(text).unwrap();
        json::check_ordered(&item);
        let first = merge_prepared_fields(&mut item, &prepared).unwrap();
        let once = item.print();
        assert_eq!(merge_prepared_fields(&mut item, &prepared).unwrap(), first);
        assert_eq!(item.print(), once);
        assert_eq!(first.1.len(), 3);
        assert_eq!(first.1[0], first.1[2]);
    }
    let mut item =
        json::parse(r#"{"fields":[{"id":"t","title":"token","sectionId":"keys"}]}"#).unwrap();
    let first = merge_prepared_sdk_fields(&mut item, &prepared).unwrap();
    let once = item.print();
    assert_eq!(merge_prepared_sdk_fields(&mut item, &prepared).unwrap(), first);
    assert_eq!(item.print(), once);
}

#[test]
fn names_of_repositories_have_one_shape() {
    for value in [
        " Owner/Repo ",
        "https://github.com/Owner/Repo.git?x=1#y",
        "git@github.com:Owner/Repo.git",
        "ssh://git@host/a//b/Owner/Repo/",
        "x/ Owner/Repo",
        "Owner/Repo.git//.git",
    ] {
        let name = normalize_github_repo_spec(value).unwrap();
        let parts: Vec<&str> = name.split('/').collect();
        assert_eq!(parts.len(), 2, "{value}");
        assert!(parts.iter().all(|part| !part.is_empty()), "{value}");
        assert!(!name.contains(['?', '#']) && name == name.to_ascii_lowercase(), "{value}");
    }
    for value in ["Owner/Repo", "https://github.com/Owner/Repo.git", "git@h:Owner/Repo"] {
        let name = normalize_github_repo_spec(value).unwrap();
        assert_eq!(normalize_github_repo_spec(&name), Some(name));
    }
    assert_eq!(normalize_github_repo_spec("a/b.git//.git").as_deref(), Some("a/b.git"));
    assert_eq!(normalize_github_repo_spec("a/b.git").as_deref(), Some("a/b"));
    assert_eq!(normalize_github_repo_spec("x/ a/b").as_deref(), Some(" a/b"));
}

#[test]
fn environments_stand_in_order() {
    let record = |id: &str, name: &str| EnvironmentRecord {
        id: id.to_string(),
        name: name.to_string(),
    };
    let sorted =
        sort_records(&vec![record("2", "b"), record("3", "a"), record("1", "b"), record("0", "c")]);
    let ids: Vec<&str> = sorted.iter().map(|one| one.id.as_str()).collect();
    assert_eq!(ids, ["3", "1", "2", "0"]);
}

#[test]
fn repositories_that_are_noted_are_read_back() {
    let names = texts(&["a/b", "c/d", "a/c"]);
    let value = names.join("\n");
    assert_eq!(parse_github_repositories_value(&value), names);
    let vault = ItemVault { id: "v".to_string(), name: "V".to_string() };
    for text in [
        r#"{"fields":[]}"#,
        r#"{"fields":[{"id":"x","title":"X","value":"1"}]}"#,
        r#"{"fields":[{"id":"github_repositories","title":"GitHub_Repositories","value":"z/z"}]}"#,
    ] {
        let mut item = json::parse(text).unwrap();
        set_sdk_item_text_field(&mut item, "github_repositories", &value).unwrap();
        assert_eq!(item_github_repositories(&sdk_item_get(&item, &vault)), names);
        let once = item.print();
        set_sdk_item_text_field(&mut item, "github_repositories", &value).unwrap();
        assert_eq!(item.print(), once);
    }
    let merged = merge_github_repository_lists(&names, &texts(&["C/D", "e/f"]));
    assert_eq!(merged, texts(&["a/b", "c/d", "a/c", "e/f"]));
    assert_eq!(merge_github_repository_lists(&merged, &texts(&["C/D", "e/f"])), merged);
}

#[test]
fn an_item_made_of_an_env_file_has_its_variables() {
    let pairs =
        vec![("B".to_string(), "1".to_string()), ("A_2".to_string(), "x=y".to_string())];
    let repositories = texts(&["o/r", "o/s"]);
    let template = build_api_credential_template("t", &pairs, &repositories);
    let item = ItemGet {
        id: None,
        title: Some(template.title.clone()),
        vault: None,
        fields: template
            .fields
            .iter()
            .map(|field| ItemField {
                label: Some(field.label.clone()),
                value: Some(json::Json::text(&field.value)),
            })
            .collect(),
    };
    assert_eq!(item_to_valid_labels(&item).unwrap(), texts(&["B", "A_2"]));
    assert_eq!(item_github_repositories(&item), repositories);
}

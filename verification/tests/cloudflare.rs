use opz::cloudflare::{
    check_command_output, check_file_size, check_stdin_size, choose_input_source,
    identifier_words, is_sensitive_cloudflare_key, parse_single_secret,
    prepare_cloudflare_credential, redact_cloudflare_json, resolve_item_action,
    validate_cloudflare_options, CloudflareCredentialMode, CloudflareCredentialOptions,
    CloudflareCredentialPreset, InputSource, ItemAction,
};
use opz::cloudflare_item::{
    build_cloudflare_sdk_create_params, build_create_template, build_stored_credential,
    merge_prepared_fields, merge_prepared_sdk_fields, unique_field_ids,
    validate_cloudflare_item_category, validate_cloudflare_sdk_item_category, DestinationField,
    ItemShape, PreparedCredential,
};
use opz::cloudflare_store::{
    existing_item, finish_op, finish_sdk, plan_op_create, plan_sdk_create, plan_store,
    plan_update, prepare_destination, read_written_item, rehearse_store, report_store, StorePlan,
};
use opz::failure::Failure;
use opz::json;
use opz::json::Json;
use opz::op::ItemVault;

const REDACTED: &str = "[REDACTED]";

fn parse(text: &str) -> Json {
    json::parse(text).unwrap()
}

fn texts(values: &[&str]) -> Vec<String> {
    values.iter().map(|value| value.to_string()).collect()
}

fn at<'a>(value: &'a Json, key: &str, i: usize) -> &'a Json {
    &value.get_array(key).unwrap()[i]
}

fn prepared(section: &str, fields: &[(&str, &str)]) -> PreparedCredential {
    PreparedCredential {
        section_label: section.to_string(),
        fields: fields
            .iter()
            .map(|(label, value)| DestinationField {
                label: label.to_string(),
                value: value.to_string(),
            })
            .collect(),
    }
}

#[test]
fn redacts_nested_sensitive_fields_without_redacting_unrelated_words() {
    let mut value = parse(
        r#"{
            "result": [{
                "Authorization": "Bearer canary",
                "accessToken": "canary",
                "api_key": "canary",
                "apikey": "canary",
                "workerSecret": "canary",
                "setcookie": "canary",
                "Cookie": "canary",
                "monkey": "kept",
                "keyboard": "kept",
                "public": {"name": "kept"}
            }]
        }"#,
    );
    redact_cloudflare_json(&mut value);
    let object = at(&value, "result", 0);
    for key in [
        "Authorization",
        "accessToken",
        "api_key",
        "apikey",
        "workerSecret",
        "setcookie",
        "Cookie",
    ] {
        assert_eq!(object.get_str(key), Some(REDACTED));
    }
    assert_eq!(object.get_str("monkey"), Some("kept"));
    assert_eq!(object.get_str("keyboard"), Some("kept"));
    assert_eq!(object.get("public").unwrap().get_str("name"), Some("kept"));
}

#[test]
fn api_response_is_redacted_by_default_and_raw_is_preserved() {
    let input = br#"{"result":{"token":"canary","id":"abc"}}"#;
    let redacted = prepare_cloudflare_credential(
        CloudflareCredentialPreset::ApiResponse,
        None,
        None,
        false,
        input,
    )
    .unwrap();
    assert!(redacted.fields[0].value.contains(REDACTED));
    assert!(!redacted.fields[0].value.contains("canary"));

    let raw = prepare_cloudflare_credential(
        CloudflareCredentialPreset::ApiResponse,
        None,
        None,
        true,
        input,
    )
    .unwrap();
    assert!(raw.fields[0].value.contains("canary"));
}

#[test]
fn worker_secret_object_becomes_multiple_concealed_fields() {
    let prepared = prepare_cloudflare_credential(
        CloudflareCredentialPreset::WorkerSecret,
        Some("Production"),
        None,
        false,
        br#"{"DB_PASSWORD":"db-canary","API_KEY":"key-canary"}"#,
    )
    .unwrap();
    assert_eq!(prepared.section_label, "Production");
    assert_eq!(prepared.fields.len(), 2);
    let (template, section_id, field_ids) = build_create_template("worker", &prepared);
    assert_eq!(section_id, "production");
    assert_eq!(field_ids.len(), 2);
    assert!(template
        .get_array("fields")
        .unwrap()
        .iter()
        .all(|field| field.get_str("type") == Some("CONCEALED")));
}

#[test]
fn rejects_update_of_non_api_credential_item() {
    let item = parse(r#"{"category":"LOGIN"}"#);
    let error = validate_cloudflare_item_category(&item).unwrap_err();
    assert!(error.to_string().contains("only updates API_CREDENTIAL"));
}

#[test]
fn update_preserves_unrelated_fields_and_replaces_matching_field() {
    let mut item = parse(
        r#"{
            "id": "item-id",
            "sections": [{"id":"cloudflare","label":"Cloudflare"}],
            "fields": [
                {"id":"api_token","section":{"id":"cloudflare"},"type":"CONCEALED","label":"CLOUDFLARE_API_TOKEN","value":"old"},
                {"id":"other","type":"STRING","label":"other","value":"keep"}
            ]
        }"#,
    );
    let prepared = prepared("Cloudflare", &[("CLOUDFLARE_API_TOKEN", "new")]);
    let (_, field_ids) = merge_prepared_fields(&mut item, &prepared).unwrap();
    assert_eq!(field_ids, ["api_token"]);
    assert_eq!(at(&item, "fields", 0).get_str("value"), Some("new"));
    assert_eq!(at(&item, "fields", 1).get_str("value"), Some("keep"));
}

#[test]
fn sdk_create_params_use_official_item_shape_and_concealed_fields() {
    let prepared = prepared("Cloudflare", &[("CLOUDFLARE_API_TOKEN", "canary-secret")]);
    let (params, section_id, field_ids) =
        build_cloudflare_sdk_create_params("worker", &prepared, "vault-1");
    assert_eq!(params.get_str("category"), Some("ApiCredentials"));
    assert_eq!(params.get_str("vaultId"), Some("vault-1"));
    let section = at(&params, "sections", 0);
    assert_eq!(section.get_str("id"), Some(section_id.as_str()));
    assert_eq!(section.get_str("title"), Some("Cloudflare"));
    let field = at(&params, "fields", 0);
    assert_eq!(field.get_str("id"), Some(field_ids[0].as_str()));
    assert_eq!(field.get_str("title"), Some("CLOUDFLARE_API_TOKEN"));
    assert_eq!(field.get_str("sectionId"), Some(section_id.as_str()));
    assert_eq!(field.get_str("fieldType"), Some("Concealed"));
    assert_eq!(field.get_str("value"), Some("canary-secret"));
}

#[test]
fn sdk_update_preserves_unrelated_fields_and_replaces_matching_field() {
    let mut item = parse(
        r#"{
            "id": "item-id",
            "category": "ApiCredentials",
            "vaultId": "vault-id",
            "opaque": {"keep": true},
            "sections": [{"id":"cloudflare","title":"Cloudflare"}],
            "fields": [
                {"id":"api_token","title":"CLOUDFLARE_API_TOKEN","sectionId":"cloudflare","fieldType":"Concealed","value":"old"},
                {"id":"other","title":"other","fieldType":"Text","value":"keep","details":{"opaque":true}}
            ]
        }"#,
    );
    let prepared = prepared("Cloudflare", &[("CLOUDFLARE_API_TOKEN", "new")]);
    validate_cloudflare_sdk_item_category(&item).unwrap();
    let (_, field_ids) = merge_prepared_sdk_fields(&mut item, &prepared).unwrap();
    assert_eq!(field_ids, ["api_token"]);
    assert_eq!(at(&item, "fields", 0).get_str("value"), Some("new"));
    assert_eq!(at(&item, "fields", 1).get_str("value"), Some("keep"));
    assert_eq!(
        at(&item, "fields", 1).get("details").unwrap().get("opaque").unwrap().as_bool(),
        Some(true)
    );
    assert_eq!(item.get("opaque").unwrap().get("keep").unwrap().as_bool(), Some(true));
}

#[test]
fn a_stored_field_is_concealed() {
    let prepared = prepared("Cloudflare", &[("Token", "new"), ("Other", "more")]);
    let mut item = parse(
        r#"{
            "sections": [{"id":"cloudflare","label":"Cloudflare"}],
            "fields": [{"id":"t","section":{"id":"cloudflare"},"type":"STRING","label":"Token","value":"old"}]
        }"#,
    );
    merge_prepared_fields(&mut item, &prepared).unwrap();
    assert_eq!(at(&item, "fields", 0).get_str("id"), Some("t"));
    assert_eq!(at(&item, "fields", 0).get_str("type"), Some("CONCEALED"));
    assert_eq!(at(&item, "fields", 1).get_str("type"), Some("CONCEALED"));
    let mut item = parse(
        r#"{
            "sections": [{"id":"cloudflare","title":"Cloudflare"}],
            "fields": [{"id":"t","title":"Token","sectionId":"cloudflare","fieldType":"Text","value":"old"}]
        }"#,
    );
    merge_prepared_sdk_fields(&mut item, &prepared).unwrap();
    assert_eq!(at(&item, "fields", 0).get_str("id"), Some("t"));
    assert_eq!(at(&item, "fields", 0).get_str("fieldType"), Some("Concealed"));
    assert_eq!(at(&item, "fields", 1).get_str("fieldType"), Some("Concealed"));
}

#[test]
fn sdk_cloudflare_category_guard_does_not_echo_item_content() {
    let item = parse(r#"{"category": "Login","fields": [{"value":"canary-secret"}]}"#);
    let error = validate_cloudflare_sdk_item_category(&item).unwrap_err();
    assert!(!error.to_string().contains("canary-secret"));
}

#[test]
fn a_new_field_gets_an_identifier_that_is_free() {
    let mut item = parse(
        r#"{"sections":[{"id":"cloudflare","label":"Other"}],"fields":[{"id":"token","label":"x"}]}"#,
    );
    let prepared = prepared("Cloudflare", &[("Token", "v")]);
    let (section, fields) = merge_prepared_fields(&mut item, &prepared).unwrap();
    assert_eq!(section, "cloudflare_2");
    assert_eq!(fields, ["token_2"]);
    assert_eq!(at(&item, "fields", 1).get_str("value"), Some("v"));
    let mut list = parse("[]");
    assert!(merge_prepared_fields(&mut list, &prepared).is_err());
    assert_eq!(
        unique_field_ids(&[
            DestinationField { label: "A b".to_string(), value: String::new() },
            DestinationField { label: "a-b".to_string(), value: String::new() },
        ]),
        ["a_b", "a_b_2"]
    );
}

#[test]
fn words_of_keys_decide_what_is_hidden() {
    assert_eq!(identifier_words("accessToken"), ["access", "token"]);
    assert!(is_sensitive_cloudflare_key("X-Auth-Key"));
    assert!(!is_sensitive_cloudflare_key("monkey"));
}

#[test]
fn secrets_come_from_text_or_json() {
    assert_eq!(parse_single_secret(b"token\r\n", None).unwrap(), "token");
    assert_eq!(parse_single_secret(b"\"token\"", None).unwrap(), "token");
    assert_eq!(
        parse_single_secret(br#"{"value":"t","other":1}"#, None).unwrap(),
        "t"
    );
    assert!(parse_single_secret(&[0xff], None).is_err());
}

fn options<'a>(command: &'a [String]) -> CloudflareCredentialOptions<'a> {
    CloudflareCredentialOptions {
        vault: None,
        item: "item",
        section: None,
        field: None,
        preset: CloudflareCredentialPreset::ApiToken,
        mode: CloudflareCredentialMode::Upsert,
        file: None,
        stdin: true,
        raw: false,
        dry_run: false,
        command,
    }
}

#[test]
fn one_source_of_input_is_chosen() {
    let none: Vec<String> = vec![];
    assert!(validate_cloudflare_options(&options(&none)).is_ok());
    let mut raw = options(&none);
    raw.raw = true;
    assert_eq!(
        validate_cloudflare_options(&raw).unwrap_err().to_string(),
        "--raw is only valid with --preset api-response."
    );
    let command = texts(&["cf"]);
    assert!(validate_cloudflare_options(&options(&command))
        .unwrap_err()
        .to_string()
        .starts_with("Choose exactly one input source"));
    let mut empty = options(&none);
    empty.item = "  ";
    assert_eq!(
        validate_cloudflare_options(&empty).unwrap_err().to_string(),
        "--item must not be empty."
    );
    assert!(matches!(choose_input_source(&options(&none)), Ok(InputSource::Stdin)));
}

#[test]
fn inputs_have_a_limit() {
    assert!(check_file_size(16 * 1024 * 1024, "f").is_ok());
    assert!(check_file_size(16 * 1024 * 1024 + 1, "f").is_err());
    assert!(check_stdin_size(16 * 1024 * 1024 + 1).is_err());
    assert!(check_command_output("p", true, "0", 1).is_ok());
    assert!(check_command_output("p", false, "exit status: 1", 1)
        .unwrap_err()
        .to_string()
        .contains("stderr suppressed"));
}

#[test]
fn modes_decide_between_creating_and_updating() {
    assert_eq!(
        resolve_item_action(CloudflareCredentialMode::Upsert, true).unwrap(),
        ItemAction::Update
    );
    assert_eq!(
        resolve_item_action(CloudflareCredentialMode::Upsert, false).unwrap(),
        ItemAction::Create
    );
    assert!(resolve_item_action(CloudflareCredentialMode::Create, true).is_err());
    assert!(resolve_item_action(CloudflareCredentialMode::Update, false).is_err());
}

#[test]
fn a_store_is_planned_and_reported() {
    let credential = prepare_destination(
        CloudflareCredentialPreset::ApiToken,
        Some("My Section"),
        Some("TOKEN"),
        false,
        b"t",
    )
    .unwrap();
    assert!(prepare_destination(
        CloudflareCredentialPreset::ApiToken,
        Some(" "),
        None,
        false,
        b"t"
    )
    .is_err());
    let existing = existing_item(Err(Failure::new("op item not found".to_string()))).unwrap();
    assert!(existing.is_none());
    assert!(existing_item(Err(Failure::new("denied".to_string()))).is_err());
    let plan = plan_store(CloudflareCredentialMode::Upsert, existing).unwrap();
    assert_eq!(
        rehearse_store(&plan, None, "worker", &credential),
        texts(&[
            "Would create 1Password item \"worker\" with 1 concealed field(s) in section \"My Section\"",
            "op://<vault>/worker/my_section/token"
        ])
    );
    let write = plan_op_create("worker", &credential);
    let written = read_written_item(
        "op item create",
        true,
        "exit status: 0",
        br#"{"id":"i","vault":{"id":"v"}}"#,
    )
    .unwrap();
    let stored = finish_op(&plan, &written, &write, &credential).unwrap();
    assert_eq!(
        report_store(&plan, "worker", 1, &stored),
        texts(&[
            "Created 1Password item \"worker\" with 1 concealed field(s)",
            "op://v/i/my_section/token"
        ])
    );
    assert!(read_written_item("op item create", false, "exit status: 1", b"canary")
        .unwrap_err()
        .to_string()
        .ends_with("(output suppressed to avoid leaking credentials)"));
}

#[test]
fn a_submitted_change_that_failed_stays_failed() {
    let credential = prepared("S", &[("T", "v")]);
    let vaults = vec![ItemVault { id: "v1".to_string(), name: "Private".to_string() }];
    let (vault_id, write) = plan_sdk_create(&vaults, "Private", "worker", &credential).unwrap();
    assert_eq!(vault_id, "v1");
    let failure = finish_sdk(
        &StorePlan::Create,
        Err(Failure::new("lost".to_string())),
        &vault_id,
        &write,
    )
    .unwrap_err();
    assert_eq!(
        failure.to_string(),
        "create Cloudflare credential through isolated 1Password Desktop SDK"
    );
    assert!(plan_sdk_create(&vaults, "Other", "worker", &credential).is_err());
    let refused = plan_update(ItemShape::Sdk, parse(r#"{"category":"Login"}"#), &credential);
    assert!(refused.is_err());
    let changed = plan_update(
        ItemShape::Cli,
        parse(r#"{"category":"API_CREDENTIAL","id":"i"}"#),
        &credential,
    )
    .unwrap();
    assert_eq!(changed.section_id, "s");
    assert_eq!(changed.item.get_str("id"), Some("i"));
    assert!(build_stored_credential(&parse("{}"), "s", &[]).is_err());
}

use opz::op::{
    build_api_credential_template, build_secure_note_template, ItemCreateField, ItemCreateTemplate,
};
use opz::security::{
    collect_create_stdout_sensitive_fields, mask_create_stdout, redact_create_stdout, Redactor,
    SecretValue,
};

#[test]
fn secret_value_never_formats_plaintext() {
    let secret = SecretValue::new("OPZ_CANARY_SECRET_VALUE".to_string());
    assert_eq!(secret.to_string(), "[REDACTED]");
    assert_eq!(secret.expose(), "OPZ_CANARY_SECRET_VALUE");
}

#[test]
fn redactor_replaces_longest_values_first() {
    let redactor =
        Redactor::from_strings(&["token".to_string(), "token-with-suffix".to_string()]);
    assert_eq!(
        redactor.redact("token-with-suffix token"),
        "[REDACTED] [REDACTED]"
    );
    assert!(!redactor.to_string().contains("token"));
}

#[test]
fn empty_values_are_no_secrets() {
    let redactor = Redactor::from_strings(&[String::new()]);
    assert_eq!(redactor.redact("a b"), "a b");
    assert_eq!(redactor.to_string(), "Redactor { secret_count: 0 }");
    let redactor = Redactor::new(vec![SecretValue::new("b".to_string())]);
    assert_eq!(redactor.redact_output(b"a b \xff"), "a [REDACTED] \u{fffd}");
}

#[test]
fn test_collect_create_stdout_sensitive_fields_from_template() {
    let template = ItemCreateTemplate {
        title: "my-item".to_string(),
        category: "API_CREDENTIAL".to_string(),
        fields: vec![
            ItemCreateField {
                id: "api_key".to_string(),
                field_type: "STRING".to_string(),
                label: "API_KEY".to_string(),
                value: "secret".to_string(),
                purpose: None,
            },
            ItemCreateField {
                id: "EMPTY".to_string(),
                field_type: "STRING".to_string(),
                label: "EMPTY".to_string(),
                value: String::new(),
                purpose: None,
            },
        ],
    };

    assert_eq!(
        collect_create_stdout_sensitive_fields(&template),
        vec![
            ("API_KEY".to_string(), "secret".to_string()),
            ("api_key".to_string(), "secret".to_string()),
        ]
    );
}

#[test]
fn test_mask_create_stdout_masks_only_field_values() {
    let template = build_api_credential_template(
        "my-item",
        &[
            ("API_KEY".to_string(), "secret".to_string()),
            ("DB_HOST".to_string(), "localhost".to_string()),
        ],
        &[],
    );

    let masked = mask_create_stdout(
        "ID: abc123\nTitle: my-secret-item\nAPI_KEY: secret\nDB_HOST: localhost\n",
        &collect_create_stdout_sensitive_fields(&template),
    );

    assert_eq!(
        masked,
        "ID: abc123\nTitle: my-secret-item\nAPI_KEY: ***\nDB_HOST: ***\n"
    );
}

#[test]
fn test_mask_create_stdout_masks_multiline_notes_field() {
    let template = build_secure_note_template("f4ah6o/opz", "```app.conf\nTOKEN=abc\n```");

    let masked = mask_create_stdout(
        "ID: abc123\nnotesPlain: ```app.conf\nTOKEN=abc\n```\nTitle: f4ah6o/opz\n",
        &collect_create_stdout_sensitive_fields(&template),
    );

    assert_eq!(masked, "ID: abc123\nnotesPlain: ***\nTitle: f4ah6o/opz\n");
}

#[test]
fn values_are_hidden_wherever_they_stand() {
    assert_eq!(
        redact_create_stdout("a secret b", &[("K".to_string(), "secret".to_string())]),
        "a [REDACTED] b"
    );
}

#[test]
fn labels_and_values_are_looked_for_literally() {
    let sensitive = [("a.b".to_string(), "x+y".to_string())];
    assert_eq!(mask_create_stdout("a.b: x+y\naXb: xxy\n", &sensitive), "a.b: ***\naXb: xxy\n");
}

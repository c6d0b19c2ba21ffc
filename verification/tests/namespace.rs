use opz::namespace::{
    namespace_env_sections, namespace_label_sections, namespace_positions,
    normalize_item_title_namespace, register_namespaced_key, strip_namespace_args,
    validate_namespace_value,
};

fn args(values: &[&str]) -> Vec<String> {
    values.iter().map(|value| value.to_string()).collect()
}

#[test]
fn normalizes_item_titles_deterministically() {
    assert_eq!(normalize_item_title_namespace("service_12").unwrap(), "SERVICE_12");
    assert_eq!(
        normalize_item_title_namespace("team/service-a").unwrap(),
        "TEAM_SERVICE_A"
    );
    assert_eq!(
        normalize_item_title_namespace("  Production   API  ").unwrap(),
        "PRODUCTION_API"
    );
    assert_eq!(normalize_item_title_namespace("café prod").unwrap(), "CAF_PROD");
}

#[test]
fn rejects_empty_normalized_titles() {
    assert!(normalize_item_title_namespace("日本語").is_err());
    assert!(normalize_item_title_namespace("___").is_err());
    assert!(normalize_item_title_namespace("  /-  ").is_err());
}

#[test]
fn preserves_duplicate_labels_from_distinct_items() {
    let sections = vec![
        (
            "service_12".to_string(),
            vec!["API_TOKEN=op://vault1/item1/API_TOKEN".to_string()],
        ),
        (
            "service_18".to_string(),
            vec!["API_TOKEN=op://vault2/item2/API_TOKEN".to_string()],
        ),
    ];

    let namespaced = namespace_env_sections(&sections).unwrap();
    assert_eq!(
        namespaced,
        vec![
            (
                "service_12".to_string(),
                vec!["SERVICE_12__API_TOKEN=op://vault1/item1/API_TOKEN".to_string()],
            ),
            (
                "service_18".to_string(),
                vec!["SERVICE_18__API_TOKEN=op://vault2/item2/API_TOKEN".to_string()],
            ),
        ]
    );
}

#[test]
fn rejects_normalization_collisions_without_exposing_references() {
    let sections = vec![
        (
            "service-a".to_string(),
            vec!["API_TOKEN=op://vault1/item1/API_TOKEN".to_string()],
        ),
        (
            "service_a".to_string(),
            vec!["API_TOKEN=op://vault2/item2/API_TOKEN".to_string()],
        ),
    ];

    let message = namespace_env_sections(&sections).unwrap_err().to_string();
    assert!(message.contains("SERVICE_A__API_TOKEN"));
    assert!(message.contains("service-a"));
    assert!(message.contains("service_a"));
    assert!(!message.contains("op://"));
}

#[test]
fn namespaces_show_labels_with_the_same_rules() {
    let sections = vec![(
        "Production API".to_string(),
        vec!["USERNAME".to_string(), "BASE_URL".to_string()],
    )];

    let namespaced = namespace_label_sections(&sections).unwrap();
    assert_eq!(
        namespaced[0].1,
        vec![
            "PRODUCTION_API__USERNAME".to_string(),
            "PRODUCTION_API__BASE_URL".to_string(),
        ]
    );
}

#[test]
fn strips_supported_namespace_before_command_separator_only() {
    let args = args(&[
        "opz",
        "run",
        "--namespace=item-title",
        "service_12",
        "--",
        "echo",
        "--namespace=child-value",
    ]);

    let stripped = strip_namespace_args(&args).unwrap().unwrap();
    assert_eq!(
        stripped,
        vec![
            "opz",
            "run",
            "service_12",
            "--",
            "echo",
            "--namespace=child-value",
        ]
    );
    assert_eq!(
        namespace_positions(&args).unwrap().unwrap(),
        vec![0, 1, 3, 4, 5, 6]
    );
}

#[test]
fn rejects_unknown_or_duplicate_namespace_modes() {
    let unknown = args(&["opz", "--namespace", "other", "--", "env"]);
    assert!(strip_namespace_args(&unknown).is_err());

    let duplicate = args(&[
        "opz",
        "--namespace=item-title",
        "--namespace",
        "item-title",
        "--",
        "env",
    ]);
    assert!(strip_namespace_args(&duplicate).is_err());
}

#[test]
fn arguments_without_a_namespace_are_left_alone() {
    assert!(strip_namespace_args(&args(&["opz", "run", "--", "x"])).unwrap().is_none());
    assert_eq!(
        strip_namespace_args(&args(&["opz", "--namespace"])).unwrap_err().to_string(),
        "`--namespace` requires a value"
    );
    assert!(validate_namespace_value("item-title", false).is_ok());
    assert!(validate_namespace_value("item-title", true)
        .unwrap_err()
        .to_string()
        .contains("may only be specified once"));
}

#[test]
fn a_name_has_one_owner() {
    let mut owners = Vec::new();
    assert!(register_namespaced_key(&mut owners, "a", "A__X").is_ok());
    assert!(register_namespaced_key(&mut owners, "b", "A__X").is_err());
    assert_eq!(owners.len(), 1);
}

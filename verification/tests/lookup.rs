use opz::failure::Failure;
use opz::json;
use opz::lookup::{
    after_direct, after_get, after_list, after_sdk_get, after_sdk_list, find_vault, start_find,
    FindTurn,
};
use opz::map::StringMap;
use opz::op::{ItemGet, ItemListEntry, ItemVault};
use opz::resolver::env_references;
use opz::sdk::{
    build_batch_parameters, index_repositories, plan_item_batches, read_overview_ids,
    read_sdk_entries, read_sdk_vaults, sdk_item_get, select_exact_item_entries, select_sdk_vaults,
};
use opz::sdk_batch::assemble_items;
use opz::secrets::{after_batch_run, after_sdk, note_read, start_resolve, ResolveTurn};

fn texts(values: &[&str]) -> Vec<String> {
    values.iter().map(|value| value.to_string()).collect()
}

fn vault(id: &str, name: &str) -> ItemVault {
    ItemVault { id: id.to_string(), name: name.to_string() }
}

fn entry(id: &str, title: &str, vault_id: Option<&str>) -> ItemListEntry {
    ItemListEntry {
        id: id.to_string(),
        title: title.to_string(),
        vault: vault_id.map(|id| vault(id, "name")),
    }
}

fn item(id: Option<&str>, title: Option<&str>, vault_id: Option<&str>) -> ItemGet {
    ItemGet {
        id: id.map(String::from),
        title: title.map(String::from),
        fields: vec![],
        vault: vault_id.map(|id| vault(id, "name")),
    }
}

fn miss() -> Failure {
    Failure::new("op item not found".to_string())
}

#[test]
fn a_search_goes_through_the_sdk_first() {
    assert!(matches!(start_find(true), FindTurn::ListForSdk));
    assert!(matches!(start_find(false), FindTurn::Direct));
    let entries = vec![entry("1", "a", Some("v1")), entry("2", "b", None)];
    match after_sdk_list(Ok(entries), "a") {
        FindTurn::SdkGet { entry, vault } => {
            let value = json::parse(r#"{"id":"1","title":"a","fields":[{"title":"X","value":"y"}]}"#)
                .unwrap();
            match after_sdk_get(entry, vault, Ok(value)) {
                FindTurn::Found(found) => {
                    assert_eq!(found.item_id, "1");
                    assert_eq!(found.vault_id, "v1");
                    assert_eq!(found.item.fields[0].label.as_deref(), Some("X"));
                }
                _ => panic!("expected an item"),
            }
        }
        _ => panic!("expected a request"),
    }
    assert!(matches!(
        after_sdk_list(Ok(vec![entry("2", "b", None)]), "b"),
        FindTurn::Direct
    ));
    assert!(matches!(after_sdk_list(Ok(vec![]), "b"), FindTurn::Direct));
    assert!(matches!(after_sdk_list(Err(miss()), "b"), FindTurn::Direct));
    assert!(matches!(
        after_sdk_get(entry("1", "a", None), vault("v", "n"), Err(miss())),
        FindTurn::Direct
    ));
}

#[test]
fn a_miss_leads_to_the_list_unless_the_title_is_exact() {
    assert!(matches!(after_direct(Err(miss()), "a", false), FindTurn::ListAll));
    assert!(matches!(after_direct(Err(miss()), "a", true), FindTurn::Failed(_)));
    assert!(matches!(
        after_direct(Err(Failure::new("denied".to_string())), "a", false),
        FindTurn::Failed(_)
    ));
    assert!(matches!(
        after_direct(Ok(item(Some("i"), Some("a"), Some("v"))), "a", true),
        FindTurn::Found(found) if found.title == "a" && found.vault_id == "v"
    ));
    assert!(matches!(
        after_direct(Ok(item(Some("i"), Some("other"), Some("v"))), "a", true),
        FindTurn::Failed(failure)
            if failure.to_string() == "No exact item matched title: a"
    ));
    assert!(matches!(
        after_direct(Ok(item(None, None, None)), "a", false),
        FindTurn::Failed(failure) if failure.to_string() == "Item ID is required for `a`"
    ));
}

#[test]
fn the_list_is_searched_loosely() {
    match after_list(Ok(vec![entry("1", "My App", None)]), "app") {
        FindTurn::GetItem { entry } => {
            assert!(matches!(
                after_get(entry, Ok(item(None, None, Some("v9")))),
                FindTurn::Found(found) if found.vault_id == "v9" && found.title == "My App"
            ));
        }
        _ => panic!("expected an entry"),
    }
    assert!(matches!(
        after_get(entry("1", "x", None), Ok(item(None, None, None))),
        FindTurn::Failed(_)
    ));
    assert!(matches!(
        after_list(Ok(vec![entry("1", "ax", None), entry("2", "ay", None)]), "a"),
        FindTurn::Ambiguous { candidates, .. } if candidates.len() == 2
    ));
    assert!(matches!(after_list(Ok(vec![]), "a"), FindTurn::Failed(_)));
    let entries = vec![entry("1", "a", Some("v1")), entry("2", "b", None)];
    assert_eq!(find_vault(&entries, "1").unwrap().id, "v1");
    assert!(find_vault(&entries, "2").is_none());
    assert!(find_vault(&entries, "3").is_none());
}

#[test]
fn vaults_and_entries_of_the_sdk() {
    let vaults = read_sdk_vaults(
        &json::parse(r#"[{"id":"v1","title":"Private"},{"id":"v2","title":"Work"}]"#).unwrap(),
    )
    .unwrap();
    assert_eq!(vaults.len(), 2);
    assert_eq!(select_sdk_vaults(&vaults, Some("Work")).unwrap()[0].id, "v2");
    assert_eq!(select_sdk_vaults(&vaults, None).unwrap().len(), 2);
    assert!(select_sdk_vaults(&vaults, Some("x"))
        .unwrap_err()
        .to_string()
        .contains("did not find vault `x`"));
    assert!(read_sdk_vaults(&json::parse("{}").unwrap()).is_err());
    let entries = read_sdk_entries(
        &json::parse(r#"[{"id":"1","title":"a"}]"#).unwrap(),
        &vaults[0],
    )
    .unwrap();
    assert_eq!(entries[0].vault.as_ref().unwrap().id, "v1");
    assert!(select_exact_item_entries(&entries, &texts(&["b"])).is_err());
    assert_eq!(
        read_overview_ids(&vec![json::parse(r#"{"id":"x"}"#).unwrap()]).unwrap(),
        texts(&["x"])
    );
    assert_eq!(
        build_batch_parameters("v", &texts(&["a"])).print(),
        r#"{"item_ids":["a"],"vault_id":"v"}"#
    );
    let indexed = index_repositories(&vec![sdk_item_get(
        &json::parse(
            r#"{"title":"t","fields":[{"title":"github_repositories","value":"A/B"}]}"#,
        )
        .unwrap(),
        &vaults[0],
    )]);
    assert_eq!(indexed[0].item_title, "t");
    assert_eq!(indexed[0].repositories, texts(&["a/b"]));
}

#[test]
fn items_come_back_in_the_order_of_their_entries() {
    let selected = vec![
        entry("1", "a", Some("v1")),
        entry("2", "b", Some("v2")),
        entry("3", "c", Some("v1")),
    ];
    let batches = plan_item_batches(&selected).unwrap();
    assert_eq!(batches.len(), 2);
    assert_eq!(batches[0].indices, vec![0, 2]);
    let responses = vec![
        json::parse(r#"{"individualResponses":[{"content":{"id":"1"}},{"content":{"id":"3"}}]}"#)
            .unwrap(),
        json::parse(r#"{"individualResponses":[{"content":{"id":"2"}}]}"#).unwrap(),
    ];
    let items = assemble_items(&selected, &responses).unwrap();
    let titles: Vec<&str> = items.iter().map(|item| item.title.as_str()).collect();
    assert_eq!(titles, ["a", "b", "c"]);
    assert_eq!(items[1].vault_id, "v2");
    let short = vec![json::parse(r#"{"individualResponses":[]}"#).unwrap()];
    assert!(assemble_items(&selected, &short).is_err());
    let broken = vec![
        json::parse(r#"{"individualResponses":[{"content":{}},{"error":{}}]}"#).unwrap(),
        json::parse(r#"{"individualResponses":[{"content":{}}]}"#).unwrap(),
    ];
    assert_eq!(
        assemble_items(&selected, &broken).err().unwrap().to_string(),
        "desktop SDK item batch contained an error"
    );
    let many: Vec<ItemListEntry> =
        (0..250).map(|i| entry(&i.to_string(), "t", Some("v"))).collect();
    let sizes: Vec<usize> =
        plan_item_batches(&many).unwrap().iter().map(|batch| batch.indices.len()).collect();
    assert_eq!(sizes, [100, 100, 50]);
}

#[test]
fn secrets_are_resolved_in_turn() {
    let refs = env_references(&texts(&["A=op://v/i/A", "# x", "B=op://v/i/B"]));
    assert_eq!(refs.len(), 2);
    match start_resolve(&refs, true) {
        ResolveTurn::Sdk(parameters) => assert_eq!(
            parameters.print(),
            r#"{"references":["op://v/i/A","op://v/i/B"]}"#
        ),
        _ => panic!("expected a request"),
    }
    match start_resolve(&refs, false) {
        ResolveTurn::Batch(file) => assert_eq!(file, "A=op://v/i/A\nB=op://v/i/B\n"),
        _ => panic!("expected a batch"),
    }
    assert!(matches!(start_resolve(&[], true), ResolveTurn::Done(values) if values.len() == 0));
    match after_sdk(&refs, Ok(json::parse(r#"["1","2"]"#).unwrap())) {
        ResolveTurn::Done(values) => {
            assert_eq!(values.get_deep("A").map(|value| value.expose()), Some("1"));
            assert_eq!(values.get_deep("B").map(|value| value.expose()), Some("2"));
        }
        _ => panic!("expected values"),
    }
    assert!(matches!(
        after_sdk(&refs, Ok(json::parse(r#"["1"]"#).unwrap())),
        ResolveTurn::Batch(_)
    ));
    assert!(matches!(after_sdk(&refs, Err(miss())), ResolveTurn::Batch(_)));
}

#[test]
fn a_batch_gives_all_values_or_none() {
    let refs = env_references(&texts(&["A=op://v/i/A", "B=op://v/i/B"]));
    match after_batch_run(&refs, Ok(b"PATH=/bin\0B=x=y\0A=line1\nline2\0".to_vec())) {
        ResolveTurn::Done(values) => {
            assert_eq!(values.get_deep("A").map(|value| value.expose()), Some("line1\nline2"));
            assert_eq!(values.get_deep("B").map(|value| value.expose()), Some("x=y"));
            assert_eq!(values.len(), 2);
        }
        _ => panic!("expected values"),
    }
    assert!(matches!(
        after_batch_run(&refs, Ok(b"A=1\0".to_vec())),
        ResolveTurn::ReadEach
    ));
    assert!(matches!(after_batch_run(&refs, Err(miss())), ResolveTurn::ReadEach));
    let late = Failure::new("`op run` timed out after 30 seconds".to_string());
    match after_batch_run(&refs, Err(late)) {
        ResolveTurn::Failed(failure) => {
            assert!(failure.to_string().starts_with("batch secret resolution timed out"));
            assert!(failure.mentions("30 seconds"));
        }
        _ => panic!("expected a failure"),
    }
    let mut values = StringMap::without_secrets();
    assert!(note_read(&mut values, "A", Ok("1".to_string())).is_ok());
    assert!(note_read(&mut values, "B", Err(miss())).is_err());
    assert_eq!(values.len(), 1);
    assert_eq!(values.value(0).to_string(), "[REDACTED]");
    assert_eq!(values.expose_all().get_text("A").map(|value| value.as_str()), Some("1"));
}

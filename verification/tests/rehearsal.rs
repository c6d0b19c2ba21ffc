use opz::cloudflare::{
    CloudflareCredentialMode, CloudflareCredentialOptions, CloudflareCredentialPreset,
};
use opz::cloudflare_item::{DestinationField, PreparedCredential};
use opz::cloudflare_store::StorePlan;
use opz::failure::Failure;
use opz::migration_plan::DotenvStep;
use opz::migration_run::{plan_migration, survey_scripts, MigrationPlan, ScriptFile};
use opz::rehearsal::{
    cloudflare_steps, ensure_steps, github_steps, last_repository_step, migration_steps,
    plan_rewrites, repository_steps, store_steps, MigrationStep, RepositoryStep, SecretStep,
    StoreStep,
};

fn texts(values: &[&str]) -> Vec<String> {
    values.iter().map(|value| value.to_string()).collect()
}

fn file(path: &str, content: &str) -> ScriptFile {
    ScriptFile {
        path: path.to_string(),
        name: Some(path.to_string()),
        content: content.to_string(),
    }
}

fn told(step: &MigrationStep) -> String {
    match step {
        MigrationStep::Say { line, aside: false } => format!("say {line}"),
        MigrationStep::Say { line, aside: true } => format!("aside {line}"),
        MigrationStep::CreateFromEnv { title } => format!("create {title}"),
        MigrationStep::Ensure { item, rename } => format!("ensure {item} {rename}"),
        MigrationStep::Rewrite { path, content } => format!("write {path} {content:?}"),
        MigrationStep::Forget => "forget".to_string(),
    }
}

fn course(plan: &MigrationPlan, rewrites: &[(String, String)], dry_run: bool) -> Vec<String> {
    migration_steps(plan, &texts(&["o/r"]), rewrites, dry_run).iter().map(told).collect()
}

#[test]
fn a_migration_is_rehearsed_or_done() {
    let files = vec![
        file("justfile", "test:\n  opz run service -- env\n"),
        file("package.json", r#"{"scripts":{"x":"opz run service -- env"}}"#),
    ];
    let (survey, failure) = survey_scripts(&files, false);
    assert!(failure.is_none());
    let plan = plan_migration(&texts(&["o/r"]), &survey.found, false, false, false);
    let rewrites = plan_rewrites(&files, &survey, false, false, true, "o/r").unwrap();
    assert_eq!(rewrites.len(), 2);
    assert_eq!(
        course(&plan, &rewrites, true),
        [
            "say Would ensure github_repositories on service includes o/r",
            "say Would rename item service to o/r",
            "say Would rewrite justfile",
            "say Would rewrite package.json",
        ]
    );
    let done = course(&plan, &rewrites, false);
    assert_eq!(done.len(), 6);
    assert_eq!(done[0], "ensure service true");
    assert_eq!(done[1], r#"write justfile "test:\n  opz run o/r -- env\n""#);
    assert_eq!(done[2], "say Rewrote justfile");
    assert!(done[3].starts_with("write package.json "));
    assert_eq!(done[4], "say Rewrote package.json");
    assert_eq!(done[5], "forget");
    assert!(plan_rewrites(&files, &survey, false, false, false, "o/r").unwrap().is_empty());
}

#[test]
fn an_item_is_made_of_the_file_only_in_earnest() {
    let plan = MigrationPlan::Work {
        title: "o/r".to_string(),
        dotenv: DotenvStep::Create,
        items: texts(&["o/r"]),
        rename: false,
    };
    assert_eq!(
        course(&plan, &[], true),
        [
            "say Would create item o/r from .env",
            "say Would ensure github_repositories on o/r includes o/r",
        ]
    );
    assert_eq!(
        course(&plan, &[], false),
        ["create o/r", "say Created item o/r from .env", "ensure o/r false", "forget"]
    );
    let skipped =
        "aside Skipped .env-based script migration; pass `--new` to create an item from .env.";
    let refused = |skips_dotenv: bool| MigrationPlan::Refused {
        skips_dotenv,
        failure: Failure::new("no".to_string()),
    };
    assert_eq!(course(&refused(true), &[], false), [skipped]);
    assert!(course(&refused(false), &[], false).is_empty());
    let nothing = MigrationPlan::Nothing("No migratable scripts found.".to_string());
    assert_eq!(course(&nothing, &[], false), ["say No migratable scripts found."]);
}

#[test]
fn a_credential_is_stored_only_in_earnest() {
    let prepared = PreparedCredential {
        section_label: "S".to_string(),
        fields: vec![DestinationField { label: "T".to_string(), value: "secret".to_string() }],
    };
    let options = |dry_run: bool| CloudflareCredentialOptions {
        vault: Some("v"),
        item: "worker",
        section: None,
        field: None,
        preset: CloudflareCredentialPreset::ApiToken,
        mode: CloudflareCredentialMode::Upsert,
        file: None,
        stdin: true,
        raw: false,
        dry_run,
        command: &[],
    };
    let update = StorePlan::Update { item_id: "i".to_string(), vault_id: "w".to_string() };
    let said: Vec<String> = store_steps(&update, &options(true), &prepared)
        .into_iter()
        .map(|step| match step {
            StoreStep::Say(line) => line,
            other => panic!("unexpected step {other:?}"),
        })
        .collect();
    assert_eq!(
        said,
        [
            "Would update 1Password item \"worker\" with 1 concealed field(s) in section \"S\"",
            "op://v/worker/s/t",
        ]
    );
    let steps = store_steps(&update, &options(false), &prepared);
    assert_eq!(steps.len(), 3);
    assert!(matches!(&steps[0], StoreStep::Update { item_id, vault_id }
        if item_id == "i" && vault_id == "w"));
    assert!(matches!(steps[1], StoreStep::Forget));
    assert!(matches!(steps[2], StoreStep::Report));
    assert!(matches!(
        store_steps(&StorePlan::Create, &options(false), &prepared)[0],
        StoreStep::Create
    ));
}

#[test]
fn secrets_are_sent_only_in_earnest() {
    let names = texts(&["A", "B"]);
    let told = |steps: Vec<SecretStep>| -> Vec<String> {
        steps
            .into_iter()
            .map(|step| match step {
                SecretStep::Say(line) => line,
                SecretStep::Resolve => "resolve".to_string(),
                SecretStep::Send(name) => format!("send {name}"),
                SecretStep::SendAll => "send all".to_string(),
            })
            .collect()
    };
    assert_eq!(
        told(github_steps(&names, "o/r", true)),
        ["Would set GitHub secret A in o/r", "Would set GitHub secret B in o/r"]
    );
    assert_eq!(
        told(github_steps(&names, "o/r", false)),
        [
            "resolve",
            "send A",
            "Set GitHub secret A in o/r",
            "send B",
            "Set GitHub secret B in o/r",
        ]
    );
    assert_eq!(
        told(cloudflare_steps(&names, "w (x)", true)),
        [
            "Would set Cloudflare Worker secret A in w (x)",
            "Would set Cloudflare Worker secret B in w (x)",
        ]
    );
    assert_eq!(
        told(cloudflare_steps(&names, "w (x)", false)),
        [
            "resolve",
            "send all",
            "Set Cloudflare Worker secret A",
            "Set Cloudflare Worker secret B",
        ]
    );
}

#[test]
fn repositories_are_noted_only_in_earnest() {
    let repositories = texts(&["a/b", "c/d"]);
    let rehearsed = repository_steps("item", &repositories, true);
    assert_eq!(rehearsed.len(), 1);
    assert!(matches!(&rehearsed[0], RepositoryStep::Say(line)
        if line == "Would set github_repositories on item to a/b, c/d"));
    let done = repository_steps("item", &repositories, false);
    assert_eq!(done.len(), 2);
    assert!(matches!(done[0], RepositoryStep::Note));
    assert!(matches!(&done[1], RepositoryStep::Say(line)
        if line == "Set github_repositories on item to a/b, c/d"));
    assert!(last_repository_step(true).is_none());
    assert!(matches!(last_repository_step(false), Some(RepositoryStep::Forget)));
    let renamed = ensure_steps("item", &repositories, Some("o/r"));
    assert_eq!(renamed.len(), 4);
    assert!(matches!(renamed[0], RepositoryStep::Note));
    assert!(matches!(&renamed[2], RepositoryStep::Rename(title) if title == "o/r"));
    assert!(matches!(&renamed[3], RepositoryStep::Say(line) if line == "Renamed item item to o/r"));
    assert_eq!(ensure_steps("item", &repositories, None).len(), 2);
}

use opz::map::StringMap;
use opz::migration::{
    first_opz_gen_item_token, is_just_identifier, is_just_top_level_line, is_static_item_token,
    matched_items, migrate_justfile_scripts, migrate_package_json_scripts, migrate_script_text,
    parse_just_assignment, part_of, preferred_restore_item_token, replace_json_string_literal,
    resolve_just_value, rewrite_matches, token_of, Place, ScriptMigration, ScriptMigrationMode,
};
use opz::migration_plan::{
    classify_script, migration_title, nothing_to_migrate, rehearsal_lines, rewrite_script,
    DotenvStep, ScriptFinding,
};
use opz::migration_run::{
    dotenv_line, plan_migration, rewrite_line, survey_scripts, MigrationPlan, ScriptFile,
};

fn texts(values: &[&str]) -> Vec<String> {
    values.iter().map(|value| value.to_string()).collect()
}

#[test]
fn test_migrate_script_text_rewrites_explicit_opz_run_item() {
    let migration = migrate_script_text(
        "test:\n    opz run service -- env\n",
        ScriptMigrationMode::Collect,
    )
    .unwrap();

    assert_eq!(migration.items, vec!["service".to_string()]);
    assert!(!migration.uses_dotenv);
    assert_eq!(migration.rewritten, "test:\n    opz run service -- env\n");
}

#[test]
fn test_migrate_script_text_rewrites_top_level_shorthand_item() {
    let migration = migrate_script_text(
        "test:\n    opz service -- env\n",
        ScriptMigrationMode::Collect,
    )
    .unwrap();

    assert_eq!(migration.items, vec!["service".to_string()]);
    assert_eq!(migration.rewritten, "test:\n    opz service -- env\n");
}

#[test]
fn test_migrate_script_text_detects_dotenv_op_run() {
    let migration = migrate_script_text(
        "test:\n    op run --env-file .env -- env\n",
        ScriptMigrationMode::Collect,
    )
    .unwrap();

    assert!(migration.items.is_empty());
    assert!(migration.uses_dotenv);
    assert_eq!(
        migration.rewritten,
        "test:\n    op run --env-file .env -- env\n"
    );
}

#[test]
fn test_migrate_script_text_collects_op_item_get_without_rewrite() {
    let migration = migrate_script_text(
        "test:\n    op item get service --format json\n",
        ScriptMigrationMode::Collect,
    )
    .unwrap();

    assert_eq!(migration.items, vec!["service".to_string()]);
    assert_eq!(
        migration.rewritten,
        "test:\n    op item get service --format json\n"
    );
}

#[test]
fn test_migrate_script_text_skips_template_item_tokens() {
    let migration = migrate_script_text(
        "test item:\n    opz run {{item}} -- env\n",
        ScriptMigrationMode::Collect,
    )
    .unwrap();

    assert!(migration.items.is_empty());
    assert_eq!(
        migration.rewritten,
        "test item:\n    opz run {{item}} -- env\n"
    );
}

#[test]
fn test_migrate_script_text_skips_command_substitution_item_tokens() {
    let migration = migrate_script_text(
        "test:\n    opz run $(item) -- env\n",
        ScriptMigrationMode::Collect,
    )
    .unwrap();

    assert!(migration.items.is_empty());
    assert_eq!(migration.rewritten, "test:\n    opz run $(item) -- env\n");
}

#[test]
fn test_migrate_justfile_scripts_resolves_recipe_default_item() {
    let content = r#"docs_item := "papyr-docs-cloudflare-dev"
docs_env_example := "apps/docs/.env.opz.example"
docs_env_file := "apps/docs/.env.opz"

docs-build item=docs_item:
  opz run {{item}} -- just _docs-build

docs-dev item=docs_item:
  opz run {{item}} -- just _docs-dev

docs-op-create item=docs_item:
  tmpdir="$(mktemp -d)"; trap "rm -rf "$tmpdir"" EXIT; cp {{docs_env_example}} "$tmpdir/.env"; cd "$tmpdir"; opz create {{item}} .env

docs-op-env item=docs_item:
  rm -f {{docs_env_file}}
  opz gen {{item}} --env-file {{docs_env_file}}
"#;
    let migration = migrate_justfile_scripts(content, ScriptMigrationMode::Collect).unwrap();

    assert_eq!(
        migration.items,
        vec!["papyr-docs-cloudflare-dev".to_string()]
    );
    assert!(migration.detected_opz);
    assert_eq!(
        migration.rewritten,
        r#"docs_item := "papyr-docs-cloudflare-dev"
docs_env_example := "apps/docs/.env.opz.example"
docs_env_file := "apps/docs/.env.opz"

docs-build item=docs_item:
  opz run {{item}} -- just _docs-build

docs-dev item=docs_item:
  opz run {{item}} -- just _docs-dev

docs-op-create item=docs_item:
  tmpdir="$(mktemp -d)"; trap "rm -rf "$tmpdir"" EXIT; cp {{docs_env_example}} "$tmpdir/.env"; cd "$tmpdir"; opz create {{item}} .env

docs-op-env item=docs_item:
  rm -f {{docs_env_file}}
  opz gen {{item}} --env-file {{docs_env_file}}
"#
    );
}

#[test]
fn test_migrate_justfile_scripts_resolves_after_set_shell_directive() {
    let content = r#"set shell := ["bash", "-euo", "pipefail", "-c"]

docs_item := "papyr-docs-cloudflare-dev"

docs-build item=docs_item:
  opz run {{item}} -- just _docs-build
"#;
    let migration = migrate_justfile_scripts(content, ScriptMigrationMode::Collect).unwrap();

    assert_eq!(
        migration.items,
        vec!["papyr-docs-cloudflare-dev".to_string()]
    );
    assert_eq!(
        migration.rewritten,
        r#"set shell := ["bash", "-euo", "pipefail", "-c"]

docs_item := "papyr-docs-cloudflare-dev"

docs-build item=docs_item:
  opz run {{item}} -- just _docs-build
"#
    );
}

#[test]
fn test_migrate_justfile_scripts_reports_up_to_date_opz_usage() {
    let migration =
        migrate_justfile_scripts("test:\n  opz run -- env\n", ScriptMigrationMode::Collect)
            .unwrap();

    assert!(migration.items.is_empty());
    assert!(migration.detected_opz);
    assert_eq!(migration.rewritten, "test:\n  opz run -- env\n");
}

#[test]
fn test_migrate_justfile_scripts_keeps_unresolved_template_item() {
    let migration = migrate_justfile_scripts(
        "test item:\n  opz run {{item}} -- env\n",
        ScriptMigrationMode::Collect,
    )
    .unwrap();

    assert!(migration.items.is_empty());
    assert!(migration.detected_opz);
    assert_eq!(
        migration.rewritten,
        "test item:\n  opz run {{item}} -- env\n"
    );
}

#[test]
fn test_migrate_justfile_scripts_renames_item_title_without_removing_explicit_item() {
    let content = r#"docs_item := "papyr-docs-cloudflare-dev"
docs_env_file := "apps/docs/.env.opz"

docs-build item=docs_item:
  opz run {{item}} -- just _docs-build

docs-op-env item=docs_item:
  opz gen {{item}} --env-file {{docs_env_file}}
"#;
    let migration = migrate_justfile_scripts(
        content,
        ScriptMigrationMode::RenameItems {
            title: "f4ah6o/papyr.mbt",
        },
    )
    .unwrap();

    assert_eq!(
        migration.rewritten,
        r#"docs_item := "f4ah6o/papyr.mbt"
docs_env_file := "apps/docs/.env.opz"

docs-build item=docs_item:
  opz run {{item}} -- just _docs-build

docs-op-env item=docs_item:
  opz gen {{item}} --env-file {{docs_env_file}}
"#
    );
}

#[test]
fn test_migrate_justfile_scripts_restores_itemless_run_from_recipe_item() {
    let content = r#"docs_item := "f4ah6o/papyr.mbt"

docs-build item=docs_item:
  opz run -- just _docs-build
"#;
    let migration = migrate_justfile_scripts(
        content,
        ScriptMigrationMode::Restore {
            title: "f4ah6o/papyr.mbt",
        },
    )
    .unwrap();

    assert_eq!(
        migration.rewritten,
        r#"docs_item := "f4ah6o/papyr.mbt"

docs-build item=docs_item:
  opz run {{item}} -- just _docs-build
"#
    );
}

#[test]
fn test_migrate_package_json_scripts_rewrites_script_values() {
    let content = r#"{"name":"app","scripts":{"dev":"opz run service -- vite","test":"echo ok"},"dependencies":{"z":"1"}}"#;
    let migration = migrate_package_json_scripts(content, ScriptMigrationMode::Collect).unwrap();

    assert_eq!(migration.items, vec!["service".to_string()]);
    assert_eq!(
        migration.rewritten,
        r#"{"name":"app","scripts":{"dev":"opz run service -- vite","test":"echo ok"},"dependencies":{"z":"1"}}"#
    );
}

#[test]
fn package_scripts_are_renamed_and_restored() {
    let content = r#"{"scripts":{"dev":"opz run service -- vite"}}"#;
    let renamed = migrate_package_json_scripts(
        content,
        ScriptMigrationMode::RenameItems { title: "o/r" },
    )
    .unwrap();
    assert_eq!(renamed.rewritten, r#"{"scripts":{"dev":"opz run o/r -- vite"}}"#);
    let bare = r#"{"scripts":{"dev":"opz run -- vite"}}"#;
    let restored =
        migrate_package_json_scripts(bare, ScriptMigrationMode::Restore { title: "o/r" }).unwrap();
    assert_eq!(restored.rewritten, r#"{"scripts":{"dev":"opz run o/r -- vite"}}"#);
    assert!(migrate_package_json_scripts("not json", ScriptMigrationMode::Collect).is_err());
}

#[test]
fn plain_scripts_are_renamed_and_restored() {
    let renamed = migrate_script_text(
        "opz run a -- x\nopz b -- y\n",
        ScriptMigrationMode::RenameItems { title: "o/r" },
    )
    .unwrap();
    assert_eq!(renamed.rewritten, "opz run o/r -- x\nopz o/r -- y\n");
    let restored = migrate_script_text(
        "opz run -- x\nopz -- y\n",
        ScriptMigrationMode::Restore { title: "o/r" },
    )
    .unwrap();
    assert_eq!(restored.rewritten, "opz run o/r -- x\nopz o/r -- y\n");
}

#[test]
fn tokens_and_lines_of_just() {
    assert!(is_static_item_token("service"));
    assert!(!is_static_item_token("{{item}}"));
    assert!(!is_static_item_token("$ITEM"));
    assert!(is_just_identifier("docs_item"));
    assert!(!is_just_identifier("1x"));
    assert!(is_just_top_level_line("a := \"b\""));
    assert!(!is_just_top_level_line("  opz run"));
    assert_eq!(first_opz_gen_item_token(" --env-file .env item"), Some("item".to_string()));
    let mut values: StringMap<String> = StringMap::empty_text();
    assert_eq!(
        parse_just_assignment("a := \"b\"", &values),
        Some(("a".to_string(), "b".to_string()))
    );
    values.insert_text("a".to_string(), "b".to_string());
    assert_eq!(resolve_just_value("a", &values), Some("b".to_string()));
    assert_eq!(resolve_just_value("'x y'", &values), Some("x y".to_string()));
    assert_eq!(preferred_restore_item_token(&StringMap::empty_text(), "o/r"), "o/r");
    assert_eq!(preferred_restore_item_token(&values, "o/r"), "{{a}}");
    values.insert_text("docs_item".to_string(), "c".to_string());
    assert_eq!(preferred_restore_item_token(&values, "o/r"), "{{docs_item}}");
    values.insert_text("item".to_string(), "d".to_string());
    assert_eq!(preferred_restore_item_token(&values, "o/r"), "{{item}}");
}

#[test]
fn the_first_literal_is_replaced() {
    assert_eq!(
        replace_json_string_literal(r#"{"a":"x\"y","b":"x\"y"}"#, "x\"y", "z"),
        r#"{"a":"z","b":"x\"y"}"#
    );
}

fn found(items: &[&str], uses_dotenv: bool) -> ScriptMigration {
    ScriptMigration {
        items: texts(items),
        uses_dotenv,
        detected_opz: true,
        rewritten: "text".to_string(),
    }
}

#[test]
fn scripts_are_classified() {
    assert_eq!(classify_script("text", &found(&["a"], false), false), ScriptFinding::Migratable);
    assert_eq!(classify_script("text", &found(&[], false), false), ScriptFinding::UpToDate);
    assert_eq!(classify_script("text", &found(&[], false), true), ScriptFinding::Migratable);
    let unrelated = ScriptMigration {
        items: vec![],
        uses_dotenv: false,
        detected_opz: false,
        rewritten: "text".to_string(),
    };
    assert_eq!(classify_script("text", &unrelated, true), ScriptFinding::Unrelated);
    assert_eq!(nothing_to_migrate(false, false, true), Some("No migratable scripts found."));
    assert_eq!(
        nothing_to_migrate(false, true, false),
        Some("No migratable scripts or .env file found.")
    );
    assert_eq!(nothing_to_migrate(true, false, false), None);
}

#[test]
fn restoring_needs_one_repository() {
    assert_eq!(migration_title(&texts(&["a/b", "c/d"]), false).unwrap(), "a/b");
    assert!(migration_title(&texts(&["a/b", "c/d"]), true)
        .unwrap_err()
        .to_string()
        .ends_with("Found: a/b, c/d"));
    assert_eq!(
        migration_title(&[], false).unwrap_err().to_string(),
        "No GitHub repositories found for migrate"
    );
}

#[test]
fn a_survey_tells_scripts_apart() {
    let file = |path: &str, content: &str| ScriptFile {
        path: path.to_string(),
        name: Some(path.to_string()),
        content: content.to_string(),
    };
    let files = vec![
        file("justfile", "test:\n  opz run service -- env\n"),
        file("package.json", r#"{"scripts":{"x":"opz run -- env"}}"#),
    ];
    let (survey, failure) = survey_scripts(&files, false);
    assert!(failure.is_none());
    assert_eq!(survey.which, vec![0]);
    assert_eq!(survey.found[0].items, texts(&["service"]));
    assert_eq!(survey.notices.len(), 1);
    assert!(survey.notices[0].starts_with("package.json contains opz commands"));

    let broken = vec![file("package.json", "{"), file("justfile", "opz run a -- b\n")];
    let (survey, failure) = survey_scripts(&broken, false);
    assert!(failure.is_some());
    assert!(survey.which.is_empty());
}

#[test]
fn a_single_item_is_renamed_to_the_repository() {
    match plan_migration(&texts(&["o/r"]), &vec![found(&["service"], false)], true, false, false) {
        MigrationPlan::Work { title, dotenv, items, rename } => {
            assert_eq!(title, "o/r");
            assert_eq!(dotenv, DotenvStep::Leave);
            assert_eq!(items, texts(&["service"]));
            assert!(rename);
        }
        _ => panic!("expected work"),
    }
}

#[test]
fn a_new_item_is_made_of_the_file() {
    match plan_migration(&texts(&["o/r"]), &vec![found(&["a", "b"], true)], false, true, false) {
        MigrationPlan::Work { title: _, dotenv, items, rename } => {
            assert_eq!(dotenv, DotenvStep::Create);
            assert_eq!(items, texts(&["a", "b", "o/r"]));
            assert!(!rename);
        }
        _ => panic!("expected work"),
    }
}

#[test]
fn several_items_are_refused_without_a_new_one() {
    match plan_migration(&texts(&["o/r"]), &vec![found(&["a", "b"], true)], false, false, false) {
        MigrationPlan::Refused { skips_dotenv, failure } => {
            assert!(skips_dotenv);
            assert!(failure.to_string().starts_with("`opz migrate` found multiple item titles (a, b)"));
        }
        _ => panic!("expected a refusal"),
    }
    assert!(matches!(
        plan_migration(&texts(&["o/r"]), &vec![], false, false, false),
        MigrationPlan::Nothing(message) if message == "No migratable scripts found."
    ));
}

#[test]
fn scripts_are_written_only_where_they_change() {
    let now = rewrite_script(
        Some("justfile"),
        "opz run a -- x\n",
        &found(&["a"], false),
        false,
        false,
        true,
        "o/r",
    )
    .unwrap();
    assert_eq!(now.as_deref(), Some("opz run o/r -- x\n"));
    let same = rewrite_script(
        Some("justfile"),
        "opz run a -- x\n",
        &found(&["a"], false),
        false,
        false,
        false,
        "o/r",
    )
    .unwrap();
    assert_eq!(same, None);
    assert_eq!(
        rehearsal_lines("a", &texts(&["o/r"]), true, "o/r"),
        texts(&[
            "Would ensure github_repositories on a includes o/r",
            "Would rename item a to o/r"
        ])
    );
    assert_eq!(dotenv_line(true, "o/r"), "Would create item o/r from .env");
    assert_eq!(rewrite_line(false, "justfile"), "Rewrote justfile");
}

#[test]
fn each_place_names_its_item() {
    let run = texts(&["opz run -q service --", " -q", "service"]);
    assert_eq!(token_of(Place::Run, &run).as_deref(), Some("service"));
    let shorthand = texts(&["opz service --", "service"]);
    assert_eq!(token_of(Place::Shorthand, &shorthand).as_deref(), Some("service"));
    assert_eq!(token_of(Place::Shorthand, &texts(&["opz run --", "run"])), None);
    let get = texts(&["op item get service", "service"]);
    assert_eq!(token_of(Place::ItemGet, &get).as_deref(), Some("service"));
    let gen = texts(&["opz gen --env-file .env service", " --env-file .env service"]);
    assert_eq!(token_of(Place::Gen, &gen).as_deref(), Some("service"));
    assert_eq!(token_of(Place::Gen, &texts(&["opz gen", ""])), None);
    let create = texts(&["opz create service", "service"]);
    assert_eq!(token_of(Place::Create, &create).as_deref(), Some("service"));
    assert_eq!(token_of(Place::ItemlessRun, &texts(&["opz run -q --", " -q"])), None);
    assert_eq!(token_of(Place::Itemless, &texts(&["opz --"])), None);
}

#[test]
fn matches_name_items_through_their_values() {
    let mut values: StringMap<String> = StringMap::empty_text();
    values.insert_text("item".to_string(), "docs".to_string());
    let matches = vec![
        texts(&["opz a --", "a"]),
        texts(&["opz {{ item }} --", "{{ item }}"]),
        texts(&["opz {{other}} --", "{{other}}"]),
        texts(&["opz $ITEM --", "$ITEM"]),
        texts(&["opz gen --", "gen"]),
    ];
    assert_eq!(matched_items(Place::Shorthand, &matches, &values), texts(&["a", "docs"]));
    assert!(matched_items(Place::Itemless, &vec![texts(&["opz --"])], &values).is_empty());
}

#[test]
fn what_stands_in_place_of_a_match() {
    let none: StringMap<String> = StringMap::empty_text();
    let mut values: StringMap<String> = StringMap::empty_text();
    values.insert_text("item".to_string(), "docs".to_string());
    let rename = || ScriptMigrationMode::RenameItems { title: "o/r" };
    let restore = || ScriptMigrationMode::Restore { title: "o/r" };

    let run = texts(&["opz run -q a --", " -q", "a"]);
    assert_eq!(part_of(Place::Run, &run, &none, rename()), "opz run -q o/r --");
    assert_eq!(part_of(Place::Run, &run, &none, restore()), "opz run -q a --");
    assert_eq!(part_of(Place::Run, &run, &none, ScriptMigrationMode::Collect), "opz run -q a --");
    let bound = texts(&["opz run {{x}} --", "", "{{x}}"]);
    assert_eq!(part_of(Place::Run, &bound, &none, rename()), "opz run {{x}} --");

    let shorthand = texts(&["opz a --", "a"]);
    assert_eq!(part_of(Place::Shorthand, &shorthand, &none, rename()), "opz o/r --");
    let reserved = texts(&["opz run --", "run"]);
    assert_eq!(part_of(Place::Shorthand, &reserved, &none, rename()), "opz run --");

    let itemless = texts(&["opz --"]);
    assert_eq!(part_of(Place::Itemless, &itemless, &none, restore()), "opz o/r --");
    assert_eq!(part_of(Place::Itemless, &itemless, &values, restore()), "opz {{item}} --");
    assert_eq!(part_of(Place::Itemless, &itemless, &values, rename()), "opz --");
    let itemless_run = texts(&["opz run -q --", " -q"]);
    assert_eq!(
        part_of(Place::ItemlessRun, &itemless_run, &values, restore()),
        "opz run -q {{item}} --"
    );
    let get = texts(&["op item get a", "a"]);
    assert_eq!(part_of(Place::ItemGet, &get, &none, rename()), "op item get a");
}

#[test]
fn gaps_and_parts_make_up_the_text() {
    let none: StringMap<String> = StringMap::empty_text();
    let matches = vec![texts(&["opz a --", "a"]), texts(&["opz $B --", "$B"])];
    let gaps = texts(&["x; ", " env; ", " ls"]);
    assert_eq!(
        rewrite_matches(
            Place::Shorthand,
            &matches,
            &gaps,
            &none,
            ScriptMigrationMode::RenameItems { title: "o/r" }
        ),
        "x; opz o/r -- env; opz $B -- ls"
    );
    assert_eq!(
        rewrite_matches(Place::Shorthand, &matches, &gaps, &none, ScriptMigrationMode::Collect),
        "x; opz a -- env; opz $B -- ls"
    );
    assert_eq!(
        rewrite_matches(
            Place::Shorthand,
            &Vec::new(),
            &texts(&["ls"]),
            &none,
            ScriptMigrationMode::Collect
        ),
        "ls"
    );
}

use opz::json::Json;
use opz::map::StringMap;
use opz::op::{ItemField, ItemGet};
use opz::paths::{
    directories_below, extend_path, file_name, normalize_generated_path, registry_path_escapes,
    split_path,
};
use opz::plugin::{
    admit_plugin, check_digest, check_new_release, check_registry_schema, ensure_unique, file_mode,
    is_protected_env, normalize_bundled_newlines, put_plugin, sort_plugins, validate_command_name,
    validate_env_name, validate_manifest, validate_plugin_name, version_before, version_tuple,
    PluginFile, PluginLifecycle, PluginManifest, PluginOrigin, PluginRegistryEntry, ResolvedPlugin,
};
use opz::plugin_config::{
    build_runtime_config, check_flat_config, read_config_text, same_values, scalar_to_string,
    validate_config_value, ConfigValue, PluginConfigField, PluginConfigType,
};
use opz::plugin_launch::plan_launch;
use opz::plugin_run::{
    baseline_names, check_runnable, choose_plugin, find_release, is_locale_variable,
    item_field_value, list_line,
    parse_item_plugin_pin, parse_selector, plugin_secret_lines, show_plugin, target_command,
    validate_target_command,
};
use opz::plugin_template::{
    render_arguments, render_environment, render_file, render_template, template_placeholders,
    validate_template,
};
use opz::resolver::ResolvedItem;

fn texts(values: &[&str]) -> Vec<String> {
    values.iter().map(|value| value.to_string()).collect()
}

fn config(pairs: Vec<(&str, ConfigValue)>) -> StringMap<ConfigValue> {
    let mut map = StringMap::new();
    for (key, value) in pairs {
        map.insert(key.to_string(), value);
    }
    map
}

fn env(pairs: &[(&str, &str)]) -> StringMap<String> {
    let mut map = StringMap::empty_text();
    for (key, value) in pairs {
        map.insert_text(key.to_string(), value.to_string());
    }
    map
}

fn text(value: &str) -> ConfigValue {
    ConfigValue::Text(value.to_string())
}

fn number(value: f64) -> ConfigValue {
    ConfigValue::Float { bits: value.to_bits(), text: value.to_string() }
}

fn field(kind: PluginConfigType) -> PluginConfigField {
    PluginConfigField {
        kind,
        required: false,
        default: None,
        description: None,
        pattern: None,
        allowed_values: None,
        minimum: None,
        maximum: None,
    }
}

fn manifest() -> PluginManifest {
    let mut fields = StringMap::new();
    let mut model = field(PluginConfigType::Text);
    model.default = Some(text("small"));
    fields.insert("model".to_string(), model);
    PluginManifest {
        schema_version: 1,
        name: "demo".to_string(),
        version: "0.1.0".to_string(),
        description: "a demo".to_string(),
        target_commands: texts(&["tool"]),
        required_env: texts(&["API_KEY"]),
        secret_env_allowlist: texts(&["API_KEY"]),
        config: fields,
        defaults: config(vec![("model", text("small"))]),
        env: env(&[("DEMO_HOME", "{tmp}/home")]),
        files: StringMap::new(),
        arguments: texts(&["--model", "{config.model}"]),
        doctor: None,
    }
}

fn entry(version: &str, lifecycle: PluginLifecycle, sha256: &str) -> PluginRegistryEntry {
    PluginRegistryEntry {
        name: "demo".to_string(),
        version: version.to_string(),
        source: "github:owner/repo/plugins/demo".to_string(),
        path: "plugins/demo/plugin.toml".to_string(),
        sha256: sha256.to_string(),
        plugin_schema_version: 1,
        lifecycle,
        description: "a demo".to_string(),
        target_commands: texts(&["tool"]),
        min_opz_version: "0.1.0".to_string(),
        replacement: None,
        revocation_reason: None,
    }
}

const DIGEST: &str = "ba7816bf8f01cfea414140de5dae2223b00361a396177a9cb410ff61f20015ad";

fn release(version: &str, lifecycle: PluginLifecycle) -> ResolvedPlugin {
    let mut own = manifest();
    own.version = version.to_string();
    ResolvedPlugin {
        entry: entry(version, lifecycle, DIGEST),
        manifest: own,
        manifest_text: "abc".to_string(),
        origin: PluginOrigin::Bundled,
    }
}

fn pinned_item(version: &str, digest: &str) -> ResolvedItem {
    let pair = |label: &str, value: &str| ItemField {
        label: Some(label.to_string()),
        value: Some(Json::text(value)),
    };
    ResolvedItem {
        item_id: "i".to_string(),
        vault_id: "v".to_string(),
        title: "t".to_string(),
        item: ItemGet {
            id: None,
            title: None,
            vault: None,
            fields: vec![
                pair("OPZ_PLUGIN", "demo"),
                pair("OPZ_PLUGIN_SCHEMA_VERSION", "1"),
                pair("OPZ_PLUGIN_SOURCE", "github:owner/repo/plugins/demo"),
                pair("OPZ_PLUGIN_VERSION", version),
                pair("OPZ_PLUGIN_SHA256", digest),
                pair("API_KEY", "k"),
            ],
        },
    }
}

#[test]
fn generated_path_rejects_parent_traversal() {
    let error =
        normalize_generated_path("/tmp/opz-plugin-test", "/tmp/opz-plugin-test/a/../escape", false)
            .unwrap_err();
    assert!(error.to_string().contains("parent traversal"));
}

#[test]
fn bundled_digest_input_normalizes_checkout_line_endings() {
    assert_eq!(normalize_bundled_newlines("a\r\nb\r\n"), "a\nb\n");
}

#[test]
fn plugin_names_accept_exact_canonical_form() {
    for name in ["a", "a1-b2", "codex-openai", "0-0"] {
        assert!(validate_plugin_name(name).is_ok());
        assert!(validate_plugin_name(&format!("_{name}")).is_err());
        assert!(validate_plugin_name(&format!("{name}-")).is_err());
    }
    assert!(validate_plugin_name("a--b").is_err());
    assert!(validate_plugin_name("").is_err());
}

#[test]
fn env_names_accept_shell_compatible_uppercase() {
    for name in ["A", "API_KEY", "Z0_"] {
        assert!(validate_env_name(name).is_ok());
        assert!(validate_env_name(&name.to_ascii_lowercase()).is_err());
    }
    assert!(validate_env_name(&"A".repeat(128)).is_ok());
    assert!(validate_env_name(&"A".repeat(129)).is_err());
}

#[test]
fn literal_templates_round_trip() {
    for literal in ["", "plain text", "/a/b:c-d._", "$HOME"] {
        let rendered =
            render_template(literal, &StringMap::new(), &env(&[]), "/tmp/opz-plugin-pbt").unwrap();
        assert_eq!(rendered, literal);
    }
}

#[test]
fn generated_paths_remain_below_workspace() {
    let workspace = "/tmp/opz-plugin-pbt";
    for rest in ["a", "a/b.c", "x-y/z_/w"] {
        let normalized = normalize_generated_path(workspace, &format!("{workspace}/{rest}"), false).unwrap();
        assert_eq!(normalized, format!("{workspace}/{rest}"));
    }
    assert!(normalize_generated_path(workspace, workspace, false).is_err());
    assert!(normalize_generated_path(workspace, "/tmp/other", false).is_err());
}

#[test]
fn paths_are_taken_apart() {
    assert_eq!(shape("/a//b/./c", false), "Root:|Name:a|Name:b|Name:c");
    assert_eq!(shape("./a/../b", false), "Current:|Name:a|Parent:|Name:b");
    assert_eq!(shape("C:\\a", false), "Name:C:\\a");
    assert_eq!(file_name("/usr/bin/tool", false).as_deref(), Some("tool"));
    assert_eq!(file_name("..", false), None);
    assert_eq!(file_name("/", false), None);
    assert!(registry_path_escapes("../x", false));
    assert!(registry_path_escapes("/x", false));
    assert!(!registry_path_escapes("plugins/x.toml", false));
    assert_eq!(directories_below("/w", "/w/a/b/c", false), texts(&["a", "b"]));
    assert_eq!(directories_below("/w", "/v/a/b/c", false), texts(&[]));
    let unlike = normalize_generated_path("C:\\w", "C:\\w\\a", false).unwrap_err();
    assert!(unlike.to_string().contains("must be absolute"));
}

fn shape(path: &str, windows: bool) -> String {
    let parts: Vec<String> = split_path(path, windows)
        .iter()
        .map(|part| {
            let share = if part.share.is_empty() { String::new() } else { format!("+{}", part.share) };
            format!("{:?}:{}{share}", part.kind, part.name)
        })
        .collect();
    parts.join("|")
}

#[test]
fn windows_paths_are_taken_apart() {
    assert_eq!(shape("c:\\a/b\\.\\c", true), "Disk:C|Root:|Name:a|Name:b|Name:c");
    assert_eq!(shape("C:a", true), "Disk:C|Name:a");
    assert_eq!(shape("C:.\\a", true), "Disk:C|Current:|Name:a");
    assert_eq!(shape("\\a", true), "Root:|Name:a");
    assert_eq!(shape("\\\\server\\share\\a", true), "Unc:server+share|Root:|Name:a");
    assert_eq!(shape("//server/share", true), "Unc:server+share|Root:");
    assert_eq!(shape("\\\\server", true), "Root:|Name:server");
    assert_eq!(shape("\\\\.\\COM1", true), "Device:COM1|Root:");
    assert_eq!(shape("\\\\?\\C:\\a/b\\.", true), "VerbatimDisk:C|Root:|Name:a/b|Current:");
    assert_eq!(
        shape("\\\\?\\UNC\\server\\share\\a", true),
        "VerbatimUnc:server+share|Root:|Name:a"
    );
    assert_eq!(shape("\\\\?\\pics\\a", true), "Verbatim:pics|Root:|Name:a");
    assert_eq!(shape("\\\\?\\C:/a", true), "VerbatimDisk:C|Name:/a");
    assert_eq!(shape("\\\\?\\C:a", true), "Verbatim:C:a");
    assert_eq!(file_name("C:\\bin\\tool.exe", true).as_deref(), Some("tool.exe"));
    assert_eq!(file_name("C:", true), None);
    assert!(registry_path_escapes("C:x", true));
    assert!(registry_path_escapes("a\\..\\x", true));
    assert!(!registry_path_escapes("\\x", true));
    assert!(!registry_path_escapes("plugins\\x.toml", true));
}

#[test]
fn generated_windows_paths_remain_below_their_workspace() {
    let workspace = "C:\\Temp\\opz-plugin-x";
    let made = |path: &str| normalize_generated_path(workspace, path, true);
    assert_eq!(made("c:\\Temp/opz-plugin-x/a/./b").unwrap(), "c:\\Temp\\opz-plugin-x\\a\\b");
    assert!(made("C:\\Temp\\opz-plugin-x").is_err());
    assert!(made("C:\\temp\\opz-plugin-x\\a").is_err());
    assert!(made("D:\\Temp\\opz-plugin-x\\a").is_err());
    assert!(made("\\Temp\\opz-plugin-x\\a").unwrap_err().to_string().contains("must be absolute"));
    assert!(made("C:Temp\\a").unwrap_err().to_string().contains("must be absolute"));
    assert!(made("C:\\Temp\\opz-plugin-x\\..\\a").unwrap_err().to_string().contains("parent"));
    assert_eq!(
        normalize_generated_path("//h/s/w", "//h/s/w/a", true).unwrap(),
        "//h/s\\w\\a"
    );
    assert_eq!(
        directories_below(workspace, "C:\\Temp\\opz-plugin-x\\a\\b\\c", true),
        texts(&["a", "b"])
    );
}

#[test]
fn a_part_is_put_behind_a_path() {
    assert_eq!(extend_path("/w", "a", false), "/w/a");
    assert_eq!(extend_path("/w/", "a", false), "/w/a");
    assert_eq!(extend_path("/w", "/a", false), "/a");
    assert_eq!(extend_path("", "a", false), "a");
    assert_eq!(extend_path("C:\\w", "a", true), "C:\\w\\a");
    assert_eq!(extend_path("C:\\w/", "a", true), "C:\\w/a");
    assert_eq!(extend_path("C:", "a", true), "C:a");
    assert_eq!(extend_path("C:\\w", "\\a", true), "C:\\a");
    assert_eq!(extend_path("C:\\w", "D:a", true), "D:a");
    assert_eq!(extend_path("\\\\h\\s\\w", "\\a", true), "\\\\h\\s\\a");
    assert_eq!(extend_path("\\\\?\\C:\\w", "a/./b/../c", true), "\\\\?\\C:\\w\\a\\c");
    assert_eq!(extend_path("\\\\?\\C:\\w", "../../..", true), "\\\\?\\C:\\");
    assert_eq!(extend_path("\\\\?\\C:\\w", "/a", true), "\\\\?\\C:\\a");
    assert_eq!(extend_path("\\\\?\\C:\\w", "", true), "\\\\?\\C:\\w\\");
}

#[test]
fn generated_paths_keep_every_kind_of_prefix() {
    let made = |workspace: &str, path: &str| {
        normalize_generated_path(workspace, path, true).map_err(|failure| failure.to_string())
    };
    assert_eq!(made("\\\\h\\s", "\\\\h\\s/a/b").unwrap(), "\\\\h\\s\\a\\b");
    assert_eq!(made("\\\\.\\D\\w", "\\\\.\\D\\w/a").unwrap(), "\\\\.\\D\\w\\a");
    assert_eq!(made("\\\\?\\C:\\w", "\\\\?\\C:\\w\\.\\a").unwrap(), "\\\\?\\C:\\w\\a");
    assert_eq!(made("\\\\?\\C:\\w", "\\\\?\\C:\\w/x").unwrap(), "\\\\?\\C:\\w\\x");
    assert_eq!(made("\\\\?\\C:\\w", "\\\\?\\C:\\w/x/y").unwrap(), "\\\\?\\C:\\w\\x\\y");
    assert_eq!(
        made("\\\\?\\C:\\w", "\\\\?\\C:\\w\\a/../b").unwrap(),
        "\\\\?\\C:\\w\\b"
    );
    assert_eq!(made("\\\\?\\C:\\", "\\\\?\\C:\\/x").unwrap(), "\\\\?\\C:\\x");
    assert_eq!(
        made("\\\\?\\UNC\\h\\s\\w", "\\\\?\\UNC\\h\\s\\w/x").unwrap(),
        "\\\\?\\UNC\\h\\s\\w\\x"
    );
    assert_eq!(made("\\\\?\\p\\w", "\\\\?\\p\\w/x").unwrap(), "\\\\?\\p\\w\\x");
    let escapes = "generated plugin path escapes workspace";
    assert!(made("\\\\?\\C:\\w", "\\\\?\\C:\\w\\a/../../b").unwrap_err().contains(escapes));
    assert!(made("\\\\?\\C:\\w", "\\\\?\\C:\\w\\/x").unwrap_err().contains(escapes));
    assert!(made("\\\\?\\C:\\w", "\\\\?\\C:\\w").unwrap_err().contains(escapes));
    assert!(made("C:\\w", "C:\\w\\D:x").unwrap_err().contains(escapes));
    assert!(made("C:\\w", "\\\\?\\C:\\w\\x").unwrap_err().contains(escapes));
    let parent = "generated plugin path contains parent traversal";
    assert!(made("\\\\?\\C:\\w", "\\\\?\\C:\\w\\..\\b").unwrap_err().contains(parent));
    assert!(made("\\\\h\\s", "\\\\h\\s\\..\\b").unwrap_err().contains(parent));
}

#[test]
fn versions_are_compared_by_number() {
    assert_eq!(version_tuple("1.2.3").unwrap(), (1, 2, 3));
    assert_eq!(version_tuple("1.2.3-rc.1+x").unwrap(), (1, 2, 3));
    assert!(version_tuple("1.2").is_err());
    assert!(version_tuple("1.2.x").is_err());
    assert!(version_before("0.9.0", "0.10.0"));
    assert!(!version_before("0.10.0", "0.9.0"));
}

#[test]
fn digests_are_checked() {
    assert!(check_digest(&entry("0.1.0", PluginLifecycle::Active, DIGEST), "abc").is_ok());
    let failure =
        check_digest(&entry("0.1.0", PluginLifecycle::Active, DIGEST), "abd").unwrap_err();
    assert!(failure.to_string().starts_with("plugin digest mismatch for demo@0.1.0"));
    let altered = admit_plugin(
        entry("0.1.0", PluginLifecycle::Active, DIGEST),
        manifest(),
        "abd".to_string(),
        PluginOrigin::Bundled,
    );
    assert!(altered.unwrap_err().to_string().starts_with("plugin digest mismatch for demo@0.1.0"));
}

#[test]
fn manifests_are_checked() {
    assert!(validate_manifest(&manifest()).is_ok());
    let mut other = manifest();
    other.schema_version = 2;
    assert!(validate_manifest(&other).is_err());
    let mut protected = manifest();
    protected.env = env(&[("PATH", "x")]);
    assert!(validate_manifest(&protected).is_err());
    let mut unknown = manifest();
    unknown.arguments = texts(&["{config.other}"]);
    assert!(validate_manifest(&unknown).is_err());
    assert!(is_protected_env("PATH"));
    assert!(!is_protected_env("DEMO"));
    assert_eq!(file_mode("0600"), Some(0o600));
    assert_eq!(file_mode("0777"), None);
    assert!(ensure_unique("x", &texts(&["a", "a"])).is_err());
    assert!(validate_command_name("tool").is_ok());
    assert!(validate_command_name("a/b").is_err());
    assert!(check_registry_schema(1).is_ok());
    assert!(check_registry_schema(2).is_err());
}

#[test]
fn releases_are_admitted_once_and_replaced_by_local_ones() {
    let first = admit_plugin(
        entry("0.1.0", PluginLifecycle::Active, DIGEST),
        manifest(),
        "abc".to_string(),
        PluginOrigin::Bundled,
    )
    .unwrap();
    let mut plugins = vec![first];
    assert!(check_new_release(&plugins, &entry("0.1.0", PluginLifecycle::Active, DIGEST)).is_err());
    let mut local = release("0.1.0", PluginLifecycle::Active);
    local.origin = PluginOrigin::LocalRegistry;
    put_plugin(&mut plugins, local);
    assert_eq!(plugins.len(), 1);
    assert!(matches!(plugins[0].origin, PluginOrigin::LocalRegistry));
    put_plugin(&mut plugins, release("0.10.0", PluginLifecycle::Active));
    put_plugin(&mut plugins, release("0.9.0", PluginLifecycle::Active));
    let sorted = sort_plugins(plugins);
    let versions: Vec<&str> =
        sorted.iter().map(|plugin| plugin.entry.version.as_str()).collect();
    assert_eq!(versions, ["0.1.0", "0.9.0", "0.10.0"]);
}

#[test]
fn the_newest_release_is_found() {
    let plugins = vec![
        release("0.10.0", PluginLifecycle::Active),
        release("0.9.0", PluginLifecycle::Active),
    ];
    assert_eq!(find_release(&plugins, "demo", None, "demo").unwrap(), 0);
    assert_eq!(find_release(&plugins, "demo", Some("0.9.0"), "demo@0.9.0").unwrap(), 1);
    assert_eq!(
        find_release(&plugins, "x", None, "x").unwrap_err().to_string(),
        "plugin not found: x"
    );
    assert_eq!(parse_selector("demo@0.1.0").unwrap(), ("demo".to_string(), Some("0.1.0".to_string())));
    assert!(parse_selector("demo@").is_err());
    assert!(list_line(&plugins[0]).starts_with("demo\t0.10.0\tactive\t"));
    assert!(show_plugin(&plugins[0]).ends_with("\nabc\n"));
}

#[test]
fn a_revoked_release_never_runs() {
    let mut revoked = entry("0.1.0", PluginLifecycle::Revoked, DIGEST);
    assert!(check_runnable(&revoked, true, "1.0.0")
        .unwrap_err()
        .to_string()
        .contains("is revoked: no reason provided"));
    revoked.lifecycle = PluginLifecycle::Deprecated;
    assert!(check_runnable(&revoked, true, "1.0.0").is_ok());
    assert!(check_runnable(&revoked, false, "1.0.0").is_err());
    revoked.lifecycle = PluginLifecycle::Active;
    assert!(check_runnable(&revoked, false, "0.0.9")
        .unwrap_err()
        .to_string()
        .ends_with("requires opz >= 0.1.0"));
}

#[test]
fn a_launch_follows_the_pin() {
    let plugins = vec![release("0.1.0", PluginLifecycle::Active)];
    let item = pinned_item("0.1.0", DIGEST);
    let (found, inputs) =
        plan_launch(&plugins, &item, "demo", &texts(&["/bin/tool"]), false, "1.0.0", false).unwrap();
    assert_eq!(found, 0);
    assert_eq!(inputs.secret_lines, texts(&["API_KEY=op://v/i/API_KEY"]));
    assert!(matches!(inputs.config.get("model"), Some(ConfigValue::Text(model)) if model == "small"));

    let message = |item: &ResolvedItem, selector: &str, command: &str| {
        plan_launch(&plugins, item, selector, &texts(&[command]), false, "1.0.0", false)
            .unwrap_err()
            .to_string()
    };
    assert_eq!(
        message(&item, "other", "tool"),
        "item pins plugin `demo`, but `other` was requested"
    );
    assert_eq!(
        message(&item, "demo@0.2.0", "tool"),
        "item pins plugin version 0.1.0, but 0.2.0 was requested"
    );
    assert_eq!(
        message(&pinned_item("0.2.0", DIGEST), "demo", "tool"),
        "plugin not found: demo@0.2.0"
    );
    assert_eq!(
        message(&pinned_item("0.1.0", &"0".repeat(64)), "demo", "tool"),
        "1Password item plugin pin does not match the selected registry release"
    );
    let elsewhere = texts(&["C:\\bin\\tool"]);
    assert!(plan_launch(&plugins, &item, "demo", &elsewhere, false, "1.0.0", true).is_ok());
    assert!(plan_launch(&plugins, &item, "demo", &elsewhere, false, "1.0.0", false).is_err());
    let other = texts(&["other"]);
    assert!(plan_launch(&plugins, &item, "demo", &other, false, "1.0.0", false).is_err());
    let mut plain = pinned_item("0.1.0", DIGEST);
    plain.item.fields.clear();
    assert!(message(&plain, "demo", "tool").starts_with("item is missing OPZ_PLUGIN"));
}

#[test]
fn pins_are_read_from_items() {
    let item = pinned_item("0.1.0", DIGEST).item;
    let pin = parse_item_plugin_pin(&item).unwrap().unwrap();
    assert_eq!(pin.name, "demo");
    assert_eq!(pin.sha256, DIGEST);
    assert_eq!(item_field_value(&item, "OPZ_PLUGIN").as_deref(), Some("demo"));
    let short = pinned_item("0.1.0", "abc").item;
    assert!(parse_item_plugin_pin(&short).is_err());
    assert!(plugin_secret_lines(&manifest(), &item, "v", "i").is_ok());
    assert!(validate_target_command(&manifest(), &texts(&["tool"]), false).is_ok());
    assert_eq!(
        target_command(&texts(&["tool", "x"]), &texts(&["--a"])).unwrap(),
        texts(&["tool", "--a", "x"])
    );
    assert!(is_locale_variable("LC_ALL"));
    assert!(!is_locale_variable("lc_all"));
    assert!(!is_locale_variable("SECRET"));
    assert_eq!(
        baseline_names(),
        texts(&[
            "PATH",
            "HOME",
            "USER",
            "LOGNAME",
            "SHELL",
            "TMPDIR",
            "TEMP",
            "TMP",
            "SystemRoot",
            "WINDIR",
            "ComSpec",
            "PATHEXT",
            "TERM",
            "COLORTERM",
            "LANG",
            "SSL_CERT_FILE",
            "SSL_CERT_DIR",
        ])
    );
}

#[test]
fn items_select_plugins() {
    let items = vec![pinned_item("0.1.0", DIGEST)];
    assert_eq!(choose_plugin(&items, false).unwrap().as_deref(), Some("demo"));
    assert!(choose_plugin(&items, true).is_err());
    let two = vec![pinned_item("0.1.0", DIGEST), pinned_item("0.1.0", DIGEST)];
    assert_eq!(
        choose_plugin(&two, false).unwrap_err().to_string(),
        "plugin execution requires exactly one 1Password item"
    );
    assert_eq!(choose_plugin(&vec![], true).unwrap(), None);
}

#[test]
fn configurations_are_read_and_merged() {
    let read = read_config_text("a = 1\nb = \"x\"\nc = true\nd = 1.5\n").unwrap();
    assert!(matches!(read.get("a"), Some(ConfigValue::Integer(1))));
    assert!(matches!(read.get("b"), Some(ConfigValue::Text(b)) if b == "x"));
    assert!(matches!(read.get("c"), Some(ConfigValue::Boolean(true))));
    assert!(matches!(
        read.get("d"),
        Some(ConfigValue::Float { bits, .. }) if *bits == 1.5f64.to_bits()
    ));
    assert!(read_config_text("a = [1]").is_err());
    assert!(read_config_text("a =").is_err());
    assert!(check_flat_config(config(vec![("x", ConfigValue::Other)])).is_err());

    let own = manifest();
    let merged = build_runtime_config(
        &own.config,
        &own.defaults,
        &config(vec![("model", text("large"))]),
    )
    .unwrap();
    assert!(matches!(merged.get("model"), Some(ConfigValue::Text(model)) if model == "large"));
    assert!(build_runtime_config(&own.config, &own.defaults, &config(vec![("x", text("y"))]))
        .is_err());
}

#[test]
fn values_are_held_to_their_fields() {
    let mut size = field(PluginConfigType::Integer);
    size.minimum = Some(2.0f64.to_bits());
    size.maximum = Some(5.0f64.to_bits());
    assert!(validate_config_value("n", &size, &ConfigValue::Integer(2)).is_ok());
    assert!(validate_config_value("n", &size, &ConfigValue::Integer(1)).is_err());
    assert!(validate_config_value("n", &size, &ConfigValue::Integer(6)).is_err());
    assert!(validate_config_value("n", &size, &text("2")).is_err());
    let mut ratio = field(PluginConfigType::Number);
    ratio.minimum = Some(0.5f64.to_bits());
    assert!(validate_config_value("r", &ratio, &number(0.5)).is_ok());
    assert!(validate_config_value("r", &ratio, &number(0.25)).is_err());
    let mut named = field(PluginConfigType::Text);
    named.pattern = Some("^[a-z]+$".to_string());
    named.allowed_values = Some(vec![text("abc"), text("ABC")]);
    assert!(validate_config_value("s", &named, &text("abc")).is_ok());
    assert!(validate_config_value("s", &named, &text("ABC")).is_err());
    assert!(validate_config_value("s", &named, &text("xyz")).is_err());
    assert!(same_values(&number(1.0), &number(1.0)));
    assert!(!same_values(&number(f64::NAN), &number(f64::NAN)));
    assert!(same_values(&number(0.0), &number(-0.0)));
    assert_eq!(scalar_to_string(&ConfigValue::Integer(-3)).unwrap(), "-3");
    assert_eq!(scalar_to_string(&number(1.5)).unwrap(), "1.5");
    assert!(scalar_to_string(&ConfigValue::Other).is_err());
}

#[test]
fn templates_are_rendered() {
    let values = config(vec![("model", text("m")), ("n", ConfigValue::Integer(7))]);
    let environment = env(&[("A", "1")]);
    assert_eq!(
        render_template("{config.model}-{config.n}-{env.A}-{tmp}", &values, &environment, "/w")
            .unwrap(),
        "m-7-1-/w"
    );
    assert!(render_template("{config.none}", &values, &environment, "/w").is_err());
    assert!(render_template("{open", &values, &environment, "/w").is_err());
    assert_eq!(
        template_placeholders("{config.a} {tmp}").unwrap(),
        texts(&["config.a", "tmp"])
    );
    let own = manifest();
    assert!(validate_template("{config.model}", &own.env, &own.config).is_ok());
    assert!(validate_template("{secret.X}", &own.env, &own.config).is_err());
    let rendered = render_environment(&own.env, &values, "/w").unwrap();
    assert_eq!(rendered.get_text("DEMO_HOME").map(|value| value.as_str()), Some("/w/home"));
    assert_eq!(
        render_arguments(&own.arguments, &values, &rendered, "/w").unwrap(),
        texts(&["--model", "m"])
    );
    let (path, content) =
        render_file("{tmp}/a/b", "x={config.model}", &values, &rendered, "/w", false).unwrap();
    assert_eq!(path, "/w/a/b");
    assert_eq!(content, "x=m");
    assert!(render_file("/etc/x", "", &values, &rendered, "/w", false).is_err());
}

#[test]
fn files_of_manifests_have_private_modes() {
    let mut own = manifest();
    own.files.insert(
        "{tmp}/a".to_string(),
        PluginFile { mode: "0600".to_string(), content: "x".to_string() },
    );
    assert!(validate_manifest(&own).is_ok());
    own.files.insert(
        "{tmp}/b".to_string(),
        PluginFile { mode: "0666".to_string(), content: "x".to_string() },
    );
    assert!(validate_manifest(&own).is_err());
}

use opz::cli::{
    advice_name, detect_command_hint, plan_command, plan_namespaced, CliCommand, CliTask,
    PluginAction,
};
use opz::mcp_environment::McpEnvironmentAction;

fn args(values: &[&str]) -> Vec<String> {
    values.iter().map(|value| value.to_string()).collect()
}

#[test]
fn test_detect_command_hint_doctor() {
    assert_eq!(detect_command_hint(&args(&["opz", "doctor"])), "doctor");
}

#[test]
fn test_detect_command_hint_github_repo() {
    assert_eq!(detect_command_hint(&args(&["opz", "github-repo"])), "github-repo");
}

#[test]
fn test_detect_command_hint_skips_environment_options() {
    assert_eq!(
        detect_command_hint(&args(&["opz", "--environment", "dev", "run", "--", "env"])),
        "run"
    );
    assert_eq!(
        detect_command_hint(&args(&["opz", "--environments=dev", "doctor"])),
        "doctor"
    );
}

#[test]
fn hints_for_other_arguments() {
    assert_eq!(detect_command_hint(&args(&["opz"])), "run");
    assert_eq!(detect_command_hint(&args(&["opz", "-h"])), "help");
    assert_eq!(detect_command_hint(&args(&["opz", "--version"])), "version");
    assert_eq!(detect_command_hint(&args(&["opz", "env", "list"])), "environment");
    assert_eq!(detect_command_hint(&args(&["opz", "item", "--", "x"])), "run");
    assert_eq!(detect_command_hint(&args(&["opz", "--vault"])), "run");
    assert_eq!(detect_command_hint(&args(&["opz", "--vault", "find", "plugin"])), "plugin");
}

fn run(environments: &[&str], command: &[&str]) -> CliCommand {
    CliCommand::Run {
        env_file: None,
        environments: args(environments),
        items: args(&["item"]),
        command: args(command),
    }
}

#[test]
fn a_run_needs_a_command() {
    assert!(plan_command(false, run(&[], &[]))
        .unwrap_err()
        .to_string()
        .starts_with("Command required after '--'. Usage: opz run "));
    let direct = CliCommand::Direct {
        env_file: None,
        environments: vec![],
        items: vec![],
        command: vec![],
    };
    assert!(plan_command(false, direct)
        .unwrap_err()
        .to_string()
        .starts_with("Command required after '--'. Usage: opz [OPTIONS]"));
    let plugin = CliCommand::Plugin {
        action: PluginAction::Run {
            selector: "x".to_string(),
            item: None,
            allow_deprecated: false,
            command: vec![],
        },
    };
    assert!(plan_command(false, plugin).unwrap_err().to_string().contains("opz plugin run"));
}

#[test]
fn environments_decide_how_a_command_is_run() {
    let task = plan_command(false, run(&[], &["env"])).unwrap();
    assert!(matches!(task, CliTask::RunItems { .. }));
    assert_eq!(advice_name(&task), Some("run"));
    let task = plan_command(true, run(&["dev"], &["env"])).unwrap();
    assert!(matches!(task, CliTask::RunEnvironments { .. }));
    assert_eq!(advice_name(&task), None);
}

#[test]
fn environments_have_no_vault() {
    let list = || CliCommand::Environment { account: None, action: McpEnvironmentAction::List };
    assert!(plan_command(false, list()).is_ok());
    assert!(plan_command(true, list())
        .unwrap_err()
        .to_string()
        .starts_with("`--vault` cannot be combined with `opz environment`"));
    assert!(plan_command(false, CliCommand::Create)
        .unwrap_err()
        .to_string()
        .starts_with("`opz create` was removed."));
}

#[test]
fn titles_are_carried_by_some_commands_only() {
    assert!(plan_namespaced(run(&[], &["env"])).is_ok());
    assert!(plan_namespaced(run(&["dev"], &["env"]))
        .unwrap_err()
        .to_string()
        .starts_with("`--namespace` cannot be combined with `--environment`"));
    assert!(plan_namespaced(run(&[], &[]))
        .unwrap_err()
        .to_string()
        .contains("--namespace item-title"));
    assert!(plan_namespaced(CliCommand::Doctor)
        .unwrap_err()
        .to_string()
        .contains("is only supported with `opz run`"));
}

//! From the command line to a task: which command it is, and what of it is refused.

use vstd::prelude::*;

use crate::cloudflare::{CloudflareCredentialMode, CloudflareCredentialPreset};
use crate::failure;
use crate::failure::Failure;
use crate::mcp_environment::McpEnvironmentAction;
use crate::seqs;
use crate::text;

verus! {

broadcast use crate::seqs::group_seqs;

/// The command that a first word names.
pub open spec fn command_named(word: Seq<char>) -> Seq<char> {
    if word == "environment"@ || word == "env"@ {
        "environment"@
    } else if word == "find"@ || word == "doctor"@ || word == "plugin"@ || word == "skills"@ || word
        == "show"@ || word == "gen"@ || word == "create"@ || word == "migrate"@ || word == "note"@
        || word == "github-repo"@ || word == "github-secret"@ || word == "cloudflare-secret"@ {
        word
    } else {
        "run"@
    }
}

/// Whether an option takes the next argument as its value.
pub open spec fn takes_value(arg: Seq<char>) -> bool {
    arg == "--vault"@ || arg == "--env-file"@ || arg == "--environment"@ || arg
        == "--environments"@
}

/// The command that arguments from `i` on name, as far as it can be told without parsing them.
pub open spec fn hint(args: Seq<Seq<char>>, i: int) -> Seq<char>
    decreases args.len() + 1 - i,
{
    if i < 0 || i >= args.len() {
        "run"@
    } else {
        let arg = args[i];
        if arg == "--"@ {
            "run"@
        } else if arg == "--help"@ || arg == "-h"@ {
            "help"@
        } else if arg == "--version"@ || arg == "-V"@ {
            "version"@
        } else if takes_value(arg) {
            hint(args, i + 2)
        } else if text::begins(arg, "--"@) {
            hint(args, i + 1)
        } else {
            command_named(arg)
        }
    }
}

/// The command that a first word names.
fn name_command(word: &str) -> (r: String)
    ensures
        r@ == command_named(word@),
{
    if text::same(word, "environment") || text::same(word, "env") {
        "environment".to_owned()
    } else if text::same(word, "find") || text::same(word, "doctor") || text::same(word, "plugin")
        || text::same(word, "skills") || text::same(word, "show") || text::same(word, "gen")
        || text::same(word, "create") || text::same(word, "migrate") || text::same(word, "note")
        || text::same(word, "github-repo") || text::same(word, "github-secret") || text::same(
        word,
        "cloudflare-secret",
    ) {
        word.to_owned()
    } else {
        "run".to_owned()
    }
}

/// The command that the arguments name, the program itself being the first of them.
pub fn detect_command_hint(args: &[String]) -> (r: String)
    ensures
        r@ == hint(seqs::texts(args@), 1),
{
    let ghost all = seqs::texts(args@);
    let mut i: usize = 1;
    while i < args.len()
        invariant
            1 <= i,
            all == seqs::texts(args@),
            hint(all, 1) == hint(all, i as int),
        decreases args@.len() + 1 - i,
    {
        let arg = args[i].as_str();
        assert(all[i as int] == arg@);
        if text::same(arg, "--") {
            return "run".to_owned();
        }
        if text::same(arg, "--help") || text::same(arg, "-h") {
            return "help".to_owned();
        }
        if text::same(arg, "--version") || text::same(arg, "-V") {
            return "version".to_owned();
        }
        if text::same(arg, "--vault") || text::same(arg, "--env-file") || text::same(
            arg,
            "--environment",
        ) || text::same(arg, "--environments") {
            if i + 1 >= args.len() {
                assert(hint(all, i + 2) == "run"@);
                return "run".to_owned();
            }
            i += 2;
        } else if text::starts_with(arg, "--") {
            i += 1;
        } else {
            return name_command(arg);
        }
    }
    "run".to_owned()
}

/// What to do with plugins.
#[derive(Debug)]
pub enum PluginAction {
    List,
    Show { selector: String },
    Run { selector: String, item: Option<String>, allow_deprecated: bool, command: Vec<String> },
}

/// A command as it was parsed.
#[derive(Debug)]
pub enum CliCommand {
    Find { query: String },
    Doctor,
    Environment { account: Option<String>, action: McpEnvironmentAction },
    Skills,
    Plugin { action: PluginAction },
    Show { with_item: bool, items: Vec<String> },
    Gen { env_file: Option<String>, items: Vec<String> },
    Migrate { dry_run: bool, create_new: bool, restore: bool },
    Note { file: String },
    Create,
    GithubRepo { repositories: Vec<String>, dry_run: bool, items: Vec<String> },
    Run {
        env_file: Option<String>,
        environments: Vec<String>,
        items: Vec<String>,
        command: Vec<String>,
    },
    Direct {
        env_file: Option<String>,
        environments: Vec<String>,
        items: Vec<String>,
        command: Vec<String>,
    },
    GithubSecret { repository: Option<String>, dry_run: bool, items: Vec<String> },
    CloudflareCredential {
        preset: CloudflareCredentialPreset,
        mode: CloudflareCredentialMode,
        item: String,
        section: Option<String>,
        field: Option<String>,
        stdin: bool,
        file: Option<String>,
        raw: bool,
        dry_run: bool,
        command: Vec<String>,
    },
    CloudflareSecret {
        name: Option<String>,
        environment: Option<String>,
        config: Option<String>,
        dry_run: bool,
        items: Vec<String>,
    },
}

/// A command that is carried out. Before some it is advised to keep no secrets in files.
#[derive(Debug)]
pub enum CliTask {
    Find { query: String },
    Doctor,
    Environment { account: Option<String>, action: McpEnvironmentAction },
    Skills,
    ListPlugins,
    ShowPlugin { selector: String },
    RunPlugin {
        selector: String,
        item: Option<String>,
        allow_deprecated: bool,
        command: Vec<String>,
    },
    Show { with_item: bool, items: Vec<String> },
    Gen { env_file: Option<String>, items: Vec<String> },
    Migrate { dry_run: bool, create_new: bool, restore: bool },
    Note { file: String },
    GithubRepo { repositories: Vec<String>, dry_run: bool, items: Vec<String> },
    RunItems { env_file: Option<String>, items: Vec<String>, command: Vec<String> },
    RunEnvironments {
        env_file: Option<String>,
        environments: Vec<String>,
        items: Vec<String>,
        command: Vec<String>,
    },
    GithubSecret { repository: Option<String>, dry_run: bool, items: Vec<String> },
    CloudflareCredential {
        preset: CloudflareCredentialPreset,
        mode: CloudflareCredentialMode,
        item: String,
        section: Option<String>,
        field: Option<String>,
        stdin: bool,
        file: Option<String>,
        raw: bool,
        dry_run: bool,
        command: Vec<String>,
    },
    CloudflareSecret {
        name: Option<String>,
        environment: Option<String>,
        config: Option<String>,
        dry_run: bool,
        items: Vec<String>,
    },
}

/// The task of running a command: with Environments where some are named, else with items.
pub open spec fn run_task(
    usage: Seq<char>,
    env_file: Option<String>,
    environments: Vec<String>,
    items: Vec<String>,
    command: Vec<String>,
) -> Result<CliTask, Seq<char>> {
    if command@.len() == 0 {
        Err(usage)
    } else if environments@.len() > 0 {
        Ok(CliTask::RunEnvironments { env_file, environments, items, command })
    } else {
        Ok(CliTask::RunItems { env_file, items, command })
    }
}

/// The task that a command is, or why it is refused.
pub open spec fn planned(with_vault: bool, command: CliCommand) -> Result<CliTask, Seq<char>> {
    match command {
        CliCommand::Find { query } => Ok(CliTask::Find { query }),
        CliCommand::Doctor => Ok(CliTask::Doctor),
        CliCommand::Environment { account, action } => if with_vault {
            Err(
                "`--vault` cannot be combined with `opz environment`; Developer Environments are account-scoped, not vault item lookups."@,
            )
        } else {
            Ok(CliTask::Environment { account, action })
        },
        CliCommand::Skills => Ok(CliTask::Skills),
        CliCommand::Plugin { action } => match action {
            PluginAction::List => Ok(CliTask::ListPlugins),
            PluginAction::Show { selector } => Ok(CliTask::ShowPlugin { selector }),
            PluginAction::Run { selector, item, allow_deprecated, command } => if command@.len()
                == 0 {
                Err(
                    "Command required after '--'. Usage: opz plugin run <NAME[@VERSION]> [--item <ITEM>] -- <COMMAND>..."@,
                )
            } else {
                Ok(CliTask::RunPlugin { selector, item, allow_deprecated, command })
            },
        },
        CliCommand::Show { with_item, items } => Ok(CliTask::Show { with_item, items }),
        CliCommand::Gen { env_file, items } => Ok(CliTask::Gen { env_file, items }),
        CliCommand::Migrate { dry_run, create_new, restore } => Ok(
            CliTask::Migrate { dry_run, create_new, restore },
        ),
        CliCommand::Note { file } => Ok(CliTask::Note { file }),
        CliCommand::Create => Err(
            "`opz create` was removed. Use `opz migrate --new` to create an item from .env, or `opz note <FILE>` to store a private config file."@,
        ),
        CliCommand::GithubRepo { repositories, dry_run, items } => Ok(
            CliTask::GithubRepo { repositories, dry_run, items },
        ),
        CliCommand::Run { env_file, environments, items, command } => run_task(
            "Command required after '--'. Usage: opz run [OPTIONS] [--env-file <ENV>] [--environment <ENV>] [<ITEM>...] -- <COMMAND>..."@,
            env_file,
            environments,
            items,
            command,
        ),
        CliCommand::Direct { env_file, environments, items, command } => run_task(
            "Command required after '--'. Usage: opz [OPTIONS] [--env-file <ENV>] [--environment <ENV>] [<ITEM>...] -- <COMMAND>..."@,
            env_file,
            environments,
            items,
            command,
        ),
        CliCommand::GithubSecret { repository, dry_run, items } => Ok(
            CliTask::GithubSecret { repository, dry_run, items },
        ),
        CliCommand::CloudflareCredential {
            preset,
            mode,
            item,
            section,
            field,
            stdin,
            file,
            raw,
            dry_run,
            command,
        } => Ok(
            CliTask::CloudflareCredential {
                preset,
                mode,
                item,
                section,
                field,
                stdin,
                file,
                raw,
                dry_run,
                command,
            },
        ),
        CliCommand::CloudflareSecret { name, environment, config, dry_run, items } => Ok(
            CliTask::CloudflareSecret { name, environment, config, dry_run, items },
        ),
    }
}

/// The task of running a command.
fn plan_run(
    usage: &str,
    env_file: Option<String>,
    environments: Vec<String>,
    items: Vec<String>,
    command: Vec<String>,
) -> (r: Result<CliTask, Failure>)
    ensures
        match run_task(usage@, env_file, environments, items, command) {
            Ok(task) => r == Ok::<CliTask, Failure>(task),
            Err(message) => failure::failed(r, message),
        },
{
    if command.len() == 0 {
        return Err(failure::fail(usage));
    }
    if environments.len() > 0 {
        return Ok(CliTask::RunEnvironments { env_file, environments, items, command });
    }
    Ok(CliTask::RunItems { env_file, items, command })
}

/// The task that a command is, or why it is refused.
pub fn plan_command(with_vault: bool, command: CliCommand) -> (r: Result<CliTask, Failure>)
    ensures
        match planned(with_vault, command) {
            Ok(task) => r == Ok::<CliTask, Failure>(task),
            Err(message) => failure::failed(r, message),
        },
{
    match command {
        CliCommand::Find { query } => Ok(CliTask::Find { query }),
        CliCommand::Doctor => Ok(CliTask::Doctor),
        CliCommand::Environment { account, action } => {
            if with_vault {
                return Err(
                    failure::fail(
                        "`--vault` cannot be combined with `opz environment`; Developer Environments are account-scoped, not vault item lookups.",
                    ),
                );
            }
            Ok(CliTask::Environment { account, action })
        },
        CliCommand::Skills => Ok(CliTask::Skills),
        CliCommand::Plugin { action } => match action {
            PluginAction::List => Ok(CliTask::ListPlugins),
            PluginAction::Show { selector } => Ok(CliTask::ShowPlugin { selector }),
            PluginAction::Run { selector, item, allow_deprecated, command } => {
                if command.len() == 0 {
                    return Err(
                        failure::fail(
                            "Command required after '--'. Usage: opz plugin run <NAME[@VERSION]> [--item <ITEM>] -- <COMMAND>...",
                        ),
                    );
                }
                Ok(CliTask::RunPlugin { selector, item, allow_deprecated, command })
            },
        },
        CliCommand::Show { with_item, items } => Ok(CliTask::Show { with_item, items }),
        CliCommand::Gen { env_file, items } => Ok(CliTask::Gen { env_file, items }),
        CliCommand::Migrate { dry_run, create_new, restore } => Ok(
            CliTask::Migrate { dry_run, create_new, restore },
        ),
        CliCommand::Note { file } => Ok(CliTask::Note { file }),
        CliCommand::Create => Err(
            failure::fail(
                "`opz create` was removed. Use `opz migrate --new` to create an item from .env, or `opz note <FILE>` to store a private config file.",
            ),
        ),
        CliCommand::GithubRepo { repositories, dry_run, items } => Ok(
            CliTask::GithubRepo { repositories, dry_run, items },
        ),
        CliCommand::Run { env_file, environments, items, command } => plan_run(
            "Command required after '--'. Usage: opz run [OPTIONS] [--env-file <ENV>] [--environment <ENV>] [<ITEM>...] -- <COMMAND>...",
            env_file,
            environments,
            items,
            command,
        ),
        CliCommand::Direct { env_file, environments, items, command } => plan_run(
            "Command required after '--'. Usage: opz [OPTIONS] [--env-file <ENV>] [--environment <ENV>] [<ITEM>...] -- <COMMAND>...",
            env_file,
            environments,
            items,
            command,
        ),
        CliCommand::GithubSecret { repository, dry_run, items } => Ok(
            CliTask::GithubSecret { repository, dry_run, items },
        ),
        CliCommand::CloudflareCredential {
            preset,
            mode,
            item,
            section,
            field,
            stdin,
            file,
            raw,
            dry_run,
            command,
        } => Ok(
            CliTask::CloudflareCredential {
                preset,
                mode,
                item,
                section,
                field,
                stdin,
                file,
                raw,
                dry_run,
                command,
            },
        ),
        CliCommand::CloudflareSecret { name, environment, config, dry_run, items } => Ok(
            CliTask::CloudflareSecret { name, environment, config, dry_run, items },
        ),
    }
}

/// The name under which a task is preceded by advice on files with secrets, if it is.
pub open spec fn advised(task: CliTask) -> Option<Seq<char>> {
    match task {
        CliTask::Gen { env_file: _, items: _ } => Some("gen"@),
        CliTask::RunItems { env_file: _, items: _, command: _ } => Some("run"@),
        CliTask::GithubSecret { repository: _, dry_run: _, items: _ } => Some("github-secret"@),
        CliTask::CloudflareSecret {
            name: _,
            environment: _,
            config: _,
            dry_run: _,
            items: _,
        } => Some("cloudflare-secret"@),
        _ => None,
    }
}

/// The name under which a task is preceded by advice on files with secrets, if it is.
pub fn advice_name(task: &CliTask) -> (r: Option<&'static str>)
    ensures
        r.deep_view() == advised(*task),
{
    match task {
        CliTask::Gen { env_file: _, items: _ } => Some("gen"),
        CliTask::RunItems { env_file: _, items: _, command: _ } => Some("run"),
        CliTask::GithubSecret { repository: _, dry_run: _, items: _ } => Some("github-secret"),
        CliTask::CloudflareSecret {
            name: _,
            environment: _,
            config: _,
            dry_run: _,
            items: _,
        } => Some("cloudflare-secret"),
        _ => None,
    }
}

/// The task that a command is in which variables carry the titles of their items, or why it is
/// refused.
pub open spec fn planned_namespaced(command: CliCommand) -> Result<CliTask, Seq<char>> {
    let conflict =
        "`--namespace` cannot be combined with `--environment` because item titles are not used for Environment-backed execution."@;
    match command {
        CliCommand::Run { env_file, environments, items, command } => if environments@.len() > 0 {
            Err(conflict)
        } else {
            run_task(
                "Command required after '--'. Usage: opz run --namespace item-title [OPTIONS] [--env-file <ENV>] [<ITEM>...] -- <COMMAND>..."@,
                env_file,
                environments,
                items,
                command,
            )
        },
        CliCommand::Direct { env_file, environments, items, command } => if environments@.len() > 0 {
            Err(conflict)
        } else {
            run_task(
                "Command required after '--'. Usage: opz --namespace item-title [OPTIONS] [--env-file <ENV>] [<ITEM>...] -- <COMMAND>..."@,
                env_file,
                environments,
                items,
                command,
            )
        },
        CliCommand::Show { with_item, items } => Ok(CliTask::Show { with_item, items }),
        CliCommand::Gen { env_file, items } => Ok(CliTask::Gen { env_file, items }),
        _ => Err(
            "`--namespace item-title` is only supported with `opz run`, top-level command execution, `opz gen`, or `opz show`."@,
        ),
    }
}

/// The task that a command is in which variables carry the titles of their items: running with
/// items, showing or generating.
pub fn plan_namespaced(command: CliCommand) -> (r: Result<CliTask, Failure>)
    ensures
        match planned_namespaced(command) {
            Ok(task) => r == Ok::<CliTask, Failure>(task) && !(task is RunEnvironments),
            Err(message) => failure::failed(r, message),
        },
{
    match command {
        CliCommand::Run { env_file, environments, items, command } => {
            if environments.len() > 0 {
                return Err(
                    failure::fail(
                        "`--namespace` cannot be combined with `--environment` because item titles are not used for Environment-backed execution.",
                    ),
                );
            }
            plan_run(
                "Command required after '--'. Usage: opz run --namespace item-title [OPTIONS] [--env-file <ENV>] [<ITEM>...] -- <COMMAND>...",
                env_file,
                environments,
                items,
                command,
            )
        },
        CliCommand::Direct { env_file, environments, items, command } => {
            if environments.len() > 0 {
                return Err(
                    failure::fail(
                        "`--namespace` cannot be combined with `--environment` because item titles are not used for Environment-backed execution.",
                    ),
                );
            }
            plan_run(
                "Command required after '--'. Usage: opz --namespace item-title [OPTIONS] [--env-file <ENV>] [<ITEM>...] -- <COMMAND>...",
                env_file,
                environments,
                items,
                command,
            )
        },
        CliCommand::Show { with_item, items } => Ok(CliTask::Show { with_item, items }),
        CliCommand::Gen { env_file, items } => Ok(CliTask::Gen { env_file, items }),
        _ => Err(
            failure::fail(
                "`--namespace item-title` is only supported with `opz run`, top-level command execution, `opz gen`, or `opz show`.",
            ),
        ),
    }
}

} // verus!

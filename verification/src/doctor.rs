//! Checks of the tools around this program and of credential files in a project.

use vstd::prelude::*;
use vstd::string::*;

use crate::environment;
use crate::failure::Failure;
use crate::json;
use crate::json::{Json, JsonView};
use crate::paths;
use crate::seqs;
use crate::text;

verus! {

broadcast use crate::seqs::group_seqs;

/// What a check came to.
#[derive(Clone, Copy, Debug, PartialEq, Eq, Structural)]
pub enum DoctorStatus {
    Passed,
    Warned,
    Failed,
}

/// A check with what it came to.
#[derive(Debug)]
pub struct DoctorCheck {
    pub status: DoctorStatus,
    pub name: String,
    pub message: String,
    pub required: bool,
}

/// The content of a `DoctorCheck`.
pub struct CheckView {
    pub status: DoctorStatus,
    pub name: Seq<char>,
    pub message: Seq<char>,
    pub required: bool,
}

impl DeepView for DoctorCheck {
    type V = CheckView;

    open spec fn deep_view(&self) -> CheckView {
        CheckView {
            status: self.status,
            name: self.name@,
            message: self.message@,
            required: self.required,
        }
    }
}

/// A check that passed.
pub open spec fn passed(name: Seq<char>, message: Seq<char>, required: bool) -> CheckView {
    CheckView { status: DoctorStatus::Passed, name, message, required }
}

/// A check with a warning.
pub open spec fn warned(name: Seq<char>, message: Seq<char>) -> CheckView {
    CheckView { status: DoctorStatus::Warned, name, message, required: false }
}

/// A required check that failed.
pub open spec fn failed_check(name: Seq<char>, message: Seq<char>) -> CheckView {
    CheckView { status: DoctorStatus::Failed, name, message, required: true }
}

impl DoctorCheck {
    /// A check that passed.
    pub fn ok(name: &str, message: String, required: bool) -> (r: DoctorCheck)
        ensures
            r.deep_view() == passed(name@, message@, required),
    {
        DoctorCheck { status: DoctorStatus::Passed, name: name.to_owned(), message, required }
    }

    /// A check with a warning.
    pub fn warn(name: &str, message: String) -> (r: DoctorCheck)
        ensures
            r.deep_view() == warned(name@, message@),
    {
        DoctorCheck {
            status: DoctorStatus::Warned,
            name: name.to_owned(),
            message,
            required: false,
        }
    }

    /// A required check that failed.
    pub fn error(name: &str, message: String) -> (r: DoctorCheck)
        ensures
            r.deep_view() == failed_check(name@, message@),
    {
        DoctorCheck { status: DoctorStatus::Failed, name: name.to_owned(), message, required: true }
    }
}

/// The name of a status, padded to five characters.
pub open spec fn status_name(status: DoctorStatus) -> Seq<char> {
    match status {
        DoctorStatus::Passed => "ok   "@,
        DoctorStatus::Warned => "warn "@,
        DoctorStatus::Failed => "error"@,
    }
}

/// The line for a check.
pub open spec fn check_line(check: CheckView) -> Seq<char> {
    status_name(check.status) + " "@ + check.name + ": "@ + check.message + "\n"@
}

/// The lines for checks.
pub open spec fn check_lines(checks: Seq<CheckView>) -> Seq<char>
    decreases checks.len(),
{
    if checks.len() == 0 {
        Seq::empty()
    } else {
        check_lines(checks.drop_last()) + check_line(checks.last())
    }
}

/// The lines for checks.
pub fn render_doctor_checks(checks: &Vec<DoctorCheck>) -> (r: String)
    ensures
        r@ == check_lines(checks.deep_view()),
{
    let ghost all = checks.deep_view();
    let mut out = String::new();
    let mut i: usize = 0;
    assert(out@ =~= Seq::<char>::empty());
    while i < checks.len()
        invariant
            i <= checks@.len(),
            all == checks.deep_view(),
            out@ == check_lines(all.take(i as int)),
        decreases checks@.len() - i,
    {
        let check = &checks[i];
        proof {
            assert(all.take(i + 1).drop_last() == all.take(i as int));
            assert(all.take(i + 1).last() == check.deep_view());
        }
        let status = match check.status {
            DoctorStatus::Passed => "ok   ",
            DoctorStatus::Warned => "warn ",
            DoctorStatus::Failed => "error",
        };
        let line = status.to_owned().concat(" ").concat(&check.name).concat(": ").concat(
            &check.message,
        ).concat("\n");
        out.append(&line);
        i += 1;
    }
    out
}

/// Whether a required check failed.
pub open spec fn has_failure(checks: Seq<CheckView>) -> bool {
    exists|i: int|
        0 <= i < checks.len() && (#[trigger] checks[i]).required && checks[i].status
            == DoctorStatus::Failed
}

/// Whether a required check failed.
pub fn doctor_has_required_failure(checks: &Vec<DoctorCheck>) -> (r: bool)
    ensures
        r == has_failure(checks.deep_view()),
{
    let ghost all = checks.deep_view();
    let mut i: usize = 0;
    while i < checks.len()
        invariant
            i <= checks@.len(),
            all == checks.deep_view(),
            forall|k: int|
                0 <= k < i ==> !((#[trigger] all[k]).required && all[k].status
                    == DoctorStatus::Failed),
        decreases checks@.len() - i,
    {
        assert(all[i as int] == checks@[i as int].deep_view());
        if checks[i].required && checks[i].status == DoctorStatus::Failed {
            assert(all[i as int].required && all[i as int].status == DoctorStatus::Failed);
            return true;
        }
        i += 1;
    }
    false
}

/// A tool that not every command needs.
#[derive(Clone, Copy, Debug, PartialEq, Eq, Structural)]
pub enum OptionalTool {
    Gh,
    Wrangler,
    Git,
    Sh,
    Secretlint,
}

/// What is checked next, after `op` itself.
#[derive(Clone, Copy, Debug, PartialEq, Eq, Structural)]
pub enum DoctorStep {
    SkippedAuth,
    OpAuth,
    OpAccounts,
    OpRunEnvironments,
    Tool(OptionalTool),
    McpServer,
    CredentialFiles,
}

/// The checks that do not need `op`.
pub open spec fn common_steps() -> Seq<DoctorStep> {
    seq![
        DoctorStep::Tool(OptionalTool::Gh),
        DoctorStep::Tool(OptionalTool::Wrangler),
        DoctorStep::Tool(OptionalTool::Git),
        DoctorStep::Tool(OptionalTool::Sh),
        DoctorStep::Tool(OptionalTool::Secretlint),
        DoctorStep::McpServer,
        DoctorStep::CredentialFiles,
    ]
}

/// The checks that follow that of `op`: without it, those that need it are skipped.
pub fn collect_doctor_steps(op_available: bool) -> (r: Vec<DoctorStep>)
    ensures
        r@ == (if op_available {
            seq![DoctorStep::OpAuth, DoctorStep::OpAccounts, DoctorStep::OpRunEnvironments]
        } else {
            seq![DoctorStep::SkippedAuth]
        }) + common_steps(),
{
    let mut steps: Vec<DoctorStep> = Vec::new();
    if op_available {
        steps.push(DoctorStep::OpAuth);
        steps.push(DoctorStep::OpAccounts);
        steps.push(DoctorStep::OpRunEnvironments);
    } else {
        steps.push(DoctorStep::SkippedAuth);
    }
    steps.push(DoctorStep::Tool(OptionalTool::Gh));
    steps.push(DoctorStep::Tool(OptionalTool::Wrangler));
    steps.push(DoctorStep::Tool(OptionalTool::Git));
    steps.push(DoctorStep::Tool(OptionalTool::Sh));
    steps.push(DoctorStep::Tool(OptionalTool::Secretlint));
    steps.push(DoctorStep::McpServer);
    steps.push(DoctorStep::CredentialFiles);
    steps
}

/// The check that stands for that of the sign-in where `op` is missing.
pub fn skipped_auth() -> (r: DoctorCheck)
    ensures
        r.deep_view() == failed_check("op auth"@, "skipped because op is not available"@),
{
    DoctorCheck::error("op auth", "skipped because op is not available".to_owned())
}

/// The command of a tool.
pub open spec fn tool_command(tool: OptionalTool) -> Seq<char> {
    match tool {
        OptionalTool::Gh => "gh"@,
        OptionalTool::Wrangler => "wrangler"@,
        OptionalTool::Git => "git"@,
        OptionalTool::Sh => "sh"@,
        OptionalTool::Secretlint => "secretlint"@,
    }
}

/// What a tool is for.
pub open spec fn tool_note(tool: OptionalTool) -> Seq<char> {
    match tool {
        OptionalTool::Gh => "needed by github-secret"@,
        OptionalTool::Wrangler => "needed by cloudflare-secret"@,
        OptionalTool::Git => "needed by migrate and note"@,
        OptionalTool::Sh => "needed by run"@,
        OptionalTool::Secretlint => "needed by doctor plaintext credential scan"@,
    }
}

impl OptionalTool {
    /// The command of the tool.
    pub fn command(self) -> (r: &'static str)
        ensures
            r@ == tool_command(self),
    {
        match self {
            OptionalTool::Gh => "gh",
            OptionalTool::Wrangler => "wrangler",
            OptionalTool::Git => "git",
            OptionalTool::Sh => "sh",
            OptionalTool::Secretlint => "secretlint",
        }
    }

    /// What the tool is for.
    pub fn note(self) -> (r: &'static str)
        ensures
            r@ == tool_note(self),
    {
        match self {
            OptionalTool::Gh => "needed by github-secret",
            OptionalTool::Wrangler => "needed by cloudflare-secret",
            OptionalTool::Git => "needed by migrate and note",
            OptionalTool::Sh => "needed by run",
            OptionalTool::Secretlint => "needed by doctor plaintext credential scan",
        }
    }
}

/// The first line with something on it, from `from` on.
pub open spec fn first_filled(lines: Seq<Seq<char>>, from: int) -> Option<Seq<char>>
    decreases lines.len() - from,
{
    if from < 0 || from >= lines.len() {
        None
    } else if text::trimmed(lines[from]).len() > 0 {
        Some(text::trimmed(lines[from]))
    } else {
        first_filled(lines, from + 1)
    }
}

/// The first line of output with something on it.
pub open spec fn output_line(output: Seq<char>) -> Seq<char> {
    match first_filled(text::lines_of(output), 0) {
        Some(line) => line,
        None => "no version output"@,
    }
}

/// The first line of output with something on it.
pub fn first_output_line(output: &str) -> (r: String)
    ensures
        r@ == output_line(output@),
{
    let lines = text::lines(output);
    let ghost all = seqs::texts(lines@);
    let mut i: usize = 0;
    while i < lines.len()
        invariant
            i <= lines@.len(),
            all == seqs::texts(lines@),
            all == text::lines_of(output@),
            first_filled(all, 0) == first_filled(all, i as int),
        decreases lines@.len() - i,
    {
        assert(all[i as int] == lines@[i as int]@);
        let line = text::trim(&lines[i]);
        if line.unicode_len() > 0 {
            return line.to_owned();
        }
        i += 1;
    }
    "no version output".to_owned()
}

/// A path, with the version that a tool printed.
pub open spec fn found_message(path: Seq<char>, stdout: Seq<char>) -> Seq<char> {
    path + " ("@ + output_line(stdout) + ")"@
}

/// A path, with the version that a tool printed.
fn build_found_message(path: &str, stdout: &str) -> (r: String)
    ensures
        r@ == found_message(path@, stdout@),
{
    path.to_owned().concat(" (").concat(&first_output_line(stdout)).concat(")")
}

/// What the search for a tool came to.
#[derive(Debug)]
pub enum ToolProbe {
    Missing,
    Broken(String),
    Found { path: String, stdout: String },
}

/// The check of a tool that is required.
pub fn check_required_cli_version(command: &str, probe: &ToolProbe) -> (r: Result<
    DoctorCheck,
    DoctorCheck,
>)
    ensures
        match *probe {
            ToolProbe::Missing => r matches Err(check) && check.deep_view() == failed_check(
                command@,
                "not found in PATH"@,
            ),
            ToolProbe::Broken(message) => r matches Err(check) && check.deep_view() == failed_check(
                command@,
                message@,
            ),
            ToolProbe::Found { path, stdout } => r matches Ok(check) && check.deep_view() == passed(
                command@,
                found_message(path@, stdout@),
                true,
            ),
        },
{
    match probe {
        ToolProbe::Missing => Err(DoctorCheck::error(command, "not found in PATH".to_owned())),
        ToolProbe::Broken(message) => Err(DoctorCheck::error(command, message.clone())),
        ToolProbe::Found { path, stdout } => Ok(
            DoctorCheck::ok(command, build_found_message(path, stdout), true),
        ),
    }
}

/// The check of a tool that is not required.
pub fn optional_cli_check(command: &str, note: &str, probe: &ToolProbe) -> (r: DoctorCheck)
    ensures
        r.deep_view() == (match *probe {
            ToolProbe::Missing => warned(command@, "not found in PATH ("@ + note@ + ")"@),
            ToolProbe::Broken(message) => warned(command@, message@ + " ("@ + note@ + ")"@),
            ToolProbe::Found { path, stdout } => passed(
                command@,
                found_message(path@, stdout@),
                false,
            ),
        }),
{
    match probe {
        ToolProbe::Missing => DoctorCheck::warn(
            command,
            "not found in PATH (".to_owned().concat(note).concat(")"),
        ),
        ToolProbe::Broken(message) => DoctorCheck::warn(
            command,
            message.clone().concat(" (").concat(note).concat(")"),
        ),
        ToolProbe::Found { path, stdout } => DoctorCheck::ok(
            command,
            build_found_message(path, stdout),
            false,
        ),
    }
}

/// A command with its arguments.
pub fn command_with_args(command: &str, args: &[String]) -> (r: String)
    ensures
        r@ == text::joined(seq![command@] + seqs::texts(args@), " "@),
{
    let mut words = seqs::no_texts();
    seqs::push_text(&mut words, command);
    seqs::push_texts(&mut words, args);
    assert(seqs::texts(words@) =~= seq![command@] + seqs::texts(args@));
    text::join(&words, " ")
}

/// What a command printed.
pub open spec fn printed_output(
    display: Seq<char>,
    success: bool,
    status: Seq<char>,
    stdout: Seq<u8>,
    stderr: Seq<u8>,
) -> Result<Seq<char>, Seq<char>> {
    if !success {
        let detail = text::trimmed(text::lossy(stderr));
        Err(
            "`"@ + display + "` failed: "@ + (if detail.len() == 0 {
                "exit status "@ + status
            } else {
                detail
            }),
        )
    } else if vstd::utf8::valid_utf8(stdout) {
        Ok(vstd::utf8::decode_utf8(stdout))
    } else {
        Err("`"@ + display + "` output was not valid UTF-8: "@ + text::utf8_refusal(stdout))
    }
}

/// What a command printed.
pub fn read_command_output(
    display: &str,
    success: bool,
    status: &str,
    stdout: &[u8],
    stderr: &[u8],
) -> (r: Result<String, String>)
    ensures
        match printed_output(display@, success, status@, stdout@, stderr@) {
            Ok(s) => r matches Ok(printed) && printed@ == s,
            Err(e) => r matches Err(message) && message@ == e,
        },
{
    if !success {
        let all = text::lossy_text(stderr);
        let stderr = text::trim(&all);
        let detail = if stderr.unicode_len() == 0 {
            "exit status ".to_owned().concat(status)
        } else {
            stderr.to_owned()
        };
        return Err("`".to_owned().concat(display).concat("` failed: ").concat(&detail));
    }
    match text::utf8_text(stdout) {
        Ok(printed) => Ok(printed.to_owned()),
        Err(e) => Err(
            "`".to_owned().concat(display).concat("` output was not valid UTF-8: ").concat(&e),
        ),
    }
}

/// What is said of a command that could not be started.
pub fn run_failure(display: &str, reason: &str) -> (r: String)
    ensures
        r@ == "failed to run `"@ + display@ + "`: "@ + reason@,
{
    "failed to run `".to_owned().concat(display).concat("`: ").concat(reason)
}

/// One text or else another.
pub open spec fn or_else(a: Option<Seq<char>>, b: Option<Seq<char>>) -> Option<Seq<char>> {
    if a is Some {
        a
    } else {
        b
    }
}

/// Who is signed in, from what `op whoami` says: the address and the account.
pub open spec fn whoami(j: JsonView) -> Seq<char> {
    let email = or_else(json::text_field(j, "email"@), json::text_field(j, "user_email"@));
    let account = or_else(
        or_else(json::text_field(j, "account_uuid"@), json::text_field(j, "account"@)),
        json::text_field(j, "url"@),
    );
    match (email, account) {
        (Some(e), Some(a)) => e + " ("@ + a + ")"@,
        (Some(e), None) => e,
        (None, Some(a)) => a,
        (None, None) => "signed in"@,
    }
}

/// Who is signed in, from what `op whoami` says.
pub fn summarize_whoami(value: &Json) -> (r: String)
    ensures
        r@ == whoami(value@),
{
    let email = match value.get_str("email") {
        Some(email) => Some(email),
        None => value.get_str("user_email"),
    };
    let account = match value.get_str("account_uuid") {
        Some(account) => Some(account),
        None => match value.get_str("account") {
            Some(account) => Some(account),
            None => value.get_str("url"),
        },
    };
    match (email, account) {
        (Some(e), Some(a)) => e.to_owned().concat(" (").concat(a).concat(")"),
        (Some(e), None) => e.to_owned(),
        (None, Some(a)) => a.to_owned(),
        (None, None) => "signed in".to_owned(),
    }
}

/// Who is signed in, where `op whoami` printed JSON.
pub fn summarize_op_whoami(stdout: &str) -> (r: Option<String>)
    ensures
        r.deep_view() == (match json::parsed(stdout@) {
            Ok(j) => Some(whoami(j)),
            Err(_) => None,
        }),
{
    match json::parse(stdout) {
        Ok(value) => Some(summarize_whoami(&value)),
        Err(_) => None,
    }
}

/// The check of the sign-in.
pub fn check_op_auth(outcome: &Result<String, String>) -> (r: DoctorCheck)
    ensures
        r.deep_view() == (match *outcome {
            Ok(stdout) => passed(
                "op auth"@,
                match json::parsed(stdout@) {
                    Ok(j) => whoami(j),
                    Err(_) => "signed in"@,
                },
                true,
            ),
            Err(e) => failed_check("op auth"@, e@),
        }),
{
    match outcome {
        Ok(stdout) => {
            let summary = match summarize_op_whoami(stdout) {
                Some(summary) => summary,
                None => "signed in".to_owned(),
            };
            DoctorCheck::ok("op auth", summary, true)
        },
        Err(e) => DoctorCheck::error("op auth", e.clone()),
    }
}

/// What is said of the accounts that `op` lists.
pub open spec fn accounts_message(count: Option<nat>) -> Seq<char> {
    match count {
        Some(n) => if n == 1 {
            "1 configured account"@
        } else {
            text::decimal(n) + " configured accounts"@
        },
        None => "account list available"@,
    }
}

/// How many accounts `op` lists, where it printed a list.
pub open spec fn account_count(stdout: Seq<char>) -> Option<nat> {
    match json::parsed(stdout) {
        Ok(j) => match json::items_of(j) {
            Some(items) => Some(items.len()),
            None => None,
        },
        Err(_) => None,
    }
}

/// What is said of the accounts that `op` lists.
pub fn count_message(count: Option<usize>) -> (r: String)
    ensures
        r@ == accounts_message(
            match count {
                Some(n) => Some(n as nat),
                None => None,
            },
        ),
{
    match count {
        Some(n) => if n == 1 {
            "1 configured account".to_owned()
        } else {
            text::to_decimal(n as u128).concat(" configured accounts")
        },
        None => "account list available".to_owned(),
    }
}

/// The check of the accounts.
pub fn check_op_accounts(outcome: &Result<String, String>) -> (r: DoctorCheck)
    ensures
        r.deep_view() == (match *outcome {
            Ok(stdout) => passed(
                "op accounts"@,
                accounts_message(account_count(stdout@)),
                false,
            ),
            Err(e) => warned("op accounts"@, e@),
        }),
{
    match outcome {
        Ok(stdout) => {
            let count = match json::parse(stdout) {
                Ok(value) => match value.as_array() {
                    Some(items) => {
                        assert(json::jsons(items@).len() == items@.len());
                        Some(items.len())
                    },
                    None => None,
                },
                Err(_) => None,
            };
            DoctorCheck::ok("op accounts", count_message(count), false)
        },
        Err(e) => DoctorCheck::warn("op accounts", e.clone()),
    }
}

/// What became of a command: it ended, with its output, or it did not.
#[derive(Debug)]
pub enum CommandOutcome {
    Ended { success: bool, stdout: Vec<u8>, stderr: Vec<u8> },
    Broken(String),
}

/// The check that `op run` takes Environments.
pub fn check_op_run_environments_support(outcome: &CommandOutcome) -> (r: DoctorCheck)
    ensures
        r.deep_view() == (match *outcome {
            CommandOutcome::Broken(e) => warned("op run environments"@, e@),
            CommandOutcome::Ended { success, stdout, stderr } => if !success {
                warned(
                    "op run environments"@,
                    "could not inspect `op run --help`: "@ + text::lossy(stderr@),
                )
            } else {
                match environment::flag_in(text::lossy(stdout@)) {
                    Some(flag) => passed(
                        "op run environments"@,
                        "supported via "@ + flag,
                        false,
                    ),
                    None => warned(
                        "op run environments"@,
                        "not exposed by this op CLI; item-backed opz run remains available"@,
                    ),
                }
            },
        }),
{
    match outcome {
        CommandOutcome::Broken(e) => DoctorCheck::warn("op run environments", e.clone()),
        CommandOutcome::Ended { success, stdout, stderr } => {
            if !*success {
                return DoctorCheck::warn(
                    "op run environments",
                    "could not inspect `op run --help`: ".to_owned().concat(
                        &text::lossy_text(stderr),
                    ),
                );
            }
            match environment::detect_environment_flag_from_help(&text::lossy_text(stdout)) {
                Some(flag) => DoctorCheck::ok(
                    "op run environments",
                    "supported via ".to_owned().concat(flag),
                    false,
                ),
                None => DoctorCheck::warn(
                    "op run environments",
                    "not exposed by this op CLI; item-backed opz run remains available".to_owned(),
                ),
            }
        },
    }
}

/// A file with plaintext credentials.
#[derive(Debug)]
pub struct CredentialFileFinding {
    pub path: String,
    pub plaintext_entries: usize,
}

/// A file, with how many entries it has.
pub open spec fn finding_text(finding: CredentialFileFinding) -> Seq<char> {
    finding.path@ + " ("@ + text::decimal(finding.plaintext_entries as nat) + " entr"@ + (if finding.plaintext_entries
        == 1 {
        "y"@
    } else {
        "ies"@
    }) + ")"@
}

/// At most five of the files.
pub open spec fn first_findings(findings: Seq<CredentialFileFinding>) -> Seq<Seq<char>> {
    Seq::new(
        if findings.len() < 5 {
            findings.len()
        } else {
            5
        },
        |i: int| finding_text(findings[i]),
    )
}

/// At most five of the files, with how many entries they have.
pub fn credential_finding_path_list(findings: &Vec<CredentialFileFinding>) -> (r: String)
    ensures
        r@ == text::joined(first_findings(findings@), ", "@),
{
    let ghost all = first_findings(findings@);
    let n: usize = if findings.len() < 5 {
        findings.len()
    } else {
        5
    };
    let mut parts = seqs::no_texts();
    let mut i: usize = 0;
    while i < n
        invariant
            i <= n <= findings@.len(),
            all == first_findings(findings@),
            n == all.len(),
            seqs::texts(parts@) == all.take(i as int),
        decreases n - i,
    {
        let finding = &findings[i];
        assert(all.take(i + 1) =~= all.take(i as int).push(finding_text(*finding)));
        let end = if finding.plaintext_entries == 1 {
            "y"
        } else {
            "ies"
        };
        let part = finding.path.clone().concat(" (").concat(
            &text::to_decimal(finding.plaintext_entries as u128),
        ).concat(" entr").concat(end).concat(")");
        seqs::push_string(&mut parts, part);
        i += 1;
    }
    text::join(&parts, ", ")
}

/// The advice about files with plaintext credentials.
pub open spec fn advice(findings: Seq<CredentialFileFinding>) -> Seq<char> {
    "found plaintext credential env file(s): "@ + text::joined(first_findings(findings), ", "@)
        + "; prefer `opz run -- <COMMAND>` without an env file after `opz migrate --new`, and generate files only with `opz gen --env-file <FILE> <ITEM>` when required"@
}

/// The advice about files with plaintext credentials.
pub fn credential_file_advice(findings: &Vec<CredentialFileFinding>) -> (r: String)
    ensures
        r@ == advice(findings@),
{
    "found plaintext credential env file(s): ".to_owned().concat(
        &credential_finding_path_list(findings),
    ).concat(
        "; prefer `opz run -- <COMMAND>` without an env file after `opz migrate --new`, and generate files only with `opz gen --env-file <FILE> <ITEM>` when required",
    )
}

/// The advice that goes with a command, where there are files with plaintext credentials.
pub fn command_advice(command: &str, findings: &Vec<CredentialFileFinding>) -> (r: Option<String>)
    ensures
        r.deep_view() == (if findings@.len() == 0 {
            None
        } else {
            Some(
                "Advice: found plaintext credential env file(s) while running `"@ + command@
                    + "`: "@ + text::joined(first_findings(findings@), ", "@)
                    + ". Prefer `opz run -- <COMMAND>` without an env file after `opz migrate --new`; use `opz gen --env-file <FILE> <ITEM>` only when a tool requires op:// references."@,
            )
        }),
{
    if findings.len() == 0 {
        return None;
    }
    Some(
        "Advice: found plaintext credential env file(s) while running `".to_owned().concat(
            command,
        ).concat("`: ").concat(&credential_finding_path_list(findings)).concat(
            ". Prefer `opz run -- <COMMAND>` without an env file after `opz migrate --new`; use `opz gen --env-file <FILE> <ITEM>` only when a tool requires op:// references.",
        ),
    )
}

/// What `secretlint` said of files.
#[derive(Clone, Copy, Debug, PartialEq, Eq, Structural)]
pub enum SecretlintOutcome {
    Clean,
    Findings,
}

/// What `secretlint` said of files, from how it ended.
pub fn secretlint_outcome(code: Option<i32>, status: &str, stderr: &[u8]) -> (r: Result<
    SecretlintOutcome,
    String,
>)
    ensures
        if code == Some(0i32) {
            r == Ok::<SecretlintOutcome, String>(SecretlintOutcome::Clean)
        } else if code == Some(1i32) {
            r == Ok::<SecretlintOutcome, String>(SecretlintOutcome::Findings)
        } else {
            let detail = text::trimmed(text::lossy(stderr@));
            r matches Err(e) && e@ == (if detail.len() == 0 {
                "secretlint failed with status "@ + status@
            } else {
                "secretlint failed: "@ + detail
            })
        },
{
    match code {
        Some(0) => Ok(SecretlintOutcome::Clean),
        Some(1) => Ok(SecretlintOutcome::Findings),
        _ => {
            let all = text::lossy_text(stderr);
            let detail = text::trim(&all);
            if detail.unicode_len() == 0 {
                Err("secretlint failed with status ".to_owned().concat(status))
            } else {
                Err("secretlint failed: ".to_owned().concat(detail))
            }
        },
    }
}

/// What the scan for files with plaintext credentials came to.
#[derive(Debug)]
pub enum ScanOutcome {
    Broken(String),
    Scanned { findings: Vec<CredentialFileFinding>, lint: Option<Result<SecretlintOutcome, String>> },
}

/// The check of files with plaintext credentials.
pub open spec fn files_check(scan: ScanOutcome) -> CheckView {
    match scan {
        ScanOutcome::Broken(e) => warned("credential files"@, e@),
        ScanOutcome::Scanned { findings, lint } => if findings@.len() == 0 {
            passed("credential files"@, "no plaintext env credential files found"@, false)
        } else {
            warned(
                "credential files"@,
                advice(findings@) + "; "@ + (match lint {
                    None => "secretlint not found in PATH"@,
                    Some(Ok(SecretlintOutcome::Clean)) =>
                        "secretlint found no configured rule violations"@,
                    Some(Ok(SecretlintOutcome::Findings)) =>
                        "secretlint reported possible plaintext secrets"@,
                    Some(Err(e)) => e@,
                }),
            )
        },
    }
}

/// The check of files with plaintext credentials.
pub fn check_credential_files(scan: &ScanOutcome) -> (r: DoctorCheck)
    ensures
        r.deep_view() == files_check(*scan),
{
    match scan {
        ScanOutcome::Broken(e) => DoctorCheck::warn("credential files", e.clone()),
        ScanOutcome::Scanned { findings, lint } => {
            if findings.len() == 0 {
                return DoctorCheck::ok(
                    "credential files",
                    "no plaintext env credential files found".to_owned(),
                    false,
                );
            }
            let detail = match lint {
                None => "secretlint not found in PATH".to_owned(),
                Some(Ok(SecretlintOutcome::Clean)) => {
                    "secretlint found no configured rule violations".to_owned()
                },
                Some(Ok(SecretlintOutcome::Findings)) => {
                    "secretlint reported possible plaintext secrets".to_owned()
                },
                Some(Err(e)) => e.clone(),
            };
            DoctorCheck::warn(
                "credential files",
                credential_file_advice(findings).concat("; ").concat(&detail),
            )
        },
    }
}

/// The directory that `git rev-parse` printed, where it printed one.
pub fn read_scan_root(stdout: &[u8]) -> (r: Result<Option<String>, Failure>)
    ensures
        if !vstd::utf8::valid_utf8(stdout@) {
            r matches Err(e) && e@ == seq![
                "git rev-parse output was not valid UTF-8"@,
                text::utf8_refusal(stdout@),
            ]
        } else {
            let root = text::trimmed(vstd::utf8::decode_utf8(stdout@));
            r matches Ok(found) && found.deep_view() == (if root.len() == 0 {
                None
            } else {
                Some(root)
            })
        },
{
    match text::utf8_text(stdout) {
        Err(e) => {
            let ghost reason = e@;
            let failure = Failure::new(e).context(
                "git rev-parse output was not valid UTF-8".to_owned(),
            );
            assert(failure@ =~= seq!["git rev-parse output was not valid UTF-8"@, reason]);
            Err(failure)
        },
        Ok(printed) => {
            let root = text::trim(printed);
            if root.unicode_len() == 0 {
                Ok(None)
            } else {
                Ok(Some(root.to_owned()))
            }
        },
    }
}

/// Whether a directory is left out of the scan.
pub open spec fn is_skipped(name: Seq<char>) -> bool {
    name == ".git"@ || name == "target"@ || name == "node_modules"@ || name == ".cache"@ || name
        == "dist"@ || name == "build"@
}

/// Whether a directory is left out of the scan.
pub fn should_skip_scan_dir(name: &str) -> (r: bool)
    ensures
        r == is_skipped(name@),
{
    text::same(name, ".git") || text::same(name, "target") || text::same(name, "node_modules")
        || text::same(name, ".cache") || text::same(name, "dist") || text::same(name, "build")
}

/// Whether a file is an example or a copy.
pub open spec fn is_example(name: Seq<char>) -> bool {
    let lower = text::lowered(name);
    text::ends(lower, ".example"@) || text::ends(lower, ".sample"@) || text::ends(
        lower,
        ".template"@,
    ) || text::ends(lower, ".bak"@) || text::ends(lower, ".old"@)
}

/// Whether a file is an example or a copy.
pub fn is_example_credential_env_file_name(name: &str) -> (r: bool)
    ensures
        r == is_example(name@),
{
    let lower = text::to_ascii_lowercase(name);
    text::ends_with(&lower, ".example") || text::ends_with(&lower, ".sample") || text::ends_with(
        &lower,
        ".template",
    ) || text::ends_with(&lower, ".bak") || text::ends_with(&lower, ".old")
}

/// Whether a file is one that may hold credentials.
pub open spec fn is_env_file(name: Seq<char>) -> bool {
    !is_example(name) && (name == ".env"@ || text::begins(name, ".env."@) || text::ends(
        name,
        ".env"@,
    ) || text::holds(name, ".env."@))
}

/// Whether a file is one that may hold credentials.
pub fn is_credential_env_file_name(name: &str) -> (r: bool)
    ensures
        r == is_env_file(name@),
{
    if is_example_credential_env_file_name(name) {
        return false;
    }
    text::same(name, ".env") || text::starts_with(name, ".env.") || text::ends_with(name, ".env")
        || text::contains(name, ".env.")
}

/// Where a file goes among others that are in the order of their paths: after all that it does not
/// come before.
pub open spec fn finding_place(
    findings: Seq<CredentialFileFinding>,
    one: CredentialFileFinding,
    windows: bool,
    from: int,
) -> int
    decreases findings.len() - from,
{
    if from < 0 || from >= findings.len() || finding_before(one, findings[from], windows) {
        from
    } else {
        finding_place(findings, one, windows, from + 1)
    }
}

/// Whether a file comes before another: by its path.
pub open spec fn finding_before(
    a: CredentialFileFinding,
    b: CredentialFileFinding,
    windows: bool,
) -> bool {
    paths::path_before(paths::path_parts(a.path@, windows), paths::path_parts(b.path@, windows))
}

/// Files in the order of their paths.
pub open spec fn sorted_findings(findings: Seq<CredentialFileFinding>, windows: bool) -> Seq<
    CredentialFileFinding,
>
    decreases findings.len(),
{
    if findings.len() == 0 {
        findings
    } else {
        let before = sorted_findings(findings.drop_last(), windows);
        before.insert(finding_place(before, findings.last(), windows, 0), findings.last())
    }
}

/// Files in the order of their paths.
pub fn sort_findings(findings: Vec<CredentialFileFinding>, windows: bool) -> (r: Vec<
    CredentialFileFinding,
>)
    ensures
        r@ == sorted_findings(findings@, windows),
{
    let ghost all = findings@;
    let mut rest = findings;
    let mut done: Vec<CredentialFileFinding> = Vec::new();
    let ghost mut n: int = 0;
    assert(all.take(0) =~= Seq::<CredentialFileFinding>::empty());
    assert(all.skip(0) =~= all);
    while rest.len() > 0
        invariant
            0 <= n <= all.len(),
            rest@ == all.skip(n),
            done@ == sorted_findings(all.take(n), windows),
        decreases rest@.len(),
    {
        let one = rest.remove(0);
        proof {
            assert(one == all[n]);
            assert(rest@ =~= all.skip(n + 1));
            assert(all.take(n + 1).drop_last() =~= all.take(n));
        }
        let own = paths::split_path(&one.path, windows);
        let mut i: usize = 0;
        while i < done.len() && !paths::comes_first(
            &own,
            &paths::split_path(&done[i].path, windows),
        )
            invariant
                i <= done@.len(),
                paths::views(own@) == paths::path_parts(one.path@, windows),
                finding_place(done@, one, windows, 0) == finding_place(
                    done@,
                    one,
                    windows,
                    i as int,
                ),
            decreases done@.len() - i,
        {
            i += 1;
        }
        done.insert(i, one);
        proof {
            n = n + 1;
        }
    }
    assert(all.take(n) =~= all);
    done
}

/// The place of a file is one among the others.
proof fn lemma_finding_place(
    findings: Seq<CredentialFileFinding>,
    one: CredentialFileFinding,
    windows: bool,
    from: int,
)
    requires
        0 <= from <= findings.len(),
    ensures
        ({
            let at = finding_place(findings, one, windows, from);
            &&& from <= at <= findings.len()
            &&& forall|i: int|
                from <= i < at ==> !finding_before(one, #[trigger] findings[i], windows)
            &&& at < findings.len() ==> finding_before(one, findings[at], windows)
        }),
    decreases findings.len() - from,
{
    if from < findings.len() && !finding_before(one, findings[from], windows) {
        lemma_finding_place(findings, one, windows, from + 1);
    }
}

/// Sorted files are the files that there were, and none comes before an earlier one.
pub proof fn law_findings_in_order(findings: Seq<CredentialFileFinding>, windows: bool)
    ensures
        forall|i: int, j: int|
            0 <= i < j < sorted_findings(findings, windows).len() ==> !finding_before(
                #[trigger] sorted_findings(findings, windows)[j],
                #[trigger] sorted_findings(findings, windows)[i],
                windows,
            ),
        sorted_findings(findings, windows).to_multiset() == findings.to_multiset(),
    decreases findings.len(),
{
    broadcast use vstd::seq_lib::group_to_multiset_ensures;

    if findings.len() > 0 {
        let front = findings.drop_last();
        let one = findings.last();
        law_findings_in_order(front, windows);
        let before = sorted_findings(front, windows);
        let now = sorted_findings(findings, windows);
        let at = finding_place(before, one, windows, 0);
        lemma_finding_place(before, one, windows, 0);
        let own = paths::path_parts(one.path@, windows);
        assert forall|i: int, j: int| 0 <= i < j < now.len() implies !finding_before(
            #[trigger] now[j],
            #[trigger] now[i],
            windows,
        ) by {
            let a = if i < at { i } else { i - 1 };
            let b = if j < at { j } else { j - 1 };
            if i == at {
                assert(now[j] == before[b]);
                let other = paths::path_parts(before[b].path@, windows);
                let next = paths::path_parts(before[at].path@, windows);
                if paths::path_before(other, own) {
                    paths::lemma_path_transitive(other, own, next);
                    if at == b {
                        paths::lemma_path_irreflexive(other);
                    }
                }
            } else if j == at {
                assert(now[i] == before[a]);
            } else {
                assert(now[i] == before[a] && now[j] == before[b]);
            }
        }
        assert(findings =~= front.push(one));
        assert(before.insert(at, one).to_multiset() =~= before.to_multiset().insert(one));
        assert(front.push(one).to_multiset() =~= front.to_multiset().insert(one));
    }
}

} // verus!

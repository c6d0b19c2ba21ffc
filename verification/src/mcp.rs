//! Talking to the 1Password MCP server: requests, replies and what is read from them.

use vstd::prelude::*;
use vstd::string::*;

use crate::doctor;
use crate::doctor::DoctorCheck;
use crate::failure;
use crate::failure::Failure;
use crate::json;
use crate::json::{Json, JsonView};
use crate::process;
use crate::seqs;
use crate::text;

verus! {

broadcast use crate::seqs::group_seqs;

/// A request.
pub fn build_request(id: u64, method: &str, params: Json) -> (r: Json)
    ensures
        r@ == JsonView::object().with("jsonrpc"@, JsonView::Text("2.0"@)).with(
            "id"@,
            JsonView::Number(json::number_of(id)),
        ).with("method"@, JsonView::Text(method@)).with("params"@, params@),
{
    Json::object().with("jsonrpc", Json::text("2.0")).with("id", Json::number(id)).with(
        "method",
        Json::text(method),
    ).with("params", params)
}

/// A notification, which has no reply.
pub fn build_notification(method: &str, params: Json) -> (r: Json)
    ensures
        r@ == JsonView::object().with("jsonrpc"@, JsonView::Text("2.0"@)).with(
            "method"@,
            JsonView::Text(method@),
        ).with("params"@, params@),
{
    Json::object().with("jsonrpc", Json::text("2.0")).with("method", Json::text(method)).with(
        "params",
        params,
    )
}

/// The parameters of the first request.
pub fn build_initialize_params(version: &str) -> (r: Json)
    ensures
        r@ == JsonView::object().with("protocolVersion"@, JsonView::Text("2025-06-18"@)).with(
            "capabilities"@,
            JsonView::object(),
        ).with(
            "clientInfo"@,
            JsonView::object().with("name"@, JsonView::Text("opz"@)).with(
                "version"@,
                JsonView::Text(version@),
            ),
        ),
{
    let client = Json::object().with("name", Json::text("opz")).with(
        "version",
        Json::text(version),
    );
    Json::object().with("protocolVersion", Json::text("2025-06-18")).with(
        "capabilities",
        Json::object(),
    ).with("clientInfo", client)
}

/// The parameters of a request to a tool.
pub fn build_tool_params(name: &str, arguments: Json) -> (r: Json)
    ensures
        r@ == JsonView::object().with("name"@, JsonView::Text(name@)).with(
            "arguments"@,
            arguments@,
        ),
{
    Json::object().with("name", Json::text(name)).with("arguments", arguments)
}

/// What is said of an error of the server: its code, not its text.
pub open spec fn error_summary(error: JsonView) -> Seq<char> {
    let code = match json::field(error, "code"@) {
        Some(code) => json::i64_of(code),
        None => None,
    };
    match code {
        Some(n) => "server returned error code "@ + text::signed_decimal(n as int),
        None => "server returned an error"@,
    }
}

/// What is said of an error of the server.
pub fn mcp_error_summary(error: &Json) -> (r: String)
    ensures
        r@ == error_summary(error@),
{
    let code = match error.get("code") {
        Some(code) => code.as_i64(),
        None => None,
    };
    match code {
        Some(n) => "server returned error code ".to_owned().concat(&text::to_signed_decimal(n)),
        None => "server returned an error".to_owned(),
    }
}

/// What a line of the server is.
#[derive(Debug)]
pub enum McpReply {
    Unrelated,
    Broken(String),
    Answer(Json),
}

/// The content of an `McpReply`.
pub enum ReplyView {
    Unrelated,
    Broken(Seq<char>),
    Answer(JsonView),
}

impl DeepView for McpReply {
    type V = ReplyView;

    open spec fn deep_view(&self) -> ReplyView {
        match self {
            McpReply::Unrelated => ReplyView::Unrelated,
            McpReply::Broken(s) => ReplyView::Broken(s@),
            McpReply::Answer(j) => ReplyView::Answer(j@),
        }
    }
}

/// The number under which a reply stands.
pub open spec fn reply_id(j: JsonView) -> Option<u64> {
    match json::field(j, "id"@) {
        Some(id) => json::u64_of(id),
        None => None,
    }
}

/// What a message of the server is, for a request with that number.
pub open spec fn judged(j: JsonView, id: u64, method: Seq<char>) -> ReplyView {
    if reply_id(j) != Some(id) {
        ReplyView::Unrelated
    } else {
        match (json::field(j, "error"@), json::field(j, "result"@)) {
            (Some(error), _) => ReplyView::Broken(
                "1Password MCP `"@ + method + "` failed: "@ + error_summary(error),
            ),
            (None, Some(result)) => ReplyView::Answer(result),
            (None, None) => ReplyView::Broken(
                "1Password MCP `"@ + method + "` response did not include result"@,
            ),
        }
    }
}

/// What a message of the server is, for a request with that number.
pub fn judge_reply(value: &Json, id: u64, method: &str) -> (r: McpReply)
    ensures
        r.deep_view() == judged(value@, id, method@),
{
    let own = match value.get("id") {
        Some(own) => own.as_u64(),
        None => None,
    };
    let same = match own {
        Some(n) => n == id,
        None => false,
    };
    if !same {
        return McpReply::Unrelated;
    }
    if let Some(error) = value.get("error") {
        return McpReply::Broken(
            "1Password MCP `".to_owned().concat(method).concat("` failed: ").concat(
                &mcp_error_summary(error),
            ),
        );
    }
    match value.get("result") {
        Some(result) => McpReply::Answer(result.clone()),
        None => McpReply::Broken(
            "1Password MCP `".to_owned().concat(method).concat("` response did not include result"),
        ),
    }
}

/// What a line of the server is, for a request with that number.
pub fn read_reply(line: &str, id: u64, method: &str) -> (r: McpReply)
    ensures
        r.deep_view() == (match json::parsed(text::trimmed(line@)) {
            Ok(j) => judged(j, id, method@),
            Err(_) => ReplyView::Broken(
                "1Password MCP response to `"@ + method@ + "` was not valid JSON-RPC"@,
            ),
        }),
{
    match json::parse(text::trim(line)) {
        Ok(value) => judge_reply(&value, id, method),
        Err(_) => McpReply::Broken(
            "1Password MCP response to `".to_owned().concat(method).concat(
                "` was not valid JSON-RPC",
            ),
        ),
    }
}

/// Why no line came.
#[derive(Clone, Copy, Debug, PartialEq, Eq, Structural)]
pub enum Silence {
    TimedOut,
    ReadFailed,
    Closed,
}

/// What is said where no line came.
pub fn silence_message(silence: Silence, method: &str) -> (r: String)
    ensures
        r@ == (match silence {
            Silence::TimedOut => "timed out waiting for 1Password MCP response to `"@ + method@
                + "`"@,
            Silence::ReadFailed => "failed to read 1Password MCP response to `"@ + method@ + "`"@,
            Silence::Closed => "1Password MCP server exited before responding to `"@ + method@
                + "`"@,
        }),
{
    match silence {
        Silence::TimedOut => "timed out waiting for 1Password MCP response to `".to_owned().concat(
            method,
        ).concat("`"),
        Silence::ReadFailed => "failed to read 1Password MCP response to `".to_owned().concat(
            method,
        ).concat("`"),
        Silence::Closed => "1Password MCP server exited before responding to `".to_owned().concat(
            method,
        ).concat("`"),
    }
}

/// What was seen in the error output of the server. The output itself is not kept.
#[derive(Clone, Copy, Debug, PartialEq, Eq, Structural)]
pub struct McpStderrHints {
    pub parent_verification_failed: bool,
    pub permission_denied: bool,
    pub developer_feature_disabled: bool,
}

/// What was seen after one more line.
pub open spec fn observed(hints: McpStderrHints, line: Seq<char>) -> McpStderrHints {
    let lower = text::lowered(line);
    McpStderrHints {
        parent_verification_failed: hints.parent_verification_failed || text::holds(
            lower,
            "parent process verification failed"@,
        ),
        permission_denied: hints.permission_denied || text::holds(lower, "permissiondenied"@)
            || text::holds(lower, "permission denied"@) || text::holds(lower, "binarypermissions"@),
        developer_feature_disabled: hints.developer_feature_disabled || (text::holds(
            lower,
            "mcp server"@,
        ) && (text::holds(lower, "disabled"@) || text::holds(lower, "not enabled"@))),
    }
}

/// The advice for what was seen.
pub open spec fn hint_text(hints: McpStderrHints) -> Option<Seq<char>> {
    if hints.parent_verification_failed || hints.permission_denied {
        Some(
            "1Password rejected the MCP client process. Use the bundled `1password-mcp` directly and verify the client executable permissions and ownership."@,
        )
    } else if hints.developer_feature_disabled {
        Some(
            "Enable Settings > Labs > MCP Server and Settings > Developer > Integrate with MCP clients in the 1Password app."@,
        )
    } else {
        None
    }
}

impl Default for McpStderrHints {
    /// Nothing was seen.
    fn default() -> (r: McpStderrHints)
        ensures
            !r.parent_verification_failed,
            !r.permission_denied,
            !r.developer_feature_disabled,
    {
        McpStderrHints {
            parent_verification_failed: false,
            permission_denied: false,
            developer_feature_disabled: false,
        }
    }
}

impl McpStderrHints {
    /// Takes note of a line.
    pub fn observe(&mut self, line: &str)
        ensures
            *final(self) == observed(*old(self), line@),
    {
        let lower = text::to_ascii_lowercase(line);
        self.parent_verification_failed = self.parent_verification_failed || text::contains(
            &lower,
            "parent process verification failed",
        );
        self.permission_denied = self.permission_denied || text::contains(
            &lower,
            "permissiondenied",
        ) || text::contains(&lower, "permission denied") || text::contains(
            &lower,
            "binarypermissions",
        );
        self.developer_feature_disabled = self.developer_feature_disabled || (text::contains(
            &lower,
            "mcp server",
        ) && (text::contains(&lower, "disabled") || text::contains(&lower, "not enabled")));
    }

    /// The advice for what was seen.
    pub fn user_hint(&self) -> (r: Option<&'static str>)
        ensures
            r.deep_view() == hint_text(*self),
    {
        if self.parent_verification_failed || self.permission_denied {
            Some(
                "1Password rejected the MCP client process. Use the bundled `1password-mcp` directly and verify the client executable permissions and ownership.",
            )
        } else if self.developer_feature_disabled {
            Some(
                "Enable Settings > Labs > MCP Server and Settings > Developer > Integrate with MCP clients in the 1Password app.",
            )
        } else {
            None
        }
    }
}

/// What is said of a failure, with the advice for what was seen.
pub fn protocol_error(message: &str, hints: &McpStderrHints) -> (r: Failure)
    ensures
        r@ == seq![
            match hint_text(*hints) {
                Some(hint) => message@ + ". "@ + hint,
                None => message@,
            },
        ],
{
    match hints.user_hint() {
        Some(hint) => Failure::new(message.to_owned().concat(". ").concat(hint)),
        None => Failure::new(message.to_owned()),
    }
}

/// What is said of a request to a tool that failed.
pub fn tool_failure(name: &str, cause: Failure) -> (r: Failure)
    ensures
        r@ == seq!["failed to call 1Password MCP tool `"@ + name@ + "`"@] + cause@,
{
    cause.context("failed to call 1Password MCP tool `".to_owned().concat(name).concat("`"))
}

/// Checks that a tool did not report an error.
pub fn check_tool_result(name: &str, result: &Json) -> (r: Result<(), Failure>)
    ensures
        failure::told_unit(r) == (if json::field(result@, "isError"@) == Some(
            JsonView::Bool(true),
        ) {
            Err(
                seq![
                    "1Password MCP tool `"@ + name@
                        + "` reported an error. Check the 1Password approval prompt and Developer settings."@,
                ],
            )
        } else {
            Ok(())
        }),
{
    let reported = match result.get("isError") {
        Some(flag) => flag.as_bool(),
        None => None,
    };
    if let Some(true) = reported {
        return Err(
            Failure::new(
                "1Password MCP tool `".to_owned().concat(name).concat(
                    "` reported an error. Check the 1Password approval prompt and Developer settings.",
                ),
            ),
        );
    }
    Ok(())
}

/// Where a text goes among others that are in order: before the first that it comes before.
pub open spec fn text_place(s: Seq<Seq<char>>, x: Seq<char>, from: int) -> int
    decreases s.len() - from,
{
    if from < 0 || from >= s.len() || text::before(x, s[from]) {
        from
    } else {
        text_place(s, x, from + 1)
    }
}

/// Texts in order, each once.
pub open spec fn sorted_texts(s: Seq<Seq<char>>) -> Seq<Seq<char>>
    decreases s.len(),
{
    if s.len() == 0 {
        s
    } else {
        let before = sorted_texts(s.drop_last());
        if before.contains(s.last()) {
            before
        } else {
            before.insert(text_place(before, s.last(), 0), s.last())
        }
    }
}

/// The place of a text is one among the others.
proof fn lemma_text_place(s: Seq<Seq<char>>, x: Seq<char>, from: int)
    requires
        0 <= from <= s.len(),
    ensures
        from <= text_place(s, x, from) <= s.len(),
        forall|i: int| from <= i < text_place(s, x, from) ==> !text::before(x, #[trigger] s[i]),
        text_place(s, x, from) < s.len() ==> text::before(x, s[text_place(s, x, from)]),
    decreases s.len() - from,
{
    if from < s.len() && !text::before(x, s[from]) {
        lemma_text_place(s, x, from + 1);
    }
}

/// Sorted texts are the texts that there were, in strictly ascending order.
pub proof fn law_sorted_texts(s: Seq<Seq<char>>, x: Seq<char>)
    ensures
        sorted_texts(s).contains(x) <==> s.contains(x),
        forall|i: int, j: int|
            0 <= i < j < sorted_texts(s).len() ==> text::before(
                #[trigger] sorted_texts(s)[i],
                #[trigger] sorted_texts(s)[j],
            ),
    decreases s.len(),
{
    if s.len() > 0 {
        let front = s.drop_last();
        let one = s.last();
        law_sorted_texts(front, x);
        law_sorted_texts(front, one);
        let before = sorted_texts(front);
        let now = sorted_texts(s);
        let at = text_place(before, one, 0);
        lemma_text_place(before, one, 0);
        assert(s =~= front.push(one));
        if s.contains(x) {
            let k = choose|k: int| 0 <= k < s.len() && s[k] == x;
            if k < front.len() {
                assert(front[k] == x);
            }
        }
        if front.contains(x) {
            let k = choose|k: int| 0 <= k < front.len() && front[k] == x;
            assert(s[k] == x);
        }
        assert(s[s.len() - 1] == one);
        if !before.contains(one) {
            assert(now[at] == one);
            if before.contains(x) {
                let k = choose|k: int| 0 <= k < before.len() && before[k] == x;
                assert(now[if k < at {
                    k
                } else {
                    k + 1
                }] == x);
            }
            if now.contains(x) {
                let k = choose|k: int| 0 <= k < now.len() && now[k] == x;
                if k < at {
                    assert(before[k] == x);
                } else if k > at {
                    assert(before[k - 1] == x);
                }
            }
            assert forall|i: int, j: int| 0 <= i < j < now.len() implies text::before(
                #[trigger] now[i],
                #[trigger] now[j],
            ) by {
                let a = if i < at { i } else { i - 1 };
                let b = if j < at { j } else { j - 1 };
                if i == at {
                    assert(now[j] == before[b]);
                    if at < b {
                        text::lemma_before_transitive(one, before[at], before[b]);
                    }
                } else if j == at {
                    assert(now[i] == before[a]);
                    text::lemma_before_total(before[a], one);
                    assert(before.contains(before[a]));
                } else {
                    assert(now[i] == before[a] && now[j] == before[b]);
                }
            }
        }
    }
}

/// Texts in order, each once.
pub fn sort_texts(values: &[String]) -> (r: Vec<String>)
    ensures
        seqs::texts(r@) == sorted_texts(seqs::texts(values@)),
{
    let ghost all = seqs::texts(values@);
    let mut r = seqs::no_texts();
    let mut i: usize = 0;
    assert(all.take(0) =~= Seq::<Seq<char>>::empty());
    while i < values.len()
        invariant
            i <= values@.len(),
            all == seqs::texts(values@),
            seqs::texts(r@) == sorted_texts(all.take(i as int)),
        decreases values@.len() - i,
    {
        let one = &values[i];
        proof {
            assert(all.take(i + 1).drop_last() == all.take(i as int));
            assert(all.take(i + 1).last() == one@);
        }
        if !seqs::has_text(&r, one) {
            let ghost before = seqs::texts(r@);
            let mut at: usize = 0;
            while at < r.len() && !text::comes_before(one, &r[at])
                invariant
                    at <= r@.len(),
                    before == seqs::texts(r@),
                    text_place(before, one@, 0) == text_place(before, one@, at as int),
                decreases r@.len() - at,
            {
                assert(before[at as int] == r@[at as int]@);
                at += 1;
            }
            proof {
                if at < r@.len() {
                    assert(before[at as int] == r@[at as int]@);
                }
            }
            r.insert(at, one.clone());
            assert(seqs::texts(r@) =~= before.insert(at as int, one@));
        }
        i += 1;
    }
    r
}

/// The names of the tools that a reply lists.
pub open spec fn tool_names(tools: Seq<JsonView>) -> Seq<Seq<char>>
    decreases tools.len(),
{
    if tools.len() == 0 {
        Seq::empty()
    } else {
        let before = tool_names(tools.drop_last());
        match json::text_field(tools.last(), "name"@) {
            Some(name) => before.push(name),
            None => before,
        }
    }
}

/// The tools of the server, in order and each once.
pub fn read_tools(result: &Json) -> (r: Result<Vec<String>, Failure>)
    ensures
        ({
            let names = match json::items_field(result@, "tools"@) {
                Some(tools) => sorted_texts(tool_names(tools)),
                None => Seq::empty(),
            };
            failure::told_texts(r) == (if names.len() == 0 {
                Err(seq!["1Password MCP `tools/list` response did not advertise any tools"@])
            } else {
                Ok(names)
            })
        }),
{
    let mut names = seqs::no_texts();
    if let Some(tools) = result.get_array("tools") {
        let ghost all = json::jsons(tools@);
        let mut i: usize = 0;
        while i < tools.len()
            invariant
                i <= tools@.len(),
                all == json::jsons(tools@),
                seqs::texts(names@) == tool_names(all.take(i as int)),
            decreases tools@.len() - i,
        {
            proof {
                assert(all.take(i + 1).drop_last() == all.take(i as int));
                assert(all.take(i + 1).last() == tools@[i as int]@);
            }
            if let Some(name) = tools[i].get_str("name") {
                seqs::push_text(&mut names, name);
            }
            i += 1;
        }
    }
    let sorted = sort_texts(&names);
    assert(seqs::texts(sorted@).len() == sorted@.len());
    if sorted.len() == 0 {
        Err(failure::fail("1Password MCP `tools/list` response did not advertise any tools"))
    } else {
        Ok(sorted)
    }
}

/// The command for the server that a variable gives.
pub open spec fn configured(value: Option<Seq<char>>) -> Option<Seq<char>> {
    match value {
        Some(v) => if text::trimmed(v).len() > 0 {
            Some(text::trimmed(v))
        } else {
            None
        },
        None => None,
    }
}

/// The command for the server that a variable gives.
pub fn configured_mcp_command(value: Option<&str>) -> (r: Option<String>)
    ensures
        r.deep_view() == configured(value.deep_view()),
{
    match value {
        Some(v) => {
            let command = text::trim(v);
            if command.unicode_len() > 0 {
                Some(command.to_owned())
            } else {
                None
            }
        },
        None => None,
    }
}

/// The command for the server.
pub open spec fn server_command(value: Option<Seq<char>>) -> Seq<char> {
    match configured(value) {
        Some(command) => command,
        None => "1password-mcp"@,
    }
}

/// The command for the server.
pub fn onepassword_mcp_command(value: Option<&str>) -> (r: String)
    ensures
        r@ == server_command(value.deep_view()),
{
    match configured_mcp_command(value) {
        Some(command) => command,
        None => "1password-mcp".to_owned(),
    }
}

/// The commands to look for, in order: the one that is configured, or the official one and then the
/// old one.
pub fn mcp_command_candidates(value: Option<&str>) -> (r: Vec<String>)
    ensures
        seqs::texts(r@) == (match configured(value.deep_view()) {
            Some(command) => seq![command],
            None => seq!["1password-mcp"@, "onepassword-mcp"@],
        }),
{
    let mut r = seqs::no_texts();
    match configured_mcp_command(value) {
        Some(command) => {
            let ghost own = command@;
            seqs::push_string(&mut r, command);
            assert(seqs::texts(r@) =~= seq![own]);
        },
        None => {
            seqs::push_text(&mut r, "1password-mcp");
            seqs::push_text(&mut r, "onepassword-mcp");
            assert(seqs::texts(r@) =~= seq!["1password-mcp"@, "onepassword-mcp"@]);
        },
    }
    r
}

/// What is said where the server is not found.
pub fn missing_server(value: Option<&str>) -> (r: Failure)
    ensures
        r@ == seq![
            "1Password MCP server command `"@ + server_command(value.deep_view())
                + "` was not found. Enable the local MCP server in the 1Password app, install a build that provides `1password-mcp`, or set OPZ_1PASSWORD_MCP_COMMAND to its executable path."@,
        ],
{
    Failure::new(
        "1Password MCP server command `".to_owned().concat(
            &onepassword_mcp_command(value),
        ).concat(
            "` was not found. Enable the local MCP server in the 1Password app, install a build that provides `1password-mcp`, or set OPZ_1PASSWORD_MCP_COMMAND to its executable path.",
        ),
    )
}

/// How long to wait for the server: half a minute, if nothing else is given.
pub fn mcp_command_timeout(value: Option<&str>) -> (r: u64)
    ensures
        r == process::seconds(value.deep_view(), 30),
        r > 0,
{
    process::timeout_seconds(value, 30)
}

/// The check of the server: where it was found, and as which of the candidates.
pub fn check_onepassword_mcp_server(value: Option<&str>, found: Option<(&str, usize)>) -> (r:
    DoctorCheck)
    ensures
        r.deep_view() == (match found {
            Some((path, candidate)) => doctor::passed(
                "1Password MCP"@,
                if configured(value.deep_view()) is Some {
                    path@ + " (configured by OPZ_1PASSWORD_MCP_COMMAND)"@
                } else if candidate > 0 {
                    path@
                        + " (legacy `onepassword-mcp` fallback; prefer `1password-mcp`)"@
                } else {
                    path@
                },
                false,
            ),
            None => doctor::warned(
                "1Password MCP"@,
                "`"@ + server_command(value.deep_view())
                    + "` not found in PATH; enable the local MCP server in 1Password or set OPZ_1PASSWORD_MCP_COMMAND"@,
            ),
        }),
{
    match found {
        Some((path, candidate)) => {
            let detail = if configured_mcp_command(value).is_some() {
                path.to_owned().concat(" (configured by OPZ_1PASSWORD_MCP_COMMAND)")
            } else if candidate > 0 {
                path.to_owned().concat(
                    " (legacy `onepassword-mcp` fallback; prefer `1password-mcp`)",
                )
            } else {
                path.to_owned()
            };
            DoctorCheck::ok("1Password MCP", detail, false)
        },
        None => DoctorCheck::warn(
            "1Password MCP",
            "`".to_owned().concat(&onepassword_mcp_command(value)).concat(
                "` not found in PATH; enable the local MCP server in 1Password or set OPZ_1PASSWORD_MCP_COMMAND",
            ),
        ),
    }
}

} // verus!

use opz::json;
use opz::json::Json;
use opz::mcp::{
    build_initialize_params, build_notification, build_request, build_tool_params,
    check_onepassword_mcp_server, check_tool_result, configured_mcp_command, mcp_command_candidates,
    mcp_command_timeout, mcp_error_summary, missing_server, onepassword_mcp_command,
    protocol_error, read_reply, read_tools, silence_message, sort_texts, tool_failure, McpReply,
    McpStderrHints, Silence,
};
use opz::failure::Failure;
use opz::mcp_environment::{
    begin, check_added_names, extract_environment_records, extract_first_string_for_keys,
    extract_mount_paths, extract_variable_names, mcp_result_values, proceed,
    McpEnvironmentAction, McpTurn,
};

fn parse(text: &str) -> Json {
    json::parse(text).unwrap()
}

fn texts(values: &[&str]) -> Vec<String> {
    values.iter().map(|value| value.to_string()).collect()
}

struct Calls {
    calls: Vec<(String, String)>,
}

fn run(
    account: Option<&str>,
    action: McpEnvironmentAction,
    replies: &[&str],
) -> (Result<String, Failure>, Calls) {
    let mut calls = Calls { calls: Vec::new() };
    let mut next = replies.iter();
    let mut turn = begin(account, action);
    loop {
        match turn {
            McpTurn::ListTools => panic!("no list of tools was asked for"),
            McpTurn::Done(output) => return (Ok(output), calls),
            McpTurn::Call { tool, arguments, then_await } => {
                calls.calls.push((tool, arguments.print()));
                let reply = parse(next.next().expect("a reply"));
                match proceed(then_await, &reply) {
                    Ok(following) => turn = following,
                    Err(failure) => return (Err(failure), calls),
                }
            }
        }
    }
}

#[test]
fn test_environment_list_uses_account_without_authentication() {
    let (output, client) = run(
        Some("A1"),
        McpEnvironmentAction::List,
        &[r#"{"structuredContent": {"environments": [
            {"id": "env2", "name": "staging"},
            {"environmentId": "env1", "environmentName": "dev"}
        ]}}"#],
    );
    assert_eq!(output.unwrap(), "env1\tdev\nenv2\tstaging\n");
    assert_eq!(client.calls.len(), 1);
    assert_eq!(client.calls[0].0, "list_environments");
    assert_eq!(client.calls[0].1, r#"{"accountId":"A1"}"#);
}

#[test]
fn test_environment_variables_authenticates_and_lists_names_only() {
    let (output, client) = run(
        None,
        McpEnvironmentAction::Variables { environment: "dev".to_string() },
        &[
            r#"{"structuredContent": {"accountId": "A1"}}"#,
            r#"{"structuredContent": {"environments": [{"id": "env1", "name": "dev"}]}}"#,
            r#"{"structuredContent": {"variables": [
                {"name": "API_TOKEN", "value": "super-secret-value"},
                {"variableName": "DB_URL"}
            ]}}"#,
        ],
    );
    let output = output.unwrap();
    assert_eq!(output, "API_TOKEN\nDB_URL\n");
    assert!(!output.contains("super-secret-value"));
    assert_eq!(
        client.calls.iter().map(|call| call.0.as_str()).collect::<Vec<_>>(),
        vec!["authenticate", "list_environments", "list_variables"]
    );
}

#[test]
fn test_environment_mount_resolves_by_id_and_prints_mount_path() {
    let (output, client) = run(
        Some("A1"),
        McpEnvironmentAction::Mount {
            environment: "env1".to_string(),
            path: ".env.local".to_string(),
        },
        &[
            r#"{"structuredContent": {"environments": [{"id": "env1", "name": "dev"}]}}"#,
            r#"{"structuredContent": {"mountPath": ".env.local"}}"#,
        ],
    );
    assert_eq!(output.unwrap(), ".env.local\n");
    assert_eq!(client.calls[1].0, "create_local_env_file");
    let arguments = parse(&client.calls[1].1);
    assert_eq!(arguments.get_str("environmentName"), Some("dev"));
    assert_eq!(arguments.get_str("mountPath"), Some(".env.local"));
}

#[test]
fn test_environment_resolve_rejects_ambiguous_names() {
    let (output, _) = run(
        Some("A1"),
        McpEnvironmentAction::Mounts { environment: "dev".to_string() },
        &[r#"{"structuredContent": {"environments": [
            {"id": "env1", "name": "dev"},
            {"id": "env2", "name": "dev"}
        ]}}"#],
    );
    let err = output.unwrap_err();
    assert!(err.to_string().contains("Multiple 1Password Environments"));
}

#[test]
fn test_mcp_text_json_content_is_parsed() {
    let result = parse(
        r#"{"content": [
            {"type": "text", "text": "{\"accountId\":\"A1\",\"environments\":[{\"id\":\"env1\",\"name\":\"dev\"}]}"}
        ]}"#,
    );
    let values = mcp_result_values(&result);
    assert_eq!(
        extract_first_string_for_keys(&values, &texts(&["accountId"])).as_deref(),
        Some("A1")
    );
    let records = extract_environment_records(&values);
    assert_eq!(records.len(), 1);
    assert_eq!(records[0].id, "env1");
    assert_eq!(records[0].name, "dev");
}

#[test]
fn stderr_hints_classify_parent_verification_without_echoing_server_output() {
    let mut hints = McpStderrHints::default();
    hints.observe(
        "Rejecting MCP connection: parent process verification failed: BinaryPermissions",
    );
    assert!(hints
        .user_hint()
        .unwrap()
        .contains("client executable permissions"));
}

#[test]
fn variables_are_added_without_values() {
    let (output, client) = run(
        Some("A1"),
        McpEnvironmentAction::Add {
            environment: "dev".to_string(),
            variables: texts(&["B", "A", "B"]),
        },
        &[
            r#"{"structuredContent": {"environments": [{"id": "env1", "name": "dev"}]}}"#,
            "{}",
        ],
    );
    assert_eq!(output.unwrap(), "B\nA\n");
    assert_eq!(
        client.calls[1].1,
        r#"{"accountId":"A1","environmentId":"env1","variables":[{"concealed":true,"name":"B","value":""},{"concealed":true,"name":"A","value":""}]}"#
    );
}

#[test]
fn names_of_added_variables_are_checked() {
    assert!(check_added_names(&texts(&["1A"]))
        .unwrap_err()
        .to_string()
        .starts_with("Invalid Environment variable name `1A`."));
    assert_eq!(
        check_added_names(&[]).unwrap_err().to_string(),
        "At least one Environment variable name is required"
    );
    assert_eq!(check_added_names(&texts(&["A", "A"])).unwrap(), texts(&["A"]));
}

#[test]
fn environments_are_created_and_renamed() {
    let (output, client) = run(
        Some("A1"),
        McpEnvironmentAction::Create { name: "dev".to_string() },
        &[r#"{"structuredContent": {"environmentId": "e1"}}"#],
    );
    assert_eq!(output.unwrap(), "e1\tdev\n");
    assert_eq!(client.calls[0].1, r#"{"accountId":"A1","environmentName":"dev"}"#);

    let (output, _) = run(
        Some("A1"),
        McpEnvironmentAction::Create { name: "dev".to_string() },
        &["{}"],
    );
    assert_eq!(
        output.unwrap_err().to_string(),
        "1Password MCP `create_environment` response did not include environment ID"
    );

    let (output, client) = run(
        Some("A1"),
        McpEnvironmentAction::Rename {
            environment: "dev".to_string(),
            new_name: "prod".to_string(),
        },
        &[r#"{"structuredContent": {"environments": [{"id": "e1", "name": "dev"}]}}"#, "{}"],
    );
    assert_eq!(output.unwrap(), "e1\tprod\n");
    assert_eq!(client.calls[1].0, "rename_environment");
}

#[test]
fn an_unknown_environment_is_reported() {
    let (output, _) = run(
        Some("A1"),
        McpEnvironmentAction::Variables { environment: "x".to_string() },
        &["{}"],
    );
    assert_eq!(
        output.unwrap_err().to_string(),
        "No 1Password Environment matched `x` by exact ID or name"
    );
    let (output, _) = run(None, McpEnvironmentAction::List, &["{}"]);
    assert_eq!(
        output.unwrap_err().to_string(),
        "1Password MCP authenticate response did not include accountId"
    );
    assert!(matches!(begin(None, McpEnvironmentAction::Tools), McpTurn::ListTools));
}

#[test]
fn mounts_fall_back_to_the_path_that_was_asked_for() {
    let (output, _) = run(
        Some("A1"),
        McpEnvironmentAction::Mount { environment: "dev".to_string(), path: ".env".to_string() },
        &[r#"{"structuredContent": {"environments": [{"id": "e1", "name": "dev"}]}}"#, "{}"],
    );
    assert_eq!(output.unwrap(), ".env\n");
    let values = vec![parse(r#"{"mounts":["b","a"],"x":{"path":"a"}}"#)];
    assert_eq!(extract_mount_paths(&values), texts(&["a", "b"]));
    let names = vec![parse(r#"["Z",{"name":"A"}]"#)];
    assert_eq!(extract_variable_names(&names), texts(&["A", "Z"]));
}

#[test]
fn requests_and_replies() {
    assert_eq!(
        build_request(7, "tools/list", Json::object()).print(),
        r#"{"id":7,"jsonrpc":"2.0","method":"tools/list","params":{}}"#
    );
    assert_eq!(
        build_notification("initialized", Json::object()).print(),
        r#"{"jsonrpc":"2.0","method":"initialized","params":{}}"#
    );
    assert_eq!(
        build_tool_params("t", Json::object()).print(),
        r#"{"arguments":{},"name":"t"}"#
    );
    assert!(build_initialize_params("1.0").print().contains("\"version\":\"1.0\""));
    assert!(matches!(
        read_reply(r#"{"id":7,"result":{"a":1}}"#, 7, "m"),
        McpReply::Answer(value) if value.print() == r#"{"a":1}"#
    ));
    assert!(matches!(read_reply(r#"{"id":8,"result":{}}"#, 7, "m"), McpReply::Unrelated));
    assert!(matches!(
        read_reply(r#"{"id":7,"error":{"code":-32000,"message":"secret"}}"#, 7, "m"),
        McpReply::Broken(message) if message.contains("-32000") && !message.contains("secret")
    ));
    assert_eq!(
        mcp_error_summary(&parse(r#"{"code":5}"#)),
        "server returned error code 5"
    );
    assert_eq!(mcp_error_summary(&parse("{}")), "server returned an error");
}

#[test]
fn tools_and_failures() {
    assert_eq!(
        read_tools(&parse(r#"{"tools":[{"name":"b"},{"name":"a"}]}"#)).unwrap(),
        texts(&["a", "b"])
    );
    assert!(check_tool_result("t", &parse(r#"{"isError":true}"#)).is_err());
    assert!(check_tool_result("t", &parse("{}")).is_ok());
    assert_eq!(
        tool_failure("t", Failure::new("cause".to_string())).to_string(),
        "failed to call 1Password MCP tool `t`"
    );
    let hints = McpStderrHints::default();
    assert!(hints.user_hint().is_none());
    assert!(protocol_error("broken", &hints).to_string().contains("broken"));
    assert!(silence_message(Silence::TimedOut, "m").contains('m'));
    assert_eq!(sort_texts(&texts(&["b", "a", "b"])), texts(&["a", "b"]));
}

#[test]
fn the_server_is_looked_for_under_its_names() {
    assert_eq!(configured_mcp_command(Some(" ")), None);
    assert_eq!(configured_mcp_command(Some("x")).as_deref(), Some("x"));
    assert_eq!(onepassword_mcp_command(Some("x")), "x");
    assert_eq!(mcp_command_candidates(Some("x")), texts(&["x"]));
    assert!(mcp_command_candidates(None).contains(&"1password-mcp".to_string()));
    assert!(missing_server(None).to_string().contains("was not found"));
    assert_eq!(mcp_command_timeout(None), 30);
    let check = check_onepassword_mcp_server(None, None);
    assert!(check.message.contains("not found"));
}

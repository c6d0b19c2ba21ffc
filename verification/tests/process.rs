use opz::failure::Failure;
use opz::json;
use opz::map::StringMap;
use opz::process::{
    build_child_command, concise_json, expand_command, expand_vars, next_poll, op_command_timeout,
    op_display, op_failure, op_operation, parse_op_output, status_failure, timeout_failure,
    PollStep,
};
use opz::resolver::{
    desktop_sdk_account_from_env, desktop_sdk_account_from_list, desktop_sdk_enabled,
    is_op_timeout_error, legacy_autodetect_scan_enabled, should_fallback_to_op_read,
};

fn values(pairs: &[(&str, &str)]) -> StringMap<String> {
    let mut map = StringMap::empty_text();
    for (key, value) in pairs {
        map.insert_text(key.to_string(), value.to_string());
    }
    map
}

fn texts(values: &[&str]) -> Vec<String> {
    values.iter().map(|value| value.to_string()).collect()
}

#[test]
fn child_command_preserves_argument_boundaries() {
    let command = vec![
        "tool".to_string(),
        "two words".to_string(),
        "$UNCHANGED".to_string(),
    ];
    let child = build_child_command(&command, false).unwrap();
    assert_eq!(child[0], "sh");
    assert_eq!(
        child[1..],
        ["-c", "exec \"$@\"", "sh", "tool", "two words", "$UNCHANGED"]
    );
    let child = build_child_command(&command, true).unwrap();
    assert_eq!(child[0], "tool");
    assert_eq!(child[1..], ["two words", "$UNCHANGED"]);
}

#[test]
fn an_empty_command_is_refused() {
    assert_eq!(
        build_child_command(&[], false).unwrap_err().to_string(),
        "command must contain a program"
    );
}

#[test]
fn test_expand_vars_simple() {
    let env = values(&[("API_TOKEN", "secret123")]);
    assert_eq!(expand_vars("Bearer $API_TOKEN", &env), "Bearer secret123");
}

#[test]
fn test_expand_vars_braced() {
    let env = values(&[("HOST", "example.com")]);
    assert_eq!(
        expand_vars("https://${HOST}/api", &env),
        "https://example.com/api"
    );
}

#[test]
fn test_expand_vars_multiple() {
    let env = values(&[("USER", "alice"), ("HOST", "server.com")]);
    assert_eq!(expand_vars("$USER@$HOST", &env), "alice@server.com");
}

#[test]
fn test_expand_vars_unknown_var() {
    let env = values(&[]);
    assert_eq!(expand_vars("$HOME/dir", &env), "$HOME/dir");
    assert_eq!(expand_vars("$PATH", &env), "$PATH");
}

#[test]
fn test_expand_vars_mixed_known_unknown() {
    let env = values(&[("API_TOKEN", "secret")]);
    assert_eq!(
        expand_vars("Authorization: $API_TOKEN for $HOME", &env),
        "Authorization: secret for $HOME"
    );
}

#[test]
fn test_expand_vars_with_special_chars() {
    let env = values(&[("TOKEN", "a$b\"c`d")]);
    let result = expand_vars("$TOKEN", &env);
    assert_eq!(result, r#"a$b"c`d"#);
}

#[test]
fn test_expand_vars_empty_value() {
    let env = values(&[("EMPTY", "")]);
    assert_eq!(
        expand_vars("prefix$EMPTYsuffix", &env),
        "prefix$EMPTYsuffix"
    );
    assert_eq!(expand_vars("prefix${EMPTY}suffix", &env), "prefixsuffix");
    assert_eq!(expand_vars("$EMPTY", &env), "");
}

#[test]
fn test_expand_vars_partial_name() {
    let env = values(&[("API", "test")]);
    assert_eq!(expand_vars("$API_TOKEN", &env), "$API_TOKEN");
}

#[test]
fn test_expand_vars_no_vars() {
    let env = values(&[]);
    assert_eq!(expand_vars("hello world", &env), "hello world");
}

#[test]
fn test_expand_vars_consecutive_dollars() {
    let env = values(&[("A", "1"), ("B", "2")]);
    assert_eq!(expand_vars("$A$B", &env), "12");
}

#[test]
fn test_expand_vars_underscore_in_name() {
    let env = values(&[("API_TOKEN", "secret")]);
    assert_eq!(expand_vars("$API_TOKEN", &env), "secret");
    assert_eq!(expand_vars("${API_TOKEN}", &env), "secret");
}

#[test]
fn unknown_variables_stay_as_they_are() {
    let env = values(&[("A", "1")]);
    assert_eq!(expand_vars("${UNKNOWN}/$A", &env), "${UNKNOWN}/1");
    assert_eq!(
        expand_command(&texts(&["run", "$A", "$B"]), &env),
        texts(&["run", "1", "$B"])
    );
}

#[test]
fn test_secret_resolution_timeout_does_not_fallback_to_op_read() {
    let err = Failure::new(
        "`op run` for batch secret resolution timed out after 30 seconds".to_string(),
    );

    assert!(!should_fallback_to_op_read(&err));
}

#[test]
fn test_secret_resolution_non_timeout_can_fallback_to_op_read() {
    let err = Failure::new("op run failed: unsupported option".to_string());

    assert!(should_fallback_to_op_read(&err));
}

#[test]
fn test_op_timeout_detection_checks_error_chain() {
    let err = Failure::new("`op read` timed out after 30 seconds".to_string())
        .context("resolve secret".to_string());

    assert!(is_op_timeout_error(&err));
}

#[test]
fn failures_of_op_tell_missing_items_from_others() {
    let get = texts(&["item", "get", "x"]);
    assert_eq!(
        op_failure(&get, b"\"x\" isn't an item", "exit status: 1").to_string(),
        "op item not found"
    );
    assert_eq!(
        op_failure(&get, b"denied", "exit status: 1").to_string(),
        "op error (exit status: 1)"
    );
    assert_eq!(
        op_failure(&texts(&["item", "list"]), b"not found", "exit status: 1").to_string(),
        "op error (exit status: 1)"
    );
}

#[test]
fn commands_of_op_are_shown() {
    assert_eq!(op_operation(&texts(&["item", "get", "x"])), "item get");
    assert_eq!(op_display(&texts(&["item", "get"])), "`op item get`");
    assert_eq!(status_failure("op run failed with status: ", "1").to_string(), "op run failed with status: 1");
}

#[test]
fn output_of_op_is_json() {
    assert_eq!(parse_op_output(b"{\"a\":1}").unwrap().print(), "{\"a\":1}");
    assert_eq!(
        parse_op_output(b"oops").unwrap_err().to_string(),
        "failed to parse op JSON output"
    );
}

#[test]
fn commands_are_polled_until_their_time_is_over() {
    assert_eq!(next_poll(true, 0, 1), PollStep::Collect);
    assert_eq!(next_poll(false, 999, 1), PollStep::Wait);
    assert_eq!(next_poll(false, 1000, 1), PollStep::Kill);
    assert!(timeout_failure("`op`", 30)
        .to_string()
        .starts_with("`op` timed out after 30 seconds."));
    assert!(is_op_timeout_error(&timeout_failure("`op`", 30)));
}

#[test]
fn timeouts_are_positive_numbers() {
    assert_eq!(op_command_timeout(None), 30);
    assert_eq!(op_command_timeout(Some("5")), 5);
    assert_eq!(op_command_timeout(Some("0")), 30);
    assert_eq!(op_command_timeout(Some("x")), 30);
    assert_eq!(op_command_timeout(Some("+7")), 7);
    assert_eq!(op_command_timeout(Some("18446744073709551616")), 30);
}

#[test]
fn long_json_is_shortened() {
    let short = json::parse("[1,2]").unwrap();
    assert_eq!(concise_json(&short), "[1,2]");
    let long = json::Json::text(&"x".repeat(600));
    assert!(concise_json(&long).len() < 520);
}

#[test]
fn switches_from_the_environment() {
    assert!(desktop_sdk_enabled(false, None));
    assert!(!desktop_sdk_enabled(true, None));
    assert!(!desktop_sdk_enabled(false, Some("off")));
    assert!(desktop_sdk_enabled(false, Some("Off")));
    assert!(legacy_autodetect_scan_enabled(Some("1")));
    assert!(!legacy_autodetect_scan_enabled(Some("0")));
    assert_eq!(desktop_sdk_account_from_env(Some("  A1 ")).as_deref(), Some("A1"));
    assert_eq!(desktop_sdk_account_from_env(Some("  ")), None);
}

#[test]
fn an_account_is_taken_where_there_is_one() {
    let one = json::parse(r#"[{"account_uuid":"A1"}]"#).unwrap();
    assert_eq!(desktop_sdk_account_from_list(&one).as_deref(), Some("A1"));
    let two = json::parse(r#"[{"account_uuid":"A1"},{"account_uuid":"A2"}]"#).unwrap();
    assert_eq!(desktop_sdk_account_from_list(&two), None);
}

use opz::json;
use opz::json::Json;
use opz::sdk_bridge::{
    bridge_failure, bridge_silence, bridge_success, build_bridge_request, needs_client,
    read_bridge_line, read_bridge_operation, read_bridge_response, sdk_bridge_timeout,
    BridgeOperation, BridgeRequest, BridgeSilence, SdkBridge,
};

fn parse(text: &str) -> Json {
    json::parse(text).unwrap()
}

#[test]
fn sdk_bridge_timeout_has_safe_default() {
    assert_eq!(sdk_bridge_timeout(None), 10);
    assert_eq!(sdk_bridge_timeout(Some("3")), 3);
    assert_eq!(sdk_bridge_timeout(Some("0")), 10);
}

#[test]
fn bridge_failure_never_contains_upstream_details() {
    assert_eq!(bridge_failure(42), "{\"id\":42,\"ok\":false}\n");
}

#[test]
fn requests_are_read_back() {
    let line = build_bridge_request(5, "A1", "vaults_list", Json::object()).unwrap();
    match read_bridge_line(&line) {
        BridgeRequest::Serve { id, account, operation, parameters } => {
            assert_eq!(id, 5);
            assert_eq!(account, "A1");
            assert_eq!(operation, "vaults_list");
            assert_eq!(parameters.print(), "{}");
        }
        _ => panic!("expected a request"),
    }
    assert!(matches!(read_bridge_line("oops"), BridgeRequest::Stop));
    assert!(matches!(
        read_bridge_line(r#"{"id":3,"account":"","operation":"x"}"#),
        BridgeRequest::Refuse { id: 3 }
    ));
    assert!(matches!(
        read_bridge_line(r#"{"account":"a"}"#),
        BridgeRequest::Refuse { id: 0 }
    ));
}

#[test]
fn replies_are_read_back() {
    let line = bridge_success(5, parse(r#"{"a":[1]}"#));
    assert_eq!(line, "{\"id\":5,\"ok\":true,\"value\":{\"a\":[1]}}\n");
    assert_eq!(read_bridge_response(&line, 5).unwrap().print(), r#"{"a":[1]}"#);
    assert_eq!(
        read_bridge_response(&line, 6).unwrap_err().to_string(),
        "SDK bridge response ID did not match request"
    );
    assert_eq!(
        read_bridge_response(&bridge_failure(5), 5).unwrap_err().to_string(),
        "1Password Desktop SDK bridge operation failed"
    );
    assert_eq!(
        read_bridge_response(r#"{"id":5,"ok":true}"#, 5).unwrap_err().to_string(),
        "SDK bridge response omitted value"
    );
    assert_eq!(
        read_bridge_response("oops", 5).unwrap_err().to_string(),
        "parse SDK bridge response"
    );
}

#[test]
fn long_messages_are_refused() {
    let long = Json::text(&"x".repeat(1024 * 1024));
    assert_eq!(
        build_bridge_request(1, "A", "items_put", long).unwrap_err().to_string(),
        "SDK bridge request exceeded the size limit"
    );
    assert!(matches!(read_bridge_line(&"x".repeat(1024 * 1024 + 1)), BridgeRequest::Stop));
    let value = Json::text(&"x".repeat(16 * 1024 * 1024));
    assert_eq!(bridge_success(7, value), "{\"id\":7,\"ok\":false}\n");
}

#[test]
fn operations_are_checked() {
    assert!(matches!(
        read_bridge_operation("vaults_list", &Json::object()),
        Ok(BridgeOperation::VaultsList)
    ));
    assert!(matches!(
        read_bridge_operation("items_get", &parse(r#"{"vault_id":"v","item_id":"i"}"#)),
        Ok(BridgeOperation::ItemsGet { vault_id, item_id }) if vault_id == "v" && item_id == "i"
    ));
    let message = |operation: &str, parameters: &str| {
        read_bridge_operation(operation, &parse(parameters)).unwrap_err().to_string()
    };
    assert_eq!(message("items_list", "{}"), "SDK bridge parameter was missing");
    assert_eq!(message("items_get_all", r#"{"vault_id":"v"}"#), "item_ids were missing");
    assert_eq!(
        message("items_get_all", r#"{"vault_id":"v","item_ids":[1]}"#),
        "item ID was invalid"
    );
    assert_eq!(message("items_put", "{}"), "item was missing");
    assert_eq!(message("secrets_resolve_all", "{}"), "references were missing");
    assert_eq!(
        message("secrets_resolve_all", r#"{"references":[null]}"#),
        "secret reference was invalid"
    );
    assert_eq!(message("other", "{}"), "unknown SDK bridge operation");
}

#[test]
fn one_failure_ends_the_bridge() {
    let mut bridge = SdkBridge::new();
    assert_eq!(bridge.must_start().unwrap(), true);
    assert!(bridge.take_id().is_err());
    bridge.started();
    assert_eq!(bridge.must_start().unwrap(), false);
    assert_eq!(bridge.take_id().unwrap(), 1);
    assert_eq!(bridge.take_id().unwrap(), 2);
    assert_eq!(bridge.settle(true), false);
    assert_eq!(bridge.settle(false), true);
    assert_eq!(
        bridge.must_start().unwrap_err().to_string(),
        "1Password Desktop SDK bridge is disabled for this process"
    );
    let mut last = SdkBridge::Running { next_id: u64::MAX };
    assert_eq!(last.take_id().unwrap(), u64::MAX);
    assert_eq!(last.take_id().unwrap(), 1);
}

#[test]
fn clients_are_made_for_each_account() {
    assert!(needs_client(None, "a"));
    assert!(needs_client(Some("b"), "a"));
    assert!(!needs_client(Some("a"), "a"));
    assert_eq!(
        bridge_silence(BridgeSilence::Timeout, 10).to_string(),
        "1Password Desktop SDK bridge timed out after 10 seconds"
    );
    assert_eq!(
        bridge_silence(BridgeSilence::Disconnected, 10).to_string(),
        "1Password Desktop SDK bridge exited unexpectedly"
    );
}

#[test]
fn lines_are_read_back() {
    let nested = |depth: usize| {
        let text = format!("{}{}", "[".repeat(depth), "]".repeat(depth));
        json::parse(&text).unwrap()
    };
    let line = build_bridge_request(u64::MAX, "a\nb", "op", nested(126)).unwrap();
    assert!(!line.contains('\n'));
    match read_bridge_line(&line) {
        BridgeRequest::Serve { id, account, operation, parameters } => {
            assert_eq!(id, u64::MAX);
            assert_eq!(account, "a\nb");
            assert_eq!(operation, "op");
            assert_eq!(parameters.print(), nested(126).print());
        }
        _ => panic!("expected a request"),
    }
    let deep = build_bridge_request(1, "a", "op", nested(127)).unwrap();
    assert!(matches!(read_bridge_line(&deep), BridgeRequest::Stop));

    let value = json::parse(r#"{"k":[-9223372036854775808,18446744073709551615,"\u0000"]}"#).unwrap();
    let reply = bridge_success(7, value.clone());
    assert_eq!(read_bridge_response(&reply, 7).unwrap().print(), value.print());
    assert!(read_bridge_response(&reply, 8).is_err());
    assert_eq!(
        read_bridge_response(&bridge_failure(7), 7).unwrap_err().to_string(),
        "1Password Desktop SDK bridge operation failed"
    );
}

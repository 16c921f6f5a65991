use maestro::mcp_protocol::{
    dispatch_request, tool_call_decision, RpcDecision, ToolCallOutcome, METHOD_NOT_FOUND_CODE,
    TOOL_CALL_FAILED_CODE,
};

#[test]
fn test_notifications_get_no_response() {
    assert!(matches!(dispatch_request("initialize", false), RpcDecision::NoResponse));
    assert!(matches!(dispatch_request("anything", false), RpcDecision::NoResponse));
}

#[test]
fn test_dispatch_known_methods() {
    assert!(matches!(dispatch_request("initialize", true), RpcDecision::Initialize));
    assert!(matches!(
        dispatch_request("notifications/initialized", true),
        RpcDecision::ReportIdle
    ));
    assert!(matches!(dispatch_request("tools/list", true), RpcDecision::ToolsList));
    assert!(matches!(dispatch_request("tools/call", true), RpcDecision::ToolsCall));
    assert!(matches!(dispatch_request("ping", true), RpcDecision::Ping));
}

#[test]
fn test_dispatch_unknown_method() {
    match dispatch_request("resources/list", true) {
        RpcDecision::MethodNotFound { message } => {
            assert_eq!(message, "Method not found: resources/list");
        }
        _ => panic!("expected a method-not-found error"),
    }
    assert_eq!(METHOD_NOT_FOUND_CODE, -32601);
    assert_eq!(TOOL_CALL_FAILED_CODE, -32000);
}

#[test]
fn test_status_tool_call() {
    match tool_call_decision("maestro_status", Some("error"), Some("test failed"), None) {
        ToolCallOutcome::Report { state, message, needs_input_prompt, reply } => {
            assert_eq!(state, "error");
            assert_eq!(message, "test failed");
            assert!(needs_input_prompt.is_none());
            assert_eq!(reply, "Status reported: error - test failed");
        }
        _ => panic!("expected a report"),
    }
}

#[test]
fn test_status_tool_call_defaults() {
    match tool_call_decision("maestro_status", None, None, Some("which one?".to_string())) {
        ToolCallOutcome::Report { state, message, needs_input_prompt, reply } => {
            assert_eq!(state, "working");
            assert_eq!(message, "");
            assert_eq!(needs_input_prompt.as_deref(), Some("which one?"));
            assert_eq!(reply, "Status reported: working - ");
        }
        _ => panic!("expected a report"),
    }
}

#[test]
fn test_unknown_tool_call() {
    match tool_call_decision("other_tool", Some("idle"), None, None) {
        ToolCallOutcome::UnknownTool { reply } => {
            assert_eq!(reply, "Unknown tool: other_tool");
        }
        _ => panic!("expected an unknown-tool outcome"),
    }
}

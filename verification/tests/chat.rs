use gguf_switchboard::chat::{
    check_tool_capability_gate, ChatMessage, Content, FunctionDefinition, Role, Tool,
};
use gguf_switchboard::errors::RuntimeError;
use gguf_switchboard::tool_probe::ToolCapability;

fn tools() -> Option<Vec<Tool>> {
    Some(vec![Tool {
        tool_type: "function".to_string(),
        function: FunctionDefinition {
            name: "f".to_string(),
            description: None,
            parameters: None,
            strict: None,
        },
    }])
}

fn user_message() -> ChatMessage {
    ChatMessage {
        role: Role::User,
        content: Some(Content::Text("hi".to_string())),
        name: None,
        tool_calls: None,
        tool_call_id: None,
        reasoning_content: None,
    }
}

#[test]
fn rejects_tools_request_when_verdict_is_failed() {
    let _messages = vec![user_message()];
    let err = check_tool_capability_gate("m", &tools(), Some(ToolCapability::Failed("no_tool_calls")));
    assert!(err.is_some());
}

#[test]
fn allows_tools_request_when_verdict_is_verified() {
    let err = check_tool_capability_gate("m", &tools(), Some(ToolCapability::Verified));
    assert!(err.is_none());
}

#[test]
fn allows_tools_request_when_verdict_is_unknown() {
    let err = check_tool_capability_gate("m", &tools(), None);
    assert!(err.is_none());
}

#[test]
fn allows_no_tools_request_even_when_verdict_is_failed() {
    let err = check_tool_capability_gate("m", &None, Some(ToolCapability::Failed("no_tool_calls")));
    assert!(err.is_none());
}

#[test]
fn tool_gate_refusal_names_model_and_reason() {
    match check_tool_capability_gate("qwen", &tools(), Some(ToolCapability::Failed("wrong_function"))) {
        Some(RuntimeError::InvalidRequest(m)) => assert_eq!(
            m,
            "Model 'qwen' failed tool-call verification at load (wrong_function); remove `tools` from the request or use a model with verified tool support."
        ),
        _ => panic!("expected an invalid request"),
    }
}

#[test]
fn tool_gate_passes_empty_tool_list_and_skipped_probe() {
    assert!(check_tool_capability_gate("m", &Some(vec![]), Some(ToolCapability::Failed("x"))).is_none());
    assert!(check_tool_capability_gate("m", &tools(), Some(ToolCapability::Skipped)).is_none());
}

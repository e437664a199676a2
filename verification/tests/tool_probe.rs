use gguf_switchboard::chat::{
    ChatChoice, ChatCompletionResponse, ChatMessage, Content, FunctionCall, Role, ToolCall, Usage,
};
use gguf_switchboard::tool_probe::{probe_request, validate_probe_response};

fn response(message: ChatMessage) -> ChatCompletionResponse {
    ChatCompletionResponse {
        id: "chatcmpl-1".to_string(),
        object: "chat.completion".to_string(),
        created: 0,
        model: "m".to_string(),
        choices: vec![ChatChoice { index: 0, message, finish_reason: Some("tool_calls".to_string()) }],
        usage: Usage { prompt_tokens: 0, completion_tokens: 0, total_tokens: 0 },
        system_fingerprint: None,
    }
}

fn call_message(name: &str, arguments: &str) -> ChatMessage {
    ChatMessage {
        role: Role::Assistant,
        content: None,
        name: None,
        tool_calls: Some(vec![ToolCall {
            index: None,
            id: "call_1".to_string(),
            call_type: "function".to_string(),
            function: FunctionCall { name: name.to_string(), arguments: arguments.to_string() },
        }]),
        tool_call_id: None,
        reasoning_content: None,
    }
}

#[test]
fn probe_request_uses_echo_tool_and_requires_a_call() {
    let req = probe_request("test-model");
    assert_eq!(req.model, "test-model");
    let tools = req.tools.expect("probe must declare tools");
    assert_eq!(tools.len(), 1);
    assert_eq!(tools[0].function.name, "echo");
    assert_eq!(req.tool_choice.as_deref(), Some("\"required\""));
    let schema: serde_json::Value = serde_json::from_str(tools[0].function.parameters.as_deref().unwrap()).unwrap();
    assert_eq!(schema["required"][0], "message");
    assert_eq!(req.max_tokens, Some(128));
}

#[test]
fn validate_accepts_correct_echo_call() {
    let value = response(call_message("echo", "{\"message\":\"hello\"}"));
    assert_eq!(validate_probe_response(&value), Ok(()));
}

#[test]
fn validate_rejects_missing_tool_calls() {
    let value = response(ChatMessage {
        role: Role::Assistant,
        content: Some(Content::Text("sure, hello!".to_string())),
        name: None,
        tool_calls: None,
        tool_call_id: None,
        reasoning_content: None,
    });
    assert_eq!(validate_probe_response(&value), Err("no_tool_calls"));
}

#[test]
fn validate_rejects_wrong_function_name() {
    let value = response(call_message("not_echo", "{\"message\":\"hello\"}"));
    assert_eq!(validate_probe_response(&value), Err("wrong_function"));
}

#[test]
fn validate_rejects_malformed_arguments_json() {
    let value = response(call_message("echo", "not json"));
    assert_eq!(validate_probe_response(&value), Err("malformed_json"));
}

#[test]
fn validate_rejects_wrong_argument_value() {
    let value = response(call_message("echo", "{\"message\":\"goodbye\"}"));
    assert_eq!(validate_probe_response(&value), Err("wrong_arguments"));
}

#[test]
fn validate_accepts_hello_in_any_case() {
    let value = response(call_message("echo", "{\"message\":\"HeLLo\"}"));
    assert_eq!(validate_probe_response(&value), Ok(()));
    let value = response(call_message("echo", "{\"message\":1}"));
    assert_eq!(validate_probe_response(&value), Err("wrong_arguments"));
}

#[test]
fn validate_rejects_more_than_one_tool_call() {
    let mut message = call_message("echo", "{\"message\":\"hello\"}");
    let first = message.tool_calls.as_ref().unwrap()[0].clone();
    message.tool_calls.as_mut().unwrap().push(first);
    let value = response(message);
    assert_eq!(validate_probe_response(&value), Err("multiple_tool_calls"));
}

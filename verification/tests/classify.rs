use gguf_switchboard::chat::{ChatMessage, Content, ContentPart, FunctionCall, Role, ToolCall};
use gguf_switchboard::classify::{classify_message, find_tool_call_shaped_json, is_tool_call_shaped, ToolCallLocation};

fn message(content: Option<&str>, tool_calls: Option<Vec<ToolCall>>, reasoning: Option<&str>) -> ChatMessage {
    ChatMessage {
        role: Role::Assistant,
        content: content.map(|s| Content::Text(s.to_string())),
        name: None,
        tool_calls,
        tool_call_id: None,
        reasoning_content: reasoning.map(str::to_string),
    }
}

fn call(name: &str, arguments: &str) -> ToolCall {
    ToolCall {
        index: None,
        id: "call_1".to_string(),
        call_type: "function".to_string(),
        function: FunctionCall { name: name.to_string(), arguments: arguments.to_string() },
    }
}

#[test]
fn structured_tool_calls_take_precedence() {
    let msg = message(Some("ignored"), Some(vec![call("echo", "{\"message\":\"hi\"}")]), None);
    let result = classify_message(&msg);
    assert_eq!(result.location, ToolCallLocation::StructuredToolCalls);
    assert!(result.notes.is_empty());
}

#[test]
fn flags_malformed_arguments_but_stays_structured() {
    let msg = message(None, Some(vec![call("echo", "not json")]), None);
    let result = classify_message(&msg);
    assert_eq!(result.location, ToolCallLocation::StructuredToolCalls);
    assert_eq!(result.notes.len(), 1);
    assert_eq!(result.notes[0], "tool call 'echo' has non-JSON arguments string");
}

#[test]
fn detects_json_dumped_in_plain_content() {
    let msg = message(Some("Sure! {\"name\": \"echo\", \"arguments\": {\"message\": \"hi\"}}"), None, None);
    let result = classify_message(&msg);
    assert_eq!(result.location, ToolCallLocation::PlainTextJsonDump);
    assert!(result.detected_json_snippet.is_some());
}

#[test]
fn detects_tool_call_tag_in_content() {
    let msg = message(
        Some("<tool_call>{\"name\": \"echo\", \"arguments\": {\"message\": \"hi\"}}</tool_call>"),
        None,
        None,
    );
    let result = classify_message(&msg);
    assert_eq!(result.location, ToolCallLocation::PlainTextJsonDump);
}

#[test]
fn detects_json_leaked_into_reasoning() {
    let msg = message(
        Some("Done."),
        None,
        Some("I should call {\"name\": \"echo\", \"parameters\": {\"message\": \"hi\"}} now"),
    );
    let result = classify_message(&msg);
    assert_eq!(result.location, ToolCallLocation::LeakedIntoReasoning);
}

#[test]
fn plain_content_wins_over_reasoning_when_both_present() {
    let msg = message(
        Some("{\"name\": \"echo\", \"arguments\": {}}"),
        None,
        Some("{\"name\": \"other\", \"arguments\": {}}"),
    );
    let result = classify_message(&msg);
    assert_eq!(result.location, ToolCallLocation::PlainTextJsonDump);
}

#[test]
fn no_call_detected_for_ordinary_prose() {
    let msg = message(Some("Rust is generally faster than Python."), None, None);
    let result = classify_message(&msg);
    assert_eq!(result.location, ToolCallLocation::NoToolCallDetected);
    assert!(result.content_present);
    assert!(!result.reasoning_present);
}

#[test]
fn ordinary_json_object_without_tool_shape_is_not_flagged() {
    let msg = message(Some("Config: {\"port\": 8080, \"host\": \"localhost\"}"), None, None);
    let result = classify_message(&msg);
    assert_eq!(result.location, ToolCallLocation::NoToolCallDetected);
}

#[test]
fn fenced_block_snippet_is_trimmed() {
    let text = "Here:\n```json\n  {\"name\": \"f\", \"arguments\": {}}  \n```\nbye";
    assert_eq!(find_tool_call_shaped_json(text).as_deref(), Some("{\"name\": \"f\", \"arguments\": {}}"));
}

#[test]
fn braces_inside_strings_do_not_end_the_span() {
    let text = "x {\"name\": \"a}b\", \"arguments\": \"{\\\"q\\\": 1}\"} y";
    assert_eq!(
        find_tool_call_shaped_json(text).as_deref(),
        Some("{\"name\": \"a}b\", \"arguments\": \"{\\\"q\\\": 1}\"}")
    );
}

#[test]
fn shape_needs_a_string_name_and_arguments() {
    assert!(is_tool_call_shaped("{\"name\": \"x\", \"parameters\": null}"));
    assert!(!is_tool_call_shaped("{\"name\": 3, \"arguments\": {}}"));
    assert!(!is_tool_call_shaped("{\"name\": \"x\"}"));
    assert!(!is_tool_call_shaped("[\"name\", \"arguments\"]"));
    assert!(!is_tool_call_shaped("not json"));
}

#[test]
fn parts_content_is_joined_and_empty_parts_are_absent() {
    let mut msg = message(None, None, None);
    msg.content = Some(Content::Parts(vec![
        ContentPart::ImageUrl { url: "http://x".into() },
        ContentPart::Text { text: "{\"name\": \"f\",".into() },
        ContentPart::Text { text: "\"arguments\": {}}".into() },
    ]));
    let result = classify_message(&msg);
    assert_eq!(result.location, ToolCallLocation::PlainTextJsonDump);
    assert_eq!(result.detected_json_snippet.as_deref(), Some("{\"name\": \"f\",\n\"arguments\": {}}"));

    msg.content = Some(Content::Parts(vec![ContentPart::ImageUrl { url: "http://x".into() }]));
    assert!(!classify_message(&msg).content_present);
}

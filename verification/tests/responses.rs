use gguf_switchboard::chat::{ChatMessage, Content, FunctionCall, Role, ToolCall, Usage};
use gguf_switchboard::errors::RuntimeError;
use gguf_switchboard::responses::{
    fresh_id, response_result, stream_output, stream_status, to_chat_request, to_response_output, ResponseContent,
    ResponseFunctionTool, ResponseInput, ResponseOutput, ResponseRequest, ResponseTool,
};

const RANDOM: [u128; 3] = [0x0123_4567_89ab_cdef_0123_4567_89ab_cdef, 1, 2];

const WEATHER_SCHEMA: &str =
    r#"{"type":"object","properties":{"location":{"type":"string"}},"required":["location"]}"#;

fn function_request() -> ResponseRequest {
    ResponseRequest {
        model: "test-model".to_string(),
        input: ResponseInput::Text("What is the weather?".to_string()),
        instructions: None,
        max_output_tokens: Some(128),
        stream: Some(false),
        tools: Some(vec![ResponseTool::Function(ResponseFunctionTool {
            name: "get_weather".to_string(),
            description: Some("Get weather for a location".to_string()),
            parameters: WEATHER_SCHEMA.to_string(),
            strict: Some(true),
        })]),
        tool_choice: Some("\"auto\"".to_string()),
        user: None,
        response_format: None,
    }
}

fn parse(text: &str) -> serde_json::Value {
    serde_json::from_str(text).unwrap()
}

#[test]
fn translates_function_tools_to_chat_request() {
    let chat = to_chat_request(&function_request()).unwrap();
    let tools = chat.tools.as_ref().unwrap();

    assert_eq!(tools.len(), 1);
    assert_eq!(tools[0].tool_type, "function");
    assert_eq!(tools[0].function.name, "get_weather");
    assert_eq!(tools[0].function.description.as_deref(), Some("Get weather for a location"));
    assert_eq!(
        tools[0].function.parameters.as_deref().map(parse),
        Some(parse(WEATHER_SCHEMA))
    );
    assert_eq!(chat.tool_choice.as_deref().map(parse), Some(parse("\"auto\"")));
}

#[test]
fn rejects_empty_function_tool_name() {
    let mut request = function_request();
    let Some(ResponseTool::Function(function)) = request.tools.as_mut().and_then(|tools| tools.first_mut()) else {
        panic!("expected function tool")
    };
    function.name.clear();

    assert!(matches!(to_chat_request(&request), Err(RuntimeError::InvalidRequest(_))));
}

#[test]
fn rejects_non_object_function_parameters() {
    let mut request = function_request();
    let Some(ResponseTool::Function(function)) = request.tools.as_mut().and_then(|tools| tools.first_mut()) else {
        panic!("expected function tool")
    };
    function.parameters = "\"not-an-object\"".to_string();

    assert!(matches!(to_chat_request(&request), Err(RuntimeError::InvalidRequest(_))));
}

fn assistant_message(content: Option<&str>, calls: Vec<(&str, &str, &str)>) -> ChatMessage {
    ChatMessage {
        role: Role::Assistant,
        content: content.map(|text| Content::Text(text.to_string())),
        name: None,
        tool_calls: if calls.is_empty() {
            None
        } else {
            Some(
                calls
                    .into_iter()
                    .map(|(id, name, arguments)| ToolCall {
                        index: None,
                        id: id.to_string(),
                        call_type: "function".to_string(),
                        function: FunctionCall { name: name.to_string(), arguments: arguments.to_string() },
                    })
                    .collect(),
            )
        },
        tool_call_id: None,
        reasoning_content: None,
    }
}

#[test]
fn translates_tool_only_output() {
    let output =
        to_response_output(&assistant_message(None, vec![("call_1", "get_weather", "{\"location\":\"Pune\"}")]), &RANDOM)
            .unwrap();

    assert_eq!(output.len(), 1);
    let ResponseOutput::FunctionCall(call) = &output[0] else { panic!("expected function call") };
    assert!(call.id.starts_with("fc_"));
    assert_eq!(call.call_id, "call_1");
    assert_eq!(call.name, "get_weather");
    assert_eq!(call.arguments, "{\"location\":\"Pune\"}");
    assert_eq!(call.status, "completed");
}

#[test]
fn translates_text_before_function_calls() {
    let output =
        to_response_output(&assistant_message(Some("I will check."), vec![("call_1", "get_weather", "{}")]), &RANDOM).unwrap();

    assert!(matches!(output[0], ResponseOutput::Message(_)));
    assert!(matches!(output[1], ResponseOutput::FunctionCall(_)));
}

#[test]
fn translates_multiple_function_calls() {
    let output = to_response_output(&assistant_message(
        None,
        vec![
            ("call_1", "get_weather", "{\"location\":\"Pune\"}"),
            ("call_2", "get_time", "{\"timezone\":\"Asia/Kolkata\"}"),
        ],
    ), &RANDOM)
    .unwrap();

    assert_eq!(output.len(), 2);
    let ResponseOutput::FunctionCall(first) = &output[0] else { panic!("expected first function call") };
    let ResponseOutput::FunctionCall(second) = &output[1] else { panic!("expected second function call") };
    assert_eq!(first.call_id, "call_1");
    assert_eq!(second.call_id, "call_2");
    assert_ne!(first.id, second.id);
}

#[test]
fn rejects_malformed_backend_function_call() {
    let error = to_response_output(&assistant_message(None, vec![("", "", "{}")]), &RANDOM).unwrap_err();

    assert!(matches!(error, RuntimeError::BackendError(_)));
}

#[test]
fn text_only_reply_becomes_one_message_item() {
    let output = to_response_output(&assistant_message(Some("Hello"), vec![]), &RANDOM).unwrap();
    assert_eq!(output.len(), 1);
    let ResponseOutput::Message(message) = &output[0] else { panic!("expected a message") };
    assert!(message.id.starts_with("msg_"));
    assert_eq!(message.id.len(), "msg_".len() + 32);
    assert_eq!(message.role, "assistant");
    assert_eq!(message.status, "completed");
    let ResponseContent::OutputText { text, annotations } = &message.content[0];
    assert_eq!(text, "Hello");
    assert!(annotations.is_empty());
}

#[test]
fn request_messages_follow_instructions_and_input() {
    let mut request = function_request();
    request.instructions = Some("Be brief.".to_string());
    let chat = to_chat_request(&request).unwrap();
    assert_eq!(chat.model, "test-model");
    assert_eq!(chat.max_tokens, Some(128));
    assert_eq!(chat.stream, Some(false));
    assert_eq!(chat.messages.len(), 2);
    assert!(matches!(chat.messages[0].role, Role::System));
    assert!(matches!(&chat.messages[0].content, Some(Content::Text(t)) if t == "Be brief."));
    assert!(matches!(chat.messages[1].role, Role::User));
    assert!(matches!(&chat.messages[1].content, Some(Content::Text(t)) if t == "What is the weather?"));
}

#[test]
fn result_carries_usage_and_a_response_id() {
    let usage = Usage { prompt_tokens: 7, completion_tokens: 5, total_tokens: 12 };
    let result = response_result("m", 1_700_000_000, Vec::new(), &usage, 7);
    assert!(result.id.starts_with("resp_"));
    assert_eq!(result.object, "response");
    assert_eq!(result.model, "m");
    assert_eq!(result.created_at, 1_700_000_000);
    assert_eq!(result.usage.input_tokens, 7);
    assert_eq!(result.usage.output_tokens, 5);
    assert_eq!(result.usage.total_tokens, 12);
    assert_eq!(result.status, "completed");
}

#[test]
fn stream_chunks_report_progress_until_finished() {
    assert_eq!(stream_status(false), "in_progress");
    assert_eq!(stream_status(true), "completed");
    let ResponseOutput::Message(m) = stream_output(Some("par"), false, 1) else { panic!("expected a message") };
    assert_eq!(m.status, "in_progress");
    let ResponseContent::OutputText { text, .. } = &m.content[0];
    assert_eq!(text, "par");
    let ResponseOutput::Message(m) = stream_output(None, true, 2) else { panic!("expected a message") };
    assert_eq!(m.status, "completed");
    let ResponseContent::OutputText { text, .. } = &m.content[0];
    assert_eq!(text, "");
}

#[test]
fn identifiers_are_version_four_uuids_of_the_random_bits() {
    assert_eq!(fresh_id("resp_", 0), "resp_00000000000040008000000000000000");
    assert_eq!(fresh_id("msg_", u128::MAX), "msg_ffffffffffff4fffbfffffffffffffff");
    assert_eq!(
        fresh_id("fc_", 0x0123_4567_89ab_cdef_0123_4567_89ab_cdef),
        "fc_0123456789ab4def8123456789abcdef"
    );
}

#[test]
fn output_identifiers_come_from_the_random_bits_in_order() {
    let output = to_response_output(
        &assistant_message(Some("Hi"), vec![("call_1", "get_weather", "{}")]),
        &RANDOM,
    )
    .unwrap();
    let ResponseOutput::Message(m) = &output[0] else { panic!("expected a message") };
    assert_eq!(m.id, fresh_id("msg_", RANDOM[0]));
    let ResponseOutput::FunctionCall(c) = &output[1] else { panic!("expected a call") };
    assert_eq!(c.id, fresh_id("fc_", RANDOM[1]));
}

#[test]
fn response_format_is_forwarded_to_the_chat_request() {
    let mut request = function_request();
    request.response_format = Some("{\"type\":\"json_object\"}".to_string());
    let chat = to_chat_request(&request).unwrap();
    assert_eq!(chat.response_format.as_deref(), Some("{\"type\":\"json_object\"}"));
    assert_eq!(to_chat_request(&function_request()).unwrap().response_format, None);
}

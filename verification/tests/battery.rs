use gguf_switchboard::battery::{backend_error_verdict, battery_report, evaluate, BatteryCase};
use gguf_switchboard::chat::{ChatChoice, ChatCompletionResponse, ChatMessage, Content, FunctionCall, Role, ToolCall, Usage};
use gguf_switchboard::tool_probe::validate_probe_response;

fn response_with(message: ChatMessage) -> ChatCompletionResponse {
    ChatCompletionResponse {
        id: "id".to_string(),
        object: "chat.completion".to_string(),
        created: 0,
        model: "test".to_string(),
        choices: vec![ChatChoice { index: 0, message, finish_reason: Some("stop".to_string()) }],
        usage: Usage { prompt_tokens: 1, completion_tokens: 1, total_tokens: 2 },
        system_fingerprint: None,
    }
}

fn assistant_message(content: Option<&str>, tool_calls: Option<Vec<ToolCall>>, reasoning: Option<&str>) -> ChatMessage {
    ChatMessage {
        role: Role::Assistant,
        content: content.map(|s| Content::Text(s.to_string())),
        name: None,
        tool_calls,
        tool_call_id: None,
        reasoning_content: reasoning.map(str::to_string),
    }
}

fn call(id: &str, name: &str, arguments: &str) -> ToolCall {
    ToolCall {
        index: None,
        id: id.to_string(),
        call_type: "function".to_string(),
        function: FunctionCall { name: name.to_string(), arguments: arguments.to_string() },
    }
}

#[test]
fn single_tool_call_passes_on_correct_echo() {
    let response = response_with(assistant_message(None, Some(vec![call("call_1", "echo", "{\"message\":\"hello\"}")]), None));
    let verdict = evaluate(BatteryCase::SingleToolCall, &response);
    assert!(verdict.pass);
}

#[test]
fn parallel_tool_calls_requires_two_distinct_calls() {
    let one_call = response_with(assistant_message(None, Some(vec![call("call_1", "get_weather", "{\"city\":\"Paris\"}")]), None));
    let v = evaluate(BatteryCase::ParallelToolCalls, &one_call);
    assert!(!v.pass);
    assert_eq!(v.reason.as_deref(), Some("expected >=2 tool calls, got 1 (StructuredToolCalls)"));

    let two_calls = response_with(assistant_message(
        None,
        Some(vec![
            call("call_1", "get_weather", "{\"city\":\"Paris\"}"),
            call("call_2", "get_weather", "{\"city\":\"Tokyo\"}"),
        ]),
        None,
    ));
    assert!(evaluate(BatteryCase::ParallelToolCalls, &two_calls).pass);

    let same = response_with(assistant_message(
        None,
        Some(vec![call("call_1", "f", "{}"), call("call_2", "f", "{}")]),
        None,
    ));
    assert_eq!(evaluate(BatteryCase::ParallelToolCalls, &same).reason.as_deref(), Some("parallel calls have identical arguments"));
}

#[test]
fn tool_call_with_reasoning_fails_when_leaked() {
    let leaked = response_with(assistant_message(
        Some("Done."),
        None,
        Some("I should call {\"name\": \"echo\", \"arguments\": {\"message\": \"hi\"}}"),
    ));
    assert!(!evaluate(BatteryCase::ToolCallWithReasoning, &leaked).pass);
}

#[test]
fn tool_call_with_reasoning_fails_without_reasoning_content() {
    let no_reasoning = response_with(assistant_message(None, Some(vec![call("call_1", "echo", "{\"message\":\"hello\"}")]), None));
    assert!(!evaluate(BatteryCase::ToolCallWithReasoning, &no_reasoning).pass);
}

#[test]
fn tool_call_with_reasoning_passes_with_both() {
    let both = response_with(assistant_message(
        None,
        Some(vec![call("call_1", "echo", "{\"message\":\"hello\"}")]),
        Some("The user wants me to call echo with hello."),
    ));
    assert!(evaluate(BatteryCase::ToolCallWithReasoning, &both).pass);
}

#[test]
fn multi_turn_tool_result_fails_on_raw_json_dump() {
    let dump = response_with(assistant_message(Some("{\"temperature_c\": 22, \"conditions\": \"sunny\"}"), None, None));
    assert!(!evaluate(BatteryCase::MultiTurnToolResult, &dump).pass);
}

#[test]
fn multi_turn_tool_result_passes_on_summary() {
    let summary = response_with(assistant_message(Some("It's sunny and 22°C in Paris right now."), None, None));
    assert!(evaluate(BatteryCase::MultiTurnToolResult, &summary).pass);
}

#[test]
fn empty_reply_fails_every_case() {
    let mut r = response_with(assistant_message(Some("x"), None, None));
    r.choices.clear();
    for case in BatteryCase::all() {
        let v = evaluate(case, &r);
        assert!(!v.pass);
        assert_eq!(v.reason.as_deref(), Some("empty_response"));
    }
}

#[test]
fn probe_response_errors() {
    let wrong_fn = response_with(assistant_message(None, Some(vec![call("c", "other", "{\"message\":\"hello\"}")]), None));
    assert_eq!(validate_probe_response(&wrong_fn), Err("wrong_function"));
    let bad_json = response_with(assistant_message(None, Some(vec![call("c", "echo", "{")]), None));
    assert_eq!(validate_probe_response(&bad_json), Err("malformed_json"));
    let wrong_args = response_with(assistant_message(None, Some(vec![call("c", "echo", "{\"message\":\"bye\"}")]), None));
    assert_eq!(validate_probe_response(&wrong_args), Err("wrong_arguments"));
    let upper = response_with(assistant_message(None, Some(vec![call("c", "echo", "{\"message\":\"HeLLo\"}")]), None));
    assert_eq!(validate_probe_response(&upper), Ok(()));
    let none = response_with(assistant_message(Some("hi"), None, None));
    assert_eq!(validate_probe_response(&none), Err("no_tool_calls"));
}

#[test]
fn report_passes_only_when_every_case_passes() {
    let ok = response_with(assistant_message(Some("A summary."), None, None));
    let pass = evaluate(BatteryCase::MultiTurnToolResult, &ok);
    let fail = backend_error_verdict(BatteryCase::SingleToolCall, "connection refused");
    assert_eq!(fail.reason.as_deref(), Some("backend_error: connection refused"));
    let report = battery_report("m", "123", vec![pass.clone(), fail]);
    assert!(!report.overall_pass);
    assert!(battery_report("m", "123", vec![pass]).overall_pass);
    assert!(battery_report("m", "123", vec![]).overall_pass);
}

#[test]
fn every_case_builds_its_own_request() {
    let single = BatteryCase::SingleToolCall.build_request("m");
    assert_eq!(single.max_tokens, Some(128));
    assert_eq!(single.tools.as_ref().unwrap()[0].function.name, "echo");

    let parallel = BatteryCase::ParallelToolCalls.build_request("m");
    assert_eq!(parallel.model, "m");
    assert_eq!(parallel.stream, Some(false));
    assert_eq!(parallel.max_tokens, Some(256));
    assert_eq!(parallel.tools.as_ref().unwrap()[0].function.name, "get_weather");
    assert_eq!(parallel.tool_choice.as_deref(), Some("\"required\""));

    let reasoning = BatteryCase::ToolCallWithReasoning.build_request("m");
    assert_eq!(reasoning.max_tokens, Some(512));
    assert!(matches!(&reasoning.messages[0].content, Some(Content::Text(t)) if t.starts_with("Think step by step")));

    let multi = BatteryCase::MultiTurnToolResult.build_request("m");
    assert_eq!(multi.messages.len(), 3);
    assert!(matches!(multi.messages[1].role, Role::Assistant));
    assert_eq!(multi.messages[1].tool_calls.as_ref().unwrap()[0].function.arguments, "{\"city\":\"Paris\"}");
    assert!(matches!(multi.messages[2].role, Role::Tool));
    assert_eq!(multi.messages[2].tool_call_id.as_deref(), Some("call_1"));
    assert_eq!(multi.tool_choice, None);
    let schema: serde_json::Value =
        serde_json::from_str(multi.tools.as_ref().unwrap()[0].function.parameters.as_deref().unwrap()).unwrap();
    assert_eq!(schema["properties"]["city"]["type"], "string");
}

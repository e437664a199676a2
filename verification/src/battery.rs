//! The fixed conformance battery: four tool-calling scenarios, each scored
//! pass or fail from the model's reply, with the classification of where
//! the reply put its tool call.
use vstd::prelude::*;
use crate::chat::{
    ChatCompletionRequest, ChatCompletionResponse, ChatMessage, Content, FunctionCall, FunctionDefinition, Role, Tool, ToolCall,
};
use crate::responses::text_message;
use crate::tool_probe::{echo_schema, is_probe_request, probe_request};
use crate::classify::{
    classifies, classify_message, location_of, structured_calls, ToolCallClassification, ToolCallLocation,
};
use crate::json::{is_json, parse_json_members};
use crate::text::{opt_str, concat_str, decimal, fmt_decimal, str_eq, str_is_empty, string_from_str, trim, trim_str};
use crate::tool_probe::{probe_verdict, validate_probe_response};

verus! {

#[derive(Debug, Clone, Copy, PartialEq, Eq, Structural)]
pub enum BatteryCase {
    SingleToolCall,
    ParallelToolCalls,
    ToolCallWithReasoning,
    MultiTurnToolResult,
}

impl BatteryCase {
    /// The four cases, in the order they are run.
    pub fn all() -> (r: [BatteryCase; 4])
        ensures
            r@ == seq![
                BatteryCase::SingleToolCall,
                BatteryCase::ParallelToolCalls,
                BatteryCase::ToolCallWithReasoning,
                BatteryCase::MultiTurnToolResult,
            ],
    {
        let r = [
            BatteryCase::SingleToolCall,
            BatteryCase::ParallelToolCalls,
            BatteryCase::ToolCallWithReasoning,
            BatteryCase::MultiTurnToolResult,
        ];
        assert(r@ =~= seq![
            BatteryCase::SingleToolCall,
            BatteryCase::ParallelToolCalls,
            BatteryCase::ToolCallWithReasoning,
            BatteryCase::MultiTurnToolResult,
        ]);
        r
    }
}

/// The JSON schema of the `get_weather` tool: one string member `city`.
pub open spec fn weather_schema() -> Seq<char> {
    "{\"properties\":{\"city\":{\"type\":\"string\"}},\"required\":[\"city\"],\"type\":\"object\"}"@
}

/// A function tool with a name, a description and a parameter schema.
pub open spec fn is_function_tool(t: Tool, name: Seq<char>, description: Seq<char>, schema: Seq<char>) -> bool {
    &&& t.tool_type@ == "function"@
    &&& t.function.name@ == name
    &&& opt_str(t.function.description) == Some(description)
    &&& opt_str(t.function.parameters) == Some(schema)
    &&& t.function.strict is None
}

/// The common shape of the battery's requests: the model, no sampling
/// overrides, not streamed, at most `max_tokens` tokens, and one tool.
pub open spec fn battery_request(r: ChatCompletionRequest, model: Seq<char>, max_tokens: u32, tool: (Seq<char>, Seq<char>, Seq<char>)) -> bool {
    &&& r.model@ == model
    &&& r.n is None && r.stop is None && r.user is None && r.seed is None && r.response_format is None
    &&& r.stream == Some(false)
    &&& r.max_tokens == Some(max_tokens)
    &&& r.tools matches Some(ts) && ts@.len() == 1 && is_function_tool(ts@[0], tool.0, tool.1, tool.2)
}

fn function_tool(name: &str, description: &str, schema: &str) -> (r: Tool)
    ensures
        is_function_tool(r, name@, description@, schema@),
{
    Tool {
        tool_type: string_from_str("function"),
        function: FunctionDefinition {
            name: string_from_str(name),
            description: Some(string_from_str(description)),
            parameters: Some(string_from_str(schema)),
            strict: None,
        },
    }
}

fn text_msg(role: Role, text: &str) -> (r: ChatMessage)
    ensures
        text_message(role, text@, r),
{
    ChatMessage {
        role,
        content: Some(Content::Text(string_from_str(text))),
        name: None,
        tool_calls: None,
        tool_call_id: None,
        reasoning_content: None,
    }
}

fn weather_tool() -> (r: Tool)
    ensures
        is_function_tool(r, "get_weather"@, "Get the current weather for a city."@, weather_schema()),
{
    function_tool(
        "get_weather",
        "Get the current weather for a city.",
        "{\"properties\":{\"city\":{\"type\":\"string\"}},\"required\":[\"city\"],\"type\":\"object\"}",
    )
}

/// The parallel-calls request for `model`.
pub open spec fn is_parallel_calls_request(r: ChatCompletionRequest, model: Seq<char>) -> bool {
    &&& battery_request(r, model, 256, ("get_weather"@, "Get the current weather for a city."@, weather_schema()))
    &&& r.messages@.len() == 1
    &&& text_message(Role::User, "Call get_weather for both Paris and Tokyo."@, r.messages@[0])
    &&& opt_str(r.tool_choice) == Some("\"required\""@)
}

/// Ask for `get_weather` on two cities at once; a tool call is required.
pub fn parallel_tool_calls_request(model: &str) -> (r: ChatCompletionRequest)
    ensures
        is_parallel_calls_request(r, model@),
{
    let mut messages: Vec<ChatMessage> = Vec::new();
    messages.push(text_msg(Role::User, "Call get_weather for both Paris and Tokyo."));
    let mut tools: Vec<Tool> = Vec::new();
    tools.push(weather_tool());
    ChatCompletionRequest {
        model: string_from_str(model),
        messages,
        n: None,
        stream: Some(false),
        stop: None,
        max_tokens: Some(256),
        user: None,
        tools: Some(tools),
        tool_choice: Some(string_from_str("\"required\"")),
        seed: None,
        response_format: None,
    }
}

/// The reason-then-call request for `model`.
pub open spec fn is_reasoning_request(r: ChatCompletionRequest, model: Seq<char>) -> bool {
    &&& battery_request(r, model, 512, ("echo"@, "Echo a message back."@, echo_schema()))
    &&& r.messages@.len() == 1
    &&& text_message(Role::User,
            "Think step by step about which tool to use, then call the echo tool with message set to \"hello\"."@,
            r.messages@[0])
    &&& opt_str(r.tool_choice) == Some("\"required\""@)
}

/// Ask the model to reason first and then call `echo`; a tool call is
/// required.
pub fn tool_call_with_reasoning_request(model: &str) -> (r: ChatCompletionRequest)
    ensures
        is_reasoning_request(r, model@),
{
    let mut messages: Vec<ChatMessage> = Vec::new();
    messages.push(text_msg(
        Role::User,
        "Think step by step about which tool to use, then call the echo tool with message set to \"hello\".",
    ));
    let mut tools: Vec<Tool> = Vec::new();
    tools.push(function_tool(
        "echo",
        "Echo a message back.",
        "{\"properties\":{\"message\":{\"type\":\"string\"}},\"required\":[\"message\"],\"type\":\"object\"}",
    ));
    ChatCompletionRequest {
        model: string_from_str(model),
        messages,
        n: None,
        stream: Some(false),
        stop: None,
        max_tokens: Some(256 + 256),
        user: None,
        tools: Some(tools),
        tool_choice: Some(string_from_str("\"required\"")),
        seed: None,
        response_format: None,
    }
}

/// The tool-result conversation for `model`.
pub open spec fn is_multi_turn_request(r: ChatCompletionRequest, model: Seq<char>) -> bool {
    &&& battery_request(r, model, 256, ("get_weather"@, "Get the current weather for a city."@, weather_schema()))
    &&& r.tool_choice is None
    &&& r.messages@.len() == 3
    &&& text_message(Role::User, "What's the weather in Paris?"@, r.messages@[0])
    &&& r.messages@[1].role == Role::Assistant
    &&& r.messages@[1].content is None && r.messages@[1].name is None
    &&& r.messages@[1].tool_call_id is None && r.messages@[1].reasoning_content is None
    &&& r.messages@[1].tool_calls matches Some(cs) && cs@.len() == 1 && cs@[0].index is None && cs@[0].id@ == "call_1"@
        && cs@[0].call_type@ == "function"@ && cs@[0].function.name@ == "get_weather"@
        && cs@[0].function.arguments@ == "{\"city\":\"Paris\"}"@
    &&& r.messages@[2].role == Role::Tool
    &&& r.messages@[2].content matches Some(Content::Text(t)) && t@ == "{\"temperature_c\": 22, \"conditions\": \"sunny\"}"@
    &&& opt_str(r.messages@[2].name) == Some("get_weather"@)
    &&& opt_str(r.messages@[2].tool_call_id) == Some("call_1"@)
    &&& r.messages@[2].tool_calls is None && r.messages@[2].reasoning_content is None
}

/// A conversation in which `get_weather` was already called and answered:
/// the model should answer from the tool result; no tool choice is forced.
pub fn multi_turn_tool_result_request(model: &str) -> (r: ChatCompletionRequest)
    ensures
        is_multi_turn_request(r, model@),
{
    let mut calls: Vec<ToolCall> = Vec::new();
    calls.push(ToolCall {
        index: None,
        id: string_from_str("call_1"),
        call_type: string_from_str("function"),
        function: FunctionCall {
            name: string_from_str("get_weather"),
            arguments: string_from_str("{\"city\":\"Paris\"}"),
        },
    });
    let mut messages: Vec<ChatMessage> = Vec::new();
    messages.push(text_msg(Role::User, "What's the weather in Paris?"));
    messages.push(ChatMessage {
        role: Role::Assistant,
        content: None,
        name: None,
        tool_calls: Some(calls),
        tool_call_id: None,
        reasoning_content: None,
    });
    messages.push(ChatMessage {
        role: Role::Tool,
        content: Some(Content::Text(string_from_str("{\"temperature_c\": 22, \"conditions\": \"sunny\"}"))),
        name: Some(string_from_str("get_weather")),
        tool_calls: None,
        tool_call_id: Some(string_from_str("call_1")),
        reasoning_content: None,
    });
    let mut tools: Vec<Tool> = Vec::new();
    tools.push(weather_tool());
    ChatCompletionRequest {
        model: string_from_str(model),
        messages,
        n: None,
        stream: Some(false),
        stop: None,
        max_tokens: Some(256),
        user: None,
        tools: Some(tools),
        tool_choice: None,
        seed: None,
        response_format: None,
    }
}

impl BatteryCase {
    /// The request each case sends; the single-call case is the load-time
    /// probe's request.
    pub fn build_request(self, model: &str) -> (r: ChatCompletionRequest)
        ensures
            match self {
                BatteryCase::SingleToolCall => is_probe_request(r, model@),
                BatteryCase::ParallelToolCalls => is_parallel_calls_request(r, model@),
                BatteryCase::ToolCallWithReasoning => is_reasoning_request(r, model@),
                BatteryCase::MultiTurnToolResult => is_multi_turn_request(r, model@),
            },
    {
        match self {
            BatteryCase::SingleToolCall => probe_request(model),
            BatteryCase::ParallelToolCalls => parallel_tool_calls_request(model),
            BatteryCase::ToolCallWithReasoning => tool_call_with_reasoning_request(model),
            BatteryCase::MultiTurnToolResult => multi_turn_tool_result_request(model),
        }
    }
}

#[derive(Debug, Clone)]
pub struct CaseVerdict {
    pub case: BatteryCase,
    pub pass: bool,
    pub reason: Option<String>,
    pub classification: ToolCallClassification,
}

#[derive(Debug, Clone)]
pub struct BatteryReport {
    pub model: String,
    pub run_at: String,
    pub cases: Vec<CaseVerdict>,
    pub overall_pass: bool,
}

/// The name a location is reported by (its `Debug` form).
pub open spec fn location_name(l: ToolCallLocation) -> Seq<char> {
    match l {
        ToolCallLocation::StructuredToolCalls => "StructuredToolCalls"@,
        ToolCallLocation::PlainTextJsonDump => "PlainTextJsonDump"@,
        ToolCallLocation::LeakedIntoReasoning => "LeakedIntoReasoning"@,
        ToolCallLocation::NoToolCallDetected => "NoToolCallDetected"@,
    }
}

fn location_name_exec(l: ToolCallLocation) -> (r: String)
    ensures
        r@ == location_name(l),
{
    match l {
        ToolCallLocation::StructuredToolCalls => string_from_str("StructuredToolCalls"),
        ToolCallLocation::PlainTextJsonDump => string_from_str("PlainTextJsonDump"),
        ToolCallLocation::LeakedIntoReasoning => string_from_str("LeakedIntoReasoning"),
        ToolCallLocation::NoToolCallDetected => string_from_str("NoToolCallDetected"),
    }
}

/// The structured calls that a classification reports (none unless the
/// location is structured).
pub open spec fn reported_calls(m: ChatMessage) -> Seq<ToolCall> {
    match structured_calls(m) {
        Some(cs) => cs,
        None => seq![],
    }
}

/// At least two of the calls differ in their arguments text.
pub open spec fn distinct_arguments(cs: Seq<ToolCall>) -> bool {
    exists|i: int, j: int| 0 <= i < cs.len() && 0 <= j < cs.len()
        && #[trigger] cs[i].function.arguments@ != #[trigger] cs[j].function.arguments@
}

/// The text of a final answer: the content when it is plain text.
pub open spec fn final_text(m: ChatMessage) -> Seq<char> {
    match m.content {
        Some(Content::Text(s)) => s@,
        _ => seq![],
    }
}

/// Pass or fail, with the reason for a failure, of `case` on the first
/// reply message `m` of `response`.
pub open spec fn case_outcome(case: BatteryCase, response: ChatCompletionResponse, m: ChatMessage) -> (bool, Option<Seq<char>>) {
    let loc = location_of(m);
    match case {
        BatteryCase::SingleToolCall => if loc == ToolCallLocation::StructuredToolCalls {
            match probe_verdict(response) {
                Ok(()) => (true, None),
                Err(e) => (false, Some(e)),
            }
        } else {
            (false, Some(location_name(loc)))
        },
        BatteryCase::ParallelToolCalls => {
            let cs = reported_calls(m);
            if cs.len() < 2 {
                (false, Some("expected >=2 tool calls, got "@ + decimal(cs.len()) + " ("@ + location_name(loc) + ")"@))
            } else if distinct_arguments(cs) {
                (true, None)
            } else {
                (false, Some("parallel calls have identical arguments"@))
            }
        },
        BatteryCase::ToolCallWithReasoning => if loc == ToolCallLocation::LeakedIntoReasoning {
            (false, Some("tool call leaked into reasoning_content instead of being structured"@))
        } else if loc != ToolCallLocation::StructuredToolCalls {
            (false, Some(location_name(loc)))
        } else if !(m.reasoning_content matches Some(s) && s@.len() > 0) {
            (false, Some("model produced a structured call but no reasoning_content"@))
        } else {
            (true, None)
        },
        BatteryCase::MultiTurnToolResult => {
            let t = trim(final_text(m));
            if t.len() == 0 {
                (false, Some("empty final content"@))
            } else if is_json(t) {
                (false, Some("final content is a raw JSON dump, not a summary"@))
            } else {
                (true, None)
            }
        },
    }
}

/// A verdict with its reason as plain values.
pub open spec fn verdict_view(v: CaseVerdict) -> (bool, Option<Seq<char>>) {
    (v.pass, match v.reason { Some(s) => Some(s@), None => None })
}

/// The classification of a reply that had no message.
pub open spec fn is_empty_classification(c: ToolCallClassification) -> bool {
    &&& c.location == ToolCallLocation::NoToolCallDetected
    &&& c.structured_tool_calls is None
    &&& c.detected_json_snippet is None
    &&& !c.content_present
    &&& !c.reasoning_present
    &&& c.notes@.len() == 0
}

fn has_distinct_arguments(cs: &Vec<ToolCall>) -> (r: bool)
    ensures
        r == distinct_arguments(cs@),
{
    if cs.len() == 0 {
        return false;
    }
    let mut j: usize = 1;
    while j < cs.len()
        invariant
            1 <= j <= cs@.len(),
            forall|k: int| 0 <= k < j ==> (#[trigger] cs@[k]).function.arguments@ == cs@[0].function.arguments@,
        decreases cs.len() - j,
    {
        if !str_eq(cs[j].function.arguments.as_str(), cs[0].function.arguments.as_str()) {
            assert(cs@[j as int].function.arguments@ != cs@[0].function.arguments@);
            return true;
        }
        j = j + 1;
    }
    assert forall|a: int, b: int| 0 <= a < cs@.len() && 0 <= b < cs@.len() implies
        !(#[trigger] cs@[a].function.arguments@ != #[trigger] cs@[b].function.arguments@) by {
        assert(cs@[a].function.arguments@ == cs@[0].function.arguments@);
        assert(cs@[b].function.arguments@ == cs@[0].function.arguments@);
    }
    false
}

/// Scores one battery case on the model's reply.
pub fn evaluate(case: BatteryCase, response: &ChatCompletionResponse) -> (r: CaseVerdict)
    ensures
        r.case == case,
        response.choices@.len() == 0 ==> (verdict_view(r) == (false, Some("empty_response"@))
            && is_empty_classification(r.classification)),
        response.choices@.len() > 0 ==> ({
            let m = response.choices@[0].message;
            &&& classifies(r.classification, m)
            &&& verdict_view(r) == case_outcome(case, *response, m)
        }),
{
    if response.choices.len() == 0 {
        return CaseVerdict {
            case,
            pass: false,
            reason: Some(string_from_str("empty_response")),
            classification: ToolCallClassification::nothing(),
        };
    }
    let message = &response.choices[0].message;
    let classification = classify_message(message);
    let loc = classification.location;
    let (pass, reason): (bool, Option<String>) = match case {
        BatteryCase::SingleToolCall => {
            if loc == ToolCallLocation::StructuredToolCalls {
                match validate_probe_response(response) {
                    Ok(()) => (true, None),
                    Err(e) => (false, Some(string_from_str(e))),
                }
            } else {
                (false, Some(location_name_exec(loc)))
            }
        },
        BatteryCase::ParallelToolCalls => {
            let empty: Vec<ToolCall> = Vec::new();
            let calls: &Vec<ToolCall> = match &message.tool_calls {
                Some(cs) => if cs.len() > 0 { cs } else { &empty },
                None => &empty,
            };
            assert(calls@ == reported_calls(*message));
            if calls.len() < 2 {
                let n = fmt_decimal(calls.len() as u64);
                let a = concat_str("expected >=2 tool calls, got ", n.as_str());
                let b = concat_str(a.as_str(), " (");
                let name = location_name_exec(loc);
                let c = concat_str(b.as_str(), name.as_str());
                (false, Some(concat_str(c.as_str(), ")")))
            } else if has_distinct_arguments(calls) {
                (true, None)
            } else {
                (false, Some(string_from_str("parallel calls have identical arguments")))
            }
        },
        BatteryCase::ToolCallWithReasoning => {
            if loc == ToolCallLocation::LeakedIntoReasoning {
                (false, Some(string_from_str("tool call leaked into reasoning_content instead of being structured")))
            } else if loc != ToolCallLocation::StructuredToolCalls {
                (false, Some(location_name_exec(loc)))
            } else if !classification.reasoning_present {
                (false, Some(string_from_str("model produced a structured call but no reasoning_content")))
            } else {
                (true, None)
            }
        },
        BatteryCase::MultiTurnToolResult => {
            let text = match &message.content {
                Some(Content::Text(s)) => s.clone(),
                _ => String::new(),
            };
            let t = trim_str(text.as_str());
            if str_is_empty(t.as_str()) {
                (false, Some(string_from_str("empty final content")))
            } else if parse_json_members(t.as_str()).is_some() {
                (false, Some(string_from_str("final content is a raw JSON dump, not a summary")))
            } else {
                (true, None)
            }
        },
    };
    CaseVerdict { case, pass, reason, classification }
}

/// The verdict for a case whose request the backend could not answer.
pub fn backend_error_verdict(case: BatteryCase, error: &str) -> (r: CaseVerdict)
    ensures
        r.case == case,
        verdict_view(r) == (false, Some("backend_error: "@ + error@)),
        is_empty_classification(r.classification),
{
    CaseVerdict {
        case,
        pass: false,
        reason: Some(concat_str("backend_error: ", error)),
        classification: ToolCallClassification::nothing(),
    }
}

/// The report of a battery run: it passes when every case passed.
pub fn battery_report(model: &str, run_at: &str, cases: Vec<CaseVerdict>) -> (r: BatteryReport)
    ensures
        r.model@ == model@,
        r.run_at@ == run_at@,
        r.cases@ == cases@,
        r.overall_pass == forall|i: int| 0 <= i < cases@.len() ==> #[trigger] cases@[i].pass,
{
    let mut all = true;
    let mut i: usize = 0;
    while i < cases.len()
        invariant
            i <= cases@.len(),
            all == forall|k: int| 0 <= k < i ==> #[trigger] cases@[k].pass,
        decreases cases.len() - i,
    {
        all = all && cases[i].pass;
        i = i + 1;
    }
    BatteryReport { model: string_from_str(model), run_at: string_from_str(run_at), cases, overall_pass: all }
}

} // verus!

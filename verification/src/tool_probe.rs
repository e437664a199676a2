//! The load-time tool-call probe: its verdict, and the check of the
//! response to the fixed probe request (one call of the `echo` tool with
//! `{"message": "hello"}`).
use vstd::prelude::*;
use crate::chat::{ChatCompletionRequest, ChatCompletionResponse, ChatMessage, Content, FunctionDefinition, Role, Tool};
use crate::responses::text_message;
use crate::classify::structured_calls;
use crate::json::{is_json, json_members, object_member, object_member_of, parse_json_members};
use crate::text::{opt_str, lower, str_eq, string_from_str, to_lower};

verus! {

/// Verdict of the load-time tool-call probe for one model.
#[derive(Debug, Clone, Copy, PartialEq, Eq)]
pub enum ToolCapability {
    /// The probe's echo tool call round-tripped correctly.
    Verified,
    /// The probe ran and failed, with the short reason that
    /// `validate_probe_response` gave.
    Failed(&'static str),
    /// The model never claimed `tools`, so no probe was run.
    Skipped,
}

/// The JSON schema of the probe's `echo` tool: one string member `message`.
pub open spec fn echo_schema() -> Seq<char> {
    "{\"properties\":{\"message\":{\"type\":\"string\"}},\"required\":[\"message\"],\"type\":\"object\"}"@
}

/// The probe request for `model`.
pub open spec fn is_probe_request(r: ChatCompletionRequest, model: Seq<char>) -> bool {
    &&& r.model@ == model
    &&& r.messages@.len() == 1
    &&& text_message(Role::User, "Call the echo tool with message set to \"hello\"."@, r.messages@[0])
    &&& r.n is None && r.stream is None && r.stop is None && r.user is None && r.seed is None && r.response_format is None
    &&& r.max_tokens == Some(128u32)
    &&& r.tools matches Some(ts) && ts@.len() == 1 && ts@[0].tool_type@ == "function"@ && ts@[0].function.name@ == "echo"@ && opt_str(ts@[0].function.description) == Some("Echo a message back."@) && opt_str(ts@[0].function.parameters) == Some(echo_schema()) && ts@[0].function.strict is None
    &&& opt_str(r.tool_choice) == Some("\"required\""@)
}

/// The fixed probe request: ask the model to call the `echo` tool with a
/// known argument; a tool call is required.
pub fn probe_request(model: &str) -> (r: ChatCompletionRequest)
    ensures
        is_probe_request(r, model@),
{
    let mut messages: Vec<ChatMessage> = Vec::new();
    messages.push(ChatMessage {
        role: Role::User,
        content: Some(Content::Text(string_from_str("Call the echo tool with message set to \"hello\"."))),
        name: None,
        tool_calls: None,
        tool_call_id: None,
        reasoning_content: None,
    });
    let mut tools: Vec<Tool> = Vec::new();
    tools.push(Tool {
        tool_type: string_from_str("function"),
        function: FunctionDefinition {
            name: string_from_str("echo"),
            description: Some(string_from_str("Echo a message back.")),
            parameters: Some(string_from_str(
                "{\"properties\":{\"message\":{\"type\":\"string\"}},\"required\":[\"message\"],\"type\":\"object\"}",
            )),
            strict: None,
        },
    });
    ChatCompletionRequest {
        model: string_from_str(model),
        messages,
        n: None,
        stream: None,
        stop: None,
        max_tokens: Some(128),
        user: None,
        tools: Some(tools),
        tool_choice: Some(string_from_str("\"required\"")),
        seed: None,
        response_format: None,
    }
}

/// The verdict on a probe response: the first choice must carry exactly
/// one tool call; that call must be `echo`; its arguments must be JSON
/// whose `message` member is a string equal to `hello` up to ASCII case.
pub open spec fn probe_verdict(r: ChatCompletionResponse) -> Result<(), Seq<char>> {
    if r.choices@.len() == 0 {
        Err("no_tool_calls"@)
    } else {
        match structured_calls(r.choices@[0].message) {
            None => Err("no_tool_calls"@),
            Some(cs) => if cs.len() > 1 {
                Err("multiple_tool_calls"@)
            } else {
                let call = cs[0];
                let args = call.function.arguments@;
                if call.function.name@ != "echo"@ {
                    Err("wrong_function"@)
                } else if !is_json(args) {
                    Err("malformed_json"@)
                } else {
                    match object_member(json_members(args), "message"@) {
                        Some(Some(msg)) => if lower(msg) == "hello"@ { Ok(()) } else { Err("wrong_arguments"@) },
                        _ => Err("wrong_arguments"@),
                    }
                }
            },
        }
    }
}

/// Checks a probe response; the error is one of `no_tool_calls`,
/// `multiple_tool_calls`, `wrong_function`, `malformed_json`,
/// `wrong_arguments`.
pub fn validate_probe_response(response: &ChatCompletionResponse) -> (r: Result<(), &'static str>)
    ensures
        match r {
            Ok(()) => probe_verdict(*response) == Ok::<(), Seq<char>>(()),
            Err(e) => probe_verdict(*response) == Err::<(), Seq<char>>(e@),
        },
{
    if response.choices.len() == 0 {
        return Err("no_tool_calls");
    }
    let calls = match &response.choices[0].message.tool_calls {
        Some(cs) => cs,
        None => {
            return Err("no_tool_calls");
        },
    };
    if calls.len() == 0 {
        return Err("no_tool_calls");
    }
    if calls.len() > 1 {
        return Err("multiple_tool_calls");
    }
    let call = &calls[0];
    if !str_eq(call.function.name.as_str(), "echo") {
        return Err("wrong_function");
    }
    let parsed = parse_json_members(call.function.arguments.as_str());
    if parsed.is_none() {
        return Err("malformed_json");
    }
    match object_member_of(&parsed, "message") {
        Some(Some(msg)) => {
            let l = to_lower(msg.as_str());
            if str_eq(l.as_str(), "hello") {
                Ok(())
            } else {
                Err("wrong_arguments")
            }
        },
        _ => Err("wrong_arguments"),
    }
}

} // verus!

//! The OpenAI-compatible chat message model as far as the switchboard reads
//! it, and the guard that turns away tool requests for models that failed
//! the load-time tool-call probe.
use vstd::prelude::*;
use crate::errors::RuntimeError;
use crate::text::concat_str;
use crate::tool_probe::ToolCapability;

verus! {

#[derive(Debug, Clone, Copy, PartialEq, Eq, Structural)]
pub enum Role {
    System,
    User,
    Assistant,
    Tool,
}

#[derive(Debug, Clone)]
pub enum ContentPart {
    Text { text: String },
    ImageUrl { url: String },
}

#[derive(Debug, Clone)]
pub enum Content {
    Text(String),
    Parts(Vec<ContentPart>),
}

#[derive(Debug, Clone)]
pub struct FunctionCall {
    pub name: String,
    /// The arguments as a JSON text.
    pub arguments: String,
}

#[derive(Debug, Clone)]
pub struct ToolCall {
    pub index: Option<u32>,
    pub id: String,
    /// The call's `type` (always `"function"` in practice).
    pub call_type: String,
    pub function: FunctionCall,
}

#[derive(Debug, Clone)]
pub struct FunctionDefinition {
    pub name: String,
    pub description: Option<String>,
    /// The JSON schema of the parameters, as JSON text.
    pub parameters: Option<String>,
    pub strict: Option<bool>,
}

#[derive(Debug, Clone)]
pub struct Tool {
    /// The tool's `type` (always `"function"` in practice).
    pub tool_type: String,
    pub function: FunctionDefinition,
}

#[derive(Debug, Clone)]
pub struct ChatMessage {
    pub role: Role,
    pub content: Option<Content>,
    pub name: Option<String>,
    pub tool_calls: Option<Vec<ToolCall>>,
    pub tool_call_id: Option<String>,
    pub reasoning_content: Option<String>,
}

#[derive(Debug, Clone)]
pub struct ChatChoice {
    pub index: u32,
    pub message: ChatMessage,
    pub finish_reason: Option<String>,
}

#[derive(Debug, Clone, Copy)]
pub struct Usage {
    pub prompt_tokens: u32,
    pub completion_tokens: u32,
    pub total_tokens: u32,
}

#[derive(Debug, Clone)]
pub struct ChatCompletionResponse {
    pub id: String,
    pub object: String,
    pub created: u64,
    pub model: String,
    pub choices: Vec<ChatChoice>,
    pub usage: Usage,
    pub system_fingerprint: Option<String>,
}

/// The incremental part of one choice of a streamed chunk.
#[derive(Debug, Clone)]
pub struct ChunkDelta {
    pub role: Option<Role>,
    pub content: Option<String>,
    pub tool_calls: Option<Vec<ToolCall>>,
    pub reasoning_content: Option<String>,
}

#[derive(Debug, Clone)]
pub struct ChunkChoice {
    pub index: u32,
    pub delta: ChunkDelta,
    pub finish_reason: Option<String>,
}

/// One chunk of a streamed chat completion.
#[derive(Debug, Clone)]
pub struct ChatCompletionChunk {
    pub id: String,
    pub object: String,
    pub created: u64,
    pub model: String,
    pub choices: Vec<ChunkChoice>,
    pub usage: Option<Usage>,
}

/// A chat completion request as far as the library handles it; the
/// sampling parameters and free-form JSON options travel beside it.
#[derive(Debug, Clone)]
pub struct ChatCompletionRequest {
    pub model: String,
    pub messages: Vec<ChatMessage>,
    pub n: Option<u32>,
    pub stream: Option<bool>,
    pub stop: Option<Vec<String>>,
    pub max_tokens: Option<u32>,
    pub user: Option<String>,
    pub tools: Option<Vec<Tool>>,
    /// `tool_choice` as JSON text.
    pub tool_choice: Option<String>,
    pub seed: Option<i64>,
    /// `response_format` as JSON text.
    pub response_format: Option<String>,
}

/// A tool call as plain values: index, id, type, function name, arguments.
pub open spec fn call_view(c: ToolCall) -> (Option<u32>, Seq<char>, Seq<char>, Seq<char>, Seq<char>) {
    (c.index, c.id@, c.call_type@, c.function.name@, c.function.arguments@)
}

pub open spec fn calls_view(cs: Seq<ToolCall>) -> Seq<(Option<u32>, Seq<char>, Seq<char>, Seq<char>, Seq<char>)> {
    cs.map_values(|c: ToolCall| call_view(c))
}

pub fn clone_tool_call(c: &ToolCall) -> (r: ToolCall)
    ensures
        call_view(r) == call_view(*c),
{
    ToolCall {
        index: c.index,
        id: c.id.clone(),
        call_type: c.call_type.clone(),
        function: FunctionCall { name: c.function.name.clone(), arguments: c.function.arguments.clone() },
    }
}

pub fn clone_tool_calls(cs: &Vec<ToolCall>) -> (r: Vec<ToolCall>)
    ensures
        calls_view(r@) == calls_view(cs@),
{
    let mut out: Vec<ToolCall> = Vec::new();
    let mut i: usize = 0;
    while i < cs.len()
        invariant
            i <= cs.len(),
            out@.len() == i,
            forall|j: int| 0 <= j < i ==> call_view(#[trigger] out@[j]) == call_view(cs@[j]),
        decreases cs.len() - i,
    {
        out.push(clone_tool_call(&cs[i]));
        i = i + 1;
    }
    assert(calls_view(out@) =~= calls_view(cs@));
    out
}

/// Whether a request's `tools` list is present and non-empty.
pub open spec fn has_tools(tools: Option<Vec<Tool>>) -> bool {
    match tools {
        Some(t) => t@.len() > 0,
        None => false,
    }
}

/// The message of the refusal for a model whose probe failed with `reason`.
pub open spec fn gate_message(model: Seq<char>, reason: Seq<char>) -> Seq<char> {
    "Model '"@ + model + "' failed tool-call verification at load ("@ + reason
        + "); remove `tools` from the request or use a model with verified tool support."@
}

/// The guard in front of chat completions: a request that carries tools is
/// answered with `InvalidRequest` exactly when the model's probe verdict is a
/// known failure; chat-only requests, verified or skipped models and models
/// never probed (`None`) pass.
pub fn check_tool_capability_gate(model: &str, tools: &Option<Vec<Tool>>, verdict: Option<ToolCapability>) -> (r: Option<RuntimeError>)
    ensures
        r is Some <==> (has_tools(*tools) && verdict matches Some(ToolCapability::Failed(_))),
        r matches Some(e) ==> (verdict matches Some(ToolCapability::Failed(reason))
            && e matches RuntimeError::InvalidRequest(msg) && msg@ == gate_message(model@, reason@)),
{
    let present = match tools {
        Some(t) => t.len() > 0,
        None => false,
    };
    if !present {
        return None;
    }
    match verdict {
        Some(ToolCapability::Failed(reason)) => {
            let a = concat_str("Model '", model);
            let b = concat_str(a.as_str(), "' failed tool-call verification at load (");
            let c = concat_str(b.as_str(), reason);
            let d = concat_str(c.as_str(), "); remove `tools` from the request or use a model with verified tool support.");
            Some(RuntimeError::InvalidRequest(d))
        },
        _ => None,
    }
}

} // verus!

//! The OpenAI Responses API served through chat completions: a Responses
//! request becomes a chat request any chat backend can answer, and the
//! reply's first message becomes Responses output items.
use vstd::prelude::*;
use crate::chat::{
    ChatCompletionRequest, ChatMessage, Content, ContentPart, FunctionDefinition, Role, Tool, ToolCall, Usage,
};
use crate::classify::part_texts;
use crate::errors::RuntimeError;
use vstd::arithmetic::power::pow;
use crate::json::{json_at, json_lookup, JsonKind, KindView};
use crate::text::{
    clone_opt_str, concat_str, join, join_strings, opt_str, str_eq, str_is_empty, string_from_str, strings_view,
    trim, trim_str,
};

verus! {

/// One input message of a Responses request.
#[derive(Debug, Clone)]
pub struct ResponseInputMessage {
    pub role: String,
    pub content: String,
}

#[derive(Debug, Clone)]
pub enum ResponseInput {
    Text(String),
    Messages(Vec<ResponseInputMessage>),
}

#[derive(Debug, Clone)]
pub struct ResponseFunctionTool {
    pub name: String,
    pub description: Option<String>,
    /// The JSON schema of the parameters, as JSON text.
    pub parameters: String,
    pub strict: Option<bool>,
}

#[derive(Debug, Clone)]
pub enum ResponseTool {
    Function(ResponseFunctionTool),
}

/// A Responses request as far as the library handles it; its sampling
/// parameters (floating point) travel beside it.
#[derive(Debug, Clone)]
pub struct ResponseRequest {
    pub model: String,
    pub input: ResponseInput,
    pub instructions: Option<String>,
    pub max_output_tokens: Option<u32>,
    pub stream: Option<bool>,
    pub tools: Option<Vec<ResponseTool>>,
    /// `tool_choice` as JSON text.
    pub tool_choice: Option<String>,
    pub user: Option<String>,
    /// `response_format` as JSON text.
    pub response_format: Option<String>,
}

#[derive(Debug, Clone)]
pub enum ResponseContent {
    OutputText { text: String, annotations: Vec<String> },
}

#[derive(Debug, Clone)]
pub struct ResponseMessageOutput {
    pub id: String,
    pub status: String,
    pub role: String,
    pub content: Vec<ResponseContent>,
}

#[derive(Debug, Clone)]
pub struct ResponseFunctionCallOutput {
    pub id: String,
    pub call_id: String,
    pub name: String,
    pub arguments: String,
    pub status: String,
}

#[derive(Debug, Clone)]
pub enum ResponseOutput {
    Message(ResponseMessageOutput),
    FunctionCall(ResponseFunctionCallOutput),
}

#[derive(Debug, Clone, Copy)]
pub struct ResponseUsage {
    pub input_tokens: u32,
    pub output_tokens: u32,
    pub total_tokens: u32,
}

#[derive(Debug, Clone)]
pub struct ResponseResult {
    pub id: String,
    pub object: String,
    pub created_at: i64,
    pub model: String,
    pub output: Vec<ResponseOutput>,
    pub usage: ResponseUsage,
    pub status: String,
}

// ---------------------------------------------------------------- identifiers

pub open spec fn is_hex_lower(c: char) -> bool {
    ('0' <= c && c <= '9') || ('a' <= c && c <= 'f')
}

/// A fresh identifier: 32 lower-case hex digits.
pub open spec fn is_simple_uuid(s: Seq<char>) -> bool {
    s.len() == 32 && forall|i: int| 0 <= i < 32 ==> is_hex_lower(#[trigger] s[i])
}

/// A lower-case hexadecimal digit.
pub open spec fn hex_char(n: nat) -> char {
    if n < 10 { ((n + 48) as u32) as char } else { ((n + 87) as u32) as char }
}

/// Hex digit `i` (most significant first) of a 128-bit value.
pub open spec fn nibble(x: u128, i: int) -> nat {
    (((x as int) / pow(16, (31 - i) as nat)) % 16) as nat
}

/// Hex digit `i` of the version-4 UUID built from the random bits `x`: the
/// version digit is `4` and the variant digit keeps only its two low bits
/// under a leading `10`.
pub open spec fn v4_nibble(x: u128, i: int) -> nat {
    if i == 12 {
        4
    } else if i == 16 {
        8 + nibble(x, 16) % 4
    } else {
        nibble(x, i)
    }
}

/// The simple form (32 lower-case hex digits) of the version-4 UUID built
/// from the random bits `x`.
pub open spec fn v4_simple_text(x: u128) -> Seq<char> {
    Seq::new(32, |i: int| hex_char(v4_nibble(x, i)))
}

/// `uuid::Builder::from_random_bytes` on the big-endian bytes of `random`
/// (which sets the version to 4 and the RFC 4122 variant), written by
/// `Uuid::simple` as 32 lower-case hex digits.
#[verifier::external_body]
fn v4_simple(random: u128) -> (r: String)
    ensures
        r@ == v4_simple_text(random),
{
    uuid::Builder::from_random_bytes(random.to_be_bytes()).into_uuid().simple().to_string()
}

/// An identifier with `prefix` and a random part.
pub open spec fn is_fresh_id(id: Seq<char>, prefix: Seq<char>) -> bool {
    id.len() == prefix.len() + 32 && id.subrange(0, prefix.len() as int) == prefix
        && is_simple_uuid(id.subrange(prefix.len() as int, id.len() as int))
}

/// The identifier with `prefix` made from the random bits `random`.
pub open spec fn id_from(prefix: Seq<char>, random: u128) -> Seq<char> {
    prefix + v4_simple_text(random)
}

/// Every identifier made from random bits is a fresh identifier.
pub proof fn lemma_id_from_is_fresh(prefix: Seq<char>, random: u128)
    ensures
        is_fresh_id(id_from(prefix, random), prefix),
{
    let t = v4_simple_text(random);
    assert forall|i: int| 0 <= i < 32 implies is_hex_lower(#[trigger] t[i]) by {
        assert(v4_nibble(random, i) < 16);
    }
    assert(id_from(prefix, random).subrange(0, prefix.len() as int) =~= prefix);
    assert(id_from(prefix, random).subrange(prefix.len() as int, id_from(prefix, random).len() as int) =~= t);
}

/// An identifier with `prefix` whose random part is made from `random`,
/// 128 bits the caller drew.
pub fn fresh_id(prefix: &str, random: u128) -> (r: String)
    ensures
        r@ == id_from(prefix@, random),
        is_fresh_id(r@, prefix@),
{
    let u = v4_simple(random);
    let r = concat_str(prefix, u.as_str());
    proof { lemma_id_from_is_fresh(prefix@, random); }
    r
}

// ---------------------------------------------------------------- request

pub open spec fn text_message(role: Role, text: Seq<char>, m: ChatMessage) -> bool {
    &&& m.role == role
    &&& m.content matches Some(Content::Text(t)) && t@ == text
    &&& m.name is None
    &&& m.tool_calls is None
    &&& m.tool_call_id is None
    &&& m.reasoning_content is None
}

/// The chat role of a Responses message role; anything unknown is a user.
pub open spec fn role_of(role: Seq<char>) -> Role {
    if role == "system"@ {
        Role::System
    } else if role == "assistant"@ {
        Role::Assistant
    } else if role == "tool"@ {
        Role::Tool
    } else {
        Role::User
    }
}

/// The chat messages of a request: its instructions as a system message,
/// then its input, each as a text message.
pub open spec fn chat_messages_match(r: ResponseRequest, ms: Seq<ChatMessage>) -> bool {
    let k: int = if r.instructions is Some { 1 } else { 0 };
    &&& (r.instructions matches Some(ins) ==> text_message(Role::System, ins@, ms[0]))
    &&& match r.input {
        ResponseInput::Text(t) => ms.len() == k + 1 && text_message(Role::User, t@, ms[k]),
        ResponseInput::Messages(xs) => ms.len() == k + xs@.len() && forall|i: int| 0 <= i < xs@.len()
            ==> text_message(role_of(xs@[i].role@), xs@[i].content@, #[trigger] ms[k + i]),
    }
}

/// Why a function tool cannot be offered, if it cannot.
pub open spec fn tool_problem(t: ResponseTool) -> Option<Seq<char>> {
    match t {
        ResponseTool::Function(f) => if trim(f.name@).len() == 0 {
            Some("function tool name must not be empty"@)
        } else if json_at(f.parameters@, seq![]) != Some(Some(KindView::Object)) {
            Some("function tool parameters must be a JSON object"@)
        } else {
            None
        },
    }
}

/// The chat tool of a function tool.
pub open spec fn tool_matches(t: ResponseTool, c: Tool) -> bool {
    match t {
        ResponseTool::Function(f) => {
            &&& c.tool_type@ == "function"@
            &&& c.function.name@ == f.name@
            &&& opt_str(c.function.description) == opt_str(f.description)
            &&& opt_str(c.function.parameters) == Some(f.parameters@)
            &&& c.function.strict == f.strict
        },
    }
}

pub open spec fn first_tool_problem(ts: Seq<ResponseTool>) -> Option<Seq<char>>
    decreases ts.len(),
{
    if ts.len() == 0 {
        None
    } else {
        match first_tool_problem(ts.drop_last()) {
            Some(p) => Some(p),
            None => tool_problem(ts.last()),
        }
    }
}

fn text_chat_message(role: Role, text: &str) -> (m: ChatMessage)
    ensures
        text_message(role, text@, m),
{
    ChatMessage {
        role,
        content: Some(Content::Text(string_from_str(text))),
        name: None,
        tool_calls: None,
        tool_call_id: None,
        reasoning_content: None,
    }
}

fn role_from(role: &str) -> (r: Role)
    ensures
        r == role_of(role@),
{
    if str_eq(role, "system") {
        Role::System
    } else if str_eq(role, "assistant") {
        Role::Assistant
    } else if str_eq(role, "tool") {
        Role::Tool
    } else {
        Role::User
    }
}

fn convert_tools(ts: &Vec<ResponseTool>) -> (r: Result<Vec<Tool>, RuntimeError>)
    ensures
        match first_tool_problem(ts@) {
            Some(p) => r matches Err(RuntimeError::InvalidRequest(m)) && m@ == p,
            None => r matches Ok(cs) && cs@.len() == ts@.len()
                && forall|i: int| 0 <= i < ts@.len() ==> tool_matches(ts@[i], #[trigger] cs@[i]),
        },
{
    let mut out: Vec<Tool> = Vec::new();
    let mut i: usize = 0;
    while i < ts.len()
        invariant
            i <= ts@.len(),
            first_tool_problem(ts@.subrange(0, i as int)) is None,
            out@.len() == i,
            forall|k: int| 0 <= k < i ==> tool_matches(ts@[k], #[trigger] out@[k]),
        decreases ts.len() - i,
    {
        assert(ts@.subrange(0, i + 1).drop_last() =~= ts@.subrange(0, i as int));
        match &ts[i] {
            ResponseTool::Function(f) => {
                let name = trim_str(f.name.as_str());
                if str_is_empty(name.as_str()) {
                    proof { lemma_first_problem_prefix(ts@, i as int + 1); }
                    return Err(RuntimeError::InvalidRequest(string_from_str("function tool name must not be empty")));
                }
                proof { reveal_strlit(""); assert(""@ =~= Seq::<char>::empty()); }
                let is_object = match json_lookup(f.parameters.as_str(), "") {
                    Some(Some(JsonKind::Object)) => true,
                    _ => false,
                };
                if !is_object {
                    proof { lemma_first_problem_prefix(ts@, i as int + 1); }
                    return Err(RuntimeError::InvalidRequest(string_from_str("function tool parameters must be a JSON object")));
                }
                out.push(Tool {
                    tool_type: string_from_str("function"),
                    function: FunctionDefinition {
                        name: f.name.clone(),
                        description: clone_opt_str(&f.description),
                        parameters: Some(f.parameters.clone()),
                        strict: f.strict,
                    },
                });
            },
        }
        i = i + 1;
    }
    assert(ts@.subrange(0, ts@.len() as int) =~= ts@);
    Ok(out)
}

proof fn lemma_first_problem_prefix(ts: Seq<ResponseTool>, n: int)
    requires
        0 < n <= ts.len(),
        first_tool_problem(ts.subrange(0, n - 1)) is None,
        tool_problem(ts[n - 1]) is Some,
    ensures
        first_tool_problem(ts) == tool_problem(ts[n - 1]),
    decreases ts.len() - n,
{
    assert(ts.subrange(0, n).drop_last() =~= ts.subrange(0, n - 1));
    assert(first_tool_problem(ts.subrange(0, n)) == tool_problem(ts[n - 1]));
    if n < ts.len() {
        lemma_first_problem_extend(ts, n);
    } else {
        assert(ts.subrange(0, n) =~= ts);
    }
}

proof fn lemma_first_problem_extend(ts: Seq<ResponseTool>, n: int)
    requires
        0 < n <= ts.len(),
        first_tool_problem(ts.subrange(0, n)) is Some,
    ensures
        first_tool_problem(ts) == first_tool_problem(ts.subrange(0, n)),
    decreases ts.len() - n,
{
    if n < ts.len() {
        assert(ts.subrange(0, n + 1).drop_last() =~= ts.subrange(0, n));
        lemma_first_problem_extend(ts, n + 1);
    } else {
        assert(ts.subrange(0, n) =~= ts);
    }
}

/// The chat request a Responses request is served as; a function tool
/// without a name or with parameters that are not a JSON object is an
/// invalid request.
pub fn to_chat_request(request: &ResponseRequest) -> (r: Result<ChatCompletionRequest, RuntimeError>)
    ensures
        match request.tools {
            Some(ts) => first_tool_problem(ts@) matches Some(p) ==> (r matches Err(RuntimeError::InvalidRequest(m)) && m@ == p),
            None => true,
        },
        (match request.tools { Some(ts) => first_tool_problem(ts@) is None, None => true }) ==> (r matches Ok(c) && {
            &&& c.model@ == request.model@
            &&& chat_messages_match(*request, c.messages@)
            &&& c.max_tokens == request.max_output_tokens
            &&& c.stream == request.stream
            &&& opt_str(c.user) == opt_str(request.user)
            &&& opt_str(c.tool_choice) == opt_str(request.tool_choice)
            &&& opt_str(c.response_format) == opt_str(request.response_format)
            &&& c.n is None && c.stop is None && c.seed is None
            &&& match request.tools {
                Some(ts) => c.tools matches Some(cs) && cs@.len() == ts@.len()
                    && forall|i: int| 0 <= i < ts@.len() ==> tool_matches(ts@[i], #[trigger] cs@[i]),
                None => c.tools is None,
            }
        }),
{
    let tools = match &request.tools {
        Some(ts) => match convert_tools(ts) {
            Ok(cs) => Some(cs),
            Err(e) => {
                return Err(e);
            },
        },
        None => None,
    };
    let mut messages: Vec<ChatMessage> = Vec::new();
    match &request.instructions {
        Some(ins) => {
            messages.push(text_chat_message(Role::System, ins.as_str()));
        },
        None => {},
    }
    let ghost k: int = if request.instructions is Some { 1 } else { 0 };
    let ghost first = messages@;
    match &request.input {
        ResponseInput::Text(t) => {
            messages.push(text_chat_message(Role::User, t.as_str()));
        },
        ResponseInput::Messages(xs) => {
            let mut i: usize = 0;
            while i < xs.len()
                invariant
                    i <= xs@.len(),
                    k == (if request.instructions is Some { 1int } else { 0int }),
                    messages@.len() == k + i,
                    request.instructions matches Some(ins) ==> text_message(Role::System, ins@, messages@[0]),
                    forall|j: int| 0 <= j < i ==> text_message(role_of(xs@[j].role@), xs@[j].content@, #[trigger] messages@[k + j]),
                decreases xs.len() - i,
            {
                let role = role_from(xs[i].role.as_str());
                messages.push(text_chat_message(role, xs[i].content.as_str()));
                i = i + 1;
            }
        },
    }
    Ok(ChatCompletionRequest {
        model: request.model.clone(),
        messages,
        n: None,
        stream: request.stream,
        stop: None,
        max_tokens: request.max_output_tokens,
        user: clone_opt_str(&request.user),
        tools,
        tool_choice: clone_opt_str(&request.tool_choice),
        seed: None,
        response_format: clone_opt_str(&request.response_format),
    })
}

// ---------------------------------------------------------------- output

/// The text of a reply message: its text, or its text parts run together.
pub open spec fn reply_text(c: Option<Content>) -> Seq<char> {
    match c {
        Some(Content::Text(t)) => t@,
        Some(Content::Parts(ps)) => join(part_texts(ps@), seq![]),
        None => seq![],
    }
}

/// A tool call the Responses API can carry: a `function` call with an id
/// and a name.
pub open spec fn well_formed_call(c: ToolCall) -> bool {
    c.call_type@ == "function"@ && trim(c.id@).len() > 0 && trim(c.function.name@).len() > 0
}

pub open spec fn message_output_matches(o: ResponseOutput, text: Seq<char>, random: u128) -> bool {
    o matches ResponseOutput::Message(m) && {
        &&& m.id@ == id_from("msg_"@, random)
        &&& is_fresh_id(m.id@, "msg_"@)
        &&& m.status@ == "completed"@
        &&& m.role@ == "assistant"@
        &&& m.content@.len() == 1
        &&& m.content@[0] matches ResponseContent::OutputText { text: t, annotations } && t@ == text && annotations@.len() == 0
    }
}

pub open spec fn call_output_matches(o: ResponseOutput, c: ToolCall, random: u128) -> bool {
    o matches ResponseOutput::FunctionCall(f) && {
        &&& f.id@ == id_from("fc_"@, random)
        &&& is_fresh_id(f.id@, "fc_"@)
        &&& f.call_id@ == c.id@
        &&& f.name@ == c.function.name@
        &&& f.arguments@ == c.function.arguments@
        &&& f.status@ == "completed"@
    }
}

pub open spec fn reply_calls(m: ChatMessage) -> Seq<ToolCall> {
    match m.tool_calls {
        Some(cs) => cs@,
        None => seq![],
    }
}

fn message_text(content: &Option<Content>) -> (r: String)
    ensures
        r@ == reply_text(*content),
{
    match content {
        Some(Content::Text(t)) => t.clone(),
        Some(Content::Parts(parts)) => {
            let mut texts: Vec<String> = Vec::new();
            let mut i: usize = 0;
            while i < parts.len()
                invariant
                    i <= parts@.len(),
                    strings_view(texts@) == part_texts(parts@.subrange(0, i as int)),
                decreases parts.len() - i,
            {
                assert(parts@.subrange(0, i + 1).drop_last() =~= parts@.subrange(0, i as int));
                match &parts[i] {
                    ContentPart::Text { text } => {
                        texts.push(text.clone());
                    },
                    ContentPart::ImageUrl { .. } => {},
                }
                i = i + 1;
                assert(strings_view(texts@) =~= part_texts(parts@.subrange(0, i as int)));
            }
            assert(parts@.subrange(0, parts@.len() as int) =~= parts@);
            proof { reveal_strlit(""); assert(""@ =~= Seq::<char>::empty()); }
            join_strings(texts.as_slice(), "")
        },
        None => String::new(),
    }
}

/// The Responses output of a reply message: its text as a message item
/// (when there is text), then one function-call item per tool call; a
/// malformed tool call is a backend error. The message item's identifier
/// is made from `random[0]`, that of the `i`-th call from `random[1 + i]`.
pub fn to_response_output(message: &ChatMessage, random: &[u128]) -> (r: Result<Vec<ResponseOutput>, RuntimeError>)
    requires
        random@.len() > reply_calls(*message).len(),
    ensures
        (exists|i: int| 0 <= i < reply_calls(*message).len() && !well_formed_call(#[trigger] reply_calls(*message)[i]))
            ==> (r matches Err(RuntimeError::BackendError(m)) && m@ == "backend returned a malformed function tool call"@),
        (forall|i: int| 0 <= i < reply_calls(*message).len() ==> well_formed_call(#[trigger] reply_calls(*message)[i]))
            ==> (r matches Ok(os) && {
                let k: int = if reply_text(message.content).len() > 0 { 1 } else { 0 };
                &&& os@.len() == k + reply_calls(*message).len()
                &&& (k == 1 ==> message_output_matches(os@[0], reply_text(message.content), random@[0]))
                &&& forall|i: int| 0 <= i < reply_calls(*message).len()
                    ==> call_output_matches(#[trigger] os@[k + i], reply_calls(*message)[i], random@[1 + i])
            }),
{
    let mut output: Vec<ResponseOutput> = Vec::new();
    let text = message_text(&message.content);
    if !str_is_empty(text.as_str()) {
        let id = fresh_id("msg_", random[0]);
        let mut content: Vec<ResponseContent> = Vec::new();
        content.push(ResponseContent::OutputText { text, annotations: Vec::new() });
        output.push(ResponseOutput::Message(ResponseMessageOutput {
            id,
            status: string_from_str("completed"),
            role: string_from_str("assistant"),
            content,
        }));
    }
    let ghost k: int = output@.len() as int;
    let empty: Vec<ToolCall> = Vec::new();
    let calls: &Vec<ToolCall> = match &message.tool_calls {
        Some(cs) => cs,
        None => &empty,
    };
    assert(calls@ == reply_calls(*message));
    let mut i: usize = 0;
    while i < calls.len()
        invariant
            i <= calls@.len(),
            calls@ == reply_calls(*message),
            k == (if reply_text(message.content).len() > 0 { 1int } else { 0int }),
            output@.len() == k + i,
            random@.len() > calls@.len(),
            k == 1 ==> message_output_matches(output@[0], reply_text(message.content), random@[0]),
            forall|j: int| 0 <= j < i ==> well_formed_call(#[trigger] calls@[j]),
            forall|j: int| 0 <= j < i ==> call_output_matches(#[trigger] output@[k + j], calls@[j], random@[1 + j]),
        decreases calls.len() - i,
    {
        let c = &calls[i];
        let id_t = trim_str(c.id.as_str());
        let name_t = trim_str(c.function.name.as_str());
        if !str_eq(c.call_type.as_str(), "function") || str_is_empty(id_t.as_str()) || str_is_empty(name_t.as_str()) {
            return Err(RuntimeError::BackendError(string_from_str("backend returned a malformed function tool call")));
        }
        let id = fresh_id("fc_", random[1 + i]);
        output.push(ResponseOutput::FunctionCall(ResponseFunctionCallOutput {
            id,
            call_id: c.id.clone(),
            name: c.function.name.clone(),
            arguments: c.function.arguments.clone(),
            status: string_from_str("completed"),
        }));
        i = i + 1;
    }
    Ok(output)
}

/// The Responses result of a completed reply; its identifier is made from
/// the random bits `random`.
pub fn response_result(model: &str, created_at: i64, output: Vec<ResponseOutput>, usage: &Usage, random: u128) -> (r: ResponseResult)
    ensures
        r.id@ == id_from("resp_"@, random),
        is_fresh_id(r.id@, "resp_"@),
        r.object@ == "response"@,
        r.created_at == created_at,
        r.model@ == model@,
        r.output@ == output@,
        r.usage.input_tokens == usage.prompt_tokens,
        r.usage.output_tokens == usage.completion_tokens,
        r.usage.total_tokens == usage.total_tokens,
        r.status@ == "completed"@,
{
    ResponseResult {
        id: fresh_id("resp_", random),
        object: string_from_str("response"),
        created_at,
        model: string_from_str(model),
        output,
        usage: ResponseUsage {
            input_tokens: usage.prompt_tokens,
            output_tokens: usage.completion_tokens,
            total_tokens: usage.total_tokens,
        },
        status: string_from_str("completed"),
    }
}

/// A streamed chunk is `completed` once any of its choices has a finish
/// reason, `in_progress` before.
pub fn stream_status(any_finished: bool) -> (r: &'static str)
    ensures
        r@ == (if any_finished { "completed"@ } else { "in_progress"@ }),
{
    if any_finished { "completed" } else { "in_progress" }
}

/// The output item of a streamed chunk: the first choice's text delta
/// (empty when it has none) as an assistant message with the chunk's
/// status, identified by the random bits `random`.
pub fn stream_output(delta_text: Option<&str>, any_finished: bool, random: u128) -> (r: ResponseOutput)
    ensures
        r matches ResponseOutput::Message(m) && {
            &&& m.id@ == id_from("msg_"@, random)
            &&& is_fresh_id(m.id@, "msg_"@)
            &&& m.status@ == (if any_finished { "completed"@ } else { "in_progress"@ })
            &&& m.role@ == "assistant"@
            &&& m.content@.len() == 1
            &&& m.content@[0] matches ResponseContent::OutputText { text, annotations }
                && text@ == (match delta_text { Some(t) => t@, None => seq![] }) && annotations@.len() == 0
        },
{
    let text = match delta_text {
        Some(t) => string_from_str(t),
        None => String::new(),
    };
    let mut content: Vec<ResponseContent> = Vec::new();
    content.push(ResponseContent::OutputText { text, annotations: Vec::new() });
    ResponseOutput::Message(ResponseMessageOutput {
        id: fresh_id("msg_", random),
        status: string_from_str(stream_status(any_finished)),
        role: string_from_str("assistant"),
        content,
    })
}

} // verus!

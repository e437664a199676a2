//! Decisions of the conformance console endpoints: what an inspect run
//! reports and whether it passed, how a compare request is checked and
//! scored, what a template-resolution attempt answers, how history queries
//! are written, and where a run is sent.
use vstd::prelude::*;
use crate::battery::{BatteryCase, BatteryReport, CaseVerdict};
use crate::chat::{ChatCompletionRequest, ChatCompletionResponse, ChatMessage, Tool};
use crate::classify::{classifies, classify_message, ToolCallClassification, ToolCallLocation};
use crate::errors::RuntimeError;
use crate::text::{
    concat_str, decimal, fmt_decimal, join, join_strings, opt_str, str_is_empty, string_from_str, strings_view,
    trim, trim_str,
};

verus! {

/// A chat completion and the classification of each of its choices.
#[derive(Debug, Clone)]
pub struct InspectResponse {
    pub raw_response: ChatCompletionResponse,
    pub classifications: Vec<ToolCallClassification>,
}

/// The inspect report of a reply, recorded under `model_id`: one
/// classification per choice, in order.
pub fn inspect_response(raw_response: ChatCompletionResponse, model_id: &str) -> (r: InspectResponse)
    ensures
        r.raw_response.model@ == model_id@,
        r.raw_response.choices@ == raw_response.choices@,
        r.raw_response.id == raw_response.id,
        r.classifications@.len() == raw_response.choices@.len(),
        forall|i: int| 0 <= i < r.classifications@.len()
            ==> classifies(#[trigger] r.classifications@[i], raw_response.choices@[i].message),
{
    let mut raw = raw_response;
    raw.model = string_from_str(model_id);
    let mut classifications: Vec<ToolCallClassification> = Vec::new();
    let mut i: usize = 0;
    while i < raw.choices.len()
        invariant
            i <= raw.choices@.len(),
            raw.choices@ == raw_response.choices@,
            classifications@.len() == i,
            forall|k: int| 0 <= k < i ==> classifies(#[trigger] classifications@[k], raw_response.choices@[k].message),
        decreases raw.choices.len() - i,
    {
        classifications.push(classify_message(&raw.choices[i].message));
        i = i + 1;
    }
    InspectResponse { raw_response: raw, classifications }
}

/// An inspect run passes when there is at least one choice and every choice
/// put its call in the structured `tool_calls` field.
pub open spec fn all_structured(cs: Seq<ToolCallClassification>) -> bool {
    cs.len() > 0 && forall|i: int| 0 <= i < cs.len() ==> #[trigger] cs[i].location == ToolCallLocation::StructuredToolCalls
}

pub fn inspect_classifications_passed(classifications: &[ToolCallClassification]) -> (r: bool)
    ensures
        r == all_structured(classifications@),
{
    if classifications.len() == 0 {
        return false;
    }
    let mut i: usize = 0;
    while i < classifications.len()
        invariant
            i <= classifications@.len(),
            forall|k: int| 0 <= k < i ==> #[trigger] classifications@[k].location == ToolCallLocation::StructuredToolCalls,
        decreases classifications.len() - i,
    {
        if classifications[i].location != ToolCallLocation::StructuredToolCalls {
            return false;
        }
        i = i + 1;
    }
    true
}

/// The short tag a location is summarized by.
pub open spec fn location_tag(l: ToolCallLocation) -> Seq<char> {
    match l {
        ToolCallLocation::StructuredToolCalls => "tool_calls"@,
        ToolCallLocation::PlainTextJsonDump => "plaintext-json"@,
        ToolCallLocation::LeakedIntoReasoning => "leaked-reasoning"@,
        ToolCallLocation::NoToolCallDetected => "none"@,
    }
}

fn location_tag_exec(l: ToolCallLocation) -> (r: String)
    ensures
        r@ == location_tag(l),
{
    match l {
        ToolCallLocation::StructuredToolCalls => string_from_str("tool_calls"),
        ToolCallLocation::PlainTextJsonDump => string_from_str("plaintext-json"),
        ToolCallLocation::LeakedIntoReasoning => string_from_str("leaked-reasoning"),
        ToolCallLocation::NoToolCallDetected => string_from_str("none"),
    }
}

/// The tags of the classifications, in order.
pub open spec fn tags_of(cs: Seq<ToolCallClassification>) -> Seq<Seq<char>> {
    cs.map_values(|c: ToolCallClassification| location_tag(c.location))
}

/// `Vec::dedup`: runs of equal neighbours reduced to one.
pub open spec fn dedup_runs(s: Seq<Seq<char>>) -> Seq<Seq<char>>
    decreases s.len(),
{
    if s.len() == 0 {
        seq![]
    } else {
        let d = dedup_runs(s.drop_last());
        if d.len() > 0 && d.last() == s.last() { d } else { d.push(s.last()) }
    }
}

/// One line saying where the tool calls landed across the choices.
pub open spec fn classification_summary(cs: Seq<ToolCallClassification>) -> Seq<char> {
    if cs.len() == 0 {
        "no choices"@
    } else if cs.len() == 1 {
        location_tag(cs[0].location)
    } else {
        join(dedup_runs(tags_of(cs)), ", "@)
    }
}

pub fn summarize_classifications(classifications: &[ToolCallClassification]) -> (r: String)
    ensures
        r@ == classification_summary(classifications@),
{
    if classifications.len() == 0 {
        return string_from_str("no choices");
    }
    if classifications.len() == 1 {
        return location_tag_exec(classifications[0].location);
    }
    let ghost tags = tags_of(classifications@);
    let mut parts: Vec<String> = Vec::new();
    let mut i: usize = 0;
    while i < classifications.len()
        invariant
            i <= classifications@.len(),
            tags == tags_of(classifications@),
            tags.len() == classifications@.len(),
            strings_view(parts@) == dedup_runs(tags.subrange(0, i as int)),
        decreases classifications.len() - i,
    {
        let ghost pre = tags.subrange(0, i + 1);
        assert(pre.drop_last() =~= tags.subrange(0, i as int));
        assert(pre.last() == location_tag(classifications@[i as int].location));
        let tag = location_tag_exec(classifications[i].location);
        let n = parts.len();
        let same = n > 0 && crate::text::str_eq(parts[n - 1].as_str(), tag.as_str());
        if !same {
            parts.push(tag);
        }
        i = i + 1;
        assert(strings_view(parts@) =~= dedup_runs(tags.subrange(0, i as int)));
    }
    assert(tags.subrange(0, classifications@.len() as int) =~= tags);
    join_strings(parts.as_slice(), ", ")
}

// ---------------------------------------------------------------- templates

#[derive(Debug, Clone)]
pub struct ResolveTemplateRequest {
    pub model: String,
    pub messages: Vec<ChatMessage>,
    pub tools: Option<Vec<Tool>>,
}

#[derive(Debug, Clone)]
pub struct ResolveTemplateResponse {
    /// The prompt is the backend's own rendering of the template.
    pub resolved: bool,
    pub prompt: Option<String>,
    /// The raw template, when only that could be had.
    pub template_source: Option<String>,
    pub error: Option<String>,
}

/// The answer when the backend's template endpoint replied, with the
/// `prompt` string member of its reply if it had one.
pub fn template_resolved(prompt: Option<String>) -> (r: ResolveTemplateResponse)
    ensures
        r.resolved == prompt is Some,
        opt_str(r.prompt) == opt_str(prompt),
        r.template_source is None,
        r.error is None,
{
    let resolved = prompt.is_some();
    ResolveTemplateResponse { resolved, prompt, template_source: None, error: None }
}

pub open spec fn props_fallback_error(apply_error: Seq<char>) -> Seq<char> {
    "backend does not support live template resolution ("@ + apply_error + "); showing raw template source only"@
}

pub open spec fn unavailable_error(apply_error: Seq<char>, props_error: Seq<char>) -> Seq<char> {
    "template resolution unavailable: /apply-template failed ("@ + apply_error + "), /props fallback also failed ("@
        + props_error + ")"@
}

/// The answer when template application failed but the backend's
/// properties gave the raw template (its `chat_template` string, if any).
pub fn template_from_props(apply_error: &str, template_source: Option<String>) -> (r: ResolveTemplateResponse)
    ensures
        !r.resolved,
        r.prompt is None,
        opt_str(r.template_source) == opt_str(template_source),
        opt_str(r.error) == Some(props_fallback_error(apply_error@)),
{
    let a = concat_str("backend does not support live template resolution (", apply_error);
    let e = concat_str(a.as_str(), "); showing raw template source only");
    ResolveTemplateResponse { resolved: false, prompt: None, template_source, error: Some(e) }
}

/// The answer when both the template endpoint and the properties failed.
pub fn template_unavailable(apply_error: &str, props_error: &str) -> (r: ResolveTemplateResponse)
    ensures
        !r.resolved,
        r.prompt is None,
        r.template_source is None,
        opt_str(r.error) == Some(unavailable_error(apply_error@, props_error@)),
{
    let a = concat_str("template resolution unavailable: /apply-template failed (", apply_error);
    let b = concat_str(a.as_str(), "), /props fallback also failed (");
    let c = concat_str(b.as_str(), props_error);
    let e = concat_str(c.as_str(), ")");
    ResolveTemplateResponse { resolved: false, prompt: None, template_source: None, error: Some(e) }
}

/// How a template-resolution run is summarized in history.
pub fn template_summary(response: &ResolveTemplateResponse) -> (r: &'static str)
    ensures
        r@ == (if response.resolved {
            "resolved"@
        } else if response.template_source is Some {
            "template-only"@
        } else {
            "error"@
        }),
{
    if response.resolved {
        "resolved"
    } else if response.template_source.is_some() {
        "template-only"
    } else {
        "error"
    }
}

// ---------------------------------------------------------------- compare

#[derive(Debug, Clone, Copy, PartialEq, Eq, Structural)]
pub enum CompareMode {
    BatteryCase,
    CustomRequest,
}

#[derive(Debug, Clone)]
pub struct CompareRequest {
    pub model_a: String,
    pub model_b: String,
    pub mode: CompareMode,
    /// Required in `BatteryCase` mode.
    pub case: Option<BatteryCase>,
    /// Required in `CustomRequest` mode; its `model` is replaced per run.
    pub request: Option<ChatCompletionRequest>,
}

#[derive(Debug, Clone)]
pub struct CompareResult {
    pub model: String,
    pub inspect: Option<InspectResponse>,
    pub battery_case: Option<CaseVerdict>,
    pub error: Option<String>,
}

#[derive(Debug, Clone)]
pub struct CompareReport {
    pub model_a: String,
    pub model_b: String,
    pub result_a: CompareResult,
    pub result_b: CompareResult,
}

/// A compare request must carry what its mode runs.
pub fn check_compare_request(request: &CompareRequest) -> (r: Result<(), RuntimeError>)
    ensures
        match r {
            Ok(()) => (request.mode == CompareMode::BatteryCase ==> request.case is Some)
                && (request.mode == CompareMode::CustomRequest ==> request.request is Some),
            Err(RuntimeError::InvalidRequest(m)) => (request.mode == CompareMode::BatteryCase && request.case is None
                && m@ == "mode is 'battery_case' but no case was given"@)
                || (request.mode == CompareMode::CustomRequest && request.request is None
                && m@ == "mode is 'custom_request' but no request body was given"@),
            Err(_) => false,
        },
{
    match request.mode {
        CompareMode::BatteryCase => {
            if request.case.is_none() {
                return Err(RuntimeError::InvalidRequest(string_from_str("mode is 'battery_case' but no case was given")));
            }
        },
        CompareMode::CustomRequest => {
            if request.request.is_none() {
                return Err(RuntimeError::InvalidRequest(
                    string_from_str("mode is 'custom_request' but no request body was given"),
                ));
            }
        },
    }
    Ok(())
}

/// The verdict of `case` in a battery report: the first one for it.
pub fn select_case_verdict(cases: Vec<CaseVerdict>, case: BatteryCase) -> (r: Option<CaseVerdict>)
    ensures
        match r {
            Some(v) => exists|i: int| 0 <= i < cases@.len() && cases@[i] == v && v.case == case
                && forall|j: int| 0 <= j < i ==> (#[trigger] cases@[j]).case != case,
            None => forall|j: int| 0 <= j < cases@.len() ==> (#[trigger] cases@[j]).case != case,
        },
{
    let mut i: usize = 0;
    while i < cases.len()
        invariant
            i <= cases@.len(),
            forall|j: int| 0 <= j < i ==> (#[trigger] cases@[j]).case != case,
        decreases cases.len() - i,
    {
        if cases[i].case == case {
            let mut all = cases;
            let v = all.remove(i);
            return Some(v);
        }
        i = i + 1;
    }
    None
}

/// The result of a run that could not be made.
pub fn error_result(model: &str, error: &str) -> (r: CompareResult)
    ensures
        r.model@ == model@,
        r.inspect is None,
        r.battery_case is None,
        opt_str(r.error) == Some(error@),
{
    CompareResult { model: string_from_str(model), inspect: None, battery_case: None, error: Some(string_from_str(error)) }
}

/// A compare side passes when it has no error and its battery verdict
/// passed, or, without a verdict, its inspect run passed.
pub open spec fn result_passed(r: CompareResult) -> bool {
    &&& r.error is None
    &&& match r.battery_case {
        Some(v) => v.pass,
        None => match r.inspect {
            Some(i) => all_structured(i.classifications@),
            None => false,
        },
    }
}

pub fn compare_result_passed(result: &CompareResult) -> (r: bool)
    ensures
        r == result_passed(*result),
{
    if result.error.is_some() {
        return false;
    }
    match &result.battery_case {
        Some(v) => v.pass,
        None => match &result.inspect {
            Some(i) => inspect_classifications_passed(i.classifications.as_slice()),
            None => false,
        },
    }
}

/// A comparison passes when both sides pass.
pub fn compare_passed(result_a: &CompareResult, result_b: &CompareResult) -> (r: bool)
    ensures
        r == (result_passed(*result_a) && result_passed(*result_b)),
{
    compare_result_passed(result_a) && compare_result_passed(result_b)
}

/// The report of a comparison, each side under the model it ran.
pub fn compare_report(result_a: CompareResult, result_b: CompareResult) -> (r: CompareReport)
    ensures
        r.model_a@ == result_a.model@,
        r.model_b@ == result_b.model@,
        r.result_a == result_a,
        r.result_b == result_b,
{
    let model_a = result_a.model.clone();
    let model_b = result_b.model.clone();
    CompareReport { model_a, model_b, result_a, result_b }
}

/// How a battery run is summarized in history: `"<passed>/<total> pass"`.
pub open spec fn passed_count(cases: Seq<CaseVerdict>) -> nat
    decreases cases.len(),
{
    if cases.len() == 0 {
        0
    } else {
        passed_count(cases.drop_last()) + if cases.last().pass { 1nat } else { 0nat }
    }
}

pub fn battery_summary(report: &BatteryReport) -> (r: String)
    ensures
        r@ == decimal(passed_count(report.cases@)) + "/"@ + decimal(report.cases@.len() as nat) + " pass"@,
{
    let mut passed: u64 = 0;
    let mut i: usize = 0;
    while i < report.cases.len()
        invariant
            i <= report.cases@.len(),
            passed == passed_count(report.cases@.subrange(0, i as int)),
            passed <= i,
        decreases report.cases.len() - i,
    {
        assert(report.cases@.subrange(0, i + 1).drop_last() =~= report.cases@.subrange(0, i as int));
        if report.cases[i].pass {
            passed = passed + 1;
        }
        i = i + 1;
    }
    assert(report.cases@.subrange(0, report.cases@.len() as int) =~= report.cases@);
    let a = fmt_decimal(passed);
    let b = concat_str(a.as_str(), "/");
    let n = fmt_decimal(report.cases.len() as u64);
    let c = concat_str(b.as_str(), n.as_str());
    concat_str(c.as_str(), " pass")
}

// ---------------------------------------------------------------- history

#[derive(Debug, Clone)]
pub struct HistoryQuery {
    /// Rows to return: 50 when absent, clamped to 1..=500.
    pub limit: Option<u32>,
    /// Only runs of this kind.
    pub kind: Option<String>,
    /// Only runs of this (primary) model.
    pub model: Option<String>,
}

#[derive(Debug, Clone, Copy)]
pub struct HistoryClearResponse {
    pub deleted: u64,
}

/// One stored run without its payload.
#[derive(Debug, Clone)]
pub struct ConformanceRunSummary {
    pub id: i64,
    pub run_at: String,
    /// `battery`, `compare`, `inspect` or `resolve_template`.
    pub kind: String,
    pub model: Option<String>,
    pub model_b: Option<String>,
    pub summary: String,
    pub passed: Option<bool>,
}

/// The row limit a history listing uses.
pub open spec fn history_limit(requested: Option<u32>) -> u32 {
    let l = match requested { Some(l) => l, None => 50u32 };
    if l < 1 { 1 } else if l > 500 { 500 } else { l }
}

/// The SQL of a history listing, with its positional parameters in the
/// order kind, model, limit (the absent filters left out).
pub open spec fn history_sql(has_kind: bool, has_model: bool) -> Seq<char> {
    let base = "SELECT id, run_at, kind, model, model_b, summary, passed FROM conformance_runs"@;
    let where_part = if has_kind && has_model {
        " WHERE kind = ?1 AND model = ?2"@
    } else if has_kind {
        " WHERE kind = ?1"@
    } else if has_model {
        " WHERE model = ?1"@
    } else {
        seq![]
    };
    let n: nat = 1 + (if has_kind { 1nat } else { 0nat }) + (if has_model { 1nat } else { 0nat });
    base + where_part + " ORDER BY id DESC LIMIT ?"@ + decimal(n)
}

/// The listing query of a history request: the SQL text and the clamped
/// limit bound to its last parameter.
pub fn history_list_query(query: &HistoryQuery) -> (r: (String, u32))
    ensures
        r.0@ == history_sql(query.kind is Some, query.model is Some),
        r.1 == history_limit(query.limit),
{
    let requested = match query.limit {
        Some(l) => l,
        None => 50,
    };
    let limit = if requested < 1 { 1 } else if requested > 500 { 500 } else { requested };
    let has_kind = query.kind.is_some();
    let has_model = query.model.is_some();
    let base = "SELECT id, run_at, kind, model, model_b, summary, passed FROM conformance_runs";
    let where_part = if has_kind && has_model {
        " WHERE kind = ?1 AND model = ?2"
    } else if has_kind {
        " WHERE kind = ?1"
    } else if has_model {
        " WHERE model = ?1"
    } else {
        ""
    };
    let n: u64 = 1 + (if has_kind { 1u64 } else { 0u64 }) + (if has_model { 1u64 } else { 0u64 });
    let a = concat_str(base, where_part);
    let b = concat_str(a.as_str(), " ORDER BY id DESC LIMIT ?");
    let d = fmt_decimal(n);
    proof {
        reveal_strlit("");
    }
    (concat_str(b.as_str(), d.as_str()), limit)
}

// ---------------------------------------------------------------- targets

/// Where a conformance run goes: an outside OpenAI-compatible endpoint
/// when a base URL is given, else the switchboard's own model.
#[derive(Debug, Clone)]
pub struct ConformanceTarget {
    pub base_url: Option<String>,
    pub api_key: Option<String>,
    pub model: Option<String>,
}

/// A header value as the console reads it: trimmed, and absent when empty.
pub open spec fn header_value(raw: Option<Seq<char>>) -> Option<Seq<char>> {
    match raw {
        Some(v) => if trim(v).len() > 0 { Some(trim(v)) } else { None },
        None => None,
    }
}

fn read_header(raw: Option<&str>) -> (r: Option<String>)
    ensures
        opt_str(r) == header_value(match raw { Some(v) => Some(v@), None => None }),
{
    match raw {
        Some(v) => {
            let t = trim_str(v);
            if str_is_empty(t.as_str()) { None } else { Some(t) }
        },
        None => None,
    }
}

impl ConformanceTarget {
    /// The target named by the `x-conformance-base-url`, `-api-key` and
    /// `-model` header values (each with the same suffix).
    pub fn from_header_values(base_url: Option<&str>, api_key: Option<&str>, model: Option<&str>) -> (r: ConformanceTarget)
        ensures
            opt_str(r.base_url) == header_value(match base_url { Some(v) => Some(v@), None => None }),
            opt_str(r.api_key) == header_value(match api_key { Some(v) => Some(v@), None => None }),
            opt_str(r.model) == header_value(match model { Some(v) => Some(v@), None => None }),
    {
        ConformanceTarget { base_url: read_header(base_url), api_key: read_header(api_key), model: read_header(model) }
    }

    /// Runs for the switchboard's own models are tracked by the scheduler;
    /// runs against an outside endpoint are not.
    pub fn is_managed(&self) -> (r: bool)
        ensures
            r == self.base_url is None,
    {
        self.base_url.is_none()
    }

    /// The model id sent to an outside endpoint: the target's model when it
    /// names one, else the requested id.
    pub fn external_model(&self, requested: &str) -> (r: String)
        ensures
            r@ == (match self.model {
                Some(m) => if m@.len() > 0 { m@ } else { requested@ },
                None => requested@,
            }),
    {
        match &self.model {
            Some(m) => if !str_is_empty(m.as_str()) { m.clone() } else { string_from_str(requested) },
            None => string_from_str(requested),
        }
    }
}

/// The name of a target header: `x-conformance-<field><suffix>`.
pub fn target_header_name(field: &str, suffix: &str) -> (r: String)
    ensures
        r@ == "x-conformance-"@ + field@ + suffix@,
{
    let a = concat_str("x-conformance-", field);
    concat_str(a.as_str(), suffix)
}

} // verus!

use gguf_switchboard::battery::{BatteryCase, CaseVerdict};
use gguf_switchboard::chat::{ChatChoice, ChatCompletionResponse, ChatMessage, Content, Role, Usage};
use gguf_switchboard::classify::{ToolCallClassification, ToolCallLocation};
use gguf_switchboard::conformance::{
    check_compare_request, compare_passed, compare_report, error_result, history_list_query, inspect_classifications_passed,
    inspect_response, select_case_verdict, summarize_classifications, target_header_name, template_from_props,
    template_resolved, template_summary, template_unavailable, CompareMode, CompareRequest, CompareResult,
    ConformanceTarget, HistoryQuery,
};

fn classification(location: ToolCallLocation) -> ToolCallClassification {
    ToolCallClassification {
        location,
        structured_tool_calls: None,
        detected_json_snippet: None,
        content_present: false,
        reasoning_present: false,
        notes: Vec::new(),
    }
}

fn verdict(case: BatteryCase, pass: bool) -> CaseVerdict {
    CaseVerdict { case, pass, reason: None, classification: classification(ToolCallLocation::StructuredToolCalls) }
}

#[test]
fn inspect_passes_only_when_all_choices_have_structured_tool_calls() {
    let structured = vec![classification(ToolCallLocation::StructuredToolCalls)];
    let mixed = vec![
        classification(ToolCallLocation::StructuredToolCalls),
        classification(ToolCallLocation::PlainTextJsonDump),
    ];
    assert!(inspect_classifications_passed(&structured));
    assert!(!inspect_classifications_passed(&mixed));
    assert!(!inspect_classifications_passed(&[]));
}

#[test]
fn compare_passes_only_when_both_results_pass() {
    let passing = CompareResult {
        model: "model-a".to_string(),
        inspect: None,
        battery_case: Some(verdict(BatteryCase::SingleToolCall, true)),
        error: None,
    };
    let failing = CompareResult {
        model: "model-b".to_string(),
        inspect: None,
        battery_case: None,
        error: Some("backend failed".to_string()),
    };
    assert!(compare_passed(&passing, &passing));
    assert!(!compare_passed(&passing, &failing));
}

#[test]
fn summary_names_each_run_of_locations() {
    assert_eq!(summarize_classifications(&[]), "no choices");
    assert_eq!(summarize_classifications(&[classification(ToolCallLocation::LeakedIntoReasoning)]), "leaked-reasoning");
    let cs = vec![
        classification(ToolCallLocation::StructuredToolCalls),
        classification(ToolCallLocation::StructuredToolCalls),
        classification(ToolCallLocation::NoToolCallDetected),
        classification(ToolCallLocation::StructuredToolCalls),
    ];
    assert_eq!(summarize_classifications(&cs), "tool_calls, none, tool_calls");
}

#[test]
fn compare_request_must_carry_what_its_mode_runs() {
    let mut req = CompareRequest {
        model_a: "a".into(),
        model_b: "b".into(),
        mode: CompareMode::BatteryCase,
        case: None,
        request: None,
    };
    assert_eq!(check_compare_request(&req).unwrap_err().message(), "Invalid request: mode is 'battery_case' but no case was given");
    req.case = Some(BatteryCase::ParallelToolCalls);
    assert!(check_compare_request(&req).is_ok());
    req.mode = CompareMode::CustomRequest;
    assert!(check_compare_request(&req).unwrap_err().message().contains("no request body"));
}

#[test]
fn the_first_verdict_of_the_case_is_selected() {
    let cases = vec![
        verdict(BatteryCase::SingleToolCall, true),
        verdict(BatteryCase::ParallelToolCalls, false),
        verdict(BatteryCase::ParallelToolCalls, true),
    ];
    let v = select_case_verdict(cases.clone(), BatteryCase::ParallelToolCalls).unwrap();
    assert!(!v.pass);
    assert!(select_case_verdict(cases, BatteryCase::MultiTurnToolResult).is_none());
}

#[test]
fn compare_report_names_both_models() {
    let r = compare_report(error_result("a", "x"), error_result("b", "y"));
    assert_eq!((r.model_a.as_str(), r.model_b.as_str()), ("a", "b"));
    assert_eq!(r.result_b.error.as_deref(), Some("y"));
}

#[test]
fn inspect_classifies_every_choice_under_the_model_id() {
    let msg = ChatMessage {
        role: Role::Assistant,
        content: Some(Content::Text("plain".into())),
        name: None,
        tool_calls: None,
        tool_call_id: None,
        reasoning_content: None,
    };
    let raw = ChatCompletionResponse {
        id: "i".into(),
        object: "chat.completion".into(),
        created: 1,
        model: "upstream".into(),
        choices: vec![
            ChatChoice { index: 0, message: msg.clone(), finish_reason: None },
            ChatChoice { index: 1, message: msg, finish_reason: None },
        ],
        usage: Usage { prompt_tokens: 1, completion_tokens: 1, total_tokens: 2 },
        system_fingerprint: None,
    };
    let r = inspect_response(raw, "local-id");
    assert_eq!(r.raw_response.model, "local-id");
    assert_eq!(r.classifications.len(), 2);
    assert!(r.classifications.iter().all(|c| c.location == ToolCallLocation::NoToolCallDetected));
}

#[test]
fn template_answers_and_summaries() {
    let ok = template_resolved(Some("<prompt>".into()));
    assert!(ok.resolved);
    assert_eq!(template_summary(&ok), "resolved");
    let props = template_from_props("404", Some("{{ messages }}".into()));
    assert_eq!(
        props.error.as_deref(),
        Some("backend does not support live template resolution (404); showing raw template source only")
    );
    assert_eq!(template_summary(&props), "template-only");
    let none = template_unavailable("a", "b");
    assert_eq!(
        none.error.as_deref(),
        Some("template resolution unavailable: /apply-template failed (a), /props fallback also failed (b)")
    );
    assert_eq!(template_summary(&none), "error");
    assert!(!template_resolved(None).resolved);
}

#[test]
fn history_listing_query() {
    let q = HistoryQuery { limit: None, kind: None, model: None };
    let (sql, limit) = history_list_query(&q);
    assert_eq!(sql, "SELECT id, run_at, kind, model, model_b, summary, passed FROM conformance_runs ORDER BY id DESC LIMIT ?1");
    assert_eq!(limit, 50);
    let q = HistoryQuery { limit: Some(9999), kind: Some("battery".into()), model: Some("m".into()) };
    let (sql, limit) = history_list_query(&q);
    assert!(sql.ends_with(" WHERE kind = ?1 AND model = ?2 ORDER BY id DESC LIMIT ?3"));
    assert_eq!(limit, 500);
    let (sql, limit) = history_list_query(&HistoryQuery { limit: Some(0), kind: None, model: Some("m".into()) });
    assert!(sql.ends_with(" WHERE model = ?1 ORDER BY id DESC LIMIT ?2"));
    assert_eq!(limit, 1);
}

#[test]
fn targets_from_header_values() {
    let t = ConformanceTarget::from_header_values(Some("  http://x/v1 "), Some(""), None);
    assert_eq!(t.base_url.as_deref(), Some("http://x/v1"));
    assert_eq!(t.api_key, None);
    assert!(!t.is_managed());
    assert_eq!(t.external_model("req"), "req");
    let t = ConformanceTarget::from_header_values(None, None, Some("other"));
    assert!(t.is_managed());
    assert_eq!(t.external_model("req"), "other");
    assert_eq!(target_header_name("base-url", "-a"), "x-conformance-base-url-a");
}

use gguf_switchboard::pull::{bench_decision, BenchDecision};
#[test]
fn speed_test_runs_only_for_chat_models_on_a_refreshed_server() {
    assert_eq!(bench_decision("chat", true, true), BenchDecision::Quiet);
    assert_eq!(
        bench_decision("Embedding", false, true),
        BenchDecision::Skip("Speed test skipped: Embedding models have no chat generation".to_string())
    );
    assert_eq!(
        bench_decision("chat", false, false),
        BenchDecision::Skip("Speed test skipped: gguf-switchboard is not running (start it, then re-pull or chat)".to_string())
    );
    assert_eq!(bench_decision("coder", false, true), BenchDecision::Run);
}

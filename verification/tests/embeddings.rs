use gguf_switchboard::batch::EMBEDDING_BATCH_FLOOR;
use gguf_switchboard::config::{ModelConfig, RuntimeProfile};
use gguf_switchboard::embeddings::{
    chunk_embedding_input, effective_batch_limits, estimate_tokens, reject_oversized_inputs, EmbeddingInput,
};
use gguf_switchboard::errors::RuntimeError;

const LIMIT: u32 = EMBEDDING_BATCH_FLOOR;

fn cfg_with(args: Vec<&str>, profile: Option<(u32, u32)>) -> ModelConfig {
    ModelConfig {
        backend: "llama.cpp".into(),
        display_name: "embed".into(),
        command: "llama-server".into(),
        args: args.into_iter().map(String::from).collect(),
        backend_url: "http://127.0.0.1:1/v1".into(),
        health_url: "http://127.0.0.1:1/health".into(),
        priority: false,
        kind: "embedding".into(),
        description: None,
        max_context_length: None,
        min_vram_gb: None,
        capabilities: vec![],
        hf_repo: None,
        ctx_floor: None,
        block_count: None,
        ngl_pinned: false,
        model_fingerprint: None,
        max_context_from_gguf: None,
        runtime_profile: profile.map(|(batch, ubatch)| RuntimeProfile {
            context_size: 8192,
            ngl: 999,
            split_mode: None,
            tensor_split_tenths: None,
            cache_type_k: None,
            cache_type_v: None,
            batch_size: Some(batch),
            ubatch_size: Some(ubatch),
            embedding_concurrency: Some(1),
            reason: "test".into(),
            profile_source: "test".into(),
        }),
    }
}

fn texts_of(i: &EmbeddingInput) -> Vec<String> {
    match i {
        EmbeddingInput::Single(t) => vec![t.clone()],
        EmbeddingInput::Multiple(ts) => ts.clone(),
    }
}

#[test]
fn estimate_tokens_short_text() {
    let tokens = estimate_tokens("hello world");
    assert_eq!(tokens, 3);
}

#[test]
fn estimate_tokens_empty_text() {
    let tokens = estimate_tokens("");
    assert_eq!(tokens, 0);
}

#[test]
fn estimate_tokens_counts_bytes_not_characters() {
    // four two-byte characters: 8 bytes, 2 tokens
    assert_eq!(estimate_tokens("éééé"), 2);
}

#[test]
fn chunk_single_short_input() {
    let input = EmbeddingInput::Single("short text".to_string());
    let batches = chunk_embedding_input(&input, LIMIT);
    assert_eq!(batches.len(), 1);
}

#[test]
fn chunk_single_long_input_preserves_openai_cardinality() {
    let long_text = "word ".repeat(2000);
    let input = EmbeddingInput::Single(long_text);
    let batches = chunk_embedding_input(&input, LIMIT);
    assert_eq!(batches.len(), 1, "one input must remain one embedding input");
    assert!(matches!(batches[0], EmbeddingInput::Single(_)));
}

#[test]
fn chunk_multiple_inputs() {
    let texts = vec!["first text".to_string(), "second text".to_string(), "third text".to_string()];
    let input = EmbeddingInput::Multiple(texts);
    let batches = chunk_embedding_input(&input, LIMIT);
    assert_eq!(batches.len(), 1);
}

#[test]
fn chunk_multiple_large_inputs() {
    let large_text = "word ".repeat(2000);
    let texts = vec![large_text.clone(), large_text.clone(), large_text.clone()];
    let input = EmbeddingInput::Multiple(texts);
    let batches = chunk_embedding_input(&input, LIMIT);
    assert!(batches.len() > 1, "Expected multiple batches, got {}", batches.len());
}

#[test]
fn chunk_budget_follows_a_smaller_batch_size() {
    let text = "word ".repeat(480);
    let input = EmbeddingInput::Multiple(vec![text.clone(), text]);
    assert_eq!(chunk_embedding_input(&input, 2048).len(), 1);
    assert_eq!(chunk_embedding_input(&input, 1024).len(), 2);
}

#[test]
fn chunking_keeps_every_text_in_order() {
    let texts: Vec<String> = (0..7).map(|i| "x".repeat(1000 * (i + 1))).collect();
    let input = EmbeddingInput::Multiple(texts.clone());
    let batches = chunk_embedding_input(&input, 1500);
    let joined: Vec<String> = batches.iter().flat_map(texts_of).collect();
    assert_eq!(joined, texts);
    assert!(batches.iter().all(|b| !texts_of(b).is_empty()));
}

#[test]
fn chunking_an_empty_list_sends_it_as_is() {
    let input = EmbeddingInput::Multiple(vec![]);
    let batches = chunk_embedding_input(&input, 16);
    assert_eq!(batches.len(), 1);
    assert!(texts_of(&batches[0]).is_empty());
}

#[test]
fn batch_limits_prefer_the_runtime_profile_over_configured_args() {
    let cfg = cfg_with(vec!["-b", "2048", "-ub", "2048"], Some((4096, 4096)));
    assert_eq!(effective_batch_limits(&cfg), (4096, 4096));
}

#[test]
fn batch_limits_fall_back_to_args_then_floor() {
    let from_args = cfg_with(vec!["-b", "4096", "-ub", "4096"], None);
    assert_eq!(effective_batch_limits(&from_args), (4096, 4096));
    let bare = cfg_with(vec!["-m", "embed.gguf"], None);
    assert_eq!(effective_batch_limits(&bare), (LIMIT, LIMIT));
}

#[test]
fn batch_limits_never_report_ubatch_above_batch() {
    let cfg = cfg_with(vec![], Some((2048, 8192)));
    let (batch, ubatch) = effective_batch_limits(&cfg);
    assert_eq!((batch, ubatch), (2048, 2048));
}

#[test]
fn oversized_single_input_is_rejected_before_the_backend_sees_it() {
    let input = EmbeddingInput::Single("word ".repeat(2000));
    let error = reject_oversized_inputs(&input, 512).unwrap_err();
    assert!(matches!(error, RuntimeError::InvalidRequest(_)));
    assert!(error.message().contains("physical batch size"));
}

#[test]
fn oversized_input_names_its_index() {
    let input = EmbeddingInput::Multiple(vec!["short".to_string(), "word ".repeat(2000), "short".to_string()]);
    let error = reject_oversized_inputs(&input, 512).unwrap_err();
    assert!(error.message().contains("input[1]"));
}

#[test]
fn inputs_within_the_physical_batch_are_admitted() {
    let input = EmbeddingInput::Single("word ".repeat(424));
    assert!(reject_oversized_inputs(&input, LIMIT).is_ok());
}

#[test]
fn oversized_message_is_exact() {
    let input = EmbeddingInput::Single("a".repeat(40));
    match reject_oversized_inputs(&input, 4) {
        Err(RuntimeError::InvalidRequest(m)) => assert_eq!(
            m,
            "input[0] is about 10 tokens, over the model's physical batch size of 4. Split the text into smaller chunks, or raise `ubatch_size` (and `batch_size`) for this model in models.toml."
        ),
        _ => panic!("expected a refusal"),
    }
}

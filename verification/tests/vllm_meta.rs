use gguf_switchboard::hf_download::HfTreeEntry;
use gguf_switchboard::vllm_meta::{is_safetensors_repo, is_vllm_serving_file, parse_config_json};

fn tree_entry(path: &str) -> HfTreeEntry {
    HfTreeEntry { entry_type: "file".into(), path: path.into(), size: 1, lfs: None }
}

#[test]
fn parses_quantization_config() {
    let meta = parse_config_json(r#"{"quantization_config": {"quant_method": "AWQ"}}"#);
    assert_eq!(meta.quantization.as_deref(), Some("awq"));
}

#[test]
fn parses_speculators_draft_pairing() {
    let meta = parse_config_json(
        r#"{"speculators_config": {"target_model": "org/target-model", "num_speculative_tokens": 4}}"#,
    );
    assert_eq!(meta.draft_model.as_deref(), Some("org/target-model"));
    assert_eq!(meta.num_speculative_tokens, Some(4));
}

#[test]
fn missing_fields_default_to_none() {
    let meta = parse_config_json(r#"{"architectures": ["Qwen2ForCausalLM"]}"#);
    assert_eq!(meta.quantization, None);
    assert_eq!(meta.draft_model, None);
    assert_eq!(meta.architecture.as_deref(), Some("Qwen2ForCausalLM"));
}

#[test]
fn invalid_json_returns_default() {
    let meta = parse_config_json("not json");
    assert!(meta.quantization.is_none());
    assert!(meta.architecture.is_none());
}

#[test]
fn fallbacks_and_limits() {
    let meta = parse_config_json(
        r#"{"quantization_config": {"quantization_method": "FP8"},
            "speculators_config": {"verifier": "org/v", "num_lookahead_tokens": 5000000000},
            "max_position_embeddings": 32768,
            "architectures": {"0": "NotAnArray"}}"#,
    );
    assert_eq!(meta.quantization.as_deref(), Some("fp8"));
    assert_eq!(meta.draft_model.as_deref(), Some("org/v"));
    assert_eq!(meta.num_speculative_tokens, None);
    assert_eq!(meta.max_position_embeddings, Some(32768));
    assert_eq!(meta.architecture, None);
    // a present but non-string method does not fall back
    let meta = parse_config_json(r#"{"quantization_config": {"quant_method": 3, "quantization_method": "awq"}}"#);
    assert_eq!(meta.quantization, None);
}

#[test]
fn safetensors_repositories_and_serving_files() {
    assert!(is_safetensors_repo(&[tree_entry("config.json"), tree_entry("model-00001-of-00002.safetensors")]));
    assert!(!is_safetensors_repo(&[tree_entry("model.safetensors")]));
    assert!(!is_safetensors_repo(&[tree_entry("config.json"), tree_entry("model.gguf")]));
    assert!(is_vllm_serving_file("model.safetensors.index.json"));
    assert!(is_vllm_serving_file("tokenizer_config.json"));
    assert!(!is_vllm_serving_file("pytorch_model.bin"));
    assert!(!is_vllm_serving_file("sub/config.json"));
}

use gguf_switchboard::hf_download::HfTreeEntry;
use gguf_switchboard::pull_vllm::{
    not_servable_message, parse_pull_vllm_args, registry_path_for, vllm_dest_dir, vllm_kind, vllm_min_vram_gb,
    weights_mb,
};

fn args(v: &[&str]) -> Vec<String> {
    v.iter().map(|s| s.to_string()).collect()
}

fn entry(path: &str, size: u64) -> HfTreeEntry {
    HfTreeEntry { entry_type: "file".to_string(), path: path.to_string(), size, lfs: None }
}

#[test]
fn pull_vllm_reads_every_flag() {
    let a = parse_pull_vllm_args(&args(&[
        "vllm", "Qwen/Qwen2.5-7B-Instruct-AWQ", "--dir", "/m", "--registry", "r.toml", "--connections", "4",
        "--draft", "org/draft", "--num-speculative-tokens", "3", "--attention-backend", "FLASHINFER",
        "--tensor-parallel-size", "2", "--gpu-memory-utilization", "0.85", "--served-model-name", "qwen", "--force",
    ]))
    .unwrap();
    assert_eq!(a.repo, "Qwen/Qwen2.5-7B-Instruct-AWQ");
    assert_eq!(a.dest_override.as_deref(), Some("/m"));
    assert_eq!(a.models_file.as_deref(), Some("r.toml"));
    assert_eq!(a.connections, 4);
    assert_eq!(a.draft_repo.as_deref(), Some("org/draft"));
    assert_eq!(a.num_speculative_tokens, Some(3));
    assert_eq!(a.attention_backend.as_deref(), Some("FLASHINFER"));
    assert_eq!(a.tensor_parallel_size, Some(2));
    assert_eq!(a.gpu_memory_utilization.as_deref(), Some("0.85"));
    assert_eq!(a.served_model_name.as_deref(), Some("qwen"));
    assert!(a.force);
}

#[test]
fn pull_vllm_defaults_and_errors() {
    let a = parse_pull_vllm_args(&args(&["vllm", "org/m"])).unwrap();
    assert_eq!(a.connections, 8);
    assert!(!a.force);
    assert_eq!(a.gpu_memory_utilization, None);
    assert_eq!(
        parse_pull_vllm_args(&args(&["vllm"])).unwrap_err(),
        "models pull vllm: missing repository id (e.g. Qwen/Qwen2.5-7B-Instruct)"
    );
    assert_eq!(
        parse_pull_vllm_args(&args(&["vllm", "org/m", "--dir"])).unwrap_err(),
        "models pull vllm: missing value for --dir"
    );
    assert_eq!(
        parse_pull_vllm_args(&args(&["vllm", "org/m", "--tensor-parallel-size", "two"])).unwrap_err(),
        "models pull vllm: invalid value for --tensor-parallel-size"
    );
    assert_eq!(
        parse_pull_vllm_args(&args(&["vllm", "org/m", "--gpu-memory-utilization", "most"])).unwrap_err(),
        "models pull vllm: invalid value for --gpu-memory-utilization"
    );
    assert_eq!(
        parse_pull_vllm_args(&args(&["vllm", "org/m", "--connections", "17"])).unwrap_err(),
        "models pull: --connections must be an integer from 1 to 16"
    );
    assert_eq!(
        parse_pull_vllm_args(&args(&["vllm", "org/m", "--bogus"])).unwrap_err(),
        "models pull vllm: unknown flag '--bogus'"
    );
}

#[test]
fn pull_vllm_places_and_registers() {
    assert_eq!(vllm_dest_dir("/data/vllm-models", "Qwen/Qwen2.5-7B"), "/data/vllm-models/Qwen__Qwen2.5-7B");
    assert_eq!(registry_path_for(&Some("x.toml".to_string()), "/b", true), "x.toml");
    assert_eq!(registry_path_for(&None, "/b", true), "/b/models.toml");
    assert_eq!(registry_path_for(&None, "/b", false), "models.toml");
    assert_eq!(vllm_min_vram_gb(0), 1);
    assert_eq!(vllm_min_vram_gb(1024), 1);
    assert_eq!(vllm_min_vram_gb(1025), 2);
    assert_eq!(vllm_kind("org/e5-embed", &None), "embedding");
    assert_eq!(vllm_kind("BAAI/bge-reranker-v2", &None), "reranker");
    assert!(not_servable_message("a/b").starts_with("a/b does not look like a vLLM-servable safetensors repo"));
}

#[test]
fn weights_count_only_safetensors_serving_files() {
    let tree = vec![
        entry("model-00001-of-00002.safetensors", 3 << 30),
        entry("model-00002-of-00002.safetensors", 1 << 30),
        entry("model.safetensors.index.json", 1 << 20),
        entry("config.json", 1 << 20),
        entry("original/consolidated.pth", 8 << 30),
    ];
    assert_eq!(weights_mb(&tree), 4096);
}

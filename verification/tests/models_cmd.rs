use gguf_switchboard::hf_download::HfTreeEntry;
use gguf_switchboard::models_cmd::{
    alias_from_repo, extract_quant, format_hardware_summary, format_mb, infer_kind_from_filename, is_auxiliary_model_file,
    is_model_gguf, is_supported, parse_connections, sanitize_repo_dirname, select_quant_entry, split_model_part,
};

fn tree_entry(path: &str, size: u64) -> HfTreeEntry {
    HfTreeEntry { entry_type: "file".to_string(), path: path.to_string(), size, lfs: None }
}

#[test]
fn extract_quant_handles_dot_before_quant_label() {
    assert_eq!(extract_quant("nomic-embed-text-v1.5.Q4_K_M.gguf"), "Q4_K_M");
}

#[test]
fn extract_quant_rejects_descriptive_q_tokens() {
    assert_eq!(extract_quant("model-Q4KExperts-Q8Out-chat.gguf"), "");
    assert_eq!(extract_quant("model-Q2KDown-chat.gguf"), "");
}

#[test]
fn quant_selector_prefers_an_exact_quant() {
    let entries = [tree_entry("model-Q4_K_S.gguf", 3_000), tree_entry("model-Q4_K_M.gguf", 4_000)];
    let candidates = entries.iter().collect::<Vec<_>>();
    let selected = select_quant_entry(&candidates, "q4_k_m", 0, "org/model").unwrap();
    assert_eq!(selected.path, "model-Q4_K_M.gguf");
}

#[test]
fn quant_selector_uses_q4_family_preference_order() {
    let entries = [
        tree_entry("model-Q4_0.gguf", 3_000),
        tree_entry("model-Q4_K_S.gguf", 3_500),
        tree_entry("model-Q4_K_M.gguf", 4_000),
    ];
    let candidates = entries.iter().collect::<Vec<_>>();
    let selected = select_quant_entry(&candidates, "Q4", 0, "org/model").unwrap();
    assert_eq!(selected.path, "model-Q4_K_M.gguf");
}

#[test]
fn quant_selector_maps_k_m_to_q4_k_m() {
    let entries = [
        tree_entry("model-Q3_K_M.gguf", 3_000),
        tree_entry("model-Q4_K_M.gguf", 4_000),
        tree_entry("model-Q5_K_M.gguf", 5_000),
    ];
    let candidates = entries.iter().collect::<Vec<_>>();
    let selected = select_quant_entry(&candidates, "K_M", 0, "org/model").unwrap();
    assert_eq!(selected.path, "model-Q4_K_M.gguf");
}

#[test]
fn quant_selector_auto_chooses_largest_quant_with_headroom() {
    let entries = [
        tree_entry("model-Q3_K_M.gguf", 3_000),
        tree_entry("model-Q4_K_M.gguf", 4_000),
        tree_entry("model-Q5_K_M.gguf", 5_000),
    ];
    let candidates = entries.iter().collect::<Vec<_>>();
    let selected = select_quant_entry(&candidates, "auto", 4_800, "org/model").unwrap();
    assert_eq!(selected.path, "model-Q4_K_M.gguf");
}

#[test]
fn quant_selector_auto_rejects_hardware_with_no_fitting_quant() {
    let entries = [tree_entry("model-Q2_K.gguf", 3_000)];
    let candidates = entries.iter().collect::<Vec<_>>();
    let error = select_quant_entry(&candidates, "auto", 3_599, "org/model").unwrap_err();
    assert!(error.contains("no quantization fits"));
}

#[test]
fn quant_selector_auto_ignores_auxiliary_and_split_files() {
    let entries = [
        tree_entry("model-Q8_0-00001-of-00002.GGUF", 8_000),
        tree_entry("model-speculator-Q6_K.gguf", 6_000),
        tree_entry("model-Q4_K_M.gguf", 4_000),
    ];
    let candidates = entries.iter().collect::<Vec<_>>();
    let selected = select_quant_entry(&candidates, "auto", 9_600, "org/model").unwrap();
    assert_eq!(selected.path, "model-Q4_K_M.gguf");
}

#[test]
fn quant_selector_auto_rejects_auxiliary_repository() {
    let entries = [tree_entry("model-Q4_K_M.gguf", 4_000)];
    let candidates = entries.iter().collect::<Vec<_>>();
    let error = select_quant_entry(&candidates, "auto", 4_800, "org/model-drafter-GGUF").unwrap_err();
    assert!(error.contains("auxiliary repository"));
}

#[test]
fn support_estimate_reserves_twenty_percent_headroom() {
    assert!(is_supported(Some(100), 120));
    assert!(!is_supported(Some(100), 119));
}

#[test]
fn support_estimate_rejects_unknown_size_and_accepts_cpu_capacity() {
    assert!(!is_supported(None, 1_000));
    assert!(is_supported(Some(800), 960));
}

#[test]
fn search_output_renders_hardware_capacity_in_binary_gib() {
    assert_eq!(
        format_hardware_summary(65_536, 24_576),
        "Hardware: System RAM 64.0 GiB | NVIDIA VRAM 24.0 GiB | Total 88.0 GiB"
    );
}

#[test]
fn connections_accept_supported_range() {
    assert_eq!(parse_connections("1"), Ok(1));
    assert_eq!(parse_connections("8"), Ok(8));
    assert_eq!(parse_connections("16"), Ok(16));
}

#[test]
fn connections_reject_invalid_values() {
    assert!(parse_connections("0").is_err());
    assert!(parse_connections("17").is_err());
    assert!(parse_connections("fast").is_err());
}

#[test]
fn split_parts_are_recognized() {
    assert_eq!(split_model_part("model-Q8_0-00001-of-00002.gguf"), Some(("model-Q8_0".to_string(), 1, 2)));
    assert_eq!(split_model_part("model-Q8_0.gguf"), None);
    assert_eq!(split_model_part("model-00003-of-00002.gguf"), None);
}

#[test]
fn model_and_auxiliary_files() {
    assert!(is_model_gguf("a/b/model.GGUF"));
    assert!(!is_model_gguf("mmproj-model-f16.gguf"));
    assert!(is_auxiliary_model_file("DeepSeek-V4-Flash-MTP-Q4K-Q8_0-F32.gguf"));
    assert!(is_auxiliary_model_file("dspark-DeepSeek-V4-Flash-Q8_0.gguf"));
    assert!(!is_auxiliary_model_file("model-Q4_K_M.gguf"));
}

#[test]
fn repository_names_become_dirs_and_aliases() {
    assert_eq!(sanitize_repo_dirname("org/model"), "org__model");
    assert_eq!(alias_from_repo("Qwen/Qwen2.5-7B-Instruct"), "qwen2.5-7b-instruct");
    assert_eq!(infer_kind_from_filename("nomic-embed-text.gguf"), "embedding");
    assert_eq!(format_mb(5_243_000_001), "5244 MB");
}

#[test]
fn complete_model_options_extracts_named_normal_quants() {
    let entries = [
        tree_entry("model-Q4_K_M.gguf", 4_000),
        tree_entry("model-Q8_0.gguf", 8_000),
        tree_entry("model.gguf", 2_000),
    ];
    let options = gguf_switchboard::model_options::complete_model_options(&entries);
    assert_eq!(
        options.iter().map(|option| (option.quant.as_str(), option.bytes)).collect::<Vec<_>>(),
        vec![("Q4_K_M", 4_000), ("Q8_0", 8_000)]
    );
}

#[test]
fn complete_model_options_excludes_auxiliary_dspark_and_mtp_files() {
    let entries = [
        tree_entry("dspark-DeepSeek-V4-Flash-Q8_0.gguf", 10_000),
        tree_entry("DeepSeek-V4-Flash-MTP-Q4K-Q8_0-F32.gguf", 3_500),
        tree_entry("DeepSeek-V4-Flash-Q4_K_M.gguf", 80_000),
        tree_entry("DeepSeek-V4-Pro-Qwen3.5-9B-MTP-Q4_K_M.gguf", 5_400),
    ];
    let options = gguf_switchboard::model_options::complete_model_options(&entries);
    assert_eq!(options.len(), 1);
    assert_eq!(options[0].quant, "Q4_K_M");
    assert_eq!(options[0].bytes, 5_400);
}

#[test]
fn complete_model_options_groups_splits_and_rejects_incomplete_sets() {
    let entries = [
        tree_entry("model-Q5_K_M-00001-of-00002.gguf", 2_000),
        tree_entry("model-Q5_K_M-00002-of-00002.gguf", 3_000),
        tree_entry("model-Q6_K-00001-of-00002.gguf", 3_000),
    ];
    let options = gguf_switchboard::model_options::complete_model_options(&entries);
    assert_eq!(options.len(), 1);
    assert_eq!(options[0].quant, "Q5_K_M");
    assert_eq!(options[0].bytes, 5_000);
}

#[test]
fn complete_model_options_deduplicates_quant_to_smallest_size() {
    let entries = [tree_entry("a-Q4_K_M.gguf", 4_500), tree_entry("b-Q4_K_M.gguf", 4_000)];
    let options = gguf_switchboard::model_options::complete_model_options(&entries);
    assert_eq!(options.len(), 1);
    assert_eq!(options[0].quant, "Q4_K_M");
    assert_eq!(options[0].bytes, 4_000);
}

use gguf_switchboard::fit::HardwareSummary;
use gguf_switchboard::hf_download::HfTreeEntry;
use gguf_switchboard::models_cmd::render_search_table;
use gguf_switchboard::search::{
    assess_repository, is_standalone_model,
    parse_search_args, parse_search_vllm_args, sample_pull_command, search_commands_help, search_mode,
    search_output, search_rows, search_vllm_output, vllm_alternative, vllm_candidate, AssessmentCells, QuantPick,
    SearchHit, SearchMode, VllmCandidate,
};
use gguf_switchboard::vllm_meta::VllmMetadata;

fn args(v: &[&str]) -> Vec<String> {
    v.iter().map(|s| s.to_string()).collect()
}

fn pick(quant: &str, tokens_per_sec: &str, quality: &str) -> QuantPick {
    QuantPick { quant: quant.to_string(), tokens_per_sec: tokens_per_sec.to_string(), quality_score: quality.to_string() }
}

fn hit(id: &str, files: &[&str], total: Option<u64>, context: Option<u64>, arch: Option<&str>) -> SearchHit {
    SearchHit {
        id: Some(id.to_string()),
        sibling_files: files.iter().map(|f| f.to_string()).collect(),
        gguf_total: total,
        context_length: context,
        architecture: arch.map(|a| a.to_string()),
        tags: vec![],
    }
}

fn no_assessment() -> AssessmentCells {
    AssessmentCells { fit_score: "0".to_string(), fastest: None, balanced: None, best_precision: None, quants: vec![] }
}

#[test]
fn search_table_renders_fit_score_speed_and_precision() {
    let hits = vec![
        hit("org/gemma-small", &["gemma-q4.gguf"], Some(4_000_000_000), Some(8192), Some("gemma")),
        hit("org/gemma-large", &[], None, None, None),
    ];
    let assessments = vec![AssessmentCells {
        fit_score: "95".to_string(),
        fastest: Some(pick("Q4_K_M", "42", "96.7")),
        balanced: Some(pick("Q4_K_M", "42", "96.7")),
        best_precision: Some(pick("Q4_K_M", "42", "96.7")),
        quants: vec!["Q4_K_M".to_string()],
    }];
    let table = render_search_table(&search_rows(&hits, &assessments));

    let header = table.lines().next().unwrap();
    assert!(header.contains("FIT"));
    assert!(header.contains("SPEED"));
    assert!(header.contains("BALANCED"));
    assert!(header.contains("PRECISION"));
    assert!(!header.contains("SUPPORTED"));
    assert!(table.lines().any(|line| line.contains("org/gemma-small")
        && line.contains("95")
        && line.contains("42tok/s")
        && line.contains("96.7%")));
    assert!(table.lines().any(|line| line.contains("org/gemma-large") && line.trim_end().ends_with('-')));
}

#[test]
fn search_output_aligns_long_repository_rows_and_places_quant_last() {
    let hits = vec![
        hit("org/short", &[], Some(4_000), None, Some("llama")),
        hit("org/a-very-long-repository-name-that-used-to-overflow", &[], Some(8_000), None, Some("llama")),
    ];
    let assessments = vec![AssessmentCells {
        fit_score: "95".to_string(),
        fastest: Some(pick("Q4_K_M", "42", "96.7")),
        balanced: None,
        best_precision: None,
        quants: vec!["Q4_K_M".to_string()],
    }];

    let table = render_search_table(&search_rows(&hits, &assessments));
    let lines = table.lines().collect::<Vec<_>>();
    let delimiters = |line: &str| line.match_indices(" | ").map(|(index, _)| index).collect::<Vec<_>>();

    assert_eq!(delimiters(lines[0]), delimiters(lines[1]));
    assert_eq!(delimiters(lines[0]), delimiters(lines[2]));
    assert!(lines[0].ends_with("QUANT"));
    assert!(lines[1].ends_with("Q4_K_M"));
    assert!(lines[2].ends_with('-'));
}

#[test]
fn search_output_builds_speed_balanced_and_precision_pull_commands() {
    let hits = vec![SearchHit {
        id: Some("org/model".to_string()),
        sibling_files: vec![],
        gguf_total: None,
        context_length: None,
        architecture: None,
        tags: vec![],
    }];
    let three_distinct_winners = vec![AssessmentCells {
        fit_score: "90".to_string(),
        fastest: Some(pick("Q3_K_M", "55", "91.3")),
        balanced: Some(pick("Q4_K_M", "42", "96.7")),
        best_precision: Some(pick("Q6_K", "28", "99.6")),
        quants: vec![],
    }];

    let command = sample_pull_command(&hits, &three_distinct_winners).expect("command");
    assert!(command.contains("--quant Q3_K_M") && command.contains("fastest"));
    assert!(command.contains("--quant Q4_K_M") && command.contains("balanced"));
    assert!(command.contains("--quant Q6_K") && command.contains("least precision loss"));
    assert_eq!(command.lines().count(), 3);

    let single_winner = vec![AssessmentCells {
        fit_score: "90".to_string(),
        fastest: Some(pick("Q4_K_M", "42", "96.7")),
        balanced: Some(pick("Q4_K_M", "42", "96.7")),
        best_precision: Some(pick("Q4_K_M", "42", "96.7")),
        quants: vec![],
    }];
    let command = sample_pull_command(&hits, &single_winner).expect("command");
    assert_eq!(command.lines().count(), 1);

    assert_eq!(sample_pull_command(&hits, &[no_assessment()]), None);
}

#[test]
fn pull_command_lines_are_written_exactly() {
    let hits = vec![hit("org/model", &[], None, None, None)];
    let a = vec![AssessmentCells {
        fit_score: "90".to_string(),
        fastest: Some(pick("Q3_K_M", "55", "91.3")),
        balanced: Some(pick("Q4_K_M", "42", "96.7")),
        best_precision: Some(pick("Q3_K_M", "55", "91.3")),
        quants: vec![],
    }];
    assert_eq!(
        sample_pull_command(&hits, &a).unwrap(),
        "Try: ggs models pull org/model --quant Q3_K_M   (fastest, ~55 tok/s est.)\n     ggs models pull org/model --quant Q4_K_M   (balanced, ~42 tok/s / ~96.7% quality est.)"
    );
}

#[test]
fn search_rows_fill_every_cell() {
    let hits = vec![hit("org/m", &["a.gguf", "b.GGUF", "c.gguf", "README.md"], Some(4_000_000_001), Some(8192), Some("llama"))];
    let a = vec![AssessmentCells {
        fit_score: "80".to_string(),
        fastest: Some(pick("Q4_K_M", "42", "96.7")),
        balanced: Some(pick("Q5_K_M", "35", "98.1")),
        best_precision: Some(pick("Q8_0", "20", "99.9")),
        quants: vec!["Q4_K_M".to_string(), "Q5_K_M".to_string(), "Q8_0".to_string()],
    }];
    let rows = search_rows(&hits, &a);
    let r = &rows[0];
    assert_eq!(r.repo, "org/m");
    assert_eq!(r.files, "2");
    assert_eq!(r.size, "4001 MB");
    assert_eq!(r.fit, "80");
    assert_eq!(r.context, "8192 tok");
    assert_eq!(r.arch, "llama");
    assert_eq!(r.speed, "Q4_K_M ~42tok/s");
    assert_eq!(r.balanced, "Q5_K_M ~35tok/s/~98.1%");
    assert_eq!(r.precision, "Q8_0 ~99.9%");
    assert_eq!(r.quants, "Q4_K_M,Q5_K_M,Q8_0");

    let anonymous = vec![SearchHit { id: None, sibling_files: vec![], gguf_total: None, context_length: None, architecture: None, tags: vec![] }];
    let rows = search_rows(&anonymous, &[]);
    assert_eq!(rows[0].repo, "?");
    assert_eq!(rows[0].files, "0");
    assert_eq!(rows[0].size, "");
    assert_eq!(rows[0].fit, "-");
    assert_eq!(rows[0].quants, "-");
}

#[test]
fn search_arguments_are_read_in_order() {
    let a = parse_search_args(&args(&["search", "qwen", "--limit", "5", "--ram-bandwidth-gbps", "89.6"])).unwrap();
    assert_eq!(a.query, "qwen");
    assert_eq!(a.limit, 5);
    assert_eq!(a.ram_bandwidth_gbps.as_deref(), Some("89.6"));
    let d = parse_search_args(&args(&["search", "llama"])).unwrap();
    assert_eq!(d.limit, 10);
    assert_eq!(d.ram_bandwidth_gbps, None);
    assert_eq!(parse_search_args(&args(&["search"])).unwrap_err(), "models search: missing search query");
    assert_eq!(parse_search_args(&args(&["search", "q", "--limit"])).unwrap_err(), "models search: missing value for --limit");
    assert_eq!(parse_search_args(&args(&["search", "q", "--limit", "x"])).unwrap_err(), "models search: invalid value for --limit");
    assert_eq!(
        parse_search_args(&args(&["search", "q", "--ram-bandwidth-gbps", "fast"])).unwrap_err(),
        "models search: invalid value for --ram-bandwidth-gbps"
    );
    assert_eq!(
        parse_search_args(&args(&["search", "q", "--ram-bandwidth-gbps"])).unwrap_err(),
        "models search: missing value for --ram-bandwidth-gbps"
    );
    assert_eq!(parse_search_args(&args(&["search", "q", "--fast"])).unwrap_err(), "models search: unknown flag '--fast'");
    assert!(parse_search_args(&args(&["search", "q", "--ram-bandwidth-gbps", "1e2"])).is_ok());
    assert!(parse_search_args(&args(&["search", "q", "--ram-bandwidth-gbps", ".5"])).is_ok());
    assert!(parse_search_args(&args(&["search", "q", "--ram-bandwidth-gbps", "."])).is_err());
}

#[test]
fn vllm_search_mode_and_arguments() {
    assert_eq!(search_mode(&args(&["search", "vllm", "qwen"])), SearchMode::Vllm);
    assert_eq!(search_mode(&args(&["search", "qwen"])), SearchMode::Gguf);
    let a = parse_search_vllm_args(&args(&["vllm", "qwen"])).unwrap();
    assert_eq!(a.query, "qwen");
    assert_eq!(a.limit, 30);
    assert_eq!(
        parse_search_vllm_args(&args(&["vllm", "q", "--ram-bandwidth-gbps", "1"])).unwrap_err(),
        "models search vllm: unknown flag '--ram-bandwidth-gbps'"
    );
    assert_eq!(parse_search_vllm_args(&args(&["vllm"])).unwrap_err(), "models search vllm: missing search query");
}

#[test]
fn empty_search_says_nothing_was_found() {
    let out = search_output("qwen", &[], &[], 0, 0, "ignored", &None);
    assert_eq!(out, "No GGUF models found for \"qwen\"\n");
}

#[test]
fn search_output_points_to_a_vllm_build() {
    let hits = vec![hit("org/m-GGUF", &["m.gguf"], None, None, None)];
    let plain = vec![hit("org/m-GGUF", &["m.gguf"], None, None, None), hit("org/m", &["model.safetensors"], None, None, None)];
    let out = search_output("m", &hits, &[], 65_536, 24_576, "Speed model inputs: test", &Some(plain));
    assert!(out.starts_with("Hardware: System RAM 64.0 GiB | NVIDIA VRAM 24.0 GiB | Total 88.0 GiB\nSpeed model inputs: test\n\nREPO"));
    assert!(out.contains("\n★ A vLLM-servable (safetensors) build is also available: org/m\n"));
    assert!(out.ends_with(&search_commands_help()));
    assert!(!search_output("m", &hits, &[], 1, 1, "s", &None).contains("★"));
}

#[test]
fn vllm_alternative_needs_a_named_safetensors_hit() {
    let unnamed = SearchHit { id: None, sibling_files: vec!["w.safetensors".to_string()], gguf_total: None, context_length: None, architecture: None, tags: vec![] };
    assert_eq!(vllm_alternative(&[unnamed.clone()]), None);
    assert_eq!(vllm_alternative(&[unnamed, hit("a/b", &["x.safetensors"], None, None, None)]), Some("a/b".to_string()));
}

fn entry(path: &str, size: u64) -> HfTreeEntry {
    HfTreeEntry { entry_type: "file".to_string(), path: path.to_string(), size, lfs: None }
}

fn hardware(total_vram_mb: u64) -> HardwareSummary {
    HardwareSummary { gpus: vec![], total_vram_mb, free_vram_mb: total_vram_mb, system_ram_mb: 65_536, hardware_fingerprint: String::new() }
}

#[test]
fn vllm_candidates_need_weights_and_config() {
    let tree = vec![entry("config.json", 700), entry("model-00001.safetensors", 3 << 30), entry("model-00002.safetensors", 1 << 30)];
    let c = vllm_candidate("org/m", &tree, None).unwrap();
    assert_eq!(c.repo, "org/m");
    assert_eq!(c.size_bytes, 4 << 30);
    assert_eq!(c.meta.quantization, None);
    assert!(vllm_candidate("org/m", &[entry("model.safetensors", 10)], None).is_none());
}

#[test]
fn vllm_search_lists_fit_and_suggests_first_fitting() {
    let meta = VllmMetadata {
        quantization: Some("awq".to_string()),
        draft_model: None,
        num_speculative_tokens: None,
        max_position_embeddings: Some(32768),
        architecture: Some("Qwen2ForCausalLM".to_string()),
    };
    let big = VllmCandidate { repo: "org/big".to_string(), meta: meta.clone(), size_bytes: 60 << 30 };
    let small = VllmCandidate { repo: "org/small".to_string(), meta, size_bytes: 4 << 30 };
    let out = search_vllm_output("qwen", 30, &[big.clone(), small], &hardware(24_576));
    let lines: Vec<&str> = out.lines().collect();
    assert!(lines[0].starts_with("REPO "));
    assert!(lines[0].ends_with(" | DRAFT MODEL (speculative decoding)"));
    assert_eq!(
        lines[1],
        format!("{:<48} | {:<10} | {:<5} | {:<10} | {:<10} | {:<24} | {}", "org/big", "60.0 GB", "no", "awq", "32768", "Qwen2ForCausalLM", "-")
    );
    assert!(lines[2].contains("| yes   |"));
    assert!(out.contains("\nTry: ggs models pull vllm org/small   (pulls safetensors + config, writes models.toml with backend = \"vllm\")\n"));

    let none_fit = search_vllm_output("qwen", 30, &[big], &hardware(24_576));
    assert!(none_fit.starts_with("Found 1 safetensors repo(s) for \"qwen\", but none fit this hardware's 24.0 GiB total VRAM"));
    assert!(none_fit.contains("(currently 30)"));
    assert!(!none_fit.contains("Try: ggs models pull vllm"));
    assert_eq!(search_vllm_output("x", 30, &[], &hardware(1)), "No vLLM-servable (safetensors) models found for \"x\"\n");
}

fn tree_entry(path: &str, size: u64) -> HfTreeEntry {
    entry(path, size)
}

fn tagged_hit(id: &str, tags: &[&str], arch: &str) -> SearchHit {
    SearchHit {
        id: Some(id.to_string()),
        sibling_files: vec![],
        gguf_total: None,
        context_length: None,
        architecture: Some(arch.to_string()),
        tags: tags.iter().map(|t| t.to_string()).collect(),
    }
}

#[test]
fn standalone_eligibility_rejects_auxiliary_tags() {
    let entries = [tree_entry("model-q4.gguf", 4_000)];
    for tag in ["draft-model", "auxiliary-model"] {
        let hit = tagged_hit("org/model", &[tag], "llama");
        assert!(!is_standalone_model(&hit, &entries), "tag: {tag}");
    }
}

#[test]
fn standalone_eligibility_rejects_auxiliary_architectures() {
    let entries = [tree_entry("model-q4.gguf", 4_000)];
    for architecture in ["dflash", "deepseek4-dspark", "deepseek_v4_flash_dspark_draft", "qwen_speculator_v2"] {
        let hit = tagged_hit("org/model", &[], architecture);
        assert!(!is_standalone_model(&hit, &entries), "architecture: {architecture}");
    }
}

#[test]
fn standalone_eligibility_rejects_strong_repository_and_filename_tokens() {
    let normal_entries = [tree_entry("model-q4.gguf", 4_000)];
    let drafter_hit = tagged_hit("org/model-drafter-GGUF", &[], "llama");
    assert!(!is_standalone_model(&drafter_hit, &normal_entries));

    let normal_hit = tagged_hit("org/model-GGUF", &[], "llama");
    let speculator_entries = [tree_entry("model-speculator-q4.gguf", 4_000)];
    assert!(!is_standalone_model(&normal_hit, &speculator_entries));
}

#[test]
fn standalone_eligibility_preserves_full_dspark_target_models() {
    let entries = [tree_entry("DeepSeek-V4-Flash-DSpark-support-q4.gguf", 4_000)];
    let hit = tagged_hit("org/DeepSeek-V4-Flash-DSpark-draft-GGUF", &["speculative-decoding", "dspark"], "deepseek4");
    assert!(is_standalone_model(&hit, &entries));
}

#[test]
fn search_assessment_filters_capacity_and_prefers_q4_k_m() {
    let hit = tagged_hit("org/model", &[], "llama");
    let entries = [
        tree_entry("model-Q3_K_M.gguf", 3_000),
        tree_entry("model-Q4_K_M.gguf", 4_000),
        tree_entry("model-Q8_0.gguf", 8_000),
    ];

    let assessment = assess_repository(&hit, &entries, 4_800);

    assert!(assessment.supported);
    assert_eq!(
        assessment.quants.iter().map(|option| option.quant.as_str()).collect::<Vec<_>>(),
        vec!["Q3_K_M", "Q4_K_M"]
    );
    assert_eq!(assessment.recommended_quant.as_deref(), Some("Q4_K_M"));
}

#[test]
fn search_assessment_falls_back_to_largest_fitting_quant() {
    let hit = tagged_hit("org/model", &[], "llama");
    let entries = [tree_entry("model-Q3_K_M.gguf", 3_000), tree_entry("model-Q6_K.gguf", 6_000)];

    let assessment = assess_repository(&hit, &entries, 7_200);

    assert_eq!(assessment.recommended_quant.as_deref(), Some("Q6_K"));
}

#[test]
fn search_assessment_excludes_auxiliary_repositories() {
    let hit = tagged_hit("org/drafter", &["draft-model"], "dflash");
    let entries = [tree_entry("model-Q4_K_M.gguf", 4_000)];

    let assessment = assess_repository(&hit, &entries, 4_800);

    assert!(!assessment.supported);
    assert!(assessment.quants.is_empty());
    assert_eq!(assessment.recommended_quant, None);
}

use gguf_switchboard::embedding_admission::{balanced_concurrency, gate_capacity, retry_after_secs, should_rebuild_gate};
use gguf_switchboard::fit::{
    sum_safetensors_mb, vllm_model_size_mb_from_args, DirFile,
    compute_hardware_fingerprint, FitConfig, FitPlan, FitPlanner, GpuDeviceInfo, HardwareSummary,
    ModelSummary,
};

fn fake_gpu(name: &str, total_mb: u64, free_mb: u64) -> GpuDeviceInfo {
    GpuDeviceInfo {
        index: 0,
        name: name.to_string(),
        total_mb,
        free_mb,
        used_mb: total_mb - free_mb,
    }
}

fn single_gpu_hardware() -> HardwareSummary {
    HardwareSummary {
        gpus: vec![fake_gpu("NVIDIA GeForce RTX 4090", 24564, 22000)],
        total_vram_mb: 24564,
        free_vram_mb: 22000,
        system_ram_mb: 128_000,
        hardware_fingerprint: "1xRTX4090-24564".to_string(),
    }
}

fn dual_gpu_hardware() -> HardwareSummary {
    HardwareSummary {
        gpus: vec![
            fake_gpu("NVIDIA GeForce RTX 4090", 24564, 22000),
            GpuDeviceInfo {
                index: 1,
                name: "NVIDIA GeForce RTX 4090".to_string(),
                total_mb: 24564,
                free_mb: 22000,
                used_mb: 2564,
            },
        ],
        total_vram_mb: 49128,
        free_vram_mb: 44000,
        system_ram_mb: 128_000,
        hardware_fingerprint: "2xRTX4090-49128".to_string(),
    }
}

fn small_model() -> ModelSummary {
    ModelSummary {
        file_path: "/models/small.gguf".to_string(),
        file_size_mb: 4000,
        block_count: Some(32),
        architecture: Some("llama".to_string()),
        max_context_from_gguf: Some(32768),
        requested_context: 32768,
        model_fingerprint: "small.gguf:4000".to_string(),
        ngl_pinned: false,
        pinned_ngl: None,
        kind: Some("chat".to_string()),
        context_floor: None,
    }
}

fn large_model() -> ModelSummary {
    ModelSummary {
        file_path: "/models/large.gguf".to_string(),
        file_size_mb: 42000,
        block_count: Some(80),
        architecture: Some("llama".to_string()),
        max_context_from_gguf: Some(131072),
        requested_context: 32768,
        model_fingerprint: "large.gguf:42000".to_string(),
        ngl_pinned: false,
        pinned_ngl: None,
        kind: Some("chat".to_string()),
        context_floor: None,
    }
}

fn embedding_model() -> ModelSummary {
    ModelSummary {
        file_path: "/models/nomic-embed.gguf".to_string(),
        file_size_mb: 500,
        block_count: Some(12),
        architecture: Some("nomic-bert".to_string()),
        max_context_from_gguf: Some(8192),
        requested_context: 8192,
        model_fingerprint: "nomic-embed.gguf:500".to_string(),
        ngl_pinned: false,
        pinned_ngl: None,
        kind: Some("embedding".to_string()),
        context_floor: None,
    }
}

fn hardware(name: &str, total: u64, free: u64, ram: u64, fp: &str) -> HardwareSummary {
    HardwareSummary {
        gpus: vec![fake_gpu(name, total, free)],
        total_vram_mb: total,
        free_vram_mb: free,
        system_ram_mb: ram,
        hardware_fingerprint: fp.to_string(),
    }
}

fn plan(context_size: u32, ngl: u32, batch: Option<u32>, ubatch: Option<u32>) -> FitPlan {
    FitPlan {
        context_size,
        ngl,
        split_mode: None,
        tensor_split_tenths: None,
        cache_type_k: None,
        cache_type_v: None,
        reason: "test".to_string(),
        attempt: 1,
        batch_size: batch,
        ubatch_size: ubatch,
    }
}

#[test]
fn small_model_single_gpu_fits_immediately() {
    let planner = FitPlanner::new(single_gpu_hardware(), small_model(), FitConfig::default());
    let plan = planner.current_plan();
    assert_eq!(plan.context_size, 32768);
    assert_eq!(plan.ngl, 999);
    assert!(plan.cache_type_k.is_none());
}

#[test]
fn large_model_generates_fallback_ladder() {
    let planner = FitPlanner::new(single_gpu_hardware(), large_model(), FitConfig::default());
    assert!(planner.total_plans() > 1);
    let first = planner.current_plan();
    assert_eq!(first.context_size, 32768);
    assert!(first.cache_type_k.is_none());
}

#[test]
fn dual_gpu_computes_tensor_split() {
    let config = FitConfig {
        multi_gpu: "auto".to_string(),
        split_mode: "layer".to_string(),
        ..FitConfig::default()
    };
    let planner = FitPlanner::new(dual_gpu_hardware(), small_model(), config);
    let plan = planner.current_plan();
    assert!(plan.split_mode.is_some());
    assert!(plan.tensor_split_tenths.is_some());
    let ts = plan.tensor_split_tenths.as_ref().unwrap();
    assert_eq!(ts.len(), 2);
    // Both GPUs have equal free VRAM, so both ratios are 1.0.
    assert_eq!(ts[0], 10);
    assert_eq!(ts[1], 10);
}

#[test]
fn pinned_ngl_is_respected() {
    let mut model = small_model();
    model.ngl_pinned = true;
    model.pinned_ngl = Some(24);
    let planner = FitPlanner::new(single_gpu_hardware(), model, FitConfig::default());
    assert_eq!(planner.current_plan().ngl, 24);
}

#[test]
fn advance_exhausts_plans() {
    let config = FitConfig {
        max_attempts: 3,
        ..FitConfig::default()
    };
    let mut planner = FitPlanner::new(single_gpu_hardware(), large_model(), config);
    assert_eq!(planner.total_plans(), 3);
    assert!(planner.advance("OOM").is_some());
    assert!(planner.advance("OOM").is_some());
    assert!(planner.advance("OOM").is_none());
    assert!(planner.is_exhausted());
}

#[test]
fn context_clamped_to_minimum() {
    let model = ModelSummary {
        requested_context: 8192,
        ..large_model()
    };
    let planner = FitPlanner::new(single_gpu_hardware(), model, FitConfig::default());
    for plan in planner.all_plans() {
        assert!(plan.context_size >= 4096, "ctx={} < 4096", plan.context_size);
    }
}

#[test]
fn apply_plan_to_args_rewrites_flags() {
    let base: Vec<String> = ["-m", "model.gguf", "-c", "32768", "-ngl", "999"]
        .iter()
        .map(|s| s.to_string())
        .collect();
    let plan = FitPlan {
        context_size: 16384,
        ngl: 50,
        split_mode: Some("layer".to_string()),
        tensor_split_tenths: Some(vec![10, 10]),
        cache_type_k: Some("q8_0".to_string()),
        cache_type_v: Some("q8_0".to_string()),
        reason: "test".to_string(),
        attempt: 2,
        batch_size: None,
        ubatch_size: None,
    };
    let args = FitPlanner::apply_plan_to_args(&base, &plan);
    let args_str = args.join(" ");
    assert!(args_str.contains("-c 16384"), "args: {args_str}");
    assert!(args_str.contains("-ngl 50"), "args: {args_str}");
    assert!(args_str.contains("--split-mode layer"), "args: {args_str}");
    assert!(args_str.contains("--tensor-split 1.0,1.0"), "args: {args_str}");
    assert!(args_str.contains("--cache-type-k q8_0"), "args: {args_str}");
    assert!(args_str.contains("--cache-type-v q8_0"), "args: {args_str}");
}

#[test]
fn hardware_fingerprint_single_gpu() {
    let gpus = vec![fake_gpu("NVIDIA GeForce RTX 4090", 24564, 22000)];
    let fp = compute_hardware_fingerprint(&gpus, 24564);
    assert_eq!(fp, "1x4090-24564");
}

#[test]
fn hardware_fingerprint_dual_gpu() {
    let gpus = vec![
        fake_gpu("NVIDIA GeForce RTX 4090", 24564, 22000),
        GpuDeviceInfo {
            index: 1,
            name: "NVIDIA GeForce RTX 4090".to_string(),
            total_mb: 24564,
            free_mb: 22000,
            used_mb: 2564,
        },
    ];
    let fp = compute_hardware_fingerprint(&gpus, 49128);
    assert_eq!(fp, "2x4090-49128");
}

#[test]
fn embedding_model_gets_batch_sizes() {
    let planner = FitPlanner::new(single_gpu_hardware(), embedding_model(), FitConfig::default());
    let plan = planner.current_plan();
    assert_eq!(plan.batch_size, Some(4096));
    assert_eq!(plan.ubatch_size, Some(2048));
}

#[test]
fn chat_model_has_no_batch_sizes() {
    let planner = FitPlanner::new(single_gpu_hardware(), small_model(), FitConfig::default());
    let plan = planner.current_plan();
    assert_eq!(plan.batch_size, None);
    assert_eq!(plan.ubatch_size, None);
}

#[test]
fn embedding_batch_scales_with_headroom_after_model_residency() {
    let model = embedding_model();
    let config = FitConfig::default();
    let planner = FitPlanner::new(hardware("GTX 1650", 4096, 4096, 16000, "1x1650-4096"), model.clone(), config.clone());
    let plan = planner.current_plan();
    assert_eq!(plan.batch_size, Some(512));
    assert_eq!(plan.ubatch_size, Some(256));

    let planner = FitPlanner::new(hardware("RTX 3060", 8192, 8192, 32000, "1x3060-8192"), model.clone(), config.clone());
    let plan = planner.current_plan();
    assert_eq!(plan.batch_size, Some(2048));
    assert_eq!(plan.ubatch_size, Some(1024));

    let planner = FitPlanner::new(single_gpu_hardware(), model, config);
    let plan = planner.current_plan();
    assert_eq!(plan.batch_size, Some(4096));
    assert_eq!(plan.ubatch_size, Some(2048));
}

#[test]
fn twelve_gb_gpu_with_six_gb_embedding_uses_balanced_profile() {
    let model = ModelSummary {
        file_size_mb: 6144,
        requested_context: 8192,
        ..embedding_model()
    };
    let planner = FitPlanner::new(hardware("RTX 3060", 12288, 12288, 32000, "1x3060-12288"), model, FitConfig::default());
    let plan = planner.current_plan();
    assert_eq!(plan.context_size, 8192);
    assert_eq!(plan.batch_size, Some(1024));
    assert_eq!(plan.ubatch_size, Some(512));
}

#[test]
fn constrained_embedding_profile_reduces_context_to_2048() {
    let model = ModelSummary {
        file_size_mb: 5000,
        requested_context: 8192,
        ..embedding_model()
    };
    let planner = FitPlanner::new(hardware("RTX", 8192, 8192, 32000, "1xRTX-8192"), model, FitConfig::default());
    assert_eq!(planner.current_plan().context_size, 2048);
}

#[test]
fn dual_4090_embedding_profile_uses_high_headroom_tier() {
    let model = ModelSummary {
        file_size_mb: 6144,
        requested_context: 16384,
        ..embedding_model()
    };
    let planner = FitPlanner::new(dual_gpu_hardware(), model, FitConfig::default());
    let plan = planner.current_plan();
    assert_eq!(plan.context_size, 16384);
    assert_eq!(plan.batch_size, Some(4096));
    assert_eq!(plan.ubatch_size, Some(2048));
    assert!(plan.tensor_split_tenths.is_some());
}

#[test]
fn embedding_batch_fallback_ladder_descends() {
    let config = FitConfig {
        max_attempts: 4,
        ..FitConfig::default()
    };
    let planner = FitPlanner::new(single_gpu_hardware(), embedding_model(), config);
    let plans = planner.all_plans();
    let first_batch = plans[0].batch_size.unwrap();
    assert_eq!(first_batch, 4096);
    for plan in &plans[1..] {
        let batch = plan.batch_size.unwrap();
        assert!(batch <= first_batch, "batch {batch} > first {first_batch}");
    }
}

#[test]
fn embedding_batch_minimum_is_256() {
    let planner = FitPlanner::new(hardware("GT 730", 1024, 800, 8000, "1x730-1024"), embedding_model(), FitConfig::default());
    for plan in planner.all_plans() {
        let batch = plan.batch_size.unwrap();
        assert!(batch >= 256, "batch {batch} < 256 minimum");
    }
}

#[test]
fn apply_plan_writes_batch_flags() {
    let base: Vec<String> = ["-m", "model.gguf", "-c", "8192", "-ngl", "999"]
        .iter()
        .map(|s| s.to_string())
        .collect();
    let args = FitPlanner::apply_plan_to_args(&base, &plan(8192, 999, Some(2048), Some(2048)));
    let args_str = args.join(" ");
    assert!(args_str.contains("-b 2048"), "args: {args_str}");
    assert!(args_str.contains("-ub 2048"), "args: {args_str}");
}

#[test]
fn apply_plan_omits_batch_for_chat() {
    let base: Vec<String> = ["-m", "model.gguf", "-c", "32768"].iter().map(|s| s.to_string()).collect();
    let args = FitPlanner::apply_plan_to_args(&base, &plan(32768, 999, None, None));
    let args_str = args.join(" ");
    assert!(!args_str.contains("-b "), "args: {args_str}");
    assert!(!args_str.contains("-ub "), "args: {args_str}");
}

#[test]
fn model_summary_from_file_fingerprints_name_and_size() {
    let m = ModelSummary::from_file("/models/small.gguf", Some(4000 * 1024 * 1024 + 5), Some(32), None, None, 4096, false, None);
    assert_eq!(m.file_size_mb, 4000);
    assert_eq!(m.model_fingerprint, "small.gguf:4000");
    let missing = ModelSummary::from_file("/models/", None, None, None, None, 4096, false, None);
    assert_eq!(missing.file_size_mb, 0);
    assert_eq!(missing.model_fingerprint, "models:0");
}

#[test]
fn balanced_concurrency_is_one_below_large_batch_tier() {
    assert_eq!(balanced_concurrency(Some(1024)), 1);
    assert_eq!(balanced_concurrency(Some(2048)), 2);
}

#[test]
fn admission_gate_rebuilds_only_when_idle_and_changed() {
    assert_eq!(balanced_concurrency(None), 1);
    assert_eq!(gate_capacity(0), 1);
    assert_eq!(gate_capacity(3), 3);
    assert!(should_rebuild_gate(1, 1, 2));
    assert!(!should_rebuild_gate(1, 0, 2));
    assert!(!should_rebuild_gate(1, 1, 0));
    assert_eq!(retry_after_secs(0), 1);
    assert_eq!(retry_after_secs(30), 30);
}

#[test]
fn safetensors_sizes_are_summed_by_extension() {
    let files = vec![
        DirFile { name: "model-00001.safetensors".to_string(), size: 3 * 1024 * 1024 },
        DirFile { name: "model-00002.SafeTensors".to_string(), size: 2 * 1024 * 1024 + 5 },
        DirFile { name: ".safetensors".to_string(), size: 1 << 30 },
        DirFile { name: "config.json".to_string(), size: 1 << 30 },
    ];
    assert_eq!(sum_safetensors_mb(&files), 5);
    assert_eq!(sum_safetensors_mb(&[]), 0);
}

#[test]
fn vllm_model_size_reads_the_served_directory() {
    let files = vec![DirFile { name: "w.safetensors".to_string(), size: 8 << 20 }];
    let served: Vec<String> = ["serve", "/models/qwen", "--port", "8000"].iter().map(|s| s.to_string()).collect();
    assert_eq!(vllm_model_size_mb_from_args(&served, &files), 8);
    let unnamed: Vec<String> = ["--port", "8000"].iter().map(|s| s.to_string()).collect();
    assert_eq!(vllm_model_size_mb_from_args(&unnamed, &files), 0);
}

#[test]
fn ladder_keeps_q8_cache_once_it_is_on() {
    let planner = FitPlanner::new(single_gpu_hardware(), large_model(), FitConfig::default());
    let plans = planner.all_plans();
    let steps: Vec<(u32, Option<&str>)> =
        plans.iter().map(|p| (p.context_size, p.cache_type_k.as_deref())).collect();
    assert_eq!(
        steps,
        vec![
            (32768, None),
            (32768, Some("q8_0")),
            (24576, Some("q8_0")),
            (16384, Some("q8_0")),
            (8192, Some("q8_0")),
        ]
    );
    for p in plans {
        assert_eq!(p.cache_type_k, p.cache_type_v);
    }
    for p in &plans[..4] {
        assert_eq!(p.ngl, plans[0].ngl);
    }
    assert!(plans[4].ngl < plans[0].ngl);
    assert_eq!(plans[4].attempt, 5);
}

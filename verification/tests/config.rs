use gguf_switchboard::config::{
    resolve_relative_to_config, sibling_models_toml, Config, EmbeddingFitConfig, ModelConfig, SwitchStrategy,
};
use gguf_switchboard::errors::RuntimeError;
use gguf_switchboard::fit::FitConfig;

fn model(priority: bool) -> ModelConfig {
    ModelConfig {
        backend: "llama.cpp".to_string(),
        display_name: "M".to_string(),
        command: "llama-server".to_string(),
        args: vec![],
        backend_url: "http://127.0.0.1:8081/v1".to_string(),
        health_url: "http://127.0.0.1:8081/health".to_string(),
        priority,
        kind: "chat".to_string(),
        description: None,
        max_context_length: None,
        min_vram_gb: None,
        capabilities: vec![],
        hf_repo: None,
        ctx_floor: None,
        block_count: None,
        ngl_pinned: false,
        model_fingerprint: None,
        max_context_from_gguf: None,
        runtime_profile: None,
    }
}

fn config(models: Vec<(String, ModelConfig)>, models_file: Option<&str>) -> Config {
    Config {
        bind: "127.0.0.1:0".to_string(),
        startup_timeout: 60,
        idle_timeout: 600,
        default_backend: "llama.cpp".to_string(),
        database_path: None,
        vram_gb: 12,
        auto_ngl: false,
        models_file: models_file.map(|f| f.to_string()),
        registry_json: String::new(),
        models,
        memory_warning_threshold: 85,
        memory_critical_threshold: 95,
        memory_check_interval_secs: 30,
        context_fallback_min: 8192,
        switch_drain_timeout_secs: 120,
        priority_load_cooldown_secs: 300,
        models_rescan_interval_secs: 86400,
        fit: FitConfig::default(),
        embedding_fit: EmbeddingFitConfig::default(),
        switch_strategy: SwitchStrategy::default(),
        prewarm_recent_models: 0,
    }
}

#[test]
fn priority_model_is_the_one_marked() {
    let cfg = config(vec![("a".to_string(), model(false)), ("b".to_string(), model(true))], None);
    assert_eq!(cfg.priority_model_id().as_deref(), Some("b"));
    let none = config(vec![("a".to_string(), model(false))], None);
    assert_eq!(none.priority_model_id(), None);
}

#[test]
fn registry_paths_resolve_beside_the_config() {
    assert_eq!(resolve_relative_to_config("/etc/ggs/config.toml", "models.toml"), "/etc/ggs/models.toml");
    assert_eq!(resolve_relative_to_config("/etc/ggs/config.toml", "/srv/models.toml"), "/srv/models.toml");
    assert_eq!(resolve_relative_to_config("config.toml", "models.toml"), "models.toml");
    assert_eq!(sibling_models_toml("/etc/ggs/config.toml"), "/etc/ggs/models.toml");

    let explicit = config(vec![], Some("reg/models.json"));
    assert_eq!(explicit.registry_to_load("/etc/ggs/config.toml", false).as_deref(), Some("/etc/ggs/reg/models.json"));
    let implicit = config(vec![], None);
    assert_eq!(implicit.registry_to_load("/etc/ggs/config.toml", true).as_deref(), Some("/etc/ggs/models.toml"));
    assert_eq!(implicit.registry_to_load("/etc/ggs/config.toml", false), None);
}

#[test]
fn a_config_without_models_is_an_error() {
    let empty = config(vec![], None);
    assert!(matches!(empty.check_has_models(), Err(RuntimeError::ConfigError(_))));
    let mut cfg = empty.clone();
    cfg.use_registry("/r/models.toml".to_string(), vec![("a".to_string(), model(false))], "{}".to_string());
    assert!(cfg.check_has_models().is_ok());
    assert_eq!(cfg.models_file.as_deref(), Some("/r/models.toml"));
    assert_eq!(cfg.registry_json, "{}");
}

#[test]
fn switch_strategy_and_embedding_fit_defaults() {
    assert_eq!(SwitchStrategy::default(), SwitchStrategy::UnloadFirst);
    let e = EmbeddingFitConfig::default();
    assert!(e.enabled);
    assert_eq!(e.profile, "balanced");
    assert_eq!(e.vram_reserve_percent, 15);
    assert_eq!(e.vram_reserve_min_mb, 1536);
    assert_eq!(e.queue_timeout_secs, 30);
}

use gguf_switchboard::discovery::{model_file_reference, normalize_file_key, DiscoveredGguf};
use gguf_switchboard::registry::{ModelsRegistry, RegistryDefaults, RegistryEntry};

fn registry(models: Vec<RegistryEntry>, base_port: u16, auto_discover: bool) -> ModelsRegistry {
    let mut defaults = RegistryDefaults::default();
    defaults.models_dir = "/models".to_string();
    defaults.base_port = base_port;
    defaults.context_size = 4096;
    ModelsRegistry { version: 1, defaults, auto_discover, models }
}

fn entry(alias: &str, file: &str) -> RegistryEntry {
    let mut e = RegistryEntry::default();
    e.alias = alias.to_string();
    e.file = file.to_string();
    e
}

fn launch(reg: &ModelsRegistry, index: usize, e: &RegistryEntry, path: &str, vram_gb: u32) -> gguf_switchboard::config::ModelConfig {
    let backend = reg.expand_backend("llama.cpp");
    reg.model_config_for(backend.as_str(), vram_gb, index, e, path, Some(4_000_000_000), Some(32))
}

#[test]
fn expanded_models_get_backend_arguments() {
    let mut e = entry("test", "test-model.gguf");
    e.display_name = Some("Test Model".to_string());
    e.priority = true;
    e.context_size = Some(4096);
    let reg = registry(vec![e.clone()], 9001, false);
    let cfg = launch(&reg, 0, &e, "/models/test-model.gguf", 12);
    assert_eq!(cfg.display_name, "Test Model");
    assert!(cfg.args.contains(&"-m".to_string()));
    assert!(cfg.args.contains(&"/models/test-model.gguf".to_string()));
    assert!(cfg.args.contains(&"9001".to_string()));
    assert!(cfg.args.contains(&"4096".to_string()));
    assert_eq!(cfg.backend_url, "http://127.0.0.1:9001/v1");
    assert_eq!(cfg.health_url, "http://127.0.0.1:9001/health");
    assert!(!cfg.ngl_pinned);
    assert!(cfg.priority);
    let second = launch(&reg, 1, &e, "/models/test-model.gguf", 12);
    assert!(second.args.contains(&"9002".to_string()));
}

#[test]
fn an_entry_ngl_is_pinned() {
    let mut e = entry("test", "test-model.gguf");
    e.ngl = Some(24);
    let reg = registry(vec![e.clone()], 9001, false);
    let cfg = launch(&reg, 0, &e, "/models/test-model.gguf", 12);
    assert!(cfg.ngl_pinned);
    assert!(cfg.args.windows(2).any(|w| w[0] == "-ngl" && w[1] == "24"));
}

#[test]
fn embedding_models_get_the_embeddings_flag() {
    let mut embed = entry("nomic-embed-text-v1.5", "nomic-embed-text-v1.5.Q4_K_M.gguf");
    embed.kind = Some("embedding".to_string());
    let mut chat = entry("chat-model", "chat-model.gguf");
    chat.kind = Some("chat".to_string());
    let reg = registry(vec![embed.clone(), chat.clone()], 9100, false);
    assert!(launch(&reg, 0, &embed, "/models/e.gguf", 12).args.contains(&"--embeddings".to_string()));
    assert!(!launch(&reg, 1, &chat, "/models/c.gguf", 12).args.contains(&"--embeddings".to_string()));
}

#[test]
fn llama_3_1_gets_the_llama3_template_unless_one_is_set() {
    let e = entry("meta-llama-3.1-8b", "Meta-Llama-3.1-8B-Instruct-Q4_K_M.gguf");
    let reg = registry(vec![e.clone()], 8081, false);
    let cfg = launch(&reg, 0, &e, "/models/Meta-Llama-3.1-8B-Instruct-Q4_K_M.gguf", 0);
    assert!(cfg.args.windows(2).any(|w| w[0] == "--chat-template" && w[1] == "llama3"));

    let mut jinja = entry("meta-llama-3.1-8b", "Meta-Llama-3.1-8B-Instruct-Q4_K_M.gguf");
    jinja.extra_args = vec!["--jinja".to_string()];
    let cfg = launch(&reg, 0, &jinja, "/models/Meta-Llama-3.1-8B-Instruct-Q4_K_M.gguf", 0);
    assert!(cfg.args.contains(&"--jinja".to_string()));
    assert!(!cfg.args.iter().any(|a| a == "--chat-template"));
}

#[test]
fn explicit_entries_claim_their_files_and_discovery_fills_in() {
    let reg = registry(vec![entry("qwen", "qwen-Q4_K_M.gguf")], 8081, true);
    let discovered = vec![
        DiscoveredGguf {
            path: "/models/qwen-Q4_K_M.gguf".to_string(),
            file: "qwen-Q4_K_M.gguf".to_string(),
            key: "/models/qwen-q4_k_m.gguf".to_string(),
        },
        DiscoveredGguf {
            path: "/models/llama-3.2-3b.gguf".to_string(),
            file: "llama-3.2-3b.gguf".to_string(),
            key: "/models/llama-3.2-3b.gguf".to_string(),
        },
    ];
    let keys = vec![Some("/models/qwen-q4_k_m.gguf".to_string())];
    let entries = reg.expanded_entries(&keys, &discovered).unwrap();
    let aliases: Vec<&str> = entries.iter().map(|e| e.alias.as_str()).collect();
    assert_eq!(aliases.len(), 2);
    assert!(aliases.contains(&"qwen"));
    assert_eq!(entries.iter().filter(|e| e.file == "qwen-Q4_K_M.gguf").count(), 1);
    assert!(entries.iter().filter(|e| e.priority).count() <= 1);

    let none = registry(vec![entry("gone", "gone.gguf")], 8081, false);
    assert!(none.expanded_entries(&[None], &[]).is_err());
}

#[test]
fn files_are_referenced_relative_to_a_single_models_dir() {
    let one = vec!["/models".to_string()];
    assert_eq!(model_file_reference(&one, "/models/org/a.gguf"), "org/a.gguf");
    assert_eq!(model_file_reference(&one, "/elsewhere/a.gguf"), "/elsewhere/a.gguf");
    let two = vec!["/models".to_string(), "/more".to_string()];
    assert_eq!(model_file_reference(&two, "/models/a.gguf"), "/models/a.gguf");

    assert_eq!(normalize_file_key(&one, "Org/A.gguf", Some("/models/Org/A.gguf")), "/models/org/a.gguf");
    assert_eq!(normalize_file_key(&one, "//Org/A.gguf", None), "//org/a.gguf");
    assert_eq!(normalize_file_key(&one, "Org/A.gguf", None), "org/a.gguf");
    assert_eq!(normalize_file_key(&two, "Org/A.gguf", None), "org/a.gguf");
}

#[test]
fn expanded_configs_follow_entry_order_ports_and_kinds() {
    let mut embed = entry("embed", "embed.gguf");
    embed.kind = Some("embedding".to_string());
    let mut chat = entry("chat", "chat.gguf");
    chat.kind = Some("chat".to_string());
    chat.extra_args = vec!["-ngl".to_string(), "12".to_string()];
    let mut fixed = entry("fixed", "fixed.gguf");
    fixed.port = Some(7000);
    let entries = vec![embed, chat, fixed];
    let reg = registry(entries.clone(), 65534, false);
    let paths = vec!["/models/embed.gguf".to_string(), "/models/chat.gguf".to_string(), "/models/fixed.gguf".to_string()];
    let configs = reg.expand_model_configs("llama.cpp", 12, &entries, &paths, &[None, None, None], &[None, Some(40), None]);
    assert_eq!(configs.len(), 3);
    assert_eq!(configs[0].0, "embed");
    assert_eq!(configs[0].1.args[10], "--embeddings");
    assert!(!configs[1].1.args.contains(&"--embeddings".to_string()));
    assert_eq!(configs[0].1.backend_url, "http://127.0.0.1:65534/v1");
    assert_eq!(configs[1].1.health_url, "http://127.0.0.1:65535/health");
    assert_eq!(configs[2].1.backend_url, "http://127.0.0.1:7000/v1");
    assert!(!configs[0].1.ngl_pinned);
    assert!(configs[1].1.ngl_pinned);
    assert_eq!(configs[1].1.block_count, Some(40));
    assert_eq!(configs[1].1.kind, "chat");
}

#[test]
fn discovered_registry_has_sorted_unique_aliases_files_and_one_priority() {
    let found = |name: &str| DiscoveredGguf {
        path: format!("/models/{name}"),
        file: name.to_string(),
        key: format!("/models/{}", name.to_lowercase()),
    };
    let files = vec![found("b-model.Q4_K_M.gguf"), found("a-model.Q4_K_M.gguf"), found("sub/a-model.Q4_K_M.gguf")];
    let dirs = vec!["/models".to_string()];
    let reg = ModelsRegistry::discover_with_merge("/models", &dirs, &files, None, &[], "/usr/bin/llama-server").unwrap();
    assert_eq!(reg.models.len(), 3);
    for w in reg.models.windows(2) {
        assert!(w[0].alias < w[1].alias);
        assert_ne!(w[0].file, w[1].file);
    }
    assert_eq!(reg.models.iter().filter(|m| m.priority).count(), 1);
    assert_eq!(reg.defaults.models_dir, "/models");
}

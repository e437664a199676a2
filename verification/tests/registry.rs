use gguf_switchboard::registry::{
    alias_from_filename, dedupe_registry_entries, display_name_from_alias, format_models_dirs, free_alias, infer_kind,
    json_sibling_path, normalize_priority_entries, parse_models_dirs, suggest_context_size, validate_unique_aliases,
    ModelsRegistry, RegistryEntry,
};

fn entry(alias: &str, file: &str) -> RegistryEntry {
    let mut e = RegistryEntry::default();
    e.alias = alias.to_string();
    e.file = file.to_string();
    e
}

#[test]
fn display_name_title_cases_alias() {
    assert_eq!(display_name_from_alias("qwen3.5-9b"), "Qwen3.5 9b");
    assert_eq!(display_name_from_alias("gemma-code"), "Gemma Code");
}

#[test]
fn alias_strips_quant_suffix() {
    assert_eq!(alias_from_filename("Qwen3.5-9B-Q4_K_M.gguf"), "qwen3.5-9b");
    assert_eq!(alias_from_filename("gemma-3-4b-it-Q4_K_M.gguf"), "gemma-3-4b");
}

#[test]
fn dedupe_registry_entries_by_alias_and_file() {
    let mut first = entry("qwen3-vl-8b", "Qwen3-VL-8B-Instruct-Q4_K_M.gguf");
    first.display_name = Some("First".to_string());
    let mut dup = entry("qwen3-vl-8b", "Qwen3-VL-8B-Instruct-Q4_K_M.gguf");
    dup.display_name = Some("Duplicate".to_string());
    dup.priority = true;
    let mut entries = vec![first, dup];
    dedupe_registry_entries(&mut entries);
    normalize_priority_entries(&mut entries);
    assert_eq!(entries.len(), 1);
    assert_eq!(entries[0].display_name.as_deref(), Some("First"));
    assert!(entries[0].priority);
}

#[test]
fn dedupe_keeps_one_entry_per_file_and_alias() {
    let mut entries = vec![entry("a", "a.gguf"), entry("b", "a.gguf"), entry("a", "c.gguf")];
    dedupe_registry_entries(&mut entries);
    let mut files: Vec<&str> = entries.iter().map(|e| e.file.as_str()).collect();
    files.sort();
    files.dedup();
    assert_eq!(files.len(), entries.len());
    let mut aliases: Vec<&str> = entries.iter().map(|e| e.alias.as_str()).collect();
    aliases.sort();
    aliases.dedup();
    assert_eq!(aliases.len(), entries.len());
}

#[test]
fn only_the_first_priority_entry_stays_priority() {
    let mut entries = vec![entry("a", "a.gguf"), entry("b", "b.gguf"), entry("c", "c.gguf")];
    entries[1].priority = true;
    entries[2].priority = true;
    normalize_priority_entries(&mut entries);
    assert_eq!(entries.iter().map(|e| e.priority).collect::<Vec<_>>(), vec![false, true, false]);
}

#[test]
fn models_dirs_round_trip() {
    let dirs = parse_models_dirs(" /models , ,/data/gguf ");
    assert_eq!(dirs, vec!["/models".to_string(), "/data/gguf".to_string()]);
    assert_eq!(format_models_dirs(&dirs), "/models,/data/gguf");
}

#[test]
fn json_sibling_of_toml_path() {
    assert_eq!(json_sibling_path("/etc/ggs/models.toml"), "/etc/ggs/modelsjson");
    assert_eq!(json_sibling_path("registry"), "registry.json");
}

#[test]
fn duplicate_aliases_are_rejected() {
    assert!(validate_unique_aliases(&[entry("a", "a.gguf"), entry("b", "b.gguf")]).is_ok());
    assert!(validate_unique_aliases(&[entry("a", "a.gguf"), entry("a", "b.gguf")]).is_err());
}

#[test]
fn free_alias_appends_a_counter() {
    let used = vec!["m".to_string(), "m-2".to_string()];
    assert_eq!(free_alias("m", &used), "m-3");
    assert_eq!(free_alias("x", &used), "x");
}

#[test]
fn kinds_are_inferred_from_alias_and_file() {
    assert_eq!(infer_kind("nomic-embed", "x.gguf"), "embedding");
    assert_eq!(infer_kind("qwen-coder", "x.gguf"), "coder");
}

#[test]
fn suggest_context_size_uses_vram_for_small_models() {
    let mut e = entry("gemma-4-e4b", "gemma-4-E4B-it-Q4_K_M.gguf");
    e.kind = Some("chat".to_string());
    assert_eq!(suggest_context_size(12, &e, None, 65536), 32768);
}

#[test]
fn json_export_round_trip_keeps_entries() {
    let mut reg = ModelsRegistry {
        version: 1,
        defaults: gguf_switchboard::registry::RegistryDefaults::default(),
        auto_discover: true,
        models: vec![entry("a", "a.gguf"), entry("b", "b.gguf")],
    };
    reg.models[0].display_name = Some("A".into());
    let export = reg.to_json_export();
    let back = ModelsRegistry::from_json_export(export).unwrap();
    assert_eq!(back.models.len(), 2);
    assert_eq!(back.models[0].alias, "a");
    assert!(!back.auto_discover);
}

#[test]
fn models_dirs_survive_a_format_and_parse_round_trip() {
    let dirs = vec!["/models".to_string(), "/data/gguf".to_string(), "rel/dir".to_string()];
    assert_eq!(parse_models_dirs(&format_models_dirs(&dirs)), dirs);
    let none: Vec<String> = Vec::new();
    assert_eq!(parse_models_dirs(&format_models_dirs(&none)), none);
}

use gguf_switchboard::registry::RegistryEntry;
use gguf_switchboard::models_local::{
    check_inside_scan_dirs, delete_decision, delete_target, list_output, registered_alias, unregister_alias, DeleteGate,
    infer_kind, is_confirmation, is_related_sidecar, json_sibling, number_entries, parse_common, resolve_target,
    shorten_path, truncate, LocalModelEntry,
};

fn scanned() -> Vec<LocalModelEntry> {
    number_entries(vec![
        ("/m/alpha-embed".to_string(), 10, true, None),
        ("/m/beta-chat".to_string(), 20, true, None),
        ("/m/gamma-Q4_K_M.gguf".to_string(), 30, false, Some("gamma".to_string())),
    ])
}

#[test]
fn infer_kind_matches_common_names() {
    assert_eq!(infer_kind("qwen3-embedding-4b"), "embedding");
    assert_eq!(infer_kind("bge-reranker-v2"), "reranker");
    assert_eq!(infer_kind("Qwen2.5-VL-7B"), "vision");
    assert_eq!(infer_kind("qwen2.5-coder-7b"), "coder");
    assert_eq!(infer_kind("gemma-3-12b-it"), "chat");
}

#[test]
fn scan_entries_are_numbered_from_one() {
    let entries = scanned();
    assert_eq!(entries.iter().map(|e| e.index).collect::<Vec<_>>(), vec![1, 2, 3]);
    assert_eq!(entries[0].kind, "embedding");
    assert_eq!(entries[1].kind, "chat");
    assert_eq!(entries[0].display_name(), "alpha-embed");
    assert_eq!(entries[2].display_name(), "gamma");
}

#[test]
fn resolve_target_by_index_name_and_ambiguity() {
    let entries = scanned();
    assert_eq!(entries[resolve_target("1", &entries).unwrap()].index, 1);
    assert_eq!(entries[resolve_target("+2", &entries).unwrap()].index, 2);
    assert_eq!(resolve_target("99", &entries).unwrap_err(), "models delete: index 99 out of range (1..=3)");
    assert_eq!(entries[resolve_target("BETA-chat", &entries).unwrap()].path, "/m/beta-chat");
    assert_eq!(entries[resolve_target("gamma", &entries).unwrap()].index, 3);
    assert!(resolve_target("nope", &entries).unwrap_err().contains("no model matches 'nope'"));

    let twins = number_entries(vec![
        ("/a/x".to_string(), 1, true, None),
        ("/b/x".to_string(), 1, true, None),
    ]);
    assert_eq!(
        resolve_target("x", &twins).unwrap_err(),
        "models delete: 'x' is ambiguous (2 matches: #1, #2); use the number instead"
    );
}

#[test]
fn common_arguments() {
    let args: Vec<String> = ["delete", "--dir", "/m", "--json", "-y", "target"].iter().map(|s| s.to_string()).collect();
    let c = parse_common(&args, true).unwrap();
    assert_eq!(c.dir_overrides, vec!["/m".to_string()]);
    assert!(c.json && c.yes);
    assert_eq!(c.positional, vec!["target".to_string()]);
    assert_eq!(parse_common(&args, false).unwrap_err(), "models delete: unknown flag '-y'");
    let missing: Vec<String> = ["list", "--registry"].iter().map(|s| s.to_string()).collect();
    assert_eq!(parse_common(&missing, false).unwrap_err(), "models list: missing value for --registry");
}

#[test]
fn listing_helpers() {
    assert_eq!(truncate("abcdef", 4), "abc…");
    assert_eq!(truncate("abc", 4), "abc");
    assert_eq!(shorten_path("/m/sub/x.gguf", &["/other".to_string(), "/m/".to_string()]), "sub/x.gguf");
    assert_eq!(shorten_path("/elsewhere/x.gguf", &["/m".to_string()]), "/elsewhere/x.gguf");
    assert_eq!(json_sibling("conf/models.toml"), "conf/models.json");
    assert!(is_related_sidecar("model-mmproj-f16.gguf", "model"));
    assert!(is_related_sidecar("model.config.json", "model"));
    assert!(!is_related_sidecar("other.json", "model"));
    assert!(is_confirmation("  Yes\n"));
    assert!(!is_confirmation("no"));
}

#[test]
fn delete_takes_exactly_one_target() {
    assert_eq!(delete_target(&["3".to_string()]), Ok("3".to_string()));
    assert_eq!(
        delete_target(&[]),
        Err("models delete: missing target — pass a name or the number from `ggs models list`".to_string())
    );
    assert_eq!(
        delete_target(&["a".to_string(), "b".to_string()]),
        Err("models delete: expected exactly one target".to_string())
    );
}

#[test]
fn delete_stays_inside_the_scanned_directories() {
    let dirs = vec!["/data/models".to_string(), "/srv/vllm-models/".to_string()];
    assert!(check_inside_scan_dirs("/data/models/a.gguf", &dirs, "a").is_ok());
    assert!(check_inside_scan_dirs("/srv/vllm-models/org__m", &dirs, "m").is_ok());
    assert_eq!(
        check_inside_scan_dirs("/data/models-old/a.gguf", &dirs, "/data/models-old/a.gguf"),
        Err("models delete: refusing to delete '/data/models-old/a.gguf' — it is outside the scanned model directories".to_string())
    );
    assert!(check_inside_scan_dirs("/etc/passwd", &dirs, "x").is_err());
}

fn entry(alias: &str) -> RegistryEntry {
    let mut e = RegistryEntry::default();
    e.alias = alias.to_string();
    e
}

#[test]
fn unregistering_drops_every_alias_match_ignoring_case() {
    let mut models = vec![entry("Qwen"), entry("llama"), entry("qwen")];
    assert!(unregister_alias(&mut models, "QWEN"));
    assert_eq!(models.len(), 1);
    assert_eq!(models[0].alias, "llama");
    assert!(!unregister_alias(&mut models, "mistral"));
    assert_eq!(models.len(), 1);
}

#[test]
fn listing_shows_a_table_or_says_nothing_was_found() {
    let dirs = vec!["/m".to_string()];
    assert_eq!(list_output(&[], &dirs), "Scanned: /m\nNo GGUF files or safetensors model directories found.\n");
    let entries = number_entries(vec![("/m/qwen-Q4_K_M.gguf".to_string(), 5 * 1024 * 1024 * 1024, false, Some("qwen".to_string()))]);
    let out = list_output(&entries, &dirs);
    let lines: Vec<&str> = out.lines().collect();
    assert_eq!(lines[0], "Scanned: /m");
    assert_eq!(lines[1], "");
    assert_eq!(lines[2], format!("  {:>3}  {:>10}  {:<9}  {:<28}  PATH", "#", "SIZE", "KIND", "ALIAS / NAME"));
    assert_eq!(lines[3], format!("  {:>3}  {:>10}  {:<9}  {:<28}  {}", 1, "5.0 GB", "chat", "qwen", "qwen-Q4_K_M.gguf"));
    assert!(out.ends_with("\nDelete one with:  ggs models delete <#|name> [--yes]\n"));
}

#[test]
fn delete_is_refused_outside_the_scan_dirs_or_without_a_terminal() {
    let dirs = vec!["/models".to_string()];
    let outside = delete_decision("/etc/passwd", &dirs, "/etc/passwd", true, true).unwrap_err();
    assert!(outside.starts_with("models delete: refusing to delete '/etc/passwd'"));
    let quiet = delete_decision("/models/a.gguf", &dirs, "/models/a.gguf", false, false).unwrap_err();
    assert_eq!(quiet, "models delete: refusing to delete without --yes in a non-interactive shell");
    assert_eq!(delete_decision("/models/a.gguf", &dirs, "/models/a.gguf", true, false), Ok(DeleteGate::Delete));
    assert_eq!(delete_decision("/models/a.gguf", &dirs, "/models/a.gguf", false, true), Ok(DeleteGate::AskFirst));
}

#[test]
fn registered_alias_is_the_first_entry_for_the_path() {
    let map = vec![
        ("/models/a.gguf".to_string(), "a".to_string()),
        ("/models/b.gguf".to_string(), "b".to_string()),
        ("/models/a.gguf".to_string(), "a-again".to_string()),
    ];
    assert_eq!(registered_alias("/models/a.gguf", &map), Some("a".to_string()));
    assert_eq!(registered_alias("/models/b.gguf", &map), Some("b".to_string()));
    assert_eq!(registered_alias("/models/c.gguf", &map), None);
}

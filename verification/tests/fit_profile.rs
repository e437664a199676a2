use gguf_switchboard::fit::FitPlan;
use gguf_switchboard::fit_profile::{default_profile_store_path, KnownGoodProfile, ProfileStore};

fn sample_plan() -> FitPlan {
    FitPlan {
        context_size: 16384,
        ngl: 999,
        split_mode: None,
        tensor_split_tenths: None,
        cache_type_k: Some("q8_0".to_string()),
        cache_type_v: Some("q8_0".to_string()),
        reason: "test".to_string(),
        attempt: 2,
        batch_size: None,
        ubatch_size: None,
    }
}

fn profile(hw: &str, model: &str, ctx: u32) -> KnownGoodProfile {
    let mut plan = sample_plan();
    plan.context_size = ctx;
    KnownGoodProfile {
        hardware_fingerprint: hw.to_string(),
        model_fingerprint: model.to_string(),
        plan,
        validated_at: "2025-01-01T00:00:00Z".to_string(),
    }
}

#[test]
fn put_and_get_roundtrip() {
    let mut store = ProfileStore::new("/tmp/profiles.json");
    store.put(profile("1xRTX4090-24564", "kimi.gguf:42000", 16384));
    let found = store.get("1xRTX4090-24564", "kimi.gguf:42000");
    assert!(found.is_some());
    assert_eq!(found.unwrap().plan.context_size, 16384);
}

#[test]
fn flush_and_reload() {
    let mut store = ProfileStore::new("p.json");
    store.put(profile("hw", "model", 8192));
    let pairs = store.pairs().clone();
    let reloaded = ProfileStore::from_pairs("p.json", pairs);
    assert_eq!(reloaded.len(), 1);
    assert!(reloaded.get("hw", "model").is_some());
}

#[test]
fn missing_key_returns_none() {
    let store = ProfileStore::new("p.json");
    assert!(store.get("nope", "nope").is_none());
    assert!(store.is_empty());
}

#[test]
fn a_second_put_replaces_and_leaves_others() {
    let mut store = ProfileStore::new("p.json");
    store.put(profile("hw", "a", 1024));
    store.put(profile("hw", "b", 2048));
    store.put(profile("hw", "a", 4096));
    assert_eq!(store.len(), 2);
    assert_eq!(store.get("hw", "a").unwrap().plan.context_size, 4096);
    assert_eq!(store.get("hw", "b").unwrap().plan.context_size, 2048);
    assert_eq!(store.path(), "p.json");
}

#[test]
fn later_pairs_win_when_loading() {
    let pairs = vec![
        ("hw:m".to_string(), profile("hw", "m", 1)),
        ("hw:m".to_string(), profile("hw", "m", 2)),
    ];
    let store = ProfileStore::from_pairs("p.json", pairs);
    assert_eq!(store.len(), 1);
    assert_eq!(store.get("hw", "m").unwrap().plan.context_size, 2);
    assert_eq!(default_profile_store_path(), "/var/lib/gguf-switchboard/model-profiles.json");
}

use gguf_switchboard::hf_sync::{
    apply_enrichment, enrichment_from_hit, infer_kind_from_hf, score_hf_hit, search_query_for_file,
    strip_quant_suffix, sync_entry, sync_query, HfCardData, HfEnrichment, HfGgufMeta, HfModelHit, HfQuery,
    HfSibling, SyncOutcome, SyncSummary,
};
use gguf_switchboard::registry::RegistryEntry;

fn hit(id: &str, pipeline: Option<&str>, tags: &[&str], gguf: Option<HfGgufMeta>, siblings: &[&str]) -> HfModelHit {
    HfModelHit {
        id: id.to_string(),
        pipeline_tag: pipeline.map(str::to_string),
        tags: tags.iter().map(|t| t.to_string()).collect(),
        gguf,
        card_data: None,
        card_data_camel: None,
        siblings: siblings.iter().map(|s| HfSibling { rfilename: s.to_string() }).collect(),
    }
}

fn entry(alias: &str, file: &str) -> RegistryEntry {
    let mut e = RegistryEntry::default();
    e.alias = alias.to_string();
    e.file = file.to_string();
    e
}

#[test]
fn maps_gguf_context_and_vram() {
    let h = hit(
        "lmstudio-community/Qwen3.5-9B-GGUF",
        Some("text-generation"),
        &["gguf", "text-generation"],
        Some(HfGgufMeta { context_length: Some(262144), total: Some(5_627_044_256), total_file_size: None }),
        &["Qwen3.5-9B-Q4_K_M.gguf"],
    );
    let enrich = enrichment_from_hit(&h, "Qwen3.5-9B-Q4_K_M.gguf");
    assert_eq!(enrich.hf_repo, "lmstudio-community/Qwen3.5-9B-GGUF");
    assert_eq!(enrich.max_context_length, Some(262144));
    assert_eq!(enrich.min_vram_gb, Some(6));
    assert_eq!(enrich.kind.as_deref(), Some("chat"));
}

#[test]
fn maps_embedding_pipeline() {
    let h = hit(
        "ggml-org/embeddinggemma-300M-GGUF",
        Some("feature-extraction"),
        &["gguf", "feature-extraction"],
        Some(HfGgufMeta { context_length: Some(2048), total: Some(200_000_000), total_file_size: None }),
        &[],
    );
    let enrich = enrichment_from_hit(&h, "embeddinggemma.gguf");
    assert_eq!(enrich.kind.as_deref(), Some("embedding"));
    assert_eq!(enrich.min_vram_gb, Some(1));
}

#[test]
fn apply_enrichment_does_not_overwrite_kind() {
    let mut e = entry("x", "x.gguf");
    e.kind = Some("coder".into());
    let enrich = HfEnrichment {
        hf_repo: "org/x".into(),
        description: Some("desc".into()),
        kind: Some("chat".into()),
        max_context_length: Some(8192),
        min_vram_gb: Some(4),
        capabilities: vec!["tools".into()],
    };
    apply_enrichment(&mut e, &enrich);
    assert_eq!(e.kind.as_deref(), Some("coder"));
    assert_eq!(e.description.as_deref(), Some("desc"));
    assert_eq!(e.hf_repo.as_deref(), Some("org/x"));
    assert_eq!(e.max_context_length, Some(8192));
    assert_eq!(e.capabilities, vec!["tools".to_string()]);
}

#[test]
fn scores_exact_sibling_highest() {
    let h = hit(
        "lmstudio-community/Foo-GGUF",
        None,
        &[],
        Some(HfGgufMeta { context_length: Some(4096), total: None, total_file_size: None }),
        &["Foo-Q4_K_M.gguf"],
    );
    let other = hit("someone/unrelated", None, &[], None, &["Bar.gguf"]);
    assert!(score_hf_hit(Some(&h), "Foo-Q4_K_M.gguf") > score_hf_hit(Some(&other), "Foo-Q4_K_M.gguf"));
    // 100 exact + 40 partial + 20 lmstudio + 10 id contains "foo" + 5 gguf
    assert_eq!(score_hf_hit(Some(&h), "Foo-Q4_K_M.gguf"), 175);
    assert_eq!(score_hf_hit(None, "Foo-Q4_K_M.gguf"), -1);
}

#[test]
fn strips_quant_markers_in_list_order() {
    assert_eq!(strip_quant_suffix("Qwen3.5-9B-Q4_K_M"), "Qwen3.5-9B");
    assert_eq!(strip_quant_suffix("model-F16"), "model");
    assert_eq!(strip_quant_suffix("plain"), "plain");
    assert_eq!(search_query_for_file("/models/sub/Llama-3-8B-IQ4_XS.gguf"), "Llama-3-8B");
}

#[test]
fn kind_from_catalog_words() {
    assert_eq!(infer_kind_from_hf(&None, &vec![], "x.gguf"), None);
    assert_eq!(infer_kind_from_hf(&None, &vec!["vision".into()], "x.gguf").as_deref(), Some("vision"));
    assert_eq!(infer_kind_from_hf(&Some("text-generation".into()), &vec![], "qwen-coder.gguf").as_deref(), Some("coder"));
}

#[test]
fn card_description_is_trimmed_and_camel_card_is_a_fallback() {
    let mut h = hit("org/m", None, &["reasoning", "tool-use"], None, &[]);
    h.card_data_camel = Some(HfCardData { description: Some("  A model.  ".into()) });
    let e = enrichment_from_hit(&h, "m.gguf");
    assert_eq!(e.description.as_deref(), Some("A model."));
    assert_eq!(e.capabilities, vec!["reasoning".to_string(), "tools".to_string()]);
    assert_eq!(e.min_vram_gb, None);
}

#[test]
fn sync_applies_the_best_hit_and_counts() {
    let mut e = entry("foo", "sub/Foo-Q4_K_M.gguf");
    let hits = vec![
        Some(hit("someone/unrelated", None, &[], None, &["Bar.gguf"])),
        Some(hit("lmstudio-community/Foo-GGUF", Some("text-generation"), &[], None, &["Foo-Q4_K_M.gguf"])),
        None,
    ];
    let outcome = sync_entry(&mut e, &hits, Some(3_500_000_000));
    assert_eq!(outcome, SyncOutcome::Matched);
    assert_eq!(e.hf_repo.as_deref(), Some("lmstudio-community/Foo-GGUF"));
    assert_eq!(e.min_vram_gb, Some(4));

    let mut disabled = entry("d", "d.gguf");
    disabled.enabled = false;
    assert_eq!(sync_entry(&mut disabled, &hits, None), SyncOutcome::Skipped);
    let mut missed = entry("z", "zzz.gguf");
    assert_eq!(sync_entry(&mut missed, &vec![None], None), SyncOutcome::Missed);

    let s = SyncSummary::tally(&[SyncOutcome::Matched, SyncOutcome::Missed, SyncOutcome::Matched, SyncOutcome::Skipped]);
    assert_eq!((s.matched, s.missed, s.skipped), (2, 1, 1));
}

#[test]
fn sync_query_prefers_the_pinned_repository() {
    let mut e = entry("foo", "Foo-Q4_K_M.gguf");
    assert!(matches!(sync_query(&e), HfQuery::Search(q) if q == "Foo"));
    e.hf_repo = Some("org/foo".into());
    assert!(matches!(sync_query(&e), HfQuery::ById(r) if r == "org/foo"));
}

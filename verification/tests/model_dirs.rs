use gguf_switchboard::errors::RuntimeError;
use gguf_switchboard::model_dirs::{
    common_models_dir_candidates, registry_file_is_json, resolve_models_dirs, resolve_models_dirs_with_fallback,
    DirProbe, RegistryFile,
};
use gguf_switchboard::registry::{ModelsRegistry, RegistryDefaults, RegistryEntry};

fn probe(path: &str, is_dir: bool, has_gguf: bool) -> DirProbe {
    DirProbe { path: path.into(), is_dir, canonical: path.into(), has_gguf }
}

#[test]
fn resolve_models_dirs_skips_missing_entries() {
    let dirs = resolve_models_dirs(&[probe("/a", true, false), probe("/missing", false, false), probe("/b", true, false)]).unwrap();
    assert_eq!(dirs, vec!["/a".to_string(), "/b".to_string()]);
}

#[test]
fn resolve_models_dirs_requires_existing_paths() {
    let err = resolve_models_dirs(&[probe("/x", false, false), probe("/y", false, false)]).unwrap_err();
    assert_eq!(err.message(), "Configuration error: Models directory does not exist: /x, /y");
    let err = resolve_models_dirs(&[]).unwrap_err();
    assert!(matches!(err, RuntimeError::ConfigError(m) if m.contains("models_dir is empty")));
}

#[test]
fn resolve_models_dirs_with_fallback_prefers_configured_then_common() {
    let configured = [probe("/cfg", true, false)];
    let candidates = [probe("/home/u/models", true, true), probe("/models", true, false), probe("/gone", false, true)];
    let dirs = resolve_models_dirs_with_fallback(&configured, &candidates).unwrap();
    assert_eq!(dirs, vec!["/cfg".to_string(), "/home/u/models".to_string()]);
}

#[test]
fn resolve_models_dirs_with_fallback_dedupes_configured() {
    let mut twin = probe("/Models/", true, false);
    twin.canonical = "/MODELS".into();
    let configured = [probe("/models", true, false), twin];
    let candidates = [probe("/models", true, true)];
    let dirs = resolve_models_dirs_with_fallback(&configured, &candidates).unwrap();
    assert_eq!(dirs, vec!["/models".to_string()]);
    assert!(resolve_models_dirs_with_fallback(&[], &[probe("/e", true, false)]).is_err());
}

#[test]
fn common_candidates_follow_home() {
    assert_eq!(
        common_models_dir_candidates(Some("/home/u")),
        vec!["/home/u/models", "/home/u/.lmstudio/models", "/models", "/var/lib/gguf-switchboard/models"]
    );
    assert_eq!(common_models_dir_candidates(Some("/root/"))[0], "/root/models");
    assert_eq!(common_models_dir_candidates(None), vec!["/models", "/var/lib/gguf-switchboard/models"]);
}

#[test]
fn loading_a_toml_registry_dedupes_and_normalizes() {
    let mut a = RegistryEntry::default();
    a.alias = "a".into();
    a.file = "a.gguf".into();
    a.priority = true;
    let mut b = a.clone();
    b.alias = "b".into();
    b.file = "b.gguf".into();
    let reg = ModelsRegistry { version: 1, defaults: RegistryDefaults::default(), auto_discover: false, models: vec![a.clone(), a, b] };
    let loaded = ModelsRegistry::load(RegistryFile::Toml(reg)).unwrap();
    assert_eq!(loaded.models.len(), 2);
    assert_eq!(loaded.models.iter().filter(|m| m.priority).count(), 1);
    assert!(registry_file_is_json("models.json"));
    assert!(!registry_file_is_json("models.toml"));
}

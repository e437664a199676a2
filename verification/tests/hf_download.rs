use gguf_switchboard::errors::RuntimeError;
use gguf_switchboard::hf_download::{
    aria2_args, download_url, expected_sha256, format_bytes, verify_download, HfLfsMeta, HfTreeEntry,
};

#[test]
fn download_url_uses_hugging_face_repository_route() {
    assert_eq!(
        download_url("unsloth/DeepSeek-R1-Distill-Llama-8B-GGUF", "DeepSeek-R1-Distill-Llama-8B-Q4_K_M.gguf"),
        "https://huggingface.co/unsloth/DeepSeek-R1-Distill-Llama-8B-GGUF/resolve/main/DeepSeek-R1-Distill-Llama-8B-Q4_K_M.gguf"
    );
}

#[test]
fn aria2_args_enable_parallel_resume_and_checksum() {
    let args = aria2_args(
        "https://huggingface.co/example/model/resolve/main/model.gguf",
        "model.gguf",
        "/home/pradeep/models",
        8,
        Some("abc123"),
        true,
    );
    for expected in [
        "--continue=true",
        "--split=8",
        "--max-connection-per-server=8",
        "--min-split-size=64M",
        "--dir=/home/pradeep/models",
        "--out=model.gguf",
        "--checksum=sha-256=abc123",
        "--file-allocation=falloc",
    ] {
        assert!(args.contains(&expected.to_string()), "missing {expected}");
    }
    assert_eq!(args.last().map(String::as_str), Some("https://huggingface.co/example/model/resolve/main/model.gguf"));
}

#[test]
fn aria2_args_without_checksum_or_preallocation() {
    let args = aria2_args("u", "f", "/d", 4, None, false);
    assert!(!args.iter().any(|a| a.starts_with("--checksum")));
    assert!(!args.iter().any(|a| a.starts_with("--file-allocation")));
    assert_eq!(args.len(), 8);
}

#[test]
fn verify_download_rejects_wrong_size() {
    let err = verify_download(4, 5, None, "").unwrap_err();
    assert!(err.message().contains("size mismatch"));
}

#[test]
fn verify_download_rejects_wrong_sha256() {
    let zeros = "0".repeat(64);
    let err = verify_download(4, 4, Some(&zeros), "abc").unwrap_err();
    assert!(err.message().contains("SHA-256 mismatch"));
}

#[test]
fn verify_download_accepts_matching_sha_in_any_case() {
    assert!(verify_download(4, 4, Some("ABCDEF"), "abcdef").is_ok());
    assert!(matches!(verify_download(1, 2, None, ""), Err(RuntimeError::ConfigError(_))));
}

#[test]
fn expected_sha_strips_the_prefix() {
    let entry = HfTreeEntry {
        entry_type: "file".into(),
        path: "m.gguf".into(),
        size: 1,
        lfs: Some(HfLfsMeta { oid: Some("sha256:abc".into()), size: Some(1) }),
    };
    assert_eq!(expected_sha256(&entry).as_deref(), Some("abc"));
    let plain = HfTreeEntry { lfs: None, ..entry };
    assert_eq!(expected_sha256(&plain), None);
}

#[test]
fn format_bytes_uses_binary_multiples() {
    assert_eq!(format_bytes(512), "512 B");
    assert_eq!(format_bytes(1536), "1.5 KB");
    assert_eq!(format_bytes(5 * 1024 * 1024 * 1024), "5.0 GB");
    assert_eq!(format_bytes(2 * 1024 * 1024 * 1024 * 1024), "2.0 TB");
}

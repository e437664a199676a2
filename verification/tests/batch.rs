use gguf_switchboard::batch::{
    embedding_batch_defaults, get_batch_size, get_ubatch_size, has_batch_flags, with_batch_size,
    with_ubatch_size,
};

#[test]
fn reads_batch_flag() {
    let args = vec![
        "-m".to_string(),
        "model.gguf".to_string(),
        "-b".to_string(),
        "2048".to_string(),
    ];
    assert_eq!(get_batch_size(&args), Some(2048));
}

#[test]
fn reads_batch_size_flag() {
    let args = vec![
        "-m".to_string(),
        "model.gguf".to_string(),
        "--batch-size".to_string(),
        "1024".to_string(),
    ];
    assert_eq!(get_batch_size(&args), Some(1024));
}

#[test]
fn reads_ubatch_flag() {
    let args = vec![
        "-m".to_string(),
        "model.gguf".to_string(),
        "-ub".to_string(),
        "512".to_string(),
    ];
    assert_eq!(get_ubatch_size(&args), Some(512));
}

#[test]
fn reads_ubatch_size_flag() {
    let args = vec![
        "-m".to_string(),
        "model.gguf".to_string(),
        "--ubatch-size".to_string(),
        "256".to_string(),
    ];
    assert_eq!(get_ubatch_size(&args), Some(256));
}

#[test]
fn updates_existing_batch_flag() {
    let args = vec!["-b".to_string(), "1024".to_string()];
    let updated = with_batch_size(&args, 2048);
    assert_eq!(get_batch_size(&updated), Some(2048));
}

#[test]
fn updates_existing_ubatch_flag() {
    let args = vec!["-ub".to_string(), "512".to_string()];
    let updated = with_ubatch_size(&args, 1024);
    assert_eq!(get_ubatch_size(&updated), Some(1024));
}

#[test]
fn appends_batch_flag_when_missing() {
    let args = vec!["-m".to_string(), "model.gguf".to_string()];
    let updated = with_batch_size(&args, 2048);
    assert_eq!(get_batch_size(&updated), Some(2048));
}

#[test]
fn appends_ubatch_flag_when_missing() {
    let args = vec!["-m".to_string(), "model.gguf".to_string()];
    let updated = with_ubatch_size(&args, 1024);
    assert_eq!(get_ubatch_size(&updated), Some(1024));
}

#[test]
fn embedding_defaults_are_reasonable() {
    let (batch, ubatch) = embedding_batch_defaults();
    assert_eq!(batch, 2048);
    assert_eq!(ubatch, 2048);
    assert!(ubatch <= batch);
}

#[test]
fn detects_batch_flags_present() {
    let with_batch = vec!["-b".to_string(), "2048".to_string()];
    assert!(has_batch_flags(&with_batch));

    let with_ubatch = vec!["-ub".to_string(), "1024".to_string()];
    assert!(has_batch_flags(&with_ubatch));

    let neither = vec!["-c".to_string(), "8192".to_string()];
    assert!(!has_batch_flags(&neither));
}

#[test]
fn returns_none_when_no_batch_flag() {
    let args = vec!["-m".to_string(), "model.gguf".to_string()];
    assert_eq!(get_batch_size(&args), None);
    assert_eq!(get_ubatch_size(&args), None);
}

#[test]
fn rejects_zero_batch_size() {
    let args = vec!["-b".to_string(), "0".to_string()];
    assert_eq!(get_batch_size(&args), None);
}

#[test]
fn batch_flag_without_value_is_ignored_and_appended() {
    let args = vec!["-m".to_string(), "x".to_string(), "-b".to_string()];
    assert_eq!(get_batch_size(&args), None);
    let updated = with_batch_size(&args, 512);
    assert_eq!(
        updated,
        vec!["-m", "x", "-b", "-b", "512"]
            .into_iter()
            .map(String::from)
            .collect::<Vec<_>>()
    );
}

#[test]
fn batch_value_accepts_plus_sign_and_rejects_overflow() {
    let plus = vec!["-b".to_string(), "+64".to_string()];
    assert_eq!(get_batch_size(&plus), Some(64));
    let huge = vec!["-b".to_string(), "4294967296".to_string()];
    assert_eq!(get_batch_size(&huge), None);
    let max = vec!["-b".to_string(), "4294967295".to_string()];
    assert_eq!(get_batch_size(&max), Some(u32::MAX));
}

#[test]
fn batch_sizes_read_back_what_was_written() {
    let plain: Vec<String> = vec!["-m".to_string(), "model.gguf".to_string()];
    assert_eq!(get_batch_size(&with_batch_size(&plain, 512)), Some(512));
    assert_eq!(get_ubatch_size(&with_ubatch_size(&plain, 256)), Some(256));
    let set: Vec<String> = vec!["--batch".to_string(), "64".to_string(), "-ub".to_string(), "32".to_string()];
    assert_eq!(get_batch_size(&with_batch_size(&set, 1024)), Some(1024));
    assert_eq!(get_ubatch_size(&with_ubatch_size(&set, 128)), Some(128));
}

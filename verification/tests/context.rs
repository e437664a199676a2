use gguf_switchboard::args::{flag_value, model_path_from_args, vllm_max_model_len_from_args, vllm_tensor_parallel_size_from_args, with_flag, with_ngl};
use gguf_switchboard::context::{get_context_size, next_lower_context, with_context_size};

fn strings(v: &[&str]) -> Vec<String> {
    v.iter().map(|s| s.to_string()).collect()
}

#[test]
fn reads_context_flag() {
    let args = vec![
        "-m".to_string(),
        "model.gguf".to_string(),
        "-c".to_string(),
        "65536".to_string(),
    ];
    assert_eq!(get_context_size(&args), Some(65536));
}

#[test]
fn updates_existing_context_flag() {
    let args = vec!["-c".to_string(), "65536".to_string()];
    let updated = with_context_size(&args, 32768);
    assert_eq!(get_context_size(&updated), Some(32768));
}

#[test]
fn appends_context_flag_when_missing() {
    let args = vec!["-m".to_string(), "model.gguf".to_string()];
    let updated = with_context_size(&args, 16384);
    assert_eq!(get_context_size(&updated), Some(16384));
}

#[test]
fn halves_context_until_min() {
    assert_eq!(next_lower_context(65536, 8192), Some(32768));
    assert_eq!(next_lower_context(32768, 8192), Some(16384));
    assert_eq!(next_lower_context(16384, 8192), Some(8192));
    assert_eq!(next_lower_context(8192, 8192), None);
}

#[test]
fn next_lower_context_clamps_to_minimum() {
    assert_eq!(next_lower_context(10000, 8192), Some(8192));
    assert_eq!(next_lower_context(1, 0), Some(0));
}

#[test]
fn trailing_context_flag_has_no_value() {
    let args = strings(&["-m", "x", "-c"]);
    assert_eq!(get_context_size(&args), None);
}

#[test]
fn model_path_is_read_from_args() {
    let args: Vec<String> = ["--host", "x", "-m", "/m/a.gguf", "-c", "1"]
        .map(String::from)
        .to_vec();
    assert_eq!(model_path_from_args(&args), Some("/m/a.gguf"));
    assert_eq!(model_path_from_args(&[]), None);
}

#[test]
fn model_path_accepts_long_flag_and_skips_trailing_flag() {
    assert_eq!(model_path_from_args(&strings(&["--model", "/a.gguf"])), Some("/a.gguf"));
    assert_eq!(model_path_from_args(&strings(&["x", "-m"])), None);
}

#[test]
fn with_flag_replaces_first_pair_or_appends() {
    let args = strings(&["--split-mode", "row", "-c", "1"]);
    assert_eq!(with_flag(&args, "--split-mode", "layer"), strings(&["--split-mode", "layer", "-c", "1"]));
    assert_eq!(
        with_flag(&args, "--cache-type-k", "q8_0"),
        strings(&["--split-mode", "row", "-c", "1", "--cache-type-k", "q8_0"])
    );
}

#[test]
fn with_ngl_rewrites_gpu_layers() {
    let args = strings(&["-m", "x", "-ngl", "999"]);
    assert_eq!(with_ngl(&args, 50), strings(&["-m", "x", "-ngl", "50"]));
    assert_eq!(with_ngl(&strings(&["-m", "x"]), 7), strings(&["-m", "x", "-ngl", "7"]));
}

#[test]
fn flag_value_and_vllm_readers() {
    let args = strings(&["serve", "/m", "--max-model-len", "8192", "--tensor-parallel-size", "2"]);
    assert_eq!(flag_value(&args, "serve"), Some("/m"));
    assert_eq!(vllm_max_model_len_from_args(&args), Some(8192));
    assert_eq!(vllm_tensor_parallel_size_from_args(&args), Some(2));
    assert_eq!(vllm_max_model_len_from_args(&strings(&["--max-model-len", "x"])), None);
    assert_eq!(vllm_max_model_len_from_args(&strings(&["--max-model-len", "0"])), Some(0));
}

#[test]
fn with_context_size_appends_the_value_after_a_trailing_flag() {
    let args: Vec<String> = vec!["-m".to_string(), "model.gguf".to_string(), "-c".to_string()];
    let updated = with_context_size(&args, 16384);
    assert_eq!(updated, vec!["-m", "model.gguf", "-c", "16384"]);
    assert_eq!(get_context_size(&updated), Some(16384));
}

//! The decisions of `models pull vllm`: reading its arguments, where the
//! repository is put, which registry file is updated, how large its
//! weights are and how the model is registered. Fetching and downloading
//! are the caller's.
use vstd::prelude::*;
use crate::hf_download::HfTreeEntry;
use crate::model_dirs::{join_path, path_join};
use crate::models_cmd::{infer_kind_from_filename, kind_of_filename, repo_dirname_of, sanitize_repo_dirname};
use crate::text::{concat_str, float_literal, is_float_literal, has_prefix, has_suffix, opt_str, parse_decimal, parse_unsigned, str_ends_with, str_eq, str_starts_with, string_from_str, strings_view};
use crate::vllm_meta::{is_vllm_serving_file, is_weights_path, serving_config_files};

verus! {

/// What `models pull vllm` was asked to do.
#[derive(Debug, Clone)]
pub struct PullVllmArgs {
    pub repo: String,
    pub dest_override: Option<String>,
    pub models_file: Option<String>,
    pub connections: u16,
    pub draft_repo: Option<String>,
    pub num_speculative_tokens: Option<u32>,
    pub attention_backend: Option<String>,
    pub tensor_parallel_size: Option<u32>,
    /// `--gpu-memory-utilization` as given, checked to be a number; it is a
    /// fraction, read by the caller.
    pub gpu_memory_utilization: Option<String>,
    pub served_model_name: Option<String>,
    pub force: bool,
}

pub ghost struct VllmScan {
    pub repo: Option<Seq<char>>,
    pub dest: Option<Seq<char>>,
    pub models_file: Option<Seq<char>>,
    pub connections: u16,
    pub draft: Option<Seq<char>>,
    pub spec_tokens: Option<u32>,
    pub attention: Option<Seq<char>>,
    pub tp: Option<u32>,
    pub gmu: Option<Seq<char>>,
    pub served: Option<Seq<char>>,
    pub force: bool,
}

pub open spec fn initial_vllm_scan() -> VllmScan {
    VllmScan {
        repo: None, dest: None, models_file: None, connections: 8, draft: None, spec_tokens: None,
        attention: None, tp: None, gmu: None, served: None, force: false,
    }
}

pub open spec fn missing_value(flag: Seq<char>) -> Seq<char> {
    "models pull vllm: missing value for "@ + flag
}

pub open spec fn invalid_value(flag: Seq<char>) -> Seq<char> {
    "models pull vllm: invalid value for "@ + flag
}

/// Reading the arguments from index `i` on (`args[0]` is `vllm`).
pub open spec fn scan_vllm(args: Seq<Seq<char>>, i: int, st: VllmScan) -> Result<VllmScan, Seq<char>>
    decreases args.len() - i,
{
    if i >= args.len() || i < 1 {
        Ok(st)
    } else {
        let a = args[i];
        let has_value = i + 1 < args.len();
        let v = args[i + 1];
        if a == "--dir"@ {
            if has_value { scan_vllm(args, i + 2, VllmScan { dest: Some(v), ..st }) } else { Err(missing_value(a)) }
        } else if a == "--registry"@ {
            if has_value { scan_vllm(args, i + 2, VllmScan { models_file: Some(v), ..st }) } else { Err(missing_value(a)) }
        } else if a == "--connections"@ {
            if has_value {
                match parse_unsigned(v, u16::MAX as nat) {
                    Some(n) => if 1 <= n <= 16 {
                        scan_vllm(args, i + 2, VllmScan { connections: n as u16, ..st })
                    } else {
                        Err("models pull: --connections must be an integer from 1 to 16"@)
                    },
                    None => Err("models pull: --connections must be an integer from 1 to 16"@),
                }
            } else {
                Err(missing_value(a))
            }
        } else if a == "--draft"@ {
            if has_value { scan_vllm(args, i + 2, VllmScan { draft: Some(v), ..st }) } else { Err(missing_value(a)) }
        } else if a == "--num-speculative-tokens"@ {
            if has_value {
                match parse_unsigned(v, u32::MAX as nat) {
                    Some(n) => scan_vllm(args, i + 2, VllmScan { spec_tokens: Some(n as u32), ..st }),
                    None => Err(invalid_value(a)),
                }
            } else {
                Err(missing_value(a))
            }
        } else if a == "--attention-backend"@ {
            if has_value { scan_vllm(args, i + 2, VllmScan { attention: Some(v), ..st }) } else { Err(missing_value(a)) }
        } else if a == "--tensor-parallel-size"@ {
            if has_value {
                match parse_unsigned(v, u32::MAX as nat) {
                    Some(n) => scan_vllm(args, i + 2, VllmScan { tp: Some(n as u32), ..st }),
                    None => Err(invalid_value(a)),
                }
            } else {
                Err(missing_value(a))
            }
        } else if a == "--gpu-memory-utilization"@ {
            if has_value {
                if float_literal(v) { scan_vllm(args, i + 2, VllmScan { gmu: Some(v), ..st }) } else { Err(invalid_value(a)) }
            } else {
                Err(missing_value(a))
            }
        } else if a == "--served-model-name"@ {
            if has_value { scan_vllm(args, i + 2, VllmScan { served: Some(v), ..st }) } else { Err(missing_value(a)) }
        } else if a == "--force"@ {
            scan_vllm(args, i + 1, VllmScan { force: true, ..st })
        } else if has_prefix(a, "-"@) {
            Err("models pull vllm: unknown flag '"@ + a + "'"@)
        } else {
            scan_vllm(args, i + 1, VllmScan { repo: Some(a), ..st })
        }
    }
}

pub open spec fn vllm_args_of(args: Seq<Seq<char>>) -> Result<VllmScan, Seq<char>> {
    match scan_vllm(args, 1, initial_vllm_scan()) {
        Ok(st) => if st.repo is None {
            Err("models pull vllm: missing repository id (e.g. Qwen/Qwen2.5-7B-Instruct)"@)
        } else {
            Ok(st)
        },
        Err(m) => Err(m),
    }
}

pub open spec fn vllm_scan_of(p: PullVllmArgs) -> VllmScan {
    VllmScan {
        repo: Some(p.repo@),
        dest: opt_str(p.dest_override),
        models_file: opt_str(p.models_file),
        connections: p.connections,
        draft: opt_str(p.draft_repo),
        spec_tokens: p.num_speculative_tokens,
        attention: opt_str(p.attention_backend),
        tp: p.tensor_parallel_size,
        gmu: opt_str(p.gpu_memory_utilization),
        served: opt_str(p.served_model_name),
        force: p.force,
    }
}

/// The state of the reading so far, as exec values.
struct Reading {
    repo: Option<String>,
    dest: Option<String>,
    models_file: Option<String>,
    connections: u16,
    draft: Option<String>,
    spec_tokens: Option<u32>,
    attention: Option<String>,
    tp: Option<u32>,
    gmu: Option<String>,
    served: Option<String>,
    force: bool,
}

spec fn reading_view(r: Reading) -> VllmScan {
    VllmScan {
        repo: opt_str(r.repo),
        dest: opt_str(r.dest),
        models_file: opt_str(r.models_file),
        connections: r.connections,
        draft: opt_str(r.draft),
        spec_tokens: r.spec_tokens,
        attention: opt_str(r.attention),
        tp: r.tp,
        gmu: opt_str(r.gmu),
        served: opt_str(r.served),
        force: r.force,
    }
}

/// Read the arguments of `models pull vllm` (`args[0]` is `vllm`).
#[verifier::rlimit(40)]
pub fn parse_pull_vllm_args(args: &[String]) -> (r: Result<PullVllmArgs, String>)
    ensures
        match vllm_args_of(strings_view(args@)) {
            Ok(st) => r matches Ok(p) && vllm_scan_of(p) == st,
            Err(m) => r matches Err(s) && s@ == m,
        },
{
    let ghost av = strings_view(args@);
    let mut st = Reading {
        repo: None, dest: None, models_file: None, connections: 8, draft: None, spec_tokens: None,
        attention: None, tp: None, gmu: None, served: None, force: false,
    };
    let mut i: usize = 1;
    while i < args.len()
        invariant
            1 <= i,
            av == strings_view(args@),
            scan_vllm(av, 1, initial_vllm_scan()) == scan_vllm(av, i as int, reading_view(st)),
        decreases args.len() - i,
    {
        let a = args[i].as_str();
        assert(av[i as int] == a@);
        let has_value = i + 1 < args.len();
        proof {
            if has_value {
                assert(av[i + 1] == args@[i + 1]@);
            }
        }
        if str_eq(a, "--dir") {
            if !has_value {
                return Err(concat_str("models pull vllm: missing value for ", a));
            }
            st.dest = Some(args[i + 1].clone());
            i = i + 2;
        } else if str_eq(a, "--registry") {
            if !has_value {
                return Err(concat_str("models pull vllm: missing value for ", a));
            }
            st.models_file = Some(args[i + 1].clone());
            i = i + 2;
        } else if str_eq(a, "--connections") {
            if !has_value {
                return Err(concat_str("models pull vllm: missing value for ", a));
            }
            match crate::models_cmd::parse_connections(args[i + 1].as_str()) {
                Ok(n) => {
                    st.connections = n;
                },
                Err(m) => {
                    return Err(string_from_str(m));
                },
            }
            i = i + 2;
        } else if str_eq(a, "--draft") {
            if !has_value {
                return Err(concat_str("models pull vllm: missing value for ", a));
            }
            st.draft = Some(args[i + 1].clone());
            i = i + 2;
        } else if str_eq(a, "--num-speculative-tokens") {
            if !has_value {
                return Err(concat_str("models pull vllm: missing value for ", a));
            }
            let v = crate::text::chars_of(args[i + 1].as_str());
            match parse_decimal(v.as_slice(), 4294967295u64) {
                Some(n) => {
                    st.spec_tokens = Some(n as u32);
                },
                None => {
                    return Err(concat_str("models pull vllm: invalid value for ", a));
                },
            }
            i = i + 2;
        } else if str_eq(a, "--attention-backend") {
            if !has_value {
                return Err(concat_str("models pull vllm: missing value for ", a));
            }
            st.attention = Some(args[i + 1].clone());
            i = i + 2;
        } else if str_eq(a, "--tensor-parallel-size") {
            if !has_value {
                return Err(concat_str("models pull vllm: missing value for ", a));
            }
            let v = crate::text::chars_of(args[i + 1].as_str());
            match parse_decimal(v.as_slice(), 4294967295u64) {
                Some(n) => {
                    st.tp = Some(n as u32);
                },
                None => {
                    return Err(concat_str("models pull vllm: invalid value for ", a));
                },
            }
            i = i + 2;
        } else if str_eq(a, "--gpu-memory-utilization") {
            if !has_value {
                return Err(concat_str("models pull vllm: missing value for ", a));
            }
            if !is_float_literal(args[i + 1].as_str()) {
                return Err(concat_str("models pull vllm: invalid value for ", a));
            }
            st.gmu = Some(args[i + 1].clone());
            i = i + 2;
        } else if str_eq(a, "--served-model-name") {
            if !has_value {
                return Err(concat_str("models pull vllm: missing value for ", a));
            }
            st.served = Some(args[i + 1].clone());
            i = i + 2;
        } else if str_eq(a, "--force") {
            st.force = true;
            i = i + 1;
        } else if str_starts_with(a, "-") {
            let m1 = concat_str("models pull vllm: unknown flag '", a);
            return Err(concat_str(m1.as_str(), "'"));
        } else {
            st.repo = Some(string_from_str(a));
            i = i + 1;
        }
    }
    match st.repo {
        Some(repo) => Ok(PullVllmArgs {
            repo,
            dest_override: st.dest,
            models_file: st.models_file,
            connections: st.connections,
            draft_repo: st.draft,
            num_speculative_tokens: st.spec_tokens,
            attention_backend: st.attention,
            tensor_parallel_size: st.tp,
            gpu_memory_utilization: st.gmu,
            served_model_name: st.served,
            force: st.force,
        }),
        None => Err(string_from_str("models pull vllm: missing repository id (e.g. Qwen/Qwen2.5-7B-Instruct)")),
    }
}

/// Where a repository is put: a directory named after it under `base`.
pub fn vllm_dest_dir(base: &str, repo: &str) -> (r: String)
    ensures
        r@ == path_join(base@, repo_dirname_of(repo@)),
{
    let d = sanitize_repo_dirname(repo);
    join_path(base, d.as_str())
}

/// The registry a pull updates: the one named by `--registry`, else the
/// `models.toml` in `base` when that file exists, else `models.toml`.
pub open spec fn pull_registry_path(models_file: Option<Seq<char>>, base: Seq<char>, base_registry_exists: bool) -> Seq<char> {
    match models_file {
        Some(f) => f,
        None => if base_registry_exists { path_join(base, "models.toml"@) } else { "models.toml"@ },
    }
}

pub fn registry_path_for(models_file: &Option<String>, base: &str, base_registry_exists: bool) -> (r: String)
    ensures
        r@ == pull_registry_path(opt_str(*models_file), base@, base_registry_exists),
{
    match models_file {
        Some(f) => f.clone(),
        None => if base_registry_exists { join_path(base, "models.toml") } else { string_from_str("models.toml") },
    }
}

/// The total size of the safetensors weights among the serving files,
/// in MiB (rounded down), the sum held at `u64::MAX`.
pub open spec fn weights_bytes(es: Seq<HfTreeEntry>) -> nat
    decreases es.len(),
{
    if es.len() == 0 {
        0
    } else {
        let e = es.last();
        weights_bytes(es.drop_last()) + if (is_weights_path(e.path@) || serving_config_files().contains(e.path@))
            && has_suffix(e.path@, ".safetensors"@) { e.size as nat } else { 0 }
    }
}

pub open spec fn weights_mb_of(es: Seq<HfTreeEntry>) -> nat {
    (if weights_bytes(es) > u64::MAX { u64::MAX as nat } else { weights_bytes(es) }) / 1048576
}

pub fn weights_mb(entries: &[HfTreeEntry]) -> (r: u64)
    ensures
        r as nat == weights_mb_of(entries@),
{
    let mut total: u64 = 0;
    let mut saturated = false;
    let mut i: usize = 0;
    while i < entries.len()
        invariant
            i <= entries@.len(),
            saturated ==> weights_bytes(entries@.subrange(0, i as int)) > u64::MAX,
            !saturated ==> total as nat == weights_bytes(entries@.subrange(0, i as int)),
            saturated ==> total == u64::MAX,
        decreases entries.len() - i,
    {
        assert(entries@.subrange(0, i + 1).drop_last() =~= entries@.subrange(0, i as int));
        let p = entries[i].path.as_str();
        if is_vllm_serving_file(p) && str_ends_with(p, ".safetensors") {
            if !saturated {
                match total.checked_add(entries[i].size) {
                    Some(t) => {
                        total = t;
                    },
                    None => {
                        total = u64::MAX;
                        saturated = true;
                    },
                }
            }
        }
        proof {
            lemma_weights_bytes_monotone(entries@, i as int);
        }
        i = i + 1;
    }
    assert(entries@.subrange(0, entries@.len() as int) =~= entries@);
    total / 1048576
}

proof fn lemma_weights_bytes_monotone(es: Seq<HfTreeEntry>, i: int)
    requires
        0 <= i < es.len(),
    ensures
        weights_bytes(es.subrange(0, i)) <= weights_bytes(es.subrange(0, i + 1)),
{
    assert(es.subrange(0, i + 1).drop_last() =~= es.subrange(0, i));
}

/// The VRAM a vLLM model is registered with: its weights in whole GiB,
/// rounded up, at least one.
pub open spec fn vllm_min_vram(weights_mb: nat) -> u32 {
    let gb = (weights_mb + 1023) / 1024;
    if gb > u32::MAX { u32::MAX } else if gb < 1 { 1 } else { gb as u32 }
}

pub fn vllm_min_vram_gb(weights_mb: u64) -> (r: u32)
    ensures
        r == vllm_min_vram(weights_mb as nat),
{
    let gb: u64 = weights_mb / 1024 + if weights_mb % 1024 > 0 { 1u64 } else { 0u64 };
    assert(gb == (weights_mb + 1023) / 1024) by (nonlinear_arith)
        requires gb == weights_mb / 1024 + if weights_mb % 1024 > 0 { 1int } else { 0int };
    if gb > 4294967295u64 {
        4294967295u32
    } else if gb < 1 {
        1
    } else {
        gb as u32
    }
}

/// The kind a vLLM model is registered with, from its repository and
/// architecture names.
pub fn vllm_kind(repo: &str, architecture: &Option<String>) -> (r: String)
    ensures
        r@ == kind_of_filename(repo@ + " "@ + match architecture { Some(a) => a@, None => seq![] }),
{
    let a = concat_str(repo, " ");
    let arch = match architecture {
        Some(x) => x.clone(),
        None => String::new(),
    };
    let name = concat_str(a.as_str(), arch.as_str());
    infer_kind_from_filename(name.as_str())
}

/// The error for a repository that is not a servable safetensors repository.
pub fn not_servable_message(repo: &str) -> (r: String)
    ensures
        r@ == repo@ + " does not look like a vLLM-servable safetensors repo (no *.safetensors + config.json found). Use `ggs models search vllm <query>` to find one, or `ggs models pull "@
            + repo@ + "` for GGUF/llama.cpp instead."@,
{
    let a = concat_str(
        repo,
        " does not look like a vLLM-servable safetensors repo (no *.safetensors + config.json found). Use `ggs models search vllm <query>` to find one, or `ggs models pull ",
    );
    let b = concat_str(a.as_str(), repo);
    concat_str(b.as_str(), "` for GGUF/llama.cpp instead.")
}

} // verus!

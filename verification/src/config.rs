//! Server configuration values: the per-model launch configuration, the
//! profile a model was last loaded with, embedding admission settings and
//! the model-switch strategy, with their defaults.
use vstd::prelude::*;
use crate::embedding_admission::{balanced_concurrency, balanced_concurrency_spec};
use crate::fit::{opt_seq, FitPlan};
use crate::text::{clone_opt_str, has_prefix, opt_str, str_starts_with, string_from_str};
use crate::errors::RuntimeError;
use crate::model_dirs::{join_path, path_join};

verus! {

/// How the scheduler swaps models.
#[derive(Clone, Copy, Debug, PartialEq, Eq, Structural)]
pub enum SwitchStrategy {
    /// Drain, unload the previous model, load the target.
    UnloadFirst,
    /// Drain, load the target, unload the previous model.
    LoadFirst,
}

impl SwitchStrategy {
    pub fn default() -> (r: SwitchStrategy)
        ensures
            r == SwitchStrategy::UnloadFirst,
    {
        SwitchStrategy::UnloadFirst
    }
}

/// Embedding-specific VRAM budgeting and admission control.
#[derive(Clone, Debug)]
pub struct EmbeddingFitConfig {
    pub enabled: bool,
    pub profile: String,
    pub vram_reserve_percent: u8,
    pub vram_reserve_min_mb: u32,
    pub queue_timeout_secs: u64,
}

impl EmbeddingFitConfig {
    pub fn default() -> (r: EmbeddingFitConfig)
        ensures
            r.enabled,
            r.profile@ == "balanced"@,
            r.vram_reserve_percent == 15,
            r.vram_reserve_min_mb == 1536,
            r.queue_timeout_secs == 30,
    {
        EmbeddingFitConfig {
            enabled: true,
            profile: string_from_str("balanced"),
            vram_reserve_percent: 15,
            vram_reserve_min_mb: 1536,
            queue_timeout_secs: 30,
        }
    }
}

/// The load profile that was used to start a model successfully.
/// `tensor_split_tenths` holds ratios in tenths (`12` stands for `1.2`).
#[derive(Clone, Debug)]
pub struct RuntimeProfile {
    pub context_size: u32,
    pub ngl: u32,
    pub split_mode: Option<String>,
    pub tensor_split_tenths: Option<Vec<u64>>,
    pub cache_type_k: Option<String>,
    pub cache_type_v: Option<String>,
    pub batch_size: Option<u32>,
    pub ubatch_size: Option<u32>,
    pub embedding_concurrency: Option<u32>,
    pub reason: String,
    pub profile_source: String,
}

impl RuntimeProfile {
    /// The profile of a fit plan, recorded with where it came from.
    pub fn from_fit_plan(plan: &FitPlan, source: &str) -> (r: RuntimeProfile)
        ensures
            r.context_size == plan.context_size,
            r.ngl == plan.ngl,
            opt_str(r.split_mode) == opt_str(plan.split_mode),
            opt_seq(r.tensor_split_tenths) == opt_seq(plan.tensor_split_tenths),
            opt_str(r.cache_type_k) == opt_str(plan.cache_type_k),
            opt_str(r.cache_type_v) == opt_str(plan.cache_type_v),
            r.batch_size == plan.batch_size,
            r.ubatch_size == plan.ubatch_size,
            r.embedding_concurrency == (match plan.batch_size {
                Some(b) => Some(balanced_concurrency_spec(Some(b)) as u32),
                None => None,
            }),
            r.reason@ == plan.reason@,
            r.profile_source@ == source@,
    {
        let embedding_concurrency = match plan.batch_size {
            Some(b) => Some(balanced_concurrency(Some(b)) as u32),
            None => None,
        };
        RuntimeProfile {
            context_size: plan.context_size,
            ngl: plan.ngl,
            split_mode: clone_opt_str(&plan.split_mode),
            tensor_split_tenths: match &plan.tensor_split_tenths {
                Some(v) => Some(v.clone()),
                None => None,
            },
            cache_type_k: clone_opt_str(&plan.cache_type_k),
            cache_type_v: clone_opt_str(&plan.cache_type_v),
            batch_size: plan.batch_size,
            ubatch_size: plan.ubatch_size,
            embedding_concurrency,
            reason: plan.reason.clone(),
            profile_source: string_from_str(source),
        }
    }
}

/// How one model is launched and served.
#[derive(Clone, Debug)]
pub struct ModelConfig {
    /// Backend engine (e.g. `llama.cpp`).
    pub backend: String,
    pub display_name: String,
    /// Path to the backend server binary.
    pub command: String,
    pub args: Vec<String>,
    /// OpenAI-compatible API of the backend.
    pub backend_url: String,
    pub health_url: String,
    /// Loaded automatically after the idle timeout.
    pub priority: bool,
    /// `chat`, `coder`, `vision`, `embedding` or `reranker`.
    pub kind: String,
    pub description: Option<String>,
    pub max_context_length: Option<u32>,
    pub min_vram_gb: Option<u32>,
    pub capabilities: Vec<String>,
    pub hf_repo: Option<String>,
    /// Minimum context the model is always served with.
    pub ctx_floor: Option<u32>,
    /// GGUF `block_count`, when known.
    pub block_count: Option<u32>,
    /// `-ngl` is pinned and must not be rewritten.
    pub ngl_pinned: bool,
    /// `{filename}:{file_size_mb}`, the key of cached load profiles.
    pub model_fingerprint: Option<String>,
    pub max_context_from_gguf: Option<u32>,
    /// The active profile after a successful load.
    pub runtime_profile: Option<RuntimeProfile>,
}

/// Default configuration values.
pub const DEFAULT_STARTUP_TIMEOUT_SECS: u64 = 60;
pub const DEFAULT_IDLE_TIMEOUT_SECS: u64 = 600;
pub const DEFAULT_VRAM_GB: u32 = 12;
pub const DEFAULT_MEMORY_WARNING_THRESHOLD: u8 = 85;
pub const DEFAULT_MEMORY_CRITICAL_THRESHOLD: u8 = 95;
pub const DEFAULT_MEMORY_CHECK_INTERVAL_SECS: u64 = 30;
pub const DEFAULT_CONTEXT_FALLBACK_MIN: u32 = 8192;
pub const DEFAULT_SWITCH_DRAIN_TIMEOUT_SECS: u64 = 120;
pub const DEFAULT_PRIORITY_LOAD_COOLDOWN_SECS: u64 = 300;
pub const DEFAULT_MODELS_RESCAN_INTERVAL_SECS: u64 = 86400;

pub fn default_model_kind() -> (r: String)
    ensures
        r@ == "chat"@,
{
    string_from_str("chat")
}

pub fn default_backend() -> (r: String)
    ensures
        r@ == "llama.cpp"@,
{
    string_from_str("llama.cpp")
}

// ── The server configuration ────────────────────────────────────────────────

/// The server configuration (`config.toml`). `models` holds the served
/// models under their ids, each id once, in the order they were defined.
#[derive(Clone, Debug)]
pub struct Config {
    /// Address the HTTP server binds (e.g. `0.0.0.0:9090`).
    pub bind: String,
    pub startup_timeout: u64,
    pub idle_timeout: u64,
    pub default_backend: String,
    pub database_path: Option<String>,
    /// GPU VRAM in GB used to size default context windows.
    pub vram_gb: u32,
    pub auto_ngl: bool,
    /// The models registry (`models.toml` or `models.json`) the models come from.
    pub models_file: Option<String>,
    /// The registry's portable JSON export.
    pub registry_json: String,
    pub models: Vec<(String, ModelConfig)>,
    pub memory_warning_threshold: u8,
    pub memory_critical_threshold: u8,
    pub memory_check_interval_secs: u64,
    pub context_fallback_min: u32,
    pub switch_drain_timeout_secs: u64,
    pub priority_load_cooldown_secs: u64,
    pub models_rescan_interval_secs: u64,
    pub fit: crate::fit::FitConfig,
    pub embedding_fit: EmbeddingFitConfig,
    pub switch_strategy: SwitchStrategy,
    pub prewarm_recent_models: usize,
}

pub open spec fn model_ids(models: Seq<(String, ModelConfig)>) -> Seq<Seq<char>> {
    models.map_values(|m: (String, ModelConfig)| m.0@)
}

/// No model id occurs twice.
pub open spec fn distinct_ids(models: Seq<(String, ModelConfig)>) -> bool {
    forall|i: int, j: int| 0 <= i < j < models.len() ==> (#[trigger] models[i]).0@ != (#[trigger] models[j]).0@
}

/// The first model, in definition order, marked as the priority model.
pub open spec fn first_priority(models: Seq<(String, ModelConfig)>, i: int) -> Option<int>
    decreases models.len() - i,
{
    if i < 0 || i >= models.len() {
        None
    } else if models[i].1.priority {
        Some(i)
    } else {
        first_priority(models, i + 1)
    }
}

proof fn lemma_first_priority_found(models: Seq<(String, ModelConfig)>, i: int, k: int)
    requires
        0 <= i <= k < models.len(),
        models[k].1.priority,
    ensures
        first_priority(models, i) is Some,
    decreases k - i,
{
    if !models[i].1.priority {
        lemma_first_priority_found(models, i + 1, k);
    }
}

proof fn lemma_first_priority_unique(models: Seq<(String, ModelConfig)>, i: int, k: int)
    requires
        0 <= i <= k < models.len(),
        models[k].1.priority,
        forall|j: int| i <= j < models.len() && j != k ==> !(#[trigger] models[j]).1.priority,
    ensures
        first_priority(models, i) == Some(k),
    decreases k - i,
{
    if i < k {
        lemma_first_priority_unique(models, i + 1, k);
    }
}

/// Where a registry path given in the configuration points: itself when
/// absolute, else beside the configuration file.
pub open spec fn relative_to_config(config_path: Seq<char>, models_path: Seq<char>) -> Seq<char> {
    if models_path.len() > 0 && models_path[0] == '/' {
        models_path
    } else {
        path_join(match parent_path(config_path) { Some(p) => p, None => "."@ }, models_path)
    }
}

/// What `Path::parent` gives for a path: the path without its final
/// component, `None` for a root or the empty path.
pub uninterp spec fn parent_path(p: Seq<char>) -> Option<Seq<char>>;

/// `Path::parent`.
#[verifier::external_body]
fn path_parent(p: &str) -> (r: Option<String>)
    ensures
        opt_str(r) == parent_path(p@),
{
    std::path::Path::new(p).parent().map(|q| q.to_string_lossy().into_owned())
}

/// Resolve a registry path relative to the configuration file it was
/// given in.
pub fn resolve_relative_to_config(config_path: &str, models_path: &str) -> (r: String)
    ensures
        r@ == relative_to_config(config_path@, models_path@),
{
    if str_starts_with(models_path, "/") {
        proof {
            reveal_strlit("/");
            assert("/"@ =~= seq!['/']);
            assert(models_path@.subrange(0, 1)[0] == models_path@[0]);
        }
        assert(models_path@.len() > 0 && models_path@[0] == '/');
        return string_from_str(models_path);
    }
    proof {
        reveal_strlit("/");
        if models_path@.len() > 0 && models_path@[0] == '/' {
            assert(models_path@.subrange(0, 1) =~= "/"@);
            assert(has_prefix(models_path@, "/"@));
        }
    }
    let parent = match path_parent(config_path) {
        Some(p) => p,
        None => string_from_str("."),
    };
    join_path(parent.as_str(), models_path)
}

/// The `models.toml` beside a configuration file.
pub open spec fn sibling_registry(config_path: Seq<char>) -> Seq<char> {
    path_join(match parent_path(config_path) { Some(p) => p, None => "."@ }, "models.toml"@)
}

pub fn sibling_models_toml(config_path: &str) -> (r: String)
    ensures
        r@ == sibling_registry(config_path@),
{
    let parent = match path_parent(config_path) {
        Some(p) => p,
        None => string_from_str("."),
    };
    join_path(parent.as_str(), "models.toml")
}

impl Config {
    /// The model id of the priority model: the first model marked priority.
    pub fn priority_model_id(&self) -> (r: Option<String>)
        ensures
            match first_priority(self.models@, 0) {
                Some(i) => r matches Some(id) && id@ == self.models@[i].0@,
                None => r is None,
            },
    {
        let mut i: usize = 0;
        while i < self.models.len() && !self.models[i].1.priority
            invariant
                i <= self.models@.len(),
                first_priority(self.models@, 0) == first_priority(self.models@, i as int),
            decreases self.models.len() - i,
        {
            i = i + 1;
        }
        if i < self.models.len() { Some(self.models[i].0.clone()) } else { None }
    }

    /// The registry the models are loaded from, resolved beside the
    /// configuration file: the configured `models_file`, else the
    /// `models.toml` beside the configuration when that is a file
    /// (`sibling_is_file`), else none.
    pub fn registry_to_load(&self, config_path: &str, sibling_is_file: bool) -> (r: Option<String>)
        ensures
            opt_str(r) == match self.models_file {
                Some(f) => Some(relative_to_config(config_path@, f@)),
                None => if sibling_is_file {
                    Some(relative_to_config(config_path@, sibling_registry(config_path@)))
                } else {
                    None
                },
            },
    {
        match &self.models_file {
            Some(f) => Some(resolve_relative_to_config(config_path, f.as_str())),
            None => if sibling_is_file {
                let sibling = sibling_models_toml(config_path);
                Some(resolve_relative_to_config(config_path, sibling.as_str()))
            } else {
                None
            },
        }
    }

    /// Serve the models a registry expanded to: they replace any models
    /// defined inline, and the registry becomes the configured one.
    pub fn use_registry(&mut self, resolved: String, expanded: Vec<(String, ModelConfig)>, registry_json: String)
        ensures
            final(self).models@ == expanded@,
            opt_str(final(self).models_file) == Some(resolved@),
            final(self).registry_json@ == registry_json@,
            final(self).bind == old(self).bind,
            final(self).default_backend == old(self).default_backend,
            final(self).vram_gb == old(self).vram_gb,
    {
        self.models = expanded;
        self.models_file = Some(resolved);
        self.registry_json = registry_json;
    }

    /// A configuration must serve at least one model.
    pub fn check_has_models(&self) -> (r: Result<(), RuntimeError>)
        ensures
            r is Ok <==> self.models@.len() > 0,
            r matches Err(RuntimeError::ConfigError(m)) ==> m@ == "Configuration must define at least one model (inline [models.*] or models_file)"@,
            r matches Err(e) ==> e is ConfigError,
    {
        if self.models.len() == 0 {
            Err(RuntimeError::ConfigError(string_from_str(
                "Configuration must define at least one model (inline [models.*] or models_file)",
            )))
        } else {
            Ok(())
        }
    }
}

/// When at most one model is marked priority — as the registry's
/// normalisation leaves it — the priority model is that one, whatever the
/// order of the models.
pub proof fn lemma_single_priority_model(models: Seq<(String, ModelConfig)>, k: int)
    requires
        0 <= k < models.len(),
        models[k].1.priority,
        forall|j: int| 0 <= j < models.len() && j != k ==> !(#[trigger] models[j]).1.priority,
    ensures
        first_priority(models, 0) == Some(k),
{
    lemma_first_priority_unique(models, 0, k);
}

/// Without a model marked priority there is no priority model; with one,
/// there is.
pub proof fn lemma_priority_exists(models: Seq<(String, ModelConfig)>)
    ensures
        first_priority(models, 0) is Some <==> exists|k: int| 0 <= k < models.len() && (#[trigger] models[k]).1.priority,
{
    if exists|k: int| 0 <= k < models.len() && (#[trigger] models[k]).1.priority {
        let k = choose|k: int| 0 <= k < models.len() && (#[trigger] models[k]).1.priority;
        lemma_first_priority_found(models, 0, k);
    } else {
        lemma_no_priority(models, 0);
    }
}

proof fn lemma_no_priority(models: Seq<(String, ModelConfig)>, i: int)
    requires
        0 <= i,
        forall|k: int| 0 <= k < models.len() ==> !(#[trigger] models[k]).1.priority,
    ensures
        first_priority(models, i) is None,
    decreases models.len() - i,
{
    if i < models.len() {
        assert(!models[i].1.priority);
        lemma_no_priority(models, i + 1);
    }
}

} // verus!

//! Values the HTTP service answers with: liveness, GPU and host telemetry,
//! registry refreshes, token usage, and the defaults of its query
//! parameters.
use vstd::prelude::*;
use crate::text::string_from_str;
use crate::config::ModelConfig;

verus! {

/// Per-GPU telemetry.
#[derive(Debug, Clone)]
pub struct GpuInfo {
    pub index: usize,
    pub name: String,
    /// Compute utilization, 0-100.
    pub gpu_utilization_pct: u32,
    /// Memory-controller utilization, 0-100.
    pub memory_utilization_pct: u32,
    pub memory_total_mb: u64,
    pub memory_used_mb: u64,
    pub memory_free_mb: u64,
    /// `memory_used_mb / memory_total_mb` in percent, rounded.
    pub memory_used_pct: u32,
    /// Core temperature in Celsius (0 when not reported).
    pub temperature_c: u32,
}

/// `used / total` in percent, rounded half up; 0 for no total.
pub open spec fn used_pct(used: nat, total: nat) -> u32 {
    if total == 0 {
        0
    } else {
        let p = (200 * used + total) / (2 * total);
        if p > u32::MAX { u32::MAX } else { p as u32 }
    }
}

pub fn used_pct_exec(used: u64, total: u64) -> (r: u32)
    ensures
        r == used_pct(used as nat, total as nat),
{
    if total == 0 {
        return 0;
    }
    let num: u128 = 200 * (used as u128) + (total as u128);
    let den: u128 = 2 * (total as u128);
    let p = num / den;
    if p > 4294967295u128 {
        4294967295u32
    } else {
        p as u32
    }
}

impl GpuInfo {
    /// The telemetry of one GPU, with its used-memory percentage computed.
    pub fn new(
        index: usize,
        name: String,
        gpu_utilization_pct: u32,
        memory_utilization_pct: u32,
        memory_total_mb: u64,
        memory_used_mb: u64,
        memory_free_mb: u64,
        temperature_c: u32,
    ) -> (r: GpuInfo)
        ensures
            r.index == index,
            r.name == name,
            r.gpu_utilization_pct == gpu_utilization_pct,
            r.memory_utilization_pct == memory_utilization_pct,
            r.memory_total_mb == memory_total_mb,
            r.memory_used_mb == memory_used_mb,
            r.memory_free_mb == memory_free_mb,
            r.memory_used_pct == used_pct(memory_used_mb as nat, memory_total_mb as nat),
            r.temperature_c == temperature_c,
    {
        GpuInfo {
            index,
            name,
            gpu_utilization_pct,
            memory_utilization_pct,
            memory_total_mb,
            memory_used_mb,
            memory_free_mb,
            memory_used_pct: used_pct_exec(memory_used_mb, memory_total_mb),
            temperature_c,
        }
    }
}

/// Host CPU and RAM telemetry.
#[derive(Debug, Clone, Copy)]
pub struct HostInfo {
    pub cpu_utilization_pct: u32,
    pub cpu_count: usize,
    pub memory_total_mb: u64,
    pub memory_used_mb: u64,
    pub memory_used_pct: u32,
}

impl HostInfo {
    /// What is reported when the host could not be sampled.
    pub fn unknown() -> (r: HostInfo)
        ensures
            r.cpu_utilization_pct == 0,
            r.cpu_count == 0,
            r.memory_total_mb == 0,
            r.memory_used_mb == 0,
            r.memory_used_pct == 0,
    {
        HostInfo { cpu_utilization_pct: 0, cpu_count: 0, memory_total_mb: 0, memory_used_mb: 0, memory_used_pct: 0 }
    }
}

/// The liveness answer.
#[derive(Debug, Clone)]
pub struct HealthResponse {
    pub status: String,
    pub version: String,
    pub loaded_model: Option<String>,
    pub llama_server_version: Option<String>,
}

impl HealthResponse {
    /// A healthy answer (`status` is `ok`).
    pub fn ok(version: &str, loaded_model: Option<String>, llama_server_version: Option<String>) -> (r: HealthResponse)
        ensures
            r.status@ == "ok"@,
            r.version@ == version@,
            r.loaded_model == loaded_model,
            r.llama_server_version == llama_server_version,
    {
        HealthResponse { status: string_from_str("ok"), version: string_from_str(version), loaded_model, llama_server_version }
    }
}

/// One configured model as the status report lists it.
#[derive(Debug, Clone)]
pub struct ConfiguredModel {
    pub id: String,
    pub display_name: String,
    pub backend: String,
    pub priority: bool,
}

/// The status entry of model `id`, from its configuration; a model whose
/// configuration is gone shows empty names and no priority.
pub fn configured_model(id: &str, cfg: Option<&ModelConfig>) -> (r: ConfiguredModel)
    ensures
        r.id@ == id@,
        match cfg {
            Some(c) => r.display_name@ == c.display_name@ && r.backend@ == c.backend@ && r.priority == c.priority,
            None => r.display_name@.len() == 0 && r.backend@.len() == 0 && !r.priority,
        },
{
    match cfg {
        Some(c) => ConfiguredModel {
            id: string_from_str(id),
            display_name: c.display_name.clone(),
            backend: c.backend.clone(),
            priority: c.priority,
        },
        None => ConfiguredModel { id: string_from_str(id), display_name: String::new(), backend: String::new(), priority: false },
    }
}

/// The detailed status report. `last_switch` is the timing report of the
/// latest model switch, as JSON text.
#[derive(Debug, Clone)]
pub struct StatusResponse {
    pub status: String,
    pub version: String,
    pub loaded_model: Option<String>,
    pub llama_server_version: Option<String>,
    pub priority_model: Option<String>,
    pub configured_models: Vec<ConfiguredModel>,
    pub uptime_secs: u64,
    /// Requests in flight across all models.
    pub active_requests: u32,
    pub gpus: Vec<GpuInfo>,
    pub host: HostInfo,
    pub last_switch: Option<String>,
}

impl StatusResponse {
    /// A report whose `status` is `ok`, every other part as given.
    pub fn ok(
        version: &str,
        health: (Option<String>, Option<String>),
        priority_model: Option<String>,
        configured_models: Vec<ConfiguredModel>,
        uptime_secs: u64,
        active_requests: u32,
        gpus: Vec<GpuInfo>,
        host: HostInfo,
        last_switch: Option<String>,
    ) -> (r: StatusResponse)
        ensures
            r.status@ == "ok"@,
            r.version@ == version@,
            r.loaded_model == health.0,
            r.llama_server_version == health.1,
            r.priority_model == priority_model,
            r.configured_models@ == configured_models@,
            r.uptime_secs == uptime_secs,
            r.active_requests == active_requests,
            r.gpus@ == gpus@,
            r.host == host,
            r.last_switch == last_switch,
    {
        StatusResponse {
            status: string_from_str("ok"),
            version: string_from_str(version),
            loaded_model: health.0,
            llama_server_version: health.1,
            priority_model,
            configured_models,
            uptime_secs,
            active_requests,
            gpus,
            host,
            last_switch,
        }
    }
}

/// The answer to a registry refresh.
#[derive(Debug, Clone)]
pub struct RefreshModelsResponse {
    pub added: usize,
    pub removed: usize,
    pub total: usize,
    pub models_dir: String,
}

/// Query of a model's throughput history.
#[derive(Debug, Clone, Copy)]
pub struct ThroughputQuery {
    /// Trailing window in days: 90 when absent, clamped to 1..=90.
    pub days: Option<i64>,
}

impl ThroughputQuery {
    pub fn window_days(&self) -> (r: i64)
        ensures
            r == (match self.days {
                Some(d) => if d < 1 { 1 } else if d > 90 { 90 } else { d },
                None => 90,
            }),
    {
        let d = match self.days {
            Some(d) => d,
            None => 90,
        };
        if d < 1 { 1 } else if d > 90 { 90 } else { d }
    }
}

/// Query of token usage.
#[derive(Debug, Clone)]
pub struct UsageQuery {
    /// Only this model.
    pub model: Option<String>,
    /// Recent records to return: 50 when absent.
    pub limit: Option<u32>,
}

impl UsageQuery {
    pub fn recent_limit(&self) -> (r: u32)
        ensures
            r == (match self.limit {
                Some(l) => l,
                None => 50,
            }),
    {
        match self.limit {
            Some(l) => l,
            None => 50,
        }
    }
}

/// One request's token usage.
#[derive(Debug, Clone)]
pub struct TokenUsageRecord {
    pub id: i64,
    pub timestamp: String,
    pub model: String,
    pub endpoint: String,
    pub prompt_tokens: u32,
    pub completion_tokens: u32,
    pub total_tokens: u32,
    pub request_id: Option<String>,
}

/// Token usage of one model.
#[derive(Debug, Clone)]
pub struct ModelUsageSummary {
    pub model: String,
    pub total_requests: i64,
    pub total_prompt_tokens: i64,
    pub total_completion_tokens: i64,
    pub total_tokens: i64,
    pub first_request: String,
    pub last_request: String,
}

/// Token usage overall and per model.
#[derive(Debug, Clone)]
pub struct UsageStats {
    pub total_requests: i64,
    pub total_prompt_tokens: i64,
    pub total_completion_tokens: i64,
    pub total_tokens: i64,
    pub per_model: Vec<ModelUsageSummary>,
}

} // verus!

//! The decisions of `models pull`: reading its arguments, choosing the file
//! to download, turning the fit preflight into registry settings, and
//! registering the downloaded model. Fetching, downloading and writing the
//! registry are the caller's.
use vstd::prelude::*;
use crate::fit::{tenths_list, format_tensor_split, FitPlan};
use crate::hf_download::HfTreeEntry;
use crate::models_cmd::{
    is_model_gguf, model_gguf, parse_connections, select_quant_entry, selection,
    deref_entries,
};
use crate::registry::{display_name_of, display_name_from_alias, entry_views, EntryView, ModelsRegistry, RegistryEntry, free_alias_of, free_alias};
use crate::text::{
    concat_str, decimal, has_prefix, opt_str, parse_unsigned, str_eq, str_starts_with, string_from_str,
    strings_view, clone_strings, chars_of, lower, to_lower,
};

verus! {

/// What `models pull` was asked to do.
pub struct PullArgs {
    pub repo: String,
    /// `--quant`, upper-cased.
    pub quant: Option<String>,
    pub dest_override: Option<String>,
    pub models_file: Option<String>,
    pub connections: u16,
    pub no_bench: bool,
    pub fit_dry_run: bool,
}

/// The text `str::to_uppercase` gives (full Unicode upper-casing).
pub uninterp spec fn unicode_upper(s: Seq<char>) -> Seq<char>;

/// `str::to_uppercase`.
#[verifier::external_body]
fn to_uppercase(s: &str) -> (r: String)
    ensures
        r@ == unicode_upper(s@),
{
    s.to_uppercase()
}

/// The options read so far, or the message that stopped reading.
pub ghost struct PullScan {
    pub repo: Option<Seq<char>>,
    pub quant: Option<Seq<char>>,
    pub dest: Option<Seq<char>>,
    pub models_file: Option<Seq<char>>,
    pub connections: u16,
    pub no_bench: bool,
    pub fit_dry_run: bool,
}

pub open spec fn initial_scan() -> PullScan {
    PullScan { repo: None, quant: None, dest: None, models_file: None, connections: 8, no_bench: false, fit_dry_run: false }
}

/// Reading the arguments from index `i` on (`args[0]` is `pull`).
pub open spec fn scan_pull(args: Seq<Seq<char>>, i: int, st: PullScan) -> Result<PullScan, Seq<char>>
    decreases args.len() - i,
{
    if i >= args.len() || i < 0 {
        Ok(st)
    } else {
        let a = args[i];
        let has_value = i + 1 < args.len();
        if a == "--quant"@ {
            if has_value { scan_pull(args, i + 2, PullScan { quant: Some(unicode_upper(args[i + 1])), ..st }) }
            else { Err("models pull: missing value for --quant"@) }
        } else if a == "--dir"@ {
            if has_value { scan_pull(args, i + 2, PullScan { dest: Some(args[i + 1]), ..st }) }
            else { Err("models pull: missing value for --dir"@) }
        } else if a == "--registry"@ {
            if has_value { scan_pull(args, i + 2, PullScan { models_file: Some(args[i + 1]), ..st }) }
            else { Err("models pull: missing value for --registry"@) }
        } else if a == "--connections"@ {
            if has_value {
                match parse_unsigned(args[i + 1], u16::MAX as nat) {
                    Some(n) => if 1 <= n <= 16 {
                        scan_pull(args, i + 2, PullScan { connections: n as u16, ..st })
                    } else {
                        Err("models pull: --connections must be an integer from 1 to 16"@)
                    },
                    None => Err("models pull: --connections must be an integer from 1 to 16"@),
                }
            } else {
                Err("models pull: missing value for --connections"@)
            }
        } else if a == "--no-bench"@ {
            scan_pull(args, i + 1, PullScan { no_bench: true, ..st })
        } else if a == "--fit-dry-run"@ {
            scan_pull(args, i + 1, PullScan { fit_dry_run: true, ..st })
        } else if has_prefix(a, "-"@) {
            Err("models pull: unknown flag '"@ + a + "'"@)
        } else {
            scan_pull(args, i + 1, PullScan { repo: Some(a), ..st })
        }
    }
}

pub open spec fn pull_args_of(args: Seq<Seq<char>>) -> Result<PullScan, Seq<char>> {
    match scan_pull(args, 1, initial_scan()) {
        Ok(st) => if st.repo is None {
            Err("models pull: missing repository id (e.g. bartowski/Qwen3.5-9B-GGUF)"@)
        } else {
            Ok(st)
        },
        Err(m) => Err(m),
    }
}

pub open spec fn scan_of(p: PullArgs) -> PullScan {
    PullScan {
        repo: Some(p.repo@),
        quant: opt_str(p.quant),
        dest: opt_str(p.dest_override),
        models_file: opt_str(p.models_file),
        connections: p.connections,
        no_bench: p.no_bench,
        fit_dry_run: p.fit_dry_run,
    }
}

/// Read the arguments of `models pull` (`args[0]` is `pull`).
pub fn parse_pull_args(args: &[String]) -> (r: Result<PullArgs, String>)
    ensures
        match pull_args_of(strings_view(args@)) {
            Ok(st) => r matches Ok(p) && scan_of(p) == st,
            Err(m) => r matches Err(s) && s@ == m,
        },
{
    let ghost av = strings_view(args@);
    let mut repo: Option<String> = None;
    let mut quant: Option<String> = None;
    let mut dest_override: Option<String> = None;
    let mut models_file: Option<String> = None;
    let mut connections: u16 = 8;
    let mut no_bench = false;
    let mut fit_dry_run = false;
    let mut i: usize = 1;
    while i < args.len()
        invariant
            1 <= i,
            av == strings_view(args@),
            scan_pull(av, 1, initial_scan()) == scan_pull(av, i as int, PullScan {
                repo: opt_str(repo), quant: opt_str(quant), dest: opt_str(dest_override),
                models_file: opt_str(models_file), connections, no_bench, fit_dry_run,
            }),
        decreases args.len() - i,
    {
        let a = args[i].as_str();
        assert(av[i as int] == a@);
        let has_value = i + 1 < args.len();
        if has_value {
            assert(av[i + 1] == args@[i + 1]@);
        }
        if str_eq(a, "--quant") {
            if !has_value {
                return Err(string_from_str("models pull: missing value for --quant"));
            }
            quant = Some(to_uppercase(args[i + 1].as_str()));
            i = i + 2;
        } else if str_eq(a, "--dir") {
            if !has_value {
                return Err(string_from_str("models pull: missing value for --dir"));
            }
            dest_override = Some(args[i + 1].clone());
            i = i + 2;
        } else if str_eq(a, "--registry") {
            if !has_value {
                return Err(string_from_str("models pull: missing value for --registry"));
            }
            models_file = Some(args[i + 1].clone());
            i = i + 2;
        } else if str_eq(a, "--connections") {
            if !has_value {
                return Err(string_from_str("models pull: missing value for --connections"));
            }
            match parse_connections(args[i + 1].as_str()) {
                Ok(n) => {
                    connections = n;
                },
                Err(m) => return Err(string_from_str(m)),
            }
            i = i + 2;
        } else if str_eq(a, "--no-bench") {
            no_bench = true;
            i = i + 1;
        } else if str_eq(a, "--fit-dry-run") {
            fit_dry_run = true;
            i = i + 1;
        } else if str_starts_with(a, "-") {
            let head = concat_str("models pull: unknown flag '", a);
            return Err(concat_str(head.as_str(), "'"));
        } else {
            repo = Some(args[i].clone());
            i = i + 1;
        }
    }
    match repo {
        Some(repo) => Ok(PullArgs { repo, quant, dest_override, models_file, connections, no_bench, fit_dry_run }),
        None => Err(string_from_str("models pull: missing repository id (e.g. bartowski/Qwen3.5-9B-GGUF)")),
    }
}

// ── Choosing the file ───────────────────────────────────────────────────────

/// The model files of a repository listing, in order.
pub open spec fn model_entries_of(es: Seq<HfTreeEntry>) -> Seq<HfTreeEntry>
    decreases es.len(),
{
    if es.len() == 0 {
        seq![]
    } else if model_gguf(es.last().path@) {
        model_entries_of(es.drop_last()).push(es.last())
    } else {
        model_entries_of(es.drop_last())
    }
}

pub fn model_entries(entries: &[HfTreeEntry]) -> (r: Vec<&HfTreeEntry>)
    ensures
        deref_entries(r@) == model_entries_of(entries@),
{
    let mut out: Vec<&HfTreeEntry> = Vec::new();
    let mut i: usize = 0;
    while i < entries.len()
        invariant
            i <= entries@.len(),
            deref_entries(out@) == model_entries_of(entries@.subrange(0, i as int)),
        decreases entries.len() - i,
    {
        assert(entries@.subrange(0, i + 1).drop_last() =~= entries@.subrange(0, i as int));
        if is_model_gguf(entries[i].path.as_str()) {
            let ghost before = deref_entries(out@);
            out.push(&entries[i]);
            assert(deref_entries(out@) =~= before.push(entries@[i as int]));
        }
        i = i + 1;
    }
    assert(entries@.subrange(0, entries@.len() as int) =~= entries@);
    out
}

/// The file to download: the one the `--quant` selector picks, or, without
/// a selector, the only model file. The error is what the caller reports.
pub open spec fn pull_choice(models: Seq<HfTreeEntry>, quant: Option<Seq<char>>, capacity: u64, repo: Seq<char>) -> Result<int, Seq<char>> {
    if models.len() == 0 {
        Err("No .gguf model files found in "@ + repo)
    } else {
        match quant {
            Some(q) => match selection(models, q, capacity, repo) {
                Ok(i) => Ok(i),
                Err(_) => Err("models pull: no matching quantization"@),
            },
            None => if models.len() == 1 {
                Ok(0)
            } else {
                Err("models pull: --quant is required when multiple files exist"@)
            },
        }
    }
}

pub fn choose_pull_file<'a>(models: &'a [&'a HfTreeEntry], quant: &Option<String>, capacity_bytes: u64, repo: &str) -> (r: Result<&'a HfTreeEntry, String>)
    ensures
        match pull_choice(deref_entries(models@), opt_str(*quant), capacity_bytes, repo@) {
            Ok(i) => r matches Ok(e) && 0 <= i < models@.len() && *e == *models@[i],
            Err(m) => r matches Err(s) && s@ == m,
        },
{
    if models.len() == 0 {
        return Err(concat_str("No .gguf model files found in ", repo));
    }
    match quant {
        Some(q) => match select_quant_entry(models, q.as_str(), capacity_bytes, repo) {
            Ok(e) => Ok(e),
            Err(_) => Err(string_from_str("models pull: no matching quantization")),
        },
        None => if models.len() == 1 {
            Ok(models[0])
        } else {
            Err(string_from_str("models pull: --quant is required when multiple files exist"))
        },
    }
}

// ── Speed test after a pull ─────────────────────────────────────────────────

/// Whether the speed test runs after a pull.
#[derive(Debug, Clone, PartialEq, Eq)]
pub enum BenchDecision {
    /// `--no-bench`: nothing runs and nothing is said.
    Quiet,
    /// The test is skipped for the reason given.
    Skip(String),
    /// The pulled model gets one chat request through the running server.
    Run,
}

/// The speed test needs a chat model and a running server that took the
/// refreshed registry; `--no-bench` turns it off.
pub fn bench_decision(kind: &str, no_bench: bool, refreshed: bool) -> (r: BenchDecision)
    ensures
        no_bench ==> r == BenchDecision::Quiet,
        !no_bench && (lower(kind@) == "embedding"@ || lower(kind@) == "reranker"@) ==> (r matches BenchDecision::Skip(m)
            && m@ == "Speed test skipped: "@ + kind@ + " models have no chat generation"@),
        !no_bench && !(lower(kind@) == "embedding"@ || lower(kind@) == "reranker"@) && !refreshed
            ==> (r matches BenchDecision::Skip(m)
            && m@ == "Speed test skipped: gguf-switchboard is not running (start it, then re-pull or chat)"@),
        !no_bench && !(lower(kind@) == "embedding"@ || lower(kind@) == "reranker"@) && refreshed ==> r == BenchDecision::Run,
{
    if no_bench {
        return BenchDecision::Quiet;
    }
    let k = to_lower(kind);
    if str_eq(k.as_str(), "embedding") || str_eq(k.as_str(), "reranker") {
        let a = concat_str("Speed test skipped: ", kind);
        return BenchDecision::Skip(concat_str(a.as_str(), " models have no chat generation"));
    }
    if !refreshed {
        return BenchDecision::Skip(string_from_str(
            "Speed test skipped: gguf-switchboard is not running (start it, then re-pull or chat)",
        ));
    }
    BenchDecision::Run
}

// ── Registry settings from the fit preflight ────────────────────────────────

/// The settings a pulled model is registered with, from the first plan of
/// its fit ladder.
pub struct PullFitParams {
    pub context_size: Option<u32>,
    /// Only a reduced GPU offload is pinned.
    pub ngl: Option<u32>,
    pub extra_args: Vec<String>,
}

pub open spec fn opt_flag(flag: Seq<char>, v: Option<Seq<char>>) -> Seq<Seq<char>> {
    match v { Some(x) => seq![flag, x], None => seq![] }
}

pub open spec fn pull_extra_args(p: FitPlan) -> Seq<Seq<char>> {
    opt_flag("--split-mode"@, opt_str(p.split_mode))
        + opt_flag("--tensor-split"@, match p.tensor_split_tenths { Some(t) => Some(tenths_list(t@)), None => None })
        + opt_flag("--cache-type-k"@, opt_str(p.cache_type_k))
        + opt_flag("--cache-type-v"@, opt_str(p.cache_type_v))
}

pub fn pull_fit_params(plan: &FitPlan) -> (r: PullFitParams)
    ensures
        r.context_size == Some(plan.context_size),
        r.ngl == (if plan.ngl < 999 { Some(plan.ngl) } else { None }),
        strings_view(r.extra_args@) == pull_extra_args(*plan),
{
    let mut extra: Vec<String> = Vec::new();
    if let Some(mode) = &plan.split_mode {
        extra.push(string_from_str("--split-mode"));
        extra.push(mode.clone());
    }
    if let Some(ts) = &plan.tensor_split_tenths {
        extra.push(string_from_str("--tensor-split"));
        extra.push(format_tensor_split(ts.as_slice()));
    }
    if let Some(ct) = &plan.cache_type_k {
        extra.push(string_from_str("--cache-type-k"));
        extra.push(ct.clone());
    }
    if let Some(ct) = &plan.cache_type_v {
        extra.push(string_from_str("--cache-type-v"));
        extra.push(ct.clone());
    }
    assert(strings_view(extra@) =~= pull_extra_args(*plan));
    PullFitParams {
        context_size: Some(plan.context_size),
        ngl: if plan.ngl < 999 { Some(plan.ngl) } else { None },
        extra_args: extra,
    }
}

/// The VRAM floor recorded for a download of `size` bytes: whole decimal
/// gigabytes, rounded up, at least one (and at most `u32::MAX`).
pub open spec fn min_vram_gb_of(size: u64) -> u32 {
    let gb = (size + 999999999) / 1000000000;
    if gb < 1 { 1 } else if gb > u32::MAX { u32::MAX } else { gb as u32 }
}

pub fn min_vram_gb_for(size: u64) -> (r: u32)
    ensures
        r == min_vram_gb_of(size),
{
    let gb = (size as u128 + 999999999) / 1000000000;
    if gb < 1 { 1 } else if gb > u32::MAX as u128 { u32::MAX } else { gb as u32 }
}

// ── Registering the download ────────────────────────────────────────────────

/// What registering a pulled model did.
pub enum PullRegistration {
    /// The file was already registered under this alias; nothing changed.
    AlreadyRegistered(String),
    /// A new entry was added under this alias.
    Registered(String),
}

pub open spec fn pulled_entry(alias: Seq<char>, file: Seq<char>, kind: Seq<char>, repo: Seq<char>, size: u64,
    context: Option<u32>, ngl: Option<u32>, extra: Seq<Seq<char>>) -> EntryView {
    EntryView {
        alias,
        file,
        display_name: Some(display_name_of(alias)),
        kind: Some(kind),
        enabled: true,
        priority: false,
        port: None,
        context_size: context,
        ngl,
        extra_args: extra,
        description: None,
        max_context_length: None,
        min_vram_gb: Some(min_vram_gb_of(size)),
        capabilities: seq![],
        hf_repo: Some(repo),
    }
}

pub open spec fn aliases(es: Seq<EntryView>) -> Seq<Seq<char>> {
    es.map_values(|e: EntryView| e.alias)
}

/// Register a downloaded file: when an entry already refers to `file`,
/// nothing changes; otherwise an entry is added under a free alias derived
/// from `alias`, with the fit settings, kind, repository and VRAM floor.
pub fn register_pulled_model(
    registry: &mut ModelsRegistry,
    alias: &str,
    file: &str,
    kind: &str,
    repo: &str,
    size: u64,
    fit: PullFitParams,
) -> (r: PullRegistration)
    requires
        old(registry).models@.len() + 3 <= u64::MAX,
        old(registry).models@.len() + 1 <= usize::MAX,
    ensures
        final(registry).version == old(registry).version,
        final(registry).auto_discover == old(registry).auto_discover,
        final(registry).defaults == old(registry).defaults,
        match r {
            PullRegistration::AlreadyRegistered(a) => exists|i: int| 0 <= i < old(registry).models@.len()
                && (#[trigger] old(registry).models@[i])@.file == file@
                && a@ == old(registry).models@[i]@.alias
                && forall|j: int| 0 <= j < i ==> (#[trigger] old(registry).models@[j])@.file != file@
                && entry_views(final(registry).models@) == entry_views(old(registry).models@),
            PullRegistration::Registered(a) => (forall|i: int| 0 <= i < old(registry).models@.len()
                    ==> (#[trigger] old(registry).models@[i])@.file != file@)
                && a@ == free_alias_of(alias@, aliases(entry_views(old(registry).models@)))
                && entry_views(final(registry).models@) == entry_views(old(registry).models@).push(
                    pulled_entry(a@, file@, kind@, repo@, size, fit.context_size, fit.ngl, strings_view(fit.extra_args@))),
        },
{
    let ghost es = entry_views(registry.models@);
    let mut i: usize = 0;
    while i < registry.models.len()
        invariant
            i <= registry.models@.len(),
            es == entry_views(registry.models@),
            forall|j: int| 0 <= j < i ==> (#[trigger] registry.models@[j])@.file != file@,
        decreases registry.models.len() - i,
    {
        if str_eq(registry.models[i].file.as_str(), file) {
            let a = registry.models[i].alias.clone();
            return PullRegistration::AlreadyRegistered(a);
        }
        i = i + 1;
    }
    let mut used: Vec<String> = Vec::new();
    let mut k: usize = 0;
    while k < registry.models.len()
        invariant
            k <= registry.models@.len(),
            es == entry_views(registry.models@),
            strings_view(used@) == aliases(es).subrange(0, k as int),
        decreases registry.models.len() - k,
    {
        let ghost bu = used@;
        let a = registry.models[k].alias.clone();
        used.push(a);
        assert(aliases(es)[k as int] == a@);
        assert(strings_view(used@) =~= strings_view(bu).push(a@));
        assert(strings_view(used@) =~= aliases(es).subrange(0, k + 1));
        k = k + 1;
    }
    assert(aliases(es).subrange(0, registry.models@.len() as int) =~= aliases(es));
    let chosen = free_alias(alias, used.as_slice());
    let entry = RegistryEntry {
        alias: chosen.clone(),
        file: string_from_str(file),
        display_name: Some(display_name_from_alias(chosen.as_str())),
        kind: Some(string_from_str(kind)),
        enabled: true,
        priority: false,
        port: None,
        context_size: fit.context_size,
        ngl: fit.ngl,
        extra_args: fit.extra_args,
        description: None,
        max_context_length: None,
        min_vram_gb: Some(min_vram_gb_for(size)),
        capabilities: Vec::new(),
        hf_repo: Some(string_from_str(repo)),
    };
    assert(strings_view(entry.capabilities@) =~= Seq::<Seq<char>>::empty());
    let ghost before = registry.models@;
    registry.models.push(entry);
    assert(entry_views(registry.models@) =~= entry_views(before).push(entry@));
    PullRegistration::Registered(chosen)
}

} // verus!

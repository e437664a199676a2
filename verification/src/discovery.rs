//! Turning a registry and the GGUF files found on disk into the models that
//! are served: which entries survive, which discovered files are added under
//! which aliases, which model is the priority one, and the launch arguments
//! of each. Reading directories and file headers is the caller's part; it
//! hands in what it found.
use vstd::prelude::*;
use crate::config::ModelConfig;
use crate::errors::RuntimeError;
use crate::registry::{
    alias_from_filename, alias_of_path, dedupe_alias, dedupe_registry_entries, display_name_from_alias,
    display_name_of, dup_at, entry_views, first_duplicate_alias, first_priority_only, free_alias_of,
    infer_kind, is_deduped, kind_of, effective_extra, effective_extra_args, effective_kind_of,
    extra_args_pin_ngl, is_ngl_flag, suggest_context_size, suggested_context, with_priority,
    is_default_priority_index, default_priority_index, preference_score, merge_by, format_models_dirs,
    RegistryDefaults, normalize_priority_entries, sorted_by_alias, validate_unique_aliases,
    EntryView, ModelsRegistry, RegistryEntry,
};
use crate::text::{lemma_lex_irreflexive, lex_lt};
use crate::registry::{lemma_deduped_distinct, lemma_merge_by_nonempty, none_before};
use crate::text::{chars_of, equals_char, lemma_trim_start_range, lower, str_starts_with, string_from, to_lower, trim_start_by};
use crate::models_local::{below_dir, below_dir_exec};
use vstd::slice::slice_subrange;
use crate::text::{
    clone_opt_str, clone_strings, concat_str, fmt_decimal, join, opt_str, str_eq, string_from_str,
    strings_view, decimal, str_is_empty, lemma_decimal_digits, is_digit,
};

verus! {

/// A GGUF file found under the model directories.
pub struct DiscoveredGguf {
    /// Its path on disk.
    pub path: String,
    /// How the registry refers to it: relative to the single models
    /// directory, or absolute.
    pub file: String,
    /// The key under which files are compared (resolved, lower-cased path).
    pub key: String,
}

pub ghost struct DiscoveredView {
    pub path: Seq<char>,
    pub file: Seq<char>,
    pub key: Seq<char>,
}

impl View for DiscoveredGguf {
    type V = DiscoveredView;

    open spec fn view(&self) -> DiscoveredView {
        DiscoveredView { path: self.path@, file: self.file@, key: self.key@ }
    }
}

pub open spec fn discovered_views(v: Seq<DiscoveredGguf>) -> Seq<DiscoveredView> {
    v.map_values(|d: DiscoveredGguf| d@)
}

/// The entry registered for a newly discovered file.
pub open spec fn discovered_entry(alias: Seq<char>, file: Seq<char>) -> EntryView {
    EntryView {
        alias,
        file,
        display_name: Some(display_name_of(alias)),
        kind: Some(kind_of(alias, file)),
        enabled: true,
        priority: false,
        port: None,
        context_size: None,
        ngl: None,
        extra_args: seq![],
        description: None,
        max_context_length: None,
        min_vram_gb: None,
        capabilities: seq![],
        hf_repo: None,
    }
}

fn new_discovered_entry(alias: String, file: &String) -> (r: RegistryEntry)
    ensures
        r@ == discovered_entry(alias@, file@),
{
    let display_name = display_name_from_alias(alias.as_str());
    let kind = infer_kind(alias.as_str(), file.as_str());
    let r = RegistryEntry {
        alias,
        file: file.clone(),
        display_name: Some(display_name),
        kind: Some(kind),
        enabled: true,
        priority: false,
        port: None,
        context_size: None,
        ngl: None,
        extra_args: Vec::new(),
        description: None,
        max_context_length: None,
        min_vram_gb: None,
        capabilities: Vec::new(),
        hf_repo: None,
    };
    assert(strings_view(r.extra_args@) =~= Seq::<Seq<char>>::empty());
    assert(strings_view(r.capabilities@) =~= Seq::<Seq<char>>::empty());
    r
}

// ── Expanding a registry ────────────────────────────────────────────────────

/// The entries, files claimed and aliases used while files are added.
pub ghost struct ScanState {
    pub entries: Seq<EntryView>,
    pub claimed: Seq<Seq<char>>,
    pub used: Seq<Seq<char>>,
}

/// One discovered file: skipped when an entry already claims it, otherwise
/// registered under a free alias derived from its name.
pub open spec fn scan_step(st: ScanState, d: DiscoveredView) -> ScanState {
    if st.claimed.contains(d.key) {
        st
    } else {
        let alias = free_alias_of(alias_of_path(d.path), st.used);
        ScanState {
            entries: st.entries.push(discovered_entry(alias, d.file)),
            claimed: st.claimed.push(d.key),
            used: st.used.push(alias),
        }
    }
}

pub open spec fn scan_all(st: ScanState, ds: Seq<DiscoveredView>) -> ScanState
    decreases ds.len(),
{
    if ds.len() == 0 { st } else { scan_step(scan_all(st, ds.drop_last()), ds.last()) }
}

/// The explicit entries whose files were found and validated (`keys[i]` is
/// the file key of entry `i`, `None` when it was skipped), and their keys.
pub open spec fn kept_explicit(models: Seq<EntryView>, keys: Seq<Option<Seq<char>>>) -> (Seq<EntryView>, Seq<Seq<char>>)
    decreases models.len(),
{
    if models.len() == 0 || keys.len() != models.len() {
        (seq![], seq![])
    } else {
        let prev = kept_explicit(models.drop_last(), keys.drop_last());
        match keys.last() {
            Some(k) => (prev.0.push(models.last()), prev.1.push(k)),
            None => prev,
        }
    }
}

pub open spec fn enabled_only(es: Seq<EntryView>) -> Seq<EntryView>
    decreases es.len(),
{
    if es.len() == 0 {
        seq![]
    } else if es.last().enabled {
        enabled_only(es.drop_last()).push(es.last())
    } else {
        enabled_only(es.drop_last())
    }
}

pub open spec fn aliases_of(es: Seq<EntryView>) -> Seq<Seq<char>> {
    es.map_values(|e: EntryView| e.alias)
}

/// The entries before deduplication: the explicit entries that were kept,
/// then, with auto-discovery on, each discovered file no entry claims.
pub open spec fn expansion_candidates(models: Seq<EntryView>, keys: Seq<Option<Seq<char>>>, auto_discover: bool, ds: Seq<DiscoveredView>) -> Seq<EntryView> {
    let kept = kept_explicit(models, keys);
    if auto_discover {
        scan_all(ScanState { entries: kept.0, claimed: kept.1, used: aliases_of(kept.0) }, ds).entries
    } else {
        kept.0
    }
}

pub open spec fn no_models_message() -> Seq<char> {
    "Models registry defines no models (add [[models]] entries or enable auto_discover)"@
}

fn scan_discovered(
    entries: &mut Vec<RegistryEntry>,
    claimed: &mut Vec<String>,
    used: &mut Vec<String>,
    discovered: &[DiscoveredGguf],
)
    requires
        old(used)@.len() + discovered@.len() + 3 <= u64::MAX,
        old(used)@.len() + discovered@.len() + 1 <= usize::MAX,
        old(claimed)@.len() + discovered@.len() <= usize::MAX,
        old(entries)@.len() + discovered@.len() <= usize::MAX,
    ensures
        ({
            let st = scan_all(
                ScanState { entries: entry_views(old(entries)@), claimed: strings_view(old(claimed)@), used: strings_view(old(used)@) },
                discovered_views(discovered@),
            );
            &&& entry_views(final(entries)@) == st.entries
            &&& strings_view(final(claimed)@) == st.claimed
            &&& strings_view(final(used)@) == st.used
        }),
{
    let ghost init = ScanState { entries: entry_views(entries@), claimed: strings_view(claimed@), used: strings_view(used@) };
    let ghost ds = discovered_views(discovered@);
    let mut i: usize = 0;
    while i < discovered.len()
        invariant
            i <= discovered.len(),
            ds == discovered_views(discovered@),
            used@.len() <= old(used)@.len() + i,
            claimed@.len() <= old(claimed)@.len() + i,
            entries@.len() <= old(entries)@.len() + i,
            old(used)@.len() + discovered@.len() + 3 <= u64::MAX,
            old(used)@.len() + discovered@.len() + 1 <= usize::MAX,
            old(claimed)@.len() + discovered@.len() <= usize::MAX,
            old(entries)@.len() + discovered@.len() <= usize::MAX,
            ({
                let st = scan_all(init, ds.subrange(0, i as int));
                &&& entry_views(entries@) == st.entries
                &&& strings_view(claimed@) == st.claimed
                &&& strings_view(used@) == st.used
            }),
        decreases discovered.len() - i,
    {
        let ghost sub = ds.subrange(0, i + 1);
        assert(sub.drop_last() =~= ds.subrange(0, i as int));
        let d = &discovered[i];
        assert(sub.last() == d@);
        if !contains_str(claimed.as_slice(), d.key.as_str()) {
            let ghost before_claimed = claimed@;
            claimed.push(d.key.clone());
            assert(strings_view(claimed@) =~= strings_view(before_claimed).push(d@.key));
            let base = alias_from_filename(d.path.as_str());
            let ghost bu = used@;
            let alias = dedupe_alias(base.as_str(), used);
            assert(strings_view(used@).len() == used@.len() && strings_view(bu).len() == bu.len());
            let e = new_discovered_entry(alias, &d.file);
            let ghost before = entries@;
            entries.push(e);
            assert(entry_views(entries@) =~= entry_views(before).push(e@));
        }
        i = i + 1;
    }
    assert(ds.subrange(0, discovered.len() as int) =~= ds);
}

fn contains_str(v: &[String], s: &str) -> (r: bool)
    ensures
        r == strings_view(v@).contains(s@),
{
    let mut i: usize = 0;
    while i < v.len()
        invariant
            i <= v.len(),
            forall|j: int| 0 <= j < i ==> strings_view(v@)[j] != s@,
        decreases v.len() - i,
    {
        if str_eq(v[i].as_str(), s) {
            assert(strings_view(v@)[i as int] == s@);
            return true;
        }
        i = i + 1;
    }
    false
}

pub open spec fn opt_strs(v: Seq<Option<String>>) -> Seq<Option<Seq<char>>> {
    v.map_values(|o: Option<String>| opt_str(o))
}

impl ModelsRegistry {
    /// The entries a registry expands to: explicit entries whose file was
    /// found and validated (`explicit_keys[i]` is the file key of entry `i`,
    /// `None` when it was skipped), then, with auto-discovery on, every
    /// discovered file that no entry claims, under a free alias derived from
    /// its name; disabled entries dropped, duplicates folded, one priority
    /// model. An empty result, or two entries with one alias, is an error.
    pub fn expanded_entries(&self, explicit_keys: &[Option<String>], discovered: &[DiscoveredGguf]) -> (r: Result<Vec<RegistryEntry>, RuntimeError>)
        requires
            explicit_keys@.len() == self.models@.len(),
            self.models@.len() + discovered@.len() + 3 <= u64::MAX,
            self.models@.len() + discovered@.len() + 1 <= usize::MAX,
        ensures
            ({
                let cands = expansion_candidates(entry_views(self.models@), opt_strs(explicit_keys@), self.auto_discover, discovered_views(discovered@));
                exists|d: Seq<EntryView>| #![trigger first_priority_only(d)]
                    is_deduped(enabled_only(cands), d) && match r {
                        Ok(v) => entry_views(v@) == first_priority_only(d) && d.len() > 0,
                        Err(e) => d.len() == 0 && (e matches RuntimeError::ConfigError(m) && m@ == no_models_message()),
                    }
            }),
    {
        let ghost models = entry_views(self.models@);
        let ghost keys = opt_strs(explicit_keys@);
        let mut entries: Vec<RegistryEntry> = Vec::new();
        let mut claimed: Vec<String> = Vec::new();
        let mut i: usize = 0;
        while i < self.models.len()
            invariant
                i <= self.models.len(),
                explicit_keys@.len() == self.models@.len(),
                models == entry_views(self.models@),
                keys == opt_strs(explicit_keys@),
                entries@.len() <= i,
                claimed@.len() <= i,
                ({
                    let k = kept_explicit(models.subrange(0, i as int), keys.subrange(0, i as int));
                    entry_views(entries@) == k.0 && strings_view(claimed@) == k.1
                }),
            decreases self.models.len() - i,
        {
            assert(models.subrange(0, i + 1).drop_last() =~= models.subrange(0, i as int));
            assert(keys.subrange(0, i + 1).drop_last() =~= keys.subrange(0, i as int));
            assert(keys.subrange(0, i + 1).last() == opt_str(explicit_keys@[i as int]));
            assert(models.subrange(0, i + 1).last() == self.models@[i as int]@);
            match &explicit_keys[i] {
                Some(k) => {
                    let ghost be = entries@;
                    let ghost bc = claimed@;
                    entries.push(self.models[i].clone_entry());
                    claimed.push(k.clone());
                    assert(entry_views(entries@) =~= entry_views(be).push(self.models@[i as int]@));
                    assert(strings_view(claimed@) =~= strings_view(bc).push(k@));
                },
                None => {},
            }
            i = i + 1;
        }
        assert(models.subrange(0, self.models.len() as int) =~= models);
        assert(keys.subrange(0, self.models.len() as int) =~= keys);
        if self.auto_discover {
            let mut used: Vec<String> = Vec::new();
            let mut j: usize = 0;
            while j < entries.len()
                invariant
                    j <= entries@.len(),
                    strings_view(used@) == aliases_of(entry_views(entries@)).subrange(0, j as int),
                decreases entries.len() - j,
            {
                let ghost bu = used@;
                let a = entries[j].alias.clone();
                used.push(a);
                assert(aliases_of(entry_views(entries@))[j as int] == a@);
                assert(strings_view(used@) =~= strings_view(bu).push(a@));
                assert(strings_view(used@) =~= aliases_of(entry_views(entries@)).subrange(0, j + 1));
                j = j + 1;
            }
            assert(aliases_of(entry_views(entries@)).subrange(0, entries@.len() as int) =~= aliases_of(entry_views(entries@)));
            scan_discovered(&mut entries, &mut claimed, &mut used, discovered);
        }
        let ghost cands = entry_views(entries@);
        let mut enabled: Vec<RegistryEntry> = Vec::new();
        let mut k: usize = 0;
        while k < entries.len()
            invariant
                k <= entries@.len(),
                cands == entry_views(entries@),
                entry_views(enabled@) == enabled_only(cands.subrange(0, k as int)),
            decreases entries.len() - k,
        {
            assert(cands.subrange(0, k + 1).drop_last() =~= cands.subrange(0, k as int));
            assert(cands.subrange(0, k + 1).last() == entries@[k as int]@);
            if entries[k].enabled {
                let ghost be = enabled@;
                enabled.push(entries[k].clone_entry());
                assert(entry_views(enabled@) =~= entry_views(be).push(entries@[k as int]@));
            }
            k = k + 1;
        }
        assert(cands.subrange(0, entries@.len() as int) =~= cands);
        dedupe_registry_entries(&mut enabled);
        let ghost d = entry_views(enabled@);
        normalize_priority_entries(&mut enabled);
        assert(entry_views(enabled@).len() == enabled@.len());
        assert(first_priority_only(d).len() == d.len());
        if enabled.len() == 0 {
            assert(d.len() == 0);
            return Err(RuntimeError::ConfigError(string_from_str(
                "Models registry defines no models (add [[models]] entries or enable auto_discover)",
            )));
        }
        assert(d.len() > 0);
        proof {
            let n = entry_views(enabled@);
            assert forall|x: int| !dup_at(n, x) by {
                if dup_at(n, x) {
                    let y = choose|y: int| 0 <= y < x && n[x].alias == #[trigger] n[y].alias;
                    assert(n[x].alias == d[x].alias && n[y].alias == d[y].alias);
                    assert(sorted_by_alias(d));
                    lemma_lex_irreflexive(d[x].alias);
                }
            }
        }
        match validate_unique_aliases(&enabled) {
            Ok(()) => Ok(enabled),
            Err(e) => Err(e),
        }
    }
}

// ── Launch configuration ────────────────────────────────────────────────────

/// The port of the `index`-th served model: its own, or the base port plus
/// the index (as a 16-bit number), saturating.
pub open spec fn port_for(base_port: u16, index: nat, own: Option<u16>) -> u16 {
    match own {
        Some(p) => p,
        None => {
            let sum = base_port + (index % 65536);
            if sum > 65535 { 65535 } else { sum as u16 }
        },
    }
}

/// `llama-server` arguments: model, address, context and GPU layers, the
/// embeddings switch for embedding models, then the entry's extra arguments.
pub open spec fn launch_args(path: Seq<char>, host: Seq<char>, port: u16, ctx: u32, ngl: u32, embedding: bool, extra: Seq<Seq<char>>) -> Seq<Seq<char>> {
    seq!["-m"@, path, "--host"@, host, "--port"@, decimal(port as nat), "-c"@, decimal(ctx as nat), "-ngl"@, decimal(ngl as nat)]
        + (if embedding { seq!["--embeddings"@] } else { seq![] })
        + extra
}

pub open spec fn backend_url_of(host: Seq<char>, port: u16) -> Seq<char> {
    "http://"@ + host + ":"@ + decimal(port as nat) + "/v1"@
}

pub open spec fn health_url_of(host: Seq<char>, port: u16) -> Seq<char> {
    "http://"@ + host + ":"@ + decimal(port as nat) + "/health"@
}

fn url(host: &str, port: u16, suffix: &str) -> (r: String)
    ensures
        r@ == "http://"@ + host@ + ":"@ + decimal(port as nat) + suffix@,
{
    let a = concat_str("http://", host);
    let b = concat_str(a.as_str(), ":");
    let p = fmt_decimal(port as u64);
    let c = concat_str(b.as_str(), p.as_str());
    concat_str(c.as_str(), suffix)
}

/// `r` is the launch configuration of the `index`-th expanded entry
/// `entry`, whose resolved GGUF is `model_path` (of `size` bytes, `None`
/// when unreadable) with `block` layers, served by `backend`.
pub open spec fn launch_config(reg: ModelsRegistry, backend: Seq<char>, vram_gb: u32, index: nat, entry: EntryView,
    model_path: Seq<char>, size: Option<u64>, block: Option<u32>, r: ModelConfig) -> bool {
    &&& r.backend@ == backend
    &&& r.display_name@ == (match entry.display_name { Some(d) => d, None => display_name_of(entry.alias) })
    &&& r.command@ == reg.defaults.llama_server@
    &&& strings_view(r.args@) == launch_args(model_path, reg.defaults.host@,
        port_for(reg.defaults.base_port, index, entry.port),
        suggested_context(vram_gb, entry, size, reg.defaults.context_size),
        match entry.ngl { Some(n) => n, None => reg.defaults.ngl },
        effective_kind_of(entry) == "embedding"@, effective_extra(entry))
    &&& r.backend_url@ == backend_url_of(reg.defaults.host@, port_for(reg.defaults.base_port, index, entry.port))
    &&& r.health_url@ == health_url_of(reg.defaults.host@, port_for(reg.defaults.base_port, index, entry.port))
    &&& r.priority == entry.priority
    &&& r.kind@ == effective_kind_of(entry)
    &&& opt_str(r.description) == entry.description
    &&& r.max_context_length == entry.max_context_length
    &&& r.min_vram_gb == entry.min_vram_gb
    &&& strings_view(r.capabilities@) == entry.capabilities
    &&& opt_str(r.hf_repo) == entry.hf_repo
    &&& r.block_count == block
    &&& r.ngl_pinned == (entry.ngl is Some || exists|i: int| 0 <= i < effective_extra(entry).len() && is_ngl_flag(#[trigger] effective_extra(entry)[i]))
    &&& r.ctx_floor is None
    &&& r.model_fingerprint is None
    &&& r.max_context_from_gguf is None
    &&& r.runtime_profile is None
}

impl ModelsRegistry {
    /// The backend models are served with: the registry's own, or the
    /// fallback when it names none.
    pub fn expand_backend(&self, fallback_backend: &str) -> (r: String)
        ensures
            r@ == (if self.defaults.backend@.len() == 0 { fallback_backend@ } else { self.defaults.backend@ }),
    {
        if str_is_empty(self.defaults.backend.as_str()) {
            string_from_str(fallback_backend)
        } else {
            self.defaults.backend.clone()
        }
    }

    /// How the `index`-th expanded entry is launched: `model_path` is its
    /// resolved GGUF, `file_size_bytes` the size of that file (`None` when it
    /// could not be read), `block_count` from its metadata.
    pub fn model_config_for(
        &self,
        backend: &str,
        vram_gb: u32,
        index: usize,
        entry: &RegistryEntry,
        model_path: &str,
        file_size_bytes: Option<u64>,
        block_count: Option<u32>,
    ) -> (r: ModelConfig)
        ensures
            launch_config(*self, backend@, vram_gb, index as nat, entry@, model_path@, file_size_bytes, block_count, r),
    {
        let port: u16 = match entry.port {
            Some(p) => p,
            None => {
                let offset: u16 = (index % 65536) as u16;
                if self.defaults.base_port as u32 + offset as u32 > 65535 { 65535 } else { self.defaults.base_port + offset }
            },
        };
        let context_size = suggest_context_size(vram_gb, entry, file_size_bytes, self.defaults.context_size);
        let ngl = match entry.ngl { Some(n) => n, None => self.defaults.ngl };
        let extra = effective_extra_args(entry);
        let ngl_pinned = entry.ngl.is_some() || extra_args_pin_ngl(&extra);
        let kind = entry.effective_kind();
        let mut args: Vec<String> = Vec::new();
        args.push(string_from_str("-m"));
        args.push(string_from_str(model_path));
        args.push(string_from_str("--host"));
        args.push(self.defaults.host.clone());
        args.push(string_from_str("--port"));
        args.push(fmt_decimal(port as u64));
        args.push(string_from_str("-c"));
        args.push(fmt_decimal(context_size as u64));
        args.push(string_from_str("-ngl"));
        args.push(fmt_decimal(ngl as u64));
        let embedding = str_eq(kind.as_str(), "embedding");
        if embedding {
            args.push(string_from_str("--embeddings"));
        }
        let ghost head = strings_view(args@);
        let mut k: usize = 0;
        while k < extra.len()
            invariant
                k <= extra@.len(),
                strings_view(args@) == head + strings_view(extra@).subrange(0, k as int),
            decreases extra.len() - k,
        {
            let ghost before = args@;
            args.push(extra[k].clone());
            assert(strings_view(args@) =~= strings_view(before).push(extra@[k as int]@));
            assert(strings_view(extra@).subrange(0, k + 1) =~= strings_view(extra@).subrange(0, k as int).push(extra@[k as int]@));
            k = k + 1;
        }
        assert(strings_view(extra@).subrange(0, extra@.len() as int) =~= strings_view(extra@));
        let display_name = match &entry.display_name {
            Some(d) => d.clone(),
            None => display_name_from_alias(entry.alias.as_str()),
        };
        let r = ModelConfig {
            backend: string_from_str(backend),
            display_name,
            command: self.defaults.llama_server.clone(),
            args,
            backend_url: url(self.defaults.host.as_str(), port, "/v1"),
            health_url: url(self.defaults.host.as_str(), port, "/health"),
            priority: entry.priority,
            kind,
            description: clone_opt_str(&entry.description),
            max_context_length: entry.max_context_length,
            min_vram_gb: entry.min_vram_gb,
            capabilities: clone_strings(&entry.capabilities),
            hf_repo: clone_opt_str(&entry.hf_repo),
            ctx_floor: None,
            block_count,
            ngl_pinned,
            model_fingerprint: None,
            max_context_from_gguf: None,
            runtime_profile: None,
        };
        proof {
            let e = entry@;
            assert(port == port_for(self.defaults.base_port, index as nat, e.port));
            assert(strings_view(r.args@) =~= launch_args(model_path@, self.defaults.host@, port, context_size, ngl,
                effective_kind_of(e) == "embedding"@, effective_extra(e)));
        }
        r
    }
}

impl ModelsRegistry {
    /// The launch configurations of the expanded entries, each under its
    /// alias: the `i`-th entry is launched as the `i`-th model, from
    /// `model_paths[i]` (of `file_sizes[i]` bytes, with `block_counts[i]`
    /// layers).
    pub fn expand_model_configs(
        &self,
        backend: &str,
        vram_gb: u32,
        entries: &[RegistryEntry],
        model_paths: &[String],
        file_sizes: &[Option<u64>],
        block_counts: &[Option<u32>],
    ) -> (r: Vec<(String, ModelConfig)>)
        requires
            model_paths@.len() == entries@.len(),
            file_sizes@.len() == entries@.len(),
            block_counts@.len() == entries@.len(),
        ensures
            r@.len() == entries@.len(),
            forall|i: int| 0 <= i < entries@.len() ==> (#[trigger] r@[i]).0@ == entries@[i].alias@
                && launch_config(*self, backend@, vram_gb, i as nat, entries@[i]@, model_paths@[i]@, file_sizes@[i],
                    block_counts@[i], r@[i].1),
    {
        let mut out: Vec<(String, ModelConfig)> = Vec::new();
        let mut i: usize = 0;
        while i < entries.len()
            invariant
                i <= entries@.len(),
                model_paths@.len() == entries@.len(),
                file_sizes@.len() == entries@.len(),
                block_counts@.len() == entries@.len(),
                out@.len() == i,
                forall|k: int| 0 <= k < i ==> (#[trigger] out@[k]).0@ == entries@[k].alias@
                    && launch_config(*self, backend@, vram_gb, k as nat, entries@[k]@, model_paths@[k]@, file_sizes@[k],
                        block_counts@[k], out@[k].1),
            decreases entries.len() - i,
        {
            let c = self.model_config_for(backend, vram_gb, i, &entries[i], model_paths[i].as_str(), file_sizes[i],
                block_counts[i]);
            out.push((entries[i].alias.clone(), c));
            i = i + 1;
        }
        out
    }
}

/// What an expanded model's launch configuration holds: `--embeddings`
/// stands right after the core arguments exactly for embedding models, and
/// is anywhere in the arguments exactly for them when neither the model
/// path, the host nor the extra arguments spell it; the GPU layer count is
/// pinned exactly when the entry sets it or its extra arguments do; both
/// URLs point at the host and the entry's port (its own, or the base port
/// plus its index, saturating); the kind is the entry's effective kind.
pub proof fn lemma_launch_config(reg: ModelsRegistry, backend: Seq<char>, vram_gb: u32, index: nat, entry: EntryView,
    model_path: Seq<char>, size: Option<u64>, block: Option<u32>, c: ModelConfig)
    requires
        launch_config(reg, backend, vram_gb, index, entry, model_path, size, block, c),
    ensures
        ({
            let port = port_for(reg.defaults.base_port, index, entry.port);
            let args = strings_view(c.args@);
            let emb = effective_kind_of(entry) == "embedding"@;
            &&& args.len() == 10 + (if emb { 1int } else { 0int }) + effective_extra(entry).len()
            &&& args[1] == model_path
            &&& emb ==> args[10] == "--embeddings"@
            &&& !emb ==> args.subrange(10, args.len() as int) == effective_extra(entry)
            &&& (model_path != "--embeddings"@ && reg.defaults.host@ != "--embeddings"@
                && !effective_extra(entry).contains("--embeddings"@)) ==> (args.contains("--embeddings"@) <==> emb)
            &&& c.ngl_pinned <==> (entry.ngl is Some || exists|i: int| 0 <= i < effective_extra(entry).len()
                && is_ngl_flag(#[trigger] effective_extra(entry)[i]))
            &&& c.backend_url@ == "http://"@ + reg.defaults.host@ + ":"@ + decimal(port as nat) + "/v1"@
            &&& c.health_url@ == "http://"@ + reg.defaults.host@ + ":"@ + decimal(port as nat) + "/health"@
            &&& c.kind@ == effective_kind_of(entry)
            &&& entry.port is None ==> port as int == if reg.defaults.base_port + (index % 65536) > 65535 {
                65535
            } else {
                reg.defaults.base_port + (index % 65536)
            }
        }),
{
    let port = port_for(reg.defaults.base_port, index, entry.port);
    let args = strings_view(c.args@);
    let emb = effective_kind_of(entry) == "embedding"@;
    let extra = effective_extra(entry);
    let ctx = suggested_context(vram_gb, entry, size, reg.defaults.context_size);
    let ngl: u32 = match entry.ngl { Some(n) => n, None => reg.defaults.ngl };
    let head: Seq<Seq<char>> = seq!["-m"@, model_path, "--host"@, reg.defaults.host@, "--port"@, decimal(port as nat), "-c"@,
        decimal(ctx as nat), "-ngl"@, decimal(ngl as nat)];
    let mid: Seq<Seq<char>> = if emb { seq!["--embeddings"@] } else { seq![] };
    assert(args == head + mid + extra);
    if !emb {
        assert(args.subrange(10, args.len() as int) =~= extra);
    }
    if model_path != "--embeddings"@ && reg.defaults.host@ != "--embeddings"@ && !extra.contains("--embeddings"@) {
        reveal_strlit("--embeddings");
        reveal_strlit("-m");
        reveal_strlit("--host");
        reveal_strlit("--port");
        reveal_strlit("-c");
        reveal_strlit("-ngl");
        let e = "--embeddings"@;
        assert forall|n: nat| decimal(n) != e by {
            lemma_decimal_digits(n);
            assert(!is_digit(e[0]));
        }
        if args.contains(e) {
            let k = choose|k: int| 0 <= k < args.len() && args[k] == e;
            if k < 10 {
                assert(head[k] == e);
                assert(e.len() == 12);
                assert(e[0] == '-' && e[1] == '-' && e[2] == 'e');
            } else if k >= 10 + mid.len() {
                assert(extra[k - 10 - mid.len()] == e);
            }
        }
        if emb {
            assert(args[10] == e);
        }
    }
}

// ── Rediscovering a registry ────────────────────────────────────────────────

/// Index of the last existing entry whose file has key `k` (a later entry
/// for the same file replaces an earlier one).
pub open spec fn last_with_key(keys: Seq<Seq<char>>, k: Seq<char>) -> Option<int> {
    if exists|j: int| 0 <= j < keys.len() && keys[j] == k {
        Some(choose|j: int| 0 <= j < keys.len() && keys[j] == k && forall|m: int| j < m < keys.len() ==> #[trigger] keys[m] != k)
    } else {
        None
    }
}

/// An existing entry carried over to a rediscovered file.
pub open spec fn carried_over(e: EntryView, alias: Seq<char>, file: Seq<char>) -> EntryView {
    EntryView { alias, file, ..e }
}

pub ghost struct RescanState {
    pub entries: Seq<EntryView>,
    pub used: Seq<Seq<char>>,
}

/// One file found on disk: an existing entry for it keeps its settings
/// (under its alias, or a free variant of it), otherwise it is registered
/// under a free alias derived from its name.
pub open spec fn rescan_step(st: RescanState, existing: Seq<EntryView>, keys: Seq<Seq<char>>, d: DiscoveredView) -> RescanState {
    match last_with_key(keys, d.key) {
        Some(j) => {
            let alias = free_alias_of(existing[j].alias, st.used);
            RescanState { entries: st.entries.push(carried_over(existing[j], alias, d.file)), used: st.used.push(alias) }
        },
        None => {
            let alias = free_alias_of(alias_of_path(d.path), st.used);
            RescanState { entries: st.entries.push(discovered_entry(alias, d.file)), used: st.used.push(alias) }
        },
    }
}

pub open spec fn rescan_all(existing: Seq<EntryView>, keys: Seq<Seq<char>>, ds: Seq<DiscoveredView>) -> RescanState
    decreases ds.len(),
{
    if ds.len() == 0 {
        RescanState { entries: seq![], used: seq![] }
    } else {
        rescan_step(rescan_all(existing, keys, ds.drop_last()), existing, keys, ds.last())
    }
}

proof fn lemma_rescan_len(existing: Seq<EntryView>, keys: Seq<Seq<char>>, ds: Seq<DiscoveredView>)
    ensures
        rescan_all(existing, keys, ds).entries.len() == ds.len(),
    decreases ds.len(),
{
    if ds.len() > 0 {
        lemma_rescan_len(existing, keys, ds.drop_last());
    }
}

/// The key of the first discovered file with reference `file`.
#[verifier::opaque]
pub open spec fn key_of_file(ds: Seq<DiscoveredView>, file: Seq<char>) -> Option<Seq<char>> {
    if exists|i: int| 0 <= i < ds.len() && ds[i].file == file {
        Some(ds[choose|i: int| 0 <= i < ds.len() && ds[i].file == file
            && forall|m: int| 0 <= m < i ==> #[trigger] ds[m].file != file].key)
    } else {
        None
    }
}

pub open spec fn any_priority(es: Seq<EntryView>) -> bool {
    exists|i: int| 0 <= i < es.len() && (#[trigger] es[i]).priority
}

/// The first entry whose file has key `k`.
pub open spec fn first_entry_with_key(es: Seq<EntryView>, ds: Seq<DiscoveredView>, k: Seq<char>) -> Option<int> {
    if exists|i: int| 0 <= i < es.len() && key_of_file(ds, es[i].file) == Some(k) {
        Some(choose|i: int| 0 <= i < es.len() && key_of_file(ds, es[i].file) == Some(k)
            && forall|m: int| 0 <= m < i ==> key_of_file(ds, (#[trigger] es[m]).file) != Some(k))
    } else {
        None
    }
}

/// When no entry is marked priority: the entry for the file that was the
/// priority model before (`prev_key`), else the preferred model, else the
/// first entry.
pub open spec fn with_default_priority(es: Seq<EntryView>, ds: Seq<DiscoveredView>, prev_key: Option<Seq<char>>) -> Seq<EntryView> {
    if any_priority(es) {
        es
    } else {
        let by_prev = match prev_key { Some(k) => first_entry_with_key(es, ds, k), None => None };
        match by_prev {
            Some(i) => es.update(i, with_priority(es[i], true)),
            None => if exists|i: int| is_default_priority_index(es, i) {
                let i = choose|i: int| is_default_priority_index(es, i);
                es.update(i, with_priority(es[i], true))
            } else if es.len() > 0 {
                es.update(0, with_priority(es[0], true))
            } else {
                es
            },
        }
    }
}

proof fn lemma_first_priority_exists(es: Seq<EntryView>, w: int)
    requires
        0 <= w < es.len(),
        es[w].priority,
    ensures
        exists|p: int| 0 <= p < es.len() && es[p].priority && none_before(es, p),
    decreases w,
{
    if !none_before(es, w) {
        let j = choose|j: int| 0 <= j < w && (#[trigger] es[j]).priority;
        lemma_first_priority_exists(es, j);
    }
}

proof fn lemma_first_entry_with_key_range(es: Seq<EntryView>, ds: Seq<DiscoveredView>, k: Seq<char>)
    ensures
        first_entry_with_key(es, ds, k) matches Some(i) ==> 0 <= i < es.len(),
{
    if exists|i: int| 0 <= i < es.len() && key_of_file(ds, es[i].file) == Some(k) {
        let i = choose|i: int| 0 <= i < es.len() && key_of_file(ds, es[i].file) == Some(k)
            && forall|m: int| 0 <= m < i ==> key_of_file(ds, (#[trigger] es[m]).file) != Some(k);
        assert(exists|i: int| 0 <= i < es.len() && key_of_file(ds, es[i].file) == Some(k)
            && forall|m: int| 0 <= m < i ==> key_of_file(ds, (#[trigger] es[m]).file) != Some(k)) by {
            let w = choose|w: int| 0 <= w < es.len() && key_of_file(ds, es[w].file) == Some(k);
            lemma_first_key_exists(es, ds, k, w);
        }
    }
}

proof fn lemma_first_key_exists(es: Seq<EntryView>, ds: Seq<DiscoveredView>, k: Seq<char>, w: int)
    requires
        0 <= w < es.len(),
        key_of_file(ds, es[w].file) == Some(k),
    ensures
        exists|i: int| 0 <= i < es.len() && key_of_file(ds, es[i].file) == Some(k)
            && forall|m: int| 0 <= m < i ==> key_of_file(ds, (#[trigger] es[m]).file) != Some(k),
    decreases w,
{
    if exists|m: int| 0 <= m < w && key_of_file(ds, (#[trigger] es[m]).file) == Some(k) {
        let m = choose|m: int| 0 <= m < w && key_of_file(ds, (#[trigger] es[m]).file) == Some(k);
        lemma_first_key_exists(es, ds, k, m);
    }
}

/// A registry's models after deduplication and the choice of the priority
/// model: aliases strictly ascending (so no alias twice), nothing added or
/// dropped, and exactly one priority model whenever there is any model.
pub proof fn lemma_merged_registry_shape(d: Seq<EntryView>, ds: Seq<DiscoveredView>, prev_key: Option<Seq<char>>)
    requires
        sorted_by_alias(d),
    ensures
        ({
            let r = first_priority_only(with_default_priority(d, ds, prev_key));
            &&& r.len() == d.len()
            &&& sorted_by_alias(r)
            &&& forall|i: int| 0 <= i < r.len() ==> (#[trigger] r[i]).alias == d[i].alias && r[i].file == d[i].file
            &&& forall|i: int, j: int| 0 <= i < j < r.len() ==> !(r[i].priority && r[j].priority)
            &&& r.len() > 0 ==> exists|i: int| 0 <= i < r.len() && (#[trigger] r[i]).priority
        }),
{
    let w = with_default_priority(d, ds, prev_key);
    let r = first_priority_only(w);
    match prev_key {
        Some(k) => lemma_first_entry_with_key_range(d, ds, k),
        None => {},
    }
    if exists|i: int| is_default_priority_index(d, i) {
        let i = choose|i: int| is_default_priority_index(d, i);
        assert(0 <= i < d.len());
    }
    assert(w.len() == d.len());
    assert forall|i: int| 0 <= i < w.len() implies (#[trigger] w[i]).alias == d[i].alias && w[i].file == d[i].file by {}
    assert forall|i: int, j: int| 0 <= i < j < r.len() implies lex_lt(r[i].alias, r[j].alias) by {
        assert(r[i].alias == d[i].alias && r[j].alias == d[j].alias);
    }
    assert forall|i: int, j: int| 0 <= i < j < r.len() implies !(r[i].priority && r[j].priority) by {
        if r[i].priority && r[j].priority {
            assert(w[i].priority);
            assert(none_before(w, j));
            assert(!w[i].priority);
        }
    }
    if r.len() > 0 {
        assert(any_priority(w)) by {
            if !any_priority(d) {
                let by_prev = match prev_key { Some(k) => first_entry_with_key(d, ds, k), None => None };
                match by_prev {
                    Some(i) => {
                        assert(w[i].priority);
                    },
                    None => {
                        if exists|i: int| is_default_priority_index(d, i) {
                            let i = choose|i: int| is_default_priority_index(d, i);
                            assert(w[i].priority);
                        } else {
                            assert(w[0].priority);
                        }
                    },
                }
            }
        }
        let x = choose|i: int| 0 <= i < w.len() && (#[trigger] w[i]).priority;
        lemma_first_priority_exists(w, x);
        let p = choose|p: int| 0 <= p < w.len() && w[p].priority && none_before(w, p);
        assert(r[p].priority);
    }
}

/// The key of the first existing entry marked priority.
pub open spec fn prev_priority_key(existing: Seq<EntryView>, keys: Seq<Seq<char>>) -> Option<Seq<char>> {
    if exists|j: int| 0 <= j < existing.len() && (#[trigger] existing[j]).priority {
        Some(keys[choose|j: int| 0 <= j < existing.len() && existing[j].priority
            && forall|m: int| 0 <= m < j ==> !(#[trigger] existing[m]).priority])
    } else {
        None
    }
}

pub open spec fn no_gguf_message(dirs: Seq<char>) -> Seq<char> {
    "No llama.cpp-loadable .gguf files found in '"@ + dirs + "'"@
}

fn last_key_index(keys: &[String], k: &str) -> (r: Option<usize>)
    ensures
        match r {
            Some(j) => j < keys@.len() && last_with_key(strings_view(keys@), k@) == Some(j as int),
            None => last_with_key(strings_view(keys@), k@) is None,
        },
{
    let ghost ks = strings_view(keys@);
    let mut j: usize = keys.len();
    while j > 0
        invariant
            j <= keys@.len(),
            ks == strings_view(keys@),
            forall|m: int| j <= m < ks.len() ==> #[trigger] ks[m] != k@,
        decreases j,
    {
        if str_eq(keys[j - 1].as_str(), k) {
            proof {
                let w = choose|w: int| 0 <= w < ks.len() && ks[w] == k@ && forall|m: int| w < m < ks.len() ==> #[trigger] ks[m] != k@;
                assert(ks[j - 1] == k@);
                assert(w == j - 1) by {
                    if w < j - 1 {
                    } else if w > j - 1 {
                    }
                }
            }
            return Some(j - 1);
        }
        j = j - 1;
    }
    None
}

fn file_key_of(files: &[DiscoveredGguf], file: &str) -> (r: Option<usize>)
    ensures
        match r {
            Some(i) => i < files@.len() && key_of_file(discovered_views(files@), file@) == Some(files@[i as int].key@),
            None => key_of_file(discovered_views(files@), file@) is None,
        },
{
    let ghost ds = discovered_views(files@);
    proof { reveal(key_of_file); }
    let mut i: usize = 0;
    while i < files.len()
        invariant
            i <= files@.len(),
            ds == discovered_views(files@),
            forall|m: int| 0 <= m < i ==> #[trigger] ds[m].file != file@,
        decreases files.len() - i,
    {
        if str_eq(files[i].file.as_str(), file) {
            proof {
                reveal(key_of_file);
                assert(ds[i as int].file == file@);
                let w = choose|w: int| 0 <= w < ds.len() && ds[w].file == file@ && forall|m: int| 0 <= m < w ==> #[trigger] ds[m].file != file@;
                assert(w == i) by {
                    if w < i {
                    } else if w > i {
                    }
                }
            }
            return Some(i);
        }
        i = i + 1;
    }
    proof { reveal(key_of_file); }
    None
}

/// Index of the first entry whose file has key `k`.
fn find_entry_with_key(entries: &Vec<RegistryEntry>, files: &[DiscoveredGguf], k: &str) -> (r: Option<usize>)
    ensures
        match r {
            Some(j) => j < entries@.len() && first_entry_with_key(entry_views(entries@), discovered_views(files@), k@) == Some(j as int),
            None => first_entry_with_key(entry_views(entries@), discovered_views(files@), k@) is None,
        },
{
    let ghost es = entry_views(entries@);
    let ghost ds = discovered_views(files@);
    let mut j: usize = 0;
    while j < entries.len()
        invariant
            j <= entries@.len(),
            es == entry_views(entries@),
            ds == discovered_views(files@),
            forall|m: int| 0 <= m < j ==> key_of_file(ds, (#[trigger] es[m]).file) != Some(k@),
        decreases entries.len() - j,
    {
        assert(es[j as int] == entries@[j as int]@);
        let hit = match file_key_of(files, entries[j].file.as_str()) {
            Some(f) => str_eq(files[f].key.as_str(), k),
            None => false,
        };
        if hit {
            proof {
                assert(key_of_file(ds, es[j as int].file) == Some(k@));
                let w = choose|w: int| 0 <= w < es.len() && key_of_file(ds, es[w].file) == Some(k@)
                    && forall|m: int| 0 <= m < w ==> key_of_file(ds, (#[trigger] es[m]).file) != Some(k@);
                assert(w == j) by {
                    if w < j {
                    } else if w > j {
                    }
                }
            }
            return Some(j);
        }
        j = j + 1;
    }
    None
}

/// Mark the default priority entry when none is marked.
fn assign_default_priority(entries: &mut Vec<RegistryEntry>, files: &[DiscoveredGguf], prev_key: &Option<String>)
    ensures
        entry_views(final(entries)@) == with_default_priority(entry_views(old(entries)@), discovered_views(files@), opt_str(*prev_key)),
{
    let ghost es = entry_views(entries@);
    let ghost ds = discovered_views(files@);
    let mut i: usize = 0;
    while i < entries.len()
        invariant
            i <= entries@.len(),
            es == entry_views(entries@),
            forall|m: int| 0 <= m < i ==> !(#[trigger] es[m]).priority,
        decreases entries.len() - i,
    {
        assert(es[i as int] == entries@[i as int]@);
        if entries[i].priority {
            return;
        }
        i = i + 1;
    }
    assert(!any_priority(es));
    if let Some(k) = prev_key {
        if let Some(j) = find_entry_with_key(entries, files, k.as_str()) {
            let mut e = entries[j].clone_entry();
            e.priority = true;
            entries.set(j, e);
            assert(entry_views(entries@) =~= es.update(j as int, with_priority(es[j as int], true)));
            return;
        }
    }
    match default_priority_index(entries.as_slice()) {
        Some(d) => {
            proof {
                let w = choose|w: int| is_default_priority_index(es, w);
                assert(w == d) by {
                    if w < d {
                        assert(preference_score(es[d as int].alias) < preference_score(es[w].alias));
                    } else if w > d {
                        assert(preference_score(es[w].alias) < preference_score(es[d as int].alias));
                    }
                }
            }
            let mut e = entries[d].clone_entry();
            e.priority = true;
            entries.set(d, e);
            assert(entry_views(entries@) =~= es.update(d as int, with_priority(es[d as int], true)));
        },
        None => {
            assert(!exists|w: int| is_default_priority_index(es, w)) by {
                if exists|w: int| is_default_priority_index(es, w) {
                    let w = choose|w: int| is_default_priority_index(es, w);
                    assert(entries@[w]@.alias == es[w].alias);
                }
            }
            if entries.len() > 0 {
                let mut e = entries[0].clone_entry();
                e.priority = true;
                entries.set(0, e);
                assert(entry_views(entries@) =~= es.update(0, with_priority(es[0], true)));
            }
        },
    }
}

pub open spec fn existing_views(merge_from: Option<&ModelsRegistry>) -> Seq<EntryView> {
    match merge_from { Some(m) => entry_views(m.models@), None => seq![] }
}

pub open spec fn existing_key_views(merge_from: Option<&ModelsRegistry>, keys: Seq<String>) -> Seq<Seq<char>> {
    match merge_from { Some(_) => strings_view(keys), None => seq![] }
}

impl ModelsRegistry {
    /// A registry built from the GGUF files found in `models_dirs`
    /// (`files`, in scan order; `dirs_text` is how the directories were
    /// given), optionally carrying over the settings of an existing registry
    /// whose entry `j` has file key `existing_keys[j]`. `detected_server` is
    /// the `llama-server` found on this machine. No file found is an error
    /// unless a registry is merged.
    pub fn discover_with_merge(
        dirs_text: &str,
        models_dirs: &[String],
        files: &[DiscoveredGguf],
        merge_from: Option<&ModelsRegistry>,
        existing_keys: &[String],
        detected_server: &str,
    ) -> (r: Result<ModelsRegistry, RuntimeError>)
        requires
            merge_from matches Some(m) ==> existing_keys@.len() == m.models@.len(),
            files@.len() + 3 <= u64::MAX,
            files@.len() + 1 <= usize::MAX,
        ensures
            files@.len() == 0 && merge_from is None <==> r is Err,
            r matches Err(e) ==> (e matches RuntimeError::ConfigError(m) && m@ == no_gguf_message(dirs_text@)),
            r matches Ok(reg) ==> reg.defaults.models_dir@ == join(strings_view(models_dirs@), ","@),
            r matches Ok(reg) ==> reg.defaults.llama_server@ == (match merge_from {
                Some(m) => if m.defaults.llama_server@.len() == 0 { detected_server@ } else { m.defaults.llama_server@ },
                None => detected_server@,
            }),
            r matches Ok(reg) ==> reg.version == (match merge_from { Some(m) => m.version, None => 1 }),
            r matches Ok(reg) ==> reg.auto_discover == (match merge_from { Some(m) => m.auto_discover, None => true }),
            r matches Ok(reg) ==> (match merge_from {
                Some(m) => reg.defaults.host@ == m.defaults.host@ && reg.defaults.base_port == m.defaults.base_port
                    && reg.defaults.context_size == m.defaults.context_size && reg.defaults.ngl == m.defaults.ngl
                    && reg.defaults.backend@ == m.defaults.backend@,
                None => reg.defaults.host@ == "127.0.0.1"@ && reg.defaults.base_port == 8081
                    && reg.defaults.context_size == 16384 && reg.defaults.ngl == 999 && reg.defaults.backend@ == "llama.cpp"@,
            }),
            r matches Ok(reg) ==> exists|d: Seq<EntryView>| #![trigger is_deduped(rescan_all(existing_views(merge_from), existing_key_views(merge_from, existing_keys@), discovered_views(files@)).entries, d)]
                is_deduped(rescan_all(existing_views(merge_from), existing_key_views(merge_from, existing_keys@), discovered_views(files@)).entries, d)
                && entry_views(reg.models@) == first_priority_only(with_default_priority(d, discovered_views(files@),
                    prev_priority_key(existing_views(merge_from), existing_key_views(merge_from, existing_keys@)))),
            r matches Ok(reg) ==> (files@.len() > 0 ==> reg.models@.len() > 0),
            r matches Ok(reg) ==> sorted_by_alias(entry_views(reg.models@)),
            r matches Ok(reg) ==> forall|i: int, j: int| 0 <= i < j < reg.models@.len()
                ==> reg.models@[i].file@ != reg.models@[j].file@,
            r matches Ok(reg) ==> forall|i: int, j: int| 0 <= i < j < reg.models@.len()
                ==> !(reg.models@[i].priority && reg.models@[j].priority),
            r matches Ok(reg) ==> (reg.models@.len() > 0 ==> exists|i: int| 0 <= i < reg.models@.len()
                && (#[trigger] reg.models@[i]).priority),
    {
        let mut defaults = match merge_from {
            Some(m) => m.defaults.clone_defaults(),
            None => RegistryDefaults::default(),
        };
        defaults.models_dir = format_models_dirs(models_dirs);
        defaults.llama_server = match merge_from {
            Some(m) => if str_is_empty(m.defaults.llama_server.as_str()) {
                string_from_str(detected_server)
            } else {
                m.defaults.llama_server.clone()
            },
            None => string_from_str(detected_server),
        };
        let version = match merge_from { Some(m) => m.version, None => 1 };
        let auto_discover = match merge_from { Some(m) => m.auto_discover, None => true };
        if files.len() == 0 {
            if merge_from.is_some() {
                let reg = ModelsRegistry { version, defaults, auto_discover, models: Vec::new() };
                proof {
                    let existing = existing_views(merge_from);
                    let keys = existing_key_views(merge_from, existing_keys@);
                    let ds = discovered_views(files@);
                    let d: Seq<EntryView> = seq![];
                    assert(rescan_all(existing, keys, ds).entries =~= Seq::<EntryView>::empty());
                    assert(merge_by(merge_by(seq![], true), false) =~= Seq::<EntryView>::empty());
                    assert(is_deduped(rescan_all(existing, keys, ds).entries, d));
                    assert(entry_views(reg.models@) =~= first_priority_only(with_default_priority(d, ds, prev_priority_key(existing, keys))));
                }
                return Ok(reg);
            }
            let head = concat_str("No llama.cpp-loadable .gguf files found in '", dirs_text);
            return Err(RuntimeError::ConfigError(concat_str(head.as_str(), "'")));
        }
        let empty_keys: Vec<String> = Vec::new();
        let empty_models: Vec<RegistryEntry> = Vec::new();
        let (existing, keys): (&Vec<RegistryEntry>, &[String]) = match merge_from {
            Some(m) => (&m.models, existing_keys),
            None => (&empty_models, empty_keys.as_slice()),
        };
        let ghost ev = entry_views(existing@);
        let ghost kv = strings_view(keys@);
        let ghost ds = discovered_views(files@);
        proof {
            assert(ev == existing_views(merge_from));
            assert(kv =~= existing_key_views(merge_from, existing_keys@));
        }
        let mut models: Vec<RegistryEntry> = Vec::new();
        let mut used: Vec<String> = Vec::new();
        let mut i: usize = 0;
        while i < files.len()
            invariant
                i <= files@.len(),
                ds == discovered_views(files@),
                ev == entry_views(existing@),
                kv == strings_view(keys@),
                keys@.len() == existing@.len(),
                used@.len() == i,
                files@.len() + 3 <= u64::MAX,
                files@.len() + 1 <= usize::MAX,
                ({
                    let st = rescan_all(ev, kv, ds.subrange(0, i as int));
                    entry_views(models@) == st.entries && strings_view(used@) == st.used
                }),
            decreases files.len() - i,
        {
            let ghost sub = ds.subrange(0, i + 1);
            assert(sub.drop_last() =~= ds.subrange(0, i as int));
            let f = &files[i];
            assert(sub.last() == f@);
            let ghost be = models@;
            let ghost bu = used@;
            match last_key_index(keys, f.key.as_str()) {
                Some(j) => {
                    let old_e = &existing[j];
                    assert(ev[j as int] == old_e@);
                    let alias = dedupe_alias(old_e.alias.as_str(), &mut used);
                    let mut e = old_e.clone_entry();
                    e.alias = alias;
                    e.file = f.file.clone();
                    assert(e@ == carried_over(ev[j as int], e.alias@, f@.file));
                    models.push(e);
                    assert(entry_views(models@) =~= entry_views(be).push(e@));
                },
                None => {
                    let base = alias_from_filename(f.path.as_str());
                    let alias = dedupe_alias(base.as_str(), &mut used);
                    let e = new_discovered_entry(alias, &f.file);
                    models.push(e);
                    assert(entry_views(models@) =~= entry_views(be).push(e@));
                },
            }
            assert(strings_view(used@).len() == used@.len() && strings_view(bu).len() == bu.len());
            i = i + 1;
        }
        assert(ds.subrange(0, files@.len() as int) =~= ds);
        let ghost cands = entry_views(models@);
        dedupe_registry_entries(&mut models);
        let ghost d = entry_views(models@);
        let prev_key: Option<String> = match merge_from {
            Some(m) => first_priority_key(&m.models, existing_keys),
            None => None,
        };
        assert(opt_str(prev_key) == prev_priority_key(ev, kv));
        assign_default_priority(&mut models, files, &prev_key);
        normalize_priority_entries(&mut models);
        let reg = ModelsRegistry { version, defaults, auto_discover, models };
        assert(is_deduped(cands, d));
        proof {
            lemma_merged_registry_shape(d, discovered_views(files@), prev_priority_key(ev, kv));
            lemma_deduped_distinct(cands, d);
            lemma_rescan_len(ev, kv, ds);
            lemma_merge_by_nonempty(cands, true);
            lemma_merge_by_nonempty(merge_by(cands, true), false);
            let rv = entry_views(reg.models@);
            assert forall|i: int, j: int| 0 <= i < j < reg.models@.len()
                implies reg.models@[i].file@ != reg.models@[j].file@ by {
                assert(rv[i].file == reg.models@[i].file@ && rv[j].file == reg.models@[j].file@);
                assert(rv[i].file == d[i].file && rv[j].file == d[j].file);
            }
            assert forall|i: int, j: int| 0 <= i < j < reg.models@.len()
                implies !(reg.models@[i].priority && reg.models@[j].priority) by {
                assert(rv[i].priority == reg.models@[i].priority && rv[j].priority == reg.models@[j].priority);
            }
            if reg.models@.len() > 0 {
                let x = choose|x: int| 0 <= x < rv.len() && (#[trigger] rv[x]).priority;
                assert(reg.models@[x].priority == rv[x].priority);
            }
        }
        Ok(reg)
    }
}

fn first_priority_key(models: &Vec<RegistryEntry>, keys: &[String]) -> (r: Option<String>)
    requires
        keys@.len() == models@.len(),
    ensures
        opt_str(r) == prev_priority_key(entry_views(models@), strings_view(keys@)),
{
    let ghost es = entry_views(models@);
    let mut j: usize = 0;
    while j < models.len()
        invariant
            j <= models@.len(),
            keys@.len() == models@.len(),
            es == entry_views(models@),
            forall|m: int| 0 <= m < j ==> !(#[trigger] es[m]).priority,
        decreases models.len() - j,
    {
        assert(es[j as int] == models@[j as int]@);
        if models[j].priority {
            proof {
                let w = choose|w: int| 0 <= w < es.len() && es[w].priority && forall|m: int| 0 <= m < w ==> !(#[trigger] es[m]).priority;
                assert(w == j) by {
                    if w < j {
                    } else if w > j {
                    }
                }
            }
            return Some(keys[j].clone());
        }
        j = j + 1;
    }
    None
}

// ── How the registry refers to a file ──────────────────────────────────────

/// A path without its leading `/` characters.
pub open spec fn without_leading_slashes(s: Seq<char>) -> Seq<char> {
    trim_start_by(s, equals_char('/'))
}

fn strip_leading_slashes(s: &str) -> (r: String)
    ensures
        r@ == without_leading_slashes(s@),
{
    let v = chars_of(s);
    let mut a: usize = 0;
    while a < v.len() && v[a] == '/'
        invariant
            a <= v@.len(),
            forall|j: int| 0 <= j < a ==> (equals_char('/'))(v@[j]),
        decreases v.len() - a,
    {
        a = a + 1;
    }
    proof { lemma_trim_start_range(v@, equals_char('/'), a as int); }
    string_from(slice_subrange(v.as_slice(), a, v.len()))
}

/// How the registry refers to a discovered file: relative to the models
/// directory when there is exactly one and the file lies below it, else by
/// its whole path.
pub open spec fn file_reference(dirs: Seq<Seq<char>>, path: Seq<char>) -> Seq<char> {
    if dirs.len() == 1 {
        match below_dir(path, dirs[0]) {
            Some(rel) => without_leading_slashes(rel),
            None => path,
        }
    } else {
        path
    }
}

pub fn model_file_reference(models_dirs: &[String], path: &str) -> (r: String)
    ensures
        r@ == file_reference(strings_view(models_dirs@), path@),
{
    if models_dirs.len() == 1 {
        assert(strings_view(models_dirs@)[0] == models_dirs@[0]@);
        match below_dir_exec(path, models_dirs[0].as_str()) {
            Some(rel) => strip_leading_slashes(rel.as_str()),
            None => string_from_str(path),
        }
    } else {
        string_from_str(path)
    }
}

/// The key under which a registry file is compared: the resolved path when
/// it resolves; else the file itself (without leading `/` when relative to
/// a single models directory); lower-cased either way.
pub open spec fn file_key(dirs: Seq<Seq<char>>, file: Seq<char>, resolved: Option<Seq<char>>) -> Seq<char> {
    match resolved {
        Some(p) => lower(p),
        None => lower(if file.len() > 0 && file[0] == '/' {
            file
        } else if dirs.len() == 1 {
            without_leading_slashes(file)
        } else {
            file
        }),
    }
}

/// `resolved` is the path the file resolves to on disk, when it does.
pub fn normalize_file_key(models_dirs: &[String], file: &str, resolved: Option<&str>) -> (r: String)
    ensures
        r@ == file_key(strings_view(models_dirs@), file@, match resolved { Some(p) => Some(p@), None => None }),
{
    match resolved {
        Some(p) => to_lower(p),
        None => {
            let absolute = str_starts_with(file, "/");
            proof {
                reveal_strlit("/");
                if file@.len() > 0 && file@[0] == '/' {
                    assert(file@.subrange(0, 1) =~= "/"@);
                }
                if absolute {
                    assert(file@.subrange(0, 1)[0] == file@[0]);
                }
            }
            if absolute {
                to_lower(file)
            } else if models_dirs.len() == 1 {
                to_lower(strip_leading_slashes(file).as_str())
            } else {
                to_lower(file)
            }
        },
    }
}

} // verus!

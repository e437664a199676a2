//! The models registry: short aliases for GGUF files, with per-model
//! overrides, and the rules that keep it consistent (one entry per file and
//! per alias, at most one priority model, inferred kinds and display names).
use vstd::prelude::*;
use crate::errors::RuntimeError;
use crate::text::{
    chars_of, clone_opt_str, clone_strings, concat_str, contains, has_prefix, join, join_strings, lower,
    non_empty, opt_str, split_chars, split_on, str_contains, str_eq, str_starts_with, string_from,
    string_from_str, strings_view, to_lower, upper_char, upper_char_exec, vec_views, lex_lt, lex_less,
    lemma_lex_transitive, lemma_lex_total, last_occurrence, lemma_last_occurrence, occurs_at, has_suffix, is_alnum, is_digit,
    last_index_of, lemma_last_index_of, rfind_char, ends_with, trim_char, trim_char_range, lower_chars,
    replace_char, replace_chars, str_ends_with, decimal, fmt_decimal, lemma_decimal_injective, rfind, trim, trim_range,
    lemma_split_join, lemma_non_empty_keeps, lemma_lex_irreflexive,
};
use vstd::slice::slice_subrange;
use crate::paths::{file_name, file_name_of, file_stem, file_stem_of};

verus! {

// ── Entries ─────────────────────────────────────────────────────────────────

/// One `[[models]]` entry of `models.toml`.
#[derive(Clone, Debug)]
pub struct RegistryEntry {
    /// Short model id used in API requests.
    pub alias: String,
    /// GGUF path relative to `models_dir`, or an absolute path.
    pub file: String,
    pub display_name: Option<String>,
    /// `chat`, `coder`, `vision` or `embedding`; inferred when absent.
    pub kind: Option<String>,
    pub enabled: bool,
    pub priority: bool,
    pub port: Option<u16>,
    pub context_size: Option<u32>,
    pub ngl: Option<u32>,
    pub extra_args: Vec<String>,
    pub description: Option<String>,
    pub max_context_length: Option<u32>,
    pub min_vram_gb: Option<u32>,
    pub capabilities: Vec<String>,
    pub hf_repo: Option<String>,
}

pub ghost struct EntryView {
    pub alias: Seq<char>,
    pub file: Seq<char>,
    pub display_name: Option<Seq<char>>,
    pub kind: Option<Seq<char>>,
    pub enabled: bool,
    pub priority: bool,
    pub port: Option<u16>,
    pub context_size: Option<u32>,
    pub ngl: Option<u32>,
    pub extra_args: Seq<Seq<char>>,
    pub description: Option<Seq<char>>,
    pub max_context_length: Option<u32>,
    pub min_vram_gb: Option<u32>,
    pub capabilities: Seq<Seq<char>>,
    pub hf_repo: Option<Seq<char>>,
}

impl View for RegistryEntry {
    type V = EntryView;

    open spec fn view(&self) -> EntryView {
        EntryView {
            alias: self.alias@,
            file: self.file@,
            display_name: opt_str(self.display_name),
            kind: opt_str(self.kind),
            enabled: self.enabled,
            priority: self.priority,
            port: self.port,
            context_size: self.context_size,
            ngl: self.ngl,
            extra_args: strings_view(self.extra_args@),
            description: opt_str(self.description),
            max_context_length: self.max_context_length,
            min_vram_gb: self.min_vram_gb,
            capabilities: strings_view(self.capabilities@),
            hf_repo: opt_str(self.hf_repo),
        }
    }
}

pub open spec fn entry_views(es: Seq<RegistryEntry>) -> Seq<EntryView> {
    es.map_values(|e: RegistryEntry| e@)
}

/// The kind a model is taken to have from its alias and file name.
pub open spec fn kind_of(alias: Seq<char>, file: Seq<char>) -> Seq<char> {
    let c = lower(alias + seq![' '] + file);
    if contains(c, "embed"@) {
        "embedding"@
    } else if contains(c, "-vl"@) || contains(c, "vision"@) || contains(c, "mmproj"@) {
        "vision"@
    } else if contains(c, "coder"@) || contains(c, "-code"@) {
        "coder"@
    } else {
        "chat"@
    }
}

pub open spec fn effective_kind_of(e: EntryView) -> Seq<char> {
    match e.kind {
        Some(k) => k,
        None => kind_of(e.alias, e.file),
    }
}

/// Infer the kind of a model from its alias and file name.
pub fn infer_kind(alias: &str, file: &str) -> (r: String)
    ensures
        r@ == kind_of(alias@, file@),
{
    let with_space = concat_str(alias, " ");
    let combined = concat_str(with_space.as_str(), file);
    let c = to_lower(combined.as_str());
    proof {
        reveal_strlit(" ");
        assert(combined@ =~= alias@ + seq![' '] + file@);
    }
    if str_contains(c.as_str(), "embed") {
        string_from_str("embedding")
    } else if str_contains(c.as_str(), "-vl") || str_contains(c.as_str(), "vision") || str_contains(c.as_str(), "mmproj") {
        string_from_str("vision")
    } else if str_contains(c.as_str(), "coder") || str_contains(c.as_str(), "-code") {
        string_from_str("coder")
    } else {
        string_from_str("chat")
    }
}

pub open spec fn embedding_like(alias: Seq<char>) -> bool {
    contains(lower(alias), "embed"@) || contains(lower(alias), "granite-embedding"@)
}

/// Whether an alias names an embedding model.
pub fn is_embedding_like_alias(alias: &str) -> (r: bool)
    ensures
        r == embedding_like(alias@),
{
    let lower_alias = to_lower(alias);
    str_contains(lower_alias.as_str(), "embed") || str_contains(lower_alias.as_str(), "granite-embedding")
}

impl RegistryEntry {
    /// An entry with every optional field unset, enabled and not priority.
    pub fn default() -> (r: RegistryEntry)
        ensures
            r@.alias.len() == 0,
            r@.file.len() == 0,
            r.display_name is None,
            r.kind is None,
            r.enabled,
            !r.priority,
            r.port is None,
            r.context_size is None,
            r.ngl is None,
            r@.extra_args.len() == 0,
            r.description is None,
            r.max_context_length is None,
            r.min_vram_gb is None,
            r@.capabilities.len() == 0,
            r.hf_repo is None,
    {
        RegistryEntry {
            alias: String::new(),
            file: String::new(),
            display_name: None,
            kind: None,
            enabled: true,
            priority: false,
            port: None,
            context_size: None,
            ngl: None,
            extra_args: Vec::new(),
            description: None,
            max_context_length: None,
            min_vram_gb: None,
            capabilities: Vec::new(),
            hf_repo: None,
        }
    }

    /// The configured kind, or the one inferred from alias and file.
    pub fn effective_kind(&self) -> (r: String)
        ensures
            r@ == effective_kind_of(self@),
    {
        match &self.kind {
            Some(k) => k.clone(),
            None => infer_kind(self.alias.as_str(), self.file.as_str()),
        }
    }

    pub fn clone_entry(&self) -> (r: RegistryEntry)
        ensures
            r@ == self@,
    {
        RegistryEntry {
            alias: self.alias.clone(),
            file: self.file.clone(),
            display_name: clone_opt_str(&self.display_name),
            kind: clone_opt_str(&self.kind),
            enabled: self.enabled,
            priority: self.priority,
            port: self.port,
            context_size: self.context_size,
            ngl: self.ngl,
            extra_args: clone_strings(&self.extra_args),
            description: clone_opt_str(&self.description),
            max_context_length: self.max_context_length,
            min_vram_gb: self.min_vram_gb,
            capabilities: clone_strings(&self.capabilities),
            hf_repo: clone_opt_str(&self.hf_repo),
        }
    }
}

// ── Merging duplicates ──────────────────────────────────────────────────────

pub open spec fn or_opt<T>(a: Option<T>, b: Option<T>) -> Option<T> {
    match a {
        Some(x) => Some(x),
        None => b,
    }
}

/// `target` with its unset fields taken from `incoming`: a priority flag on
/// either side wins, a disabled flag on either side wins, and the alias and
/// file of `target` stay.
pub open spec fn merged(t: EntryView, i: EntryView) -> EntryView {
    EntryView {
        alias: t.alias,
        file: t.file,
        display_name: or_opt(t.display_name, i.display_name),
        kind: or_opt(t.kind, i.kind),
        enabled: t.enabled && i.enabled,
        priority: t.priority || i.priority,
        port: or_opt(t.port, i.port),
        context_size: or_opt(t.context_size, i.context_size),
        ngl: or_opt(t.ngl, i.ngl),
        extra_args: if t.extra_args.len() == 0 { i.extra_args } else { t.extra_args },
        description: or_opt(t.description, i.description),
        max_context_length: or_opt(t.max_context_length, i.max_context_length),
        min_vram_gb: or_opt(t.min_vram_gb, i.min_vram_gb),
        capabilities: if t.capabilities.len() == 0 { i.capabilities } else { t.capabilities },
        hf_repo: or_opt(t.hf_repo, i.hf_repo),
    }
}

fn first_of_str(a: &Option<String>, b: &Option<String>) -> (r: Option<String>)
    ensures
        opt_str(r) == or_opt(opt_str(*a), opt_str(*b)),
{
    if a.is_some() { clone_opt_str(a) } else { clone_opt_str(b) }
}

fn first_of<T: Copy>(a: Option<T>, b: Option<T>) -> (r: Option<T>)
    ensures
        r == or_opt(a, b),
{
    if a.is_some() { a } else { b }
}

fn non_empty_or(a: &Vec<String>, b: &Vec<String>) -> (r: Vec<String>)
    ensures
        strings_view(r@) == (if a@.len() == 0 { strings_view(b@) } else { strings_view(a@) }),
{
    if a.len() == 0 { clone_strings(b) } else { clone_strings(a) }
}

/// Fill the unset fields of `target` from `incoming`.
pub fn merge_registry_entry(target: &mut RegistryEntry, incoming: &RegistryEntry)
    ensures
        final(target)@ == merged(old(target)@, incoming@),
{
    let m = RegistryEntry {
        alias: target.alias.clone(),
        file: target.file.clone(),
        display_name: first_of_str(&target.display_name, &incoming.display_name),
        kind: first_of_str(&target.kind, &incoming.kind),
        enabled: target.enabled && incoming.enabled,
        priority: target.priority || incoming.priority,
        port: first_of(target.port, incoming.port),
        context_size: first_of(target.context_size, incoming.context_size),
        ngl: first_of(target.ngl, incoming.ngl),
        extra_args: non_empty_or(&target.extra_args, &incoming.extra_args),
        description: first_of_str(&target.description, &incoming.description),
        max_context_length: first_of(target.max_context_length, incoming.max_context_length),
        min_vram_gb: first_of(target.min_vram_gb, incoming.min_vram_gb),
        capabilities: non_empty_or(&target.capabilities, &incoming.capabilities),
        hf_repo: first_of_str(&target.hf_repo, &incoming.hf_repo),
    };
    assert(strings_view(target.extra_args@).len() == target.extra_args@.len());
    assert(strings_view(target.capabilities@).len() == target.capabilities@.len());
    *target = m;
}

// ── Priority ────────────────────────────────────────────────────────────────

pub open spec fn with_priority(e: EntryView, p: bool) -> EntryView {
    EntryView { priority: p, ..e }
}

/// No entry before index `i` is a priority entry.
pub open spec fn none_before(es: Seq<EntryView>, i: int) -> bool {
    forall|j: int| 0 <= j < i ==> !(#[trigger] es[j]).priority
}

/// Only the first priority entry keeps its flag.
pub open spec fn first_priority_only(es: Seq<EntryView>) -> Seq<EntryView> {
    Seq::new(es.len(), |i: int| with_priority(es[i], es[i].priority && none_before(es, i)))
}

/// When several entries are marked priority, keep only the first.
pub fn normalize_priority_entries(entries: &mut Vec<RegistryEntry>)
    ensures
        entry_views(final(entries)@) == first_priority_only(entry_views(old(entries)@)),
{
    let ghost orig = entry_views(entries@);
    let mut seen = false;
    let mut i: usize = 0;
    while i < entries.len()
        invariant
            i <= entries.len(),
            entries@.len() == orig.len(),
            seen == !none_before(orig, i as int),
            forall|j: int| 0 <= j < i ==> (#[trigger] entry_views(entries@)[j]) == first_priority_only(orig)[j],
            forall|j: int| i <= j < entries@.len() ==> (#[trigger] entry_views(entries@)[j]) == orig[j],
        decreases entries.len() - i,
    {
        let ghost before = entries@;
        assert(entry_views(before)[i as int] == orig[i as int]);
        let is_priority = entries[i].priority;
        assert(is_priority == orig[i as int].priority);
        if is_priority {
            if seen {
                let mut e = entries[i].clone_entry();
                e.priority = false;
                entries.set(i, e);
            }
            seen = true;
        }
        proof {
            assert forall|j: int| 0 <= j < i + 1 implies (#[trigger] entry_views(entries@)[j]) == first_priority_only(orig)[j] by {
                if j < i {
                    assert(entry_views(before)[j] == first_priority_only(orig)[j]);
                    assert(entries@[j] == before[j]);
                } else {
                    assert(entry_views(before)[j] == orig[j]);
                }
            }
            assert forall|j: int| i + 1 <= j < entries@.len() implies (#[trigger] entry_views(entries@)[j]) == orig[j] by {
                assert(entries@[j] == before[j]);
                assert(entry_views(before)[j] == orig[j]);
            }
            assert(none_before(orig, i + 1) == (none_before(orig, i as int) && !orig[i as int].priority)) by {
                if none_before(orig, i as int) && !orig[i as int].priority {
                    assert forall|j: int| 0 <= j < i + 1 implies !(#[trigger] orig[j]).priority by {}
                }
            }
        }
        i = i + 1;
    }
    assert(entry_views(entries@) =~= first_priority_only(orig));
}

/// How strongly an alias is preferred as the default priority model.
pub open spec fn preference_score(alias: Seq<char>) -> nat {
    if embedding_like(alias) {
        0
    } else if contains(lower(alias), "gemma-4-e4b"@) {
        10
    } else if contains(lower(alias), "gemma"@) || contains(lower(alias), "qwen"@) || contains(lower(alias), "llama"@) {
        5
    } else {
        1
    }
}

pub fn priority_preference_score(alias: &str) -> (r: u8)
    ensures
        r as nat == preference_score(alias@),
{
    if is_embedding_like_alias(alias) {
        return 0;
    }
    let lower_alias = to_lower(alias);
    if str_contains(lower_alias.as_str(), "gemma-4-e4b") {
        return 10;
    }
    if str_contains(lower_alias.as_str(), "gemma") || str_contains(lower_alias.as_str(), "qwen")
        || str_contains(lower_alias.as_str(), "llama") {
        return 5;
    }
    1
}

/// Index of the entry to mark priority when none is: the last of the
/// highest-scoring non-embedding entries.
pub open spec fn is_default_priority_index(es: Seq<EntryView>, i: int) -> bool {
    &&& 0 <= i < es.len()
    &&& preference_score(es[i].alias) > 0
    &&& forall|j: int| 0 <= j < es.len() ==> preference_score(#[trigger] es[j].alias) <= preference_score(es[i].alias)
    &&& forall|j: int| i < j < es.len() ==> preference_score(#[trigger] es[j].alias) < preference_score(es[i].alias)
}

pub fn default_priority_index(models: &[RegistryEntry]) -> (r: Option<usize>)
    ensures
        match r {
            Some(i) => is_default_priority_index(entry_views(models@), i as int),
            None => forall|j: int| 0 <= j < models@.len() ==> preference_score(#[trigger] models@[j]@.alias) == 0,
        },
{
    let ghost es = entry_views(models@);
    let mut best: Option<usize> = None;
    let mut best_score: u8 = 0;
    let mut i: usize = 0;
    while i < models.len()
        invariant
            i <= models.len(),
            es == entry_views(models@),
            match best {
                Some(b) => b < i && best_score as nat == preference_score(es[b as int].alias) && best_score > 0
                    && (forall|j: int| 0 <= j < i ==> preference_score(#[trigger] es[j].alias) <= best_score)
                    && (forall|j: int| b < j < i ==> preference_score(#[trigger] es[j].alias) < best_score),
                None => best_score == 0 && forall|j: int| 0 <= j < i ==> preference_score(#[trigger] es[j].alias) == 0,
            },
        decreases models.len() - i,
    {
        let score = priority_preference_score(models[i].alias.as_str());
        assert(es[i as int] == models@[i as int]@);
        if score > 0 && score >= best_score {
            best = Some(i);
            best_score = score;
        }
        i = i + 1;
    }
    proof {
        assert forall|j: int| 0 <= j < models@.len() implies #[trigger] models@[j]@.alias == es[j].alias by {}
    }
    best
}

/// The tags a JSON export lists for an entry: its kind, then `priority`
/// and `disabled` where they apply.
pub open spec fn tags_of(e: EntryView) -> Seq<Seq<char>> {
    seq![effective_kind_of(e)]
        + (if e.priority { seq!["priority"@] } else { seq![] })
        + (if !e.enabled { seq!["disabled"@] } else { seq![] })
}

pub fn tags_for_entry(entry: &RegistryEntry) -> (r: Vec<String>)
    ensures
        strings_view(r@) == tags_of(entry@),
{
    let mut tags: Vec<String> = Vec::new();
    tags.push(entry.effective_kind());
    if entry.priority {
        tags.push(string_from_str("priority"));
    }
    if !entry.enabled {
        tags.push(string_from_str("disabled"));
    }
    assert(strings_view(tags@) =~= tags_of(entry@));
    tags
}

// ── Context sizing ──────────────────────────────────────────────────────────

pub const GIB: u64 = 1073741824;

/// The context window suggested for an entry, from the GPU's VRAM in GB and
/// the size of the model file in bytes (`None` when it could not be read,
/// which counts as 5 GiB).
pub open spec fn suggested_context(vram_gb: u32, e: EntryView, file_size_bytes: Option<u64>, default_context: u32) -> u32 {
    let vram = if vram_gb >= 1 { vram_gb } else { 1 };
    let big = match file_size_bytes { Some(b) => b >= 12 * GIB, None => false };
    let medium = match file_size_bytes { Some(b) => b >= 8 * GIB, None => false };
    match e.context_size {
        Some(c) => c,
        None => if effective_kind_of(e) == "embedding"@ {
            if default_context < 8192 { default_context } else { 8192 }
        } else if big || contains(e.alias, "30b"@) || contains(e.alias, "70b"@) || medium {
            if vram <= 12 { 16384 } else { 32768 }
        } else if vram <= 8 {
            16384
        } else if vram <= 12 {
            32768
        } else if default_context < 65536 {
            default_context
        } else {
            65536
        },
    }
}

/// Suggest a context window (`-c`) from available VRAM and model file size.
pub fn suggest_context_size(vram_gb: u32, entry: &RegistryEntry, file_size_bytes: Option<u64>, default_context: u32) -> (r: u32)
    ensures
        r == suggested_context(vram_gb, entry@, file_size_bytes, default_context),
{
    if let Some(context_size) = entry.context_size {
        return context_size;
    }
    let kind = entry.effective_kind();
    if str_eq(kind.as_str(), "embedding") {
        return if default_context < 8192 { default_context } else { 8192 };
    }
    let vram: u32 = if vram_gb >= 1 { vram_gb } else { 1 };
    let big = match file_size_bytes { Some(b) => b >= 12 * GIB, None => false };
    let medium = match file_size_bytes { Some(b) => b >= 8 * GIB, None => false };
    if big || str_contains(entry.alias.as_str(), "30b") || str_contains(entry.alias.as_str(), "70b") {
        return if vram <= 12 { 16384 } else { 32768 };
    }
    if medium {
        return if vram <= 12 { 16384 } else { 32768 };
    }
    if vram <= 8 {
        return 16384;
    }
    if vram <= 12 {
        return 32768;
    }
    if default_context < 65536 { default_context } else { 65536 }
}

// ── Backend arguments ───────────────────────────────────────────────────────

pub open spec fn is_ngl_flag(a: Seq<char>) -> bool {
    a == "-ngl"@ || a == "--n-gpu-layers"@ || a == "--gpu-layers"@
}

/// Whether the extra arguments already set the GPU layer count.
pub fn extra_args_pin_ngl(extra_args: &[String]) -> (r: bool)
    ensures
        r == exists|i: int| 0 <= i < strings_view(extra_args@).len() && is_ngl_flag(#[trigger] strings_view(extra_args@)[i]),
{
    let mut i: usize = 0;
    while i < extra_args.len()
        invariant
            i <= extra_args.len(),
            forall|j: int| 0 <= j < i ==> !is_ngl_flag(#[trigger] strings_view(extra_args@)[j]),
        decreases extra_args.len() - i,
    {
        let a = extra_args[i].as_str();
        assert(strings_view(extra_args@)[i as int] == a@);
        if str_eq(a, "-ngl") || str_eq(a, "--n-gpu-layers") || str_eq(a, "--gpu-layers") {
            return true;
        }
        i = i + 1;
    }
    false
}

pub open spec fn is_llama_3_1(alias: Seq<char>, file: Seq<char>) -> bool {
    let hay = lower(alias + seq![' '] + file);
    contains(hay, "llama-3.1"@) || contains(hay, "llama3.1"@) || contains(hay, "meta-llama-3.1"@)
}

pub fn is_llama_3_1_model(alias: &str, file: &str) -> (r: bool)
    ensures
        r == is_llama_3_1(alias@, file@),
{
    let with_space = concat_str(alias, " ");
    let combined = concat_str(with_space.as_str(), file);
    let hay = to_lower(combined.as_str());
    proof {
        reveal_strlit(" ");
        assert(combined@ =~= alias@ + seq![' '] + file@);
    }
    str_contains(hay.as_str(), "llama-3.1") || str_contains(hay.as_str(), "llama3.1")
        || str_contains(hay.as_str(), "meta-llama-3.1")
}

/// An argument that chooses a chat template itself.
pub open spec fn sets_chat_template(a: Seq<char>) -> bool {
    let l = lower(a);
    l == "--chat-template"@ || l == "--chat-template-file"@ || has_prefix(l, "--chat-template="@) || l == "--jinja"@
}

pub open spec fn forces_llama3_template(e: EntryView, extra: Seq<Seq<char>>) -> bool {
    is_llama_3_1(e.alias, e.file) && !exists|i: int| 0 <= i < extra.len() && sets_chat_template(#[trigger] extra[i])
}

pub fn should_force_llama3_chat_template(entry: &RegistryEntry, extra_args: &[String]) -> (r: bool)
    ensures
        r == forces_llama3_template(entry@, strings_view(extra_args@)),
{
    if !is_llama_3_1_model(entry.alias.as_str(), entry.file.as_str()) {
        return false;
    }
    let mut i: usize = 0;
    while i < extra_args.len()
        invariant
            i <= extra_args.len(),
            forall|j: int| 0 <= j < i ==> !sets_chat_template(#[trigger] strings_view(extra_args@)[j]),
        decreases extra_args.len() - i,
    {
        let l = to_lower(extra_args[i].as_str());
        assert(strings_view(extra_args@)[i as int] == extra_args@[i as int]@);
        if str_eq(l.as_str(), "--chat-template") || str_eq(l.as_str(), "--chat-template-file")
            || str_starts_with(l.as_str(), "--chat-template=") || str_eq(l.as_str(), "--jinja") {
            return false;
        }
        i = i + 1;
    }
    true
}

/// The entry's extra arguments, with `--chat-template llama3` appended for
/// Llama 3.1 models that do not choose a template themselves.
pub open spec fn effective_extra(e: EntryView) -> Seq<Seq<char>> {
    if forces_llama3_template(e, e.extra_args) {
        e.extra_args + seq!["--chat-template"@, "llama3"@]
    } else {
        e.extra_args
    }
}

pub fn effective_extra_args(entry: &RegistryEntry) -> (r: Vec<String>)
    ensures
        strings_view(r@) == effective_extra(entry@),
{
    let mut args = clone_strings(&entry.extra_args);
    if !should_force_llama3_chat_template(entry, &args) {
        return args;
    }
    let ghost before = args@;
    args.push(string_from_str("--chat-template"));
    args.push(string_from_str("llama3"));
    assert(strings_view(args@) =~= strings_view(before) + seq!["--chat-template"@, "llama3"@]);
    args
}

// ── Names ───────────────────────────────────────────────────────────────────

/// A word with its first character upper-cased (ASCII).
pub open spec fn capitalized(w: Seq<char>) -> Seq<char> {
    if w.len() == 0 { w } else { seq![upper_char(w[0])] + w.drop_first() }
}

/// `gemma-4_e4b` → `Gemma 4 E4b`.
pub open spec fn display_name_of(alias: Seq<char>) -> Seq<char> {
    join(non_empty(split_on(alias, seq!['-', '_'])).map_values(|w: Seq<char>| capitalized(w)), " "@)
}

/// A human-readable name for an alias: words split at `-` and `_`, each
/// capitalized, joined with spaces.
pub fn display_name_from_alias(alias: &str) -> (r: String)
    ensures
        r@ == display_name_of(alias@),
{
    let chars = chars_of(alias);
    let seps: Vec<char> = vec!['-', '_'];
    let parts = split_chars(&chars, &seps);
    assert(seps@ =~= seq!['-', '_']);
    let ghost all = vec_views(parts@);
    let mut words: Vec<String> = Vec::new();
    let mut i: usize = 0;
    while i < parts.len()
        invariant
            i <= parts.len(),
            all == vec_views(parts@),
            strings_view(words@) == non_empty(all.subrange(0, i as int)).map_values(|w: Seq<char>| capitalized(w)),
        decreases parts.len() - i,
    {
        let ghost sub = all.subrange(0, i + 1);
        assert(sub.drop_last() =~= all.subrange(0, i as int));
        assert(sub.last() == parts@[i as int]@);
        let p = &parts[i];
        if p.len() > 0 {
            let mut w: Vec<char> = Vec::new();
            w.push(upper_char_exec(p[0]));
            let mut k: usize = 1;
            while k < p.len()
                invariant
                    1 <= k <= p.len(),
                    w@ == seq![upper_char(p@[0])] + p@.subrange(1, k as int),
                decreases p.len() - k,
            {
                w.push(p[k]);
                k = k + 1;
                assert(w@ =~= seq![upper_char(p@[0])] + p@.subrange(1, k as int));
            }
            assert(p@.subrange(1, p@.len() as int) =~= p@.drop_first());
            let ghost before = words@;
            words.push(string_from(&w));
            assert(strings_view(words@) =~= strings_view(before).push(capitalized(p@)));
        }
        i = i + 1;
    }
    assert(all.subrange(0, parts.len() as int) =~= all);
    join_strings(&words, " ")
}

// ── Deduplication ───────────────────────────────────────────────────────────

/// The key entries are grouped by: the file, or the alias.
pub open spec fn entry_key(e: EntryView, by_file: bool) -> Seq<char> {
    if by_file { e.file } else { e.alias }
}

/// Index of the first entry of `s` whose key is `k`.
pub open spec fn first_with_key(s: Seq<EntryView>, k: Seq<char>, by_file: bool) -> Option<int> {
    if exists|i: int| 0 <= i < s.len() && entry_key(s[i], by_file) == k {
        Some(choose|i: int| 0 <= i < s.len() && entry_key(s[i], by_file) == k
            && forall|j: int| 0 <= j < i ==> entry_key(#[trigger] s[j], by_file) != k)
    } else {
        None
    }
}

/// Entries with equal keys folded into the first of them, in order of first
/// appearance; each later duplicate fills what the kept entry leaves unset.
pub open spec fn merge_by(es: Seq<EntryView>, by_file: bool) -> Seq<EntryView>
    decreases es.len(),
{
    if es.len() == 0 {
        seq![]
    } else {
        let prev = merge_by(es.drop_last(), by_file);
        let e = es.last();
        match first_with_key(prev, entry_key(e, by_file), by_file) {
            Some(k) => prev.update(k, merged(prev[k], e)),
            None => prev.push(e),
        }
    }
}

pub open spec fn sorted_by_alias(r: Seq<EntryView>) -> bool {
    forall|i: int, j: int| 0 <= i < j < r.len() ==> lex_lt(r[i].alias, r[j].alias)
}

pub open spec fn unique_keys(s: Seq<EntryView>, by_file: bool) -> bool {
    forall|i: int, j: int| 0 <= i < j < s.len() ==> entry_key(s[i], by_file) != entry_key(s[j], by_file)
}

/// `r` is what deduplicating `es` gives: one entry per file, then one per
/// alias, sorted by alias.
pub open spec fn is_deduped(es: Seq<EntryView>, r: Seq<EntryView>) -> bool {
    let g = merge_by(merge_by(es, true), false);
    &&& sorted_by_alias(r)
    &&& r.len() == g.len()
    &&& forall|x: EntryView| r.contains(x) <==> g.contains(x)
}

proof fn lemma_first_with_key_is(s: Seq<EntryView>, k: Seq<char>, by_file: bool, i: int)
    requires
        0 <= i < s.len(),
        entry_key(s[i], by_file) == k,
        forall|j: int| 0 <= j < i ==> entry_key(#[trigger] s[j], by_file) != k,
    ensures
        first_with_key(s, k, by_file) == Some(i),
{
    let w = choose|w: int| 0 <= w < s.len() && entry_key(s[w], by_file) == k
        && forall|j: int| 0 <= j < w ==> entry_key(#[trigger] s[j], by_file) != k;
    assert(w == i) by {
        if w < i {
            assert(entry_key(s[w], by_file) != k);
        } else if w > i {
            assert(entry_key(s[i], by_file) != k);
        }
    }
}

proof fn lemma_merge_by_unique(es: Seq<EntryView>, by_file: bool)
    ensures
        unique_keys(merge_by(es, by_file), by_file),
    decreases es.len(),
{
    if es.len() > 0 {
        lemma_merge_by_unique(es.drop_last(), by_file);
        let prev = merge_by(es.drop_last(), by_file);
        let e = es.last();
        let r = merge_by(es, by_file);
        match first_with_key(prev, entry_key(e, by_file), by_file) {
            Some(k) => {
                assert(entry_key(merged(prev[k], e), by_file) == entry_key(prev[k], by_file));
                assert forall|i: int, j: int| 0 <= i < j < r.len() implies entry_key(r[i], by_file) != entry_key(r[j], by_file) by {
                    assert(entry_key(r[i], by_file) == entry_key(prev[i], by_file));
                    assert(entry_key(r[j], by_file) == entry_key(prev[j], by_file));
                }
            },
            None => {
                assert forall|i: int, j: int| 0 <= i < j < r.len() implies entry_key(r[i], by_file) != entry_key(r[j], by_file) by {
                    if j == prev.len() {
                        assert(r[i] == prev[i]);
                    }
                }
            },
        }
    }
}

proof fn lemma_first_with_key_range(s: Seq<EntryView>, k: Seq<char>, by_file: bool)
    ensures
        first_with_key(s, k, by_file) matches Some(i) ==> 0 <= i < s.len() && entry_key(s[i], by_file) == k,
{
    if exists|i: int| 0 <= i < s.len() && entry_key(s[i], by_file) == k {
        let w = choose|w: int| 0 <= w < s.len() && entry_key(s[w], by_file) == k;
        lemma_first_key_witness(s, k, by_file, w);
    }
}

proof fn lemma_first_key_witness(s: Seq<EntryView>, k: Seq<char>, by_file: bool, w: int)
    requires
        0 <= w < s.len(),
        entry_key(s[w], by_file) == k,
    ensures
        exists|i: int| 0 <= i < s.len() && entry_key(s[i], by_file) == k
            && forall|j: int| 0 <= j < i ==> entry_key(#[trigger] s[j], by_file) != k,
    decreases w,
{
    if exists|j: int| 0 <= j < w && entry_key(#[trigger] s[j], by_file) == k {
        let j = choose|j: int| 0 <= j < w && entry_key(#[trigger] s[j], by_file) == k;
        lemma_first_key_witness(s, k, by_file, j);
    }
}

/// Folding entries by alias keeps files distinct: every kept entry keeps
/// the file of an entry it came from.
proof fn lemma_merge_by_alias_keeps_files(s: Seq<EntryView>)
    requires
        unique_keys(s, true),
    ensures
        unique_keys(merge_by(s, false), true),
        forall|i: int| 0 <= i < merge_by(s, false).len() ==> exists|j: int| 0 <= j < s.len()
            && s[j].file == (#[trigger] merge_by(s, false)[i]).file,
    decreases s.len(),
{
    if s.len() > 0 {
        let init = s.drop_last();
        assert(unique_keys(init, true)) by {
            assert forall|i: int, j: int| 0 <= i < j < init.len() implies entry_key(init[i], true) != entry_key(init[j], true) by {
                assert(init[i] == s[i] && init[j] == s[j]);
            }
        }
        lemma_merge_by_alias_keeps_files(init);
        let prev = merge_by(init, false);
        let e = s.last();
        let r = merge_by(s, false);
        lemma_first_with_key_range(prev, entry_key(e, false), false);
        match first_with_key(prev, entry_key(e, false), false) {
            Some(k) => {
                assert forall|i: int| 0 <= i < r.len() implies exists|j: int| 0 <= j < s.len()
                    && s[j].file == (#[trigger] r[i]).file by {
                    assert(r[i].file == prev[i].file);
                    let j = choose|j: int| 0 <= j < init.len() && init[j].file == (#[trigger] prev[i]).file;
                    assert(s[j] == init[j]);
                }
                assert forall|i: int, j: int| 0 <= i < j < r.len() implies entry_key(r[i], true) != entry_key(r[j], true) by {
                    assert(r[i].file == prev[i].file && r[j].file == prev[j].file);
                }
            },
            None => {
                assert forall|i: int| 0 <= i < r.len() implies exists|j: int| 0 <= j < s.len()
                    && s[j].file == (#[trigger] r[i]).file by {
                    if i < prev.len() {
                        assert(r[i] == prev[i]);
                        let j = choose|j: int| 0 <= j < init.len() && init[j].file == (#[trigger] prev[i]).file;
                        assert(s[j] == init[j]);
                    } else {
                        assert(r[i] == s[s.len() - 1]);
                    }
                }
                assert forall|i: int, j: int| 0 <= i < j < r.len() implies entry_key(r[i], true) != entry_key(r[j], true) by {
                    if j == prev.len() {
                        assert(r[i] == prev[i]);
                        let m = choose|m: int| 0 <= m < init.len() && init[m].file == (#[trigger] prev[i]).file;
                        assert(s[m] == init[m]);
                        assert(r[j] == s[s.len() - 1]);
                        assert(entry_key(s[m], true) != entry_key(s[s.len() - 1], true));
                    } else {
                        assert(r[i] == prev[i] && r[j] == prev[j]);
                    }
                }
            },
        }
    }
}

/// Folding never empties a non-empty list.
pub proof fn lemma_merge_by_nonempty(es: Seq<EntryView>, by_file: bool)
    ensures
        es.len() > 0 ==> merge_by(es, by_file).len() > 0,
    decreases es.len(),
{
    if es.len() > 0 {
        lemma_merge_by_nonempty(es.drop_last(), by_file);
        lemma_first_with_key_range(merge_by(es.drop_last(), by_file), entry_key(es.last(), by_file), by_file);
    }
}

/// Deduplicated entries have distinct files and distinct aliases.
pub proof fn lemma_deduped_distinct(es: Seq<EntryView>, r: Seq<EntryView>)
    requires
        is_deduped(es, r),
    ensures
        forall|i: int, j: int| 0 <= i < j < r.len() ==> r[i].file != r[j].file && r[i].alias != r[j].alias,
{
    let g1 = merge_by(es, true);
    lemma_merge_by_unique(es, true);
    lemma_merge_by_alias_keeps_files(g1);
    let g = merge_by(g1, false);
    assert forall|i: int, j: int| 0 <= i < j < r.len() implies r[i].file != r[j].file && r[i].alias != r[j].alias by {
        assert(lex_lt(r[i].alias, r[j].alias));
        if r[i].alias == r[j].alias {
            lemma_lex_irreflexive(r[i].alias);
        }
        if r[i].file == r[j].file {
            assert(r.contains(r[i]) && r.contains(r[j]));
            assert(g.contains(r[i]) && g.contains(r[j]));
            let gi = choose|gi: int| 0 <= gi < g.len() && g[gi] == r[i];
            let gj = choose|gj: int| 0 <= gj < g.len() && g[gj] == r[j];
            if gi == gj {
                lemma_lex_irreflexive(r[i].alias);
            } else if gi < gj {
                assert(entry_key(g[gi], true) != entry_key(g[gj], true));
            } else {
                assert(entry_key(g[gj], true) != entry_key(g[gi], true));
            }
        }
    }
}

fn key_eq(e: &RegistryEntry, k: &str, by_file: bool) -> (r: bool)
    ensures
        r == (entry_key(e@, by_file) == k@),
{
    if by_file { str_eq(e.file.as_str(), k) } else { str_eq(e.alias.as_str(), k) }
}

/// Index of the first entry whose key is `key`.
fn find_key(out: &Vec<RegistryEntry>, key: &str, by_file: bool) -> (r: Option<usize>)
    ensures
        match r {
            Some(k) => k < out@.len() && first_with_key(entry_views(out@), key@, by_file) == Some(k as int),
            None => first_with_key(entry_views(out@), key@, by_file) is None,
        },
{
    let ghost v = entry_views(out@);
    let mut k: usize = 0;
    while k < out.len()
        invariant
            k <= out.len(),
            v == entry_views(out@),
            forall|j: int| 0 <= j < k ==> entry_key(#[trigger] v[j], by_file) != key@,
        decreases out.len() - k,
    {
        if key_eq(&out[k], key, by_file) {
            proof { lemma_first_with_key_is(v, key@, by_file, k as int); }
            return Some(k);
        }
        k = k + 1;
    }
    None
}

/// Fold entries with equal keys (file or alias) into the first of them.
fn merge_entries_by(entries: &Vec<RegistryEntry>, by_file: bool) -> (r: Vec<RegistryEntry>)
    ensures
        entry_views(r@) == merge_by(entry_views(entries@), by_file),
{
    let ghost es = entry_views(entries@);
    let mut out: Vec<RegistryEntry> = Vec::new();
    let mut i: usize = 0;
    while i < entries.len()
        invariant
            i <= entries.len(),
            es == entry_views(entries@),
            entry_views(out@) == merge_by(es.subrange(0, i as int), by_file),
        decreases entries.len() - i,
    {
        let ghost sub = es.subrange(0, i + 1);
        assert(sub.drop_last() =~= es.subrange(0, i as int));
        let e = &entries[i];
        assert(sub.last() == e@);
        let key = if by_file { e.file.clone() } else { e.alias.clone() };
        assert(key@ == entry_key(e@, by_file));
        let ghost prev = entry_views(out@);
        match find_key(&out, key.as_str(), by_file) {
            Some(k) => {
                let mut target = out[k].clone_entry();
                assert(target@ == prev[k as int]);
                merge_registry_entry(&mut target, e);
                out.set(k, target);
                assert(entry_views(out@) =~= prev.update(k as int, merged(prev[k as int], e@)));
            },
            None => {
                out.push(e.clone_entry());
                assert(entry_views(out@) =~= prev.push(e@));
            },
        }
        i = i + 1;
    }
    assert(es.subrange(0, entries.len() as int) =~= es);
    out
}

proof fn lemma_insert_sorted_alias(r: Seq<EntryView>, p: int, x: EntryView)
    requires
        sorted_by_alias(r),
        0 <= p <= r.len(),
        forall|i: int| 0 <= i < p ==> lex_lt(r[i].alias, x.alias),
        p < r.len() ==> lex_lt(x.alias, r[p].alias),
    ensures
        sorted_by_alias(r.insert(p, x)),
{
    let t = r.insert(p, x);
    assert forall|i: int, j: int| 0 <= i < j < t.len() implies lex_lt(t[i].alias, t[j].alias) by {
        if j < p {
        } else if j == p {
        } else if i < p {
            if j - 1 > p {
                lemma_lex_transitive(x.alias, r[p].alias, r[j - 1].alias);
            }
            lemma_lex_transitive(r[i].alias, x.alias, r[j - 1].alias);
        } else if i == p {
            if j - 1 > p {
                lemma_lex_transitive(x.alias, r[p].alias, r[j - 1].alias);
            }
        } else {
        }
    }
}

/// The entries sorted by alias; their aliases are distinct.
fn sort_by_alias(g: Vec<RegistryEntry>) -> (r: Vec<RegistryEntry>)
    requires
        unique_keys(entry_views(g@), false),
    ensures
        sorted_by_alias(entry_views(r@)),
        r@.len() == g@.len(),
        forall|x: EntryView| entry_views(r@).contains(x) <==> entry_views(g@).contains(x),
{
    let ghost gv = entry_views(g@);
    let mut r: Vec<RegistryEntry> = Vec::new();
    let mut i: usize = 0;
    while i < g.len()
        invariant
            i <= g.len(),
            gv == entry_views(g@),
            unique_keys(gv, false),
            sorted_by_alias(entry_views(r@)),
            r@.len() == i,
            forall|x: EntryView| entry_views(r@).contains(x) <==> gv.subrange(0, i as int).contains(x),
        decreases g.len() - i,
    {
        let x = g[i].clone_entry();
        let ghost rv = entry_views(r@);
        assert(gv[i as int] == x@);
        // x's alias differs from every alias already placed.
        assert forall|k: int| 0 <= k < rv.len() implies rv[k].alias != x@.alias by {
            assert(rv.contains(rv[k]));
            assert(gv.subrange(0, i as int).contains(rv[k]));
            let m = choose|m: int| 0 <= m < i && gv.subrange(0, i as int)[m] == rv[k];
            assert(gv[m] == rv[k]);
        }
        let mut p: usize = 0;
        while p < r.len() && lex_less_str(r[p].alias.as_str(), x.alias.as_str())
            invariant
                p <= r@.len(),
                rv == entry_views(r@),
                forall|k: int| 0 <= k < p ==> lex_lt(#[trigger] rv[k].alias, x@.alias),
            decreases r.len() - p,
        {
            p = p + 1;
        }
        proof {
            if p < rv.len() {
                lemma_lex_total(x@.alias, rv[p as int].alias);
            }
            lemma_insert_sorted_alias(rv, p as int, x@);
        }
        r.insert(p, x);
        assert(entry_views(r@) =~= rv.insert(p as int, gv[i as int]));
        proof {
            let nv = entry_views(r@);
            let gi = gv.subrange(0, i + 1);
            let gp = gv.subrange(0, i as int);
            assert(gi =~= gp.push(gv[i as int]));
            assert forall|y: EntryView| nv.contains(y) <==> gi.contains(y) by {
                if nv.contains(y) {
                    let m = choose|m: int| 0 <= m < nv.len() && nv[m] == y;
                    if m < p {
                        assert(rv.contains(rv[m]));
                    } else if m > p {
                        assert(rv.contains(rv[m - 1]));
                    }
                    if y == gv[i as int] {
                        assert(gi[i as int] == y);
                    } else {
                        assert(gp.contains(y));
                        let q = choose|q: int| 0 <= q < gp.len() && gp[q] == y;
                        assert(gi[q] == y);
                    }
                }
                if gi.contains(y) {
                    let m = choose|m: int| 0 <= m < gi.len() && gi[m] == y;
                    if m < i {
                        assert(gp[m] == y);
                        assert(rv.contains(y));
                        let q = choose|q: int| 0 <= q < rv.len() && rv[q] == y;
                        if q < p {
                            assert(nv[q] == y);
                        } else {
                            assert(nv[q + 1] == y);
                        }
                    } else {
                        assert(nv[p as int] == y);
                    }
                }
            }
        }
        i = i + 1;
    }
    assert(gv.subrange(0, g.len() as int) =~= gv);
    r
}

fn lex_less_str(a: &str, b: &str) -> (r: bool)
    ensures
        r == lex_lt(a@, b@),
{
    let x = chars_of(a);
    let y = chars_of(b);
    lex_less(&x, &y)
}

/// One entry per file, then one per alias (later duplicates fill what the
/// kept entry leaves unset), sorted by alias.
pub fn dedupe_registry_entries(entries: &mut Vec<RegistryEntry>)
    ensures
        is_deduped(entry_views(old(entries)@), entry_views(final(entries)@)),
{
    let by_file = merge_entries_by(entries, true);
    let by_alias = merge_entries_by(&by_file, false);
    proof { lemma_merge_by_unique(entry_views(by_file@), false); }
    *entries = sort_by_alias(by_alias);
}

// ── Registry ────────────────────────────────────────────────────────────────

/// The `[defaults]` section.
#[derive(Clone, Debug)]
pub struct RegistryDefaults {
    /// Directory, or comma-separated directories, scanned for GGUF files.
    pub models_dir: String,
    pub llama_server: String,
    pub host: String,
    pub base_port: u16,
    pub context_size: u32,
    pub ngl: u32,
    pub backend: String,
}

impl RegistryDefaults {
    pub fn clone_defaults(&self) -> (r: RegistryDefaults)
        ensures
            r.models_dir@ == self.models_dir@,
            r.llama_server@ == self.llama_server@,
            r.host@ == self.host@,
            r.base_port == self.base_port,
            r.context_size == self.context_size,
            r.ngl == self.ngl,
            r.backend@ == self.backend@,
    {
        RegistryDefaults {
            models_dir: self.models_dir.clone(),
            llama_server: self.llama_server.clone(),
            host: self.host.clone(),
            base_port: self.base_port,
            context_size: self.context_size,
            ngl: self.ngl,
            backend: self.backend.clone(),
        }
    }

    pub fn default() -> (r: RegistryDefaults)
        ensures
            r.models_dir@ == "/models"@,
            r.llama_server@ == "/usr/local/bin/llama-server"@,
            r.host@ == "127.0.0.1"@,
            r.base_port == 8081,
            r.context_size == 16384,
            r.ngl == 999,
            r.backend@ == "llama.cpp"@,
    {
        RegistryDefaults {
            models_dir: string_from_str("/models"),
            llama_server: string_from_str("/usr/local/bin/llama-server"),
            host: string_from_str("127.0.0.1"),
            base_port: 8081,
            context_size: 16384,
            ngl: 999,
            backend: string_from_str("llama.cpp"),
        }
    }
}

/// Simplified model registry: short aliases instead of full GGUF paths.
#[derive(Clone, Debug)]
pub struct ModelsRegistry {
    pub version: u32,
    pub defaults: RegistryDefaults,
    /// When true, every loadable `.gguf` under `models_dir` is registered.
    pub auto_discover: bool,
    pub models: Vec<RegistryEntry>,
}

/// Portable JSON export of the registry.
#[derive(Clone, Debug)]
pub struct ModelsJsonExport {
    pub version: u32,
    pub models_dir: String,
    pub models: Vec<ModelsJsonEntry>,
}

#[derive(Clone, Debug)]
pub struct ModelsJsonEntry {
    pub id: String,
    pub file: String,
    pub display_name: String,
    pub kind: String,
    pub enabled: bool,
    pub priority: bool,
    pub context_size: Option<u32>,
    pub description: Option<String>,
    pub max_context_length: Option<u32>,
    pub min_vram_gb: Option<u32>,
    pub capabilities: Vec<String>,
    pub hf_repo: Option<String>,
    pub tags: Vec<String>,
}

pub ghost struct JsonEntryView {
    pub id: Seq<char>,
    pub file: Seq<char>,
    pub display_name: Seq<char>,
    pub kind: Seq<char>,
    pub enabled: bool,
    pub priority: bool,
    pub context_size: Option<u32>,
    pub description: Option<Seq<char>>,
    pub max_context_length: Option<u32>,
    pub min_vram_gb: Option<u32>,
    pub capabilities: Seq<Seq<char>>,
    pub hf_repo: Option<Seq<char>>,
    pub tags: Seq<Seq<char>>,
}

impl View for ModelsJsonEntry {
    type V = JsonEntryView;

    open spec fn view(&self) -> JsonEntryView {
        JsonEntryView {
            id: self.id@,
            file: self.file@,
            display_name: self.display_name@,
            kind: self.kind@,
            enabled: self.enabled,
            priority: self.priority,
            context_size: self.context_size,
            description: opt_str(self.description),
            max_context_length: self.max_context_length,
            min_vram_gb: self.min_vram_gb,
            capabilities: strings_view(self.capabilities@),
            hf_repo: opt_str(self.hf_repo),
            tags: strings_view(self.tags@),
        }
    }
}

pub open spec fn json_views(v: Seq<ModelsJsonEntry>) -> Seq<JsonEntryView> {
    v.map_values(|e: ModelsJsonEntry| e@)
}

/// How an entry is exported.
pub open spec fn json_entry_of(e: EntryView) -> JsonEntryView {
    JsonEntryView {
        id: e.alias,
        file: e.file,
        display_name: match e.display_name { Some(d) => d, None => display_name_of(e.alias) },
        kind: effective_kind_of(e),
        enabled: e.enabled,
        priority: e.priority,
        context_size: e.context_size,
        description: e.description,
        max_context_length: e.max_context_length,
        min_vram_gb: e.min_vram_gb,
        capabilities: e.capabilities,
        hf_repo: e.hf_repo,
        tags: tags_of(e),
    }
}

/// How an exported entry is read back: display name and kind become
/// explicit, port, GPU layers and extra arguments are unset.
pub open spec fn entry_of_json(j: JsonEntryView) -> EntryView {
    EntryView {
        alias: j.id,
        file: j.file,
        display_name: Some(j.display_name),
        kind: Some(j.kind),
        enabled: j.enabled,
        priority: j.priority,
        port: None,
        context_size: j.context_size,
        ngl: None,
        extra_args: seq![],
        description: j.description,
        max_context_length: j.max_context_length,
        min_vram_gb: j.min_vram_gb,
        capabilities: j.capabilities,
        hf_repo: j.hf_repo,
    }
}

/// Exporting an entry and reading it back keeps everything the export
/// carries: alias, file, flags, context size, description, limits,
/// capabilities and repository; the display name and kind come back made
/// explicit, and port, GPU layers and extra arguments (which the export
/// does not carry) come back unset.
pub proof fn lemma_json_entry_round_trip(e: EntryView)
    ensures
        entry_of_json(json_entry_of(e)) == (EntryView {
            display_name: Some(match e.display_name { Some(d) => d, None => display_name_of(e.alias) }),
            kind: Some(effective_kind_of(e)),
            port: None,
            ngl: None,
            extra_args: seq![],
            ..e
        }),
        e.display_name is Some && e.kind == Some(effective_kind_of(e)) && e.port is None && e.ngl is None
            && e.extra_args.len() == 0 ==> entry_of_json(json_entry_of(e)) == e,
{
    if e.display_name is Some && e.kind == Some(effective_kind_of(e)) && e.port is None && e.ngl is None
        && e.extra_args.len() == 0 {
        assert(e.extra_args =~= Seq::<Seq<char>>::empty());
    }
}

impl ModelsRegistry {
    /// The portable JSON form of the registry.
    pub fn to_json_export(&self) -> (r: ModelsJsonExport)
        ensures
            r.version == self.version,
            r.models_dir@ == self.defaults.models_dir@,
            json_views(r.models@) == entry_views(self.models@).map_values(|e: EntryView| json_entry_of(e)),
    {
        let ghost es = entry_views(self.models@);
        let mut models: Vec<ModelsJsonEntry> = Vec::new();
        let mut i: usize = 0;
        while i < self.models.len()
            invariant
                i <= self.models.len(),
                es == entry_views(self.models@),
                json_views(models@) == es.subrange(0, i as int).map_values(|e: EntryView| json_entry_of(e)),
            decreases self.models.len() - i,
        {
            let e = &self.models[i];
            assert(es[i as int] == e@);
            let display_name = match &e.display_name {
                Some(d) => d.clone(),
                None => display_name_from_alias(e.alias.as_str()),
            };
            let j = ModelsJsonEntry {
                id: e.alias.clone(),
                file: e.file.clone(),
                display_name,
                kind: e.effective_kind(),
                enabled: e.enabled,
                priority: e.priority,
                context_size: e.context_size,
                description: clone_opt_str(&e.description),
                max_context_length: e.max_context_length,
                min_vram_gb: e.min_vram_gb,
                capabilities: clone_strings(&e.capabilities),
                hf_repo: clone_opt_str(&e.hf_repo),
                tags: tags_for_entry(e),
            };
            assert(j@ == json_entry_of(e@));
            let ghost before = json_views(models@);
            models.push(j);
            assert(json_views(models@) =~= before.push(json_entry_of(e@)));
            i = i + 1;
            assert(es.subrange(0, i as int) =~= es.subrange(0, i - 1).push(es[i - 1]));
            assert(json_views(models@) =~= es.subrange(0, i as int).map_values(|e: EntryView| json_entry_of(e)));
        }
        assert(es.subrange(0, self.models.len() as int) =~= es);
        ModelsJsonExport { version: self.version, models_dir: self.defaults.models_dir.clone(), models }
    }

    /// Read a registry back from its JSON export; auto-discovery is off and
    /// the entries are deduplicated with a single priority model.
    pub fn from_json_export(export: ModelsJsonExport) -> (r: Result<ModelsRegistry, RuntimeError>)
        ensures
            r matches Ok(reg) && {
                &&& reg.version == export.version
                &&& reg.defaults.models_dir@ == export.models_dir@
                &&& reg.defaults.llama_server@ == "/usr/local/bin/llama-server"@
                &&& reg.defaults.host@ == "127.0.0.1"@
                &&& reg.defaults.base_port == 8081
                &&& reg.defaults.context_size == 16384
                &&& reg.defaults.ngl == 999
                &&& reg.defaults.backend@ == "llama.cpp"@
                &&& !reg.auto_discover
                &&& exists|d: Seq<EntryView>| #![trigger first_priority_only(d)]
                    is_deduped(json_views(export.models@).map_values(|j: JsonEntryView| entry_of_json(j)), d)
                    && entry_views(reg.models@) == first_priority_only(d)
                &&& sorted_by_alias(entry_views(reg.models@))
                &&& forall|i: int, j: int| 0 <= i < j < reg.models@.len()
                    ==> reg.models@[i].file@ != reg.models@[j].file@ && !(reg.models@[i].priority && reg.models@[j].priority)
            },
    {
        let ghost js = json_views(export.models@);
        let mut models: Vec<RegistryEntry> = Vec::new();
        let mut i: usize = 0;
        while i < export.models.len()
            invariant
                i <= export.models.len(),
                js == json_views(export.models@),
                entry_views(models@) == js.subrange(0, i as int).map_values(|j: JsonEntryView| entry_of_json(j)),
            decreases export.models.len() - i,
        {
            let j = &export.models[i];
            assert(js[i as int] == j@);
            let e = RegistryEntry {
                alias: j.id.clone(),
                file: j.file.clone(),
                display_name: Some(j.display_name.clone()),
                kind: Some(j.kind.clone()),
                enabled: j.enabled,
                priority: j.priority,
                port: None,
                context_size: j.context_size,
                ngl: None,
                extra_args: Vec::new(),
                description: clone_opt_str(&j.description),
                max_context_length: j.max_context_length,
                min_vram_gb: j.min_vram_gb,
                capabilities: clone_strings(&j.capabilities),
                hf_repo: clone_opt_str(&j.hf_repo),
            };
            assert(strings_view(e.extra_args@) =~= Seq::<Seq<char>>::empty());
            assert(e@ == entry_of_json(j@));
            let ghost before = entry_views(models@);
            models.push(e);
            assert(entry_views(models@) =~= before.push(entry_of_json(j@)));
            i = i + 1;
            assert(js.subrange(0, i as int) =~= js.subrange(0, i - 1).push(js[i - 1]));
            assert(entry_views(models@) =~= js.subrange(0, i as int).map_values(|j: JsonEntryView| entry_of_json(j)));
        }
        assert(js.subrange(0, export.models.len() as int) =~= js);
        let ghost mapped = entry_views(models@);
        dedupe_registry_entries(&mut models);
        let ghost d = entry_views(models@);
        normalize_priority_entries(&mut models);
        let defaults = RegistryDefaults::default();
        let defaults = RegistryDefaults { models_dir: export.models_dir, ..defaults };
        let reg = ModelsRegistry { version: export.version, defaults, auto_discover: false, models };
        assert(is_deduped(mapped, d) && entry_views(reg.models@) == first_priority_only(d));
        proof {
            lemma_deduped_distinct(mapped, d);
            let rv = entry_views(reg.models@);
            assert forall|i: int, j: int| 0 <= i < j < rv.len() implies lex_lt(rv[i].alias, rv[j].alias) by {
                assert(rv[i].alias == d[i].alias && rv[j].alias == d[j].alias);
            }
            assert forall|i: int, j: int| 0 <= i < j < reg.models@.len() implies
                reg.models@[i].file@ != reg.models@[j].file@ && !(reg.models@[i].priority && reg.models@[j].priority) by {
                assert(rv[i] == reg.models@[i]@ && rv[j] == reg.models@[j]@);
                assert(rv[i].file == d[i].file && rv[j].file == d[j].file);
                if rv[i].priority && rv[j].priority {
                    assert(none_before(d, j));
                    assert(d[i].priority);
                }
            }
        }
        Ok(reg)
    }
}

/// `toml_path` with its last `.toml` replaced by `.json`, or `.json`
/// appended when it has none.
pub open spec fn json_sibling_of(toml_path: Seq<char>) -> Seq<char> {
    match last_occurrence(toml_path, ".toml"@) {
        Some(i) => toml_path.subrange(0, i) + "json"@ + toml_path.subrange(i + 5, toml_path.len() as int),
        None => toml_path + ".json"@,
    }
}

/// The JSON file written next to a TOML registry.
pub fn json_sibling_path(toml_path: &str) -> (r: String)
    ensures
        r@ == json_sibling_of(toml_path@),
{
    let v = chars_of(toml_path);
    let pat = chars_of(".toml");
    proof {
        reveal_strlit(".toml");
        lemma_last_occurrence(v@, pat@);
    }
    match rfind(&v, &pat) {
        Some(i) => {
            assert(pat@.len() == 5);
            assert(occurs_at(v@, pat@, i as int));
            let n = v.len();
            assert(i + 5 <= n);
            let head = string_from(slice_subrange(v.as_slice(), 0, i));
            let tail = string_from(slice_subrange(v.as_slice(), i + 5, n));
            let with_ext = concat_str(head.as_str(), "json");
            concat_str(with_ext.as_str(), tail.as_str())
        },
        None => concat_str(toml_path, ".json"),
    }
}

/// `configured` split at commas, each piece trimmed, empty pieces dropped.
pub open spec fn models_dirs_of(configured: Seq<char>) -> Seq<Seq<char>> {
    non_empty(split_on(configured, seq![',']).map_values(|p: Seq<char>| trim(p)))
}

/// Split `models_dir` on commas (e.g. `"/models,/data/gguf"`).
pub fn parse_models_dirs(configured: &str) -> (r: Vec<String>)
    ensures
        strings_view(r@) == models_dirs_of(configured@),
{
    let v = chars_of(configured);
    let seps: Vec<char> = vec![','];
    assert(seps@ =~= seq![',']);
    let parts = split_chars(&v, &seps);
    let ghost all = vec_views(parts@).map_values(|p: Seq<char>| trim(p));
    let mut out: Vec<String> = Vec::new();
    let mut i: usize = 0;
    while i < parts.len()
        invariant
            i <= parts.len(),
            all == vec_views(parts@).map_values(|p: Seq<char>| trim(p)),
            strings_view(out@) == non_empty(all.subrange(0, i as int)),
        decreases parts.len() - i,
    {
        let ghost sub = all.subrange(0, i + 1);
        assert(sub.drop_last() =~= all.subrange(0, i as int));
        let p = &parts[i];
        let (a, b) = trim_range(p.as_slice());
        assert(sub.last() == trim(p@));
        if b > a {
            let piece = string_from(slice_subrange(p.as_slice(), a, b));
            let ghost before = out@;
            out.push(piece);
            assert(strings_view(out@) =~= strings_view(before).push(trim(p@)));
        }
        i = i + 1;
    }
    assert(all.subrange(0, parts.len() as int) =~= all);
    out
}

/// Join model directories into the comma-separated `models_dir` form.
pub fn format_models_dirs(dirs: &[String]) -> (r: String)
    ensures
        r@ == join(strings_view(dirs@), ","@),
{
    join_strings(dirs, ",")
}

/// Formatting directories and parsing the result gives the directories
/// back, when each is non-empty, has no surrounding whitespace and holds no
/// comma.
pub proof fn lemma_models_dirs_round_trip(dirs: Seq<Seq<char>>)
    requires
        forall|k: int| 0 <= k < dirs.len() ==> #[trigger] dirs[k].len() > 0 && trim(dirs[k]) == dirs[k],
        forall|k: int, i: int| 0 <= k < dirs.len() && 0 <= i < dirs[k].len() ==> #[trigger] dirs[k][i] != ',',
    ensures
        models_dirs_of(join(dirs, ","@)) == dirs,
{
    reveal_strlit(",");
    assert(","@ =~= seq![',']);
    if dirs.len() == 0 {
        let e = Seq::<char>::empty();
        assert(join(dirs, ","@) == e);
        assert(split_on(e, seq![',']) == seq![e]);
        assert(trim(e) == e);
        assert(seq![e].map_values(|p: Seq<char>| trim(p)) =~= seq![e]);
        assert(seq![e].drop_last() =~= Seq::<Seq<char>>::empty());
        assert(seq![e].last().len() == 0);
        assert(non_empty(seq![e]) == non_empty(Seq::<Seq<char>>::empty()));
        assert(non_empty(seq![e]) =~= dirs);
    } else {
        lemma_split_join(dirs, ',');
        assert(dirs.map_values(|p: Seq<char>| trim(p)) =~= dirs);
        lemma_non_empty_keeps(dirs);
    }
}

/// Entry `i` repeats the alias of an earlier entry.
pub open spec fn dup_at(es: Seq<EntryView>, i: int) -> bool {
    0 <= i < es.len() && exists|j: int| 0 <= j < i && es[i].alias == #[trigger] es[j].alias
}

/// The index of the first entry whose alias an earlier entry already uses.
pub open spec fn first_duplicate_alias(es: Seq<EntryView>) -> Option<int> {
    if exists|i: int| dup_at(es, i) {
        Some(choose|i: int| dup_at(es, i) && forall|k: int| 0 <= k < i ==> !#[trigger] dup_at(es, k))
    } else {
        None
    }
}

/// Index of an earlier entry with the alias of entry `i`.
fn earlier_with_alias(entries: &[RegistryEntry], i: usize) -> (r: Option<usize>)
    requires
        i < entries@.len(),
    ensures
        r is Some <==> dup_at(entry_views(entries@), i as int),
{
    let ghost es = entry_views(entries@);
    let mut j: usize = 0;
    while j < i
        invariant
            j <= i < entries@.len(),
            es == entry_views(entries@),
            forall|m: int| 0 <= m < j ==> es[i as int].alias != #[trigger] es[m].alias,
        decreases i - j,
    {
        if str_eq(entries[i].alias.as_str(), entries[j].alias.as_str()) {
            assert(es[i as int] == entries@[i as int]@ && es[j as int] == entries@[j as int]@);
            assert(es[i as int].alias == es[j as int].alias);
            return Some(j);
        }
        j = j + 1;
    }
    None
}

/// Reject a registry in which two entries share an alias.
pub fn validate_unique_aliases(entries: &[RegistryEntry]) -> (r: Result<(), RuntimeError>)
    ensures
        match first_duplicate_alias(entry_views(entries@)) {
            None => r is Ok,
            Some(i) => r matches Err(RuntimeError::ConfigError(m))
                && m@ == "Duplicate model alias: '"@ + entries@[i]@.alias + "'"@,
        },
{
    let ghost es = entry_views(entries@);
    let mut i: usize = 0;
    while i < entries.len()
        invariant
            i <= entries.len(),
            es == entry_views(entries@),
            forall|k: int| 0 <= k < i ==> !#[trigger] dup_at(es, k),
        decreases entries.len() - i,
    {
        if earlier_with_alias(entries, i).is_some() {
            proof {
                let w = choose|w: int| dup_at(es, w) && forall|k: int| 0 <= k < w ==> !#[trigger] dup_at(es, k);
                assert(w == i) by {
                    if w < i {
                    } else if w > i {
                    }
                }
            }
            let head = concat_str("Duplicate model alias: '", entries[i].alias.as_str());
            let msg = concat_str(head.as_str(), "'");
            return Err(RuntimeError::ConfigError(msg));
        }
        i = i + 1;
    }
    assert forall|k: int| !dup_at(es, k) by {
        if 0 <= k < es.len() {
            assert(k < i);
        }
    }
    Ok(())
}

// ── Aliases ─────────────────────────────────────────────────────────────────

/// Name suffixes that say nothing about which model a file holds.
pub open spec fn static_suffixes() -> Seq<Seq<char>> {
    seq!["-instruct"@, "-it"@, "-gguf"@, "-bf16"@, "-fp16"@, "-fp32"@]
}

pub open spec fn strip_one(s: Seq<char>, suffix: Seq<char>) -> Seq<char> {
    if has_suffix(s, suffix) { s.subrange(0, s.len() - suffix.len()) } else { s }
}

/// Each suffix of the list stripped in turn, where present.
pub open spec fn strip_listed(s: Seq<char>, sufs: Seq<Seq<char>>) -> Seq<char>
    decreases sufs.len(),
{
    if sufs.len() == 0 { s } else { strip_listed(strip_one(s, sufs[0]), sufs.drop_first()) }
}

pub open spec fn is_quant_lead(c: char) -> bool {
    c == 'q' || c == 'Q' || c == 'i' || c == 'I' || c == 'f' || c == 'F'
}

pub open spec fn alnum_or_underscore(s: Seq<char>) -> bool {
    forall|j: int| 0 <= j < s.len() ==> is_alnum(#[trigger] s[j]) || s[j] == '_'
}

/// The name without a trailing `-q4_k_m`-like quantization label: the part
/// after the last `-` starts with `q`, `i` or `f` and a digit, and holds only
/// letters, digits and underscores.
pub open spec fn without_quant_label(name: Seq<char>) -> Option<Seq<char>> {
    match last_index_of(name, '-') {
        None => None,
        Some(k) => {
            let prefix = name.subrange(0, k);
            let suffix = name.subrange(k + 1, name.len() as int);
            if suffix.len() >= 2 && is_quant_lead(suffix[0]) && is_digit(suffix[1])
                && alnum_or_underscore(suffix.drop_first()) && prefix.len() > 0 {
                Some(prefix)
            } else {
                None
            }
        },
    }
}

pub open spec fn strip_round(s: Seq<char>) -> Seq<char> {
    let t = strip_listed(s, static_suffixes());
    match without_quant_label(t) {
        Some(p) => p,
        None => t,
    }
}

/// Suffixes and quantization labels stripped until none is left.
pub open spec fn stripped_name(s: Seq<char>) -> Seq<char>
    decreases s.len(),
{
    let r = strip_round(s);
    if r.len() < s.len() { stripped_name(r) } else { s }
}

proof fn lemma_strip_listed_prefix(s: Seq<char>, sufs: Seq<Seq<char>>)
    ensures
        strip_listed(s, sufs).len() <= s.len(),
        strip_listed(s, sufs) == s.subrange(0, strip_listed(s, sufs).len() as int),
    decreases sufs.len(),
{
    if sufs.len() > 0 {
        let t = strip_one(s, sufs[0]);
        lemma_strip_listed_prefix(t, sufs.drop_first());
        let r = strip_listed(t, sufs.drop_first());
        assert(t == s.subrange(0, t.len() as int));
        assert(r =~= s.subrange(0, r.len() as int));
    } else {
        assert(s =~= s.subrange(0, s.len() as int));
    }
}

proof fn lemma_strip_round_prefix(s: Seq<char>)
    ensures
        strip_round(s).len() <= s.len(),
        strip_round(s) == s.subrange(0, strip_round(s).len() as int),
{
    lemma_strip_listed_prefix(s, static_suffixes());
    let t = strip_listed(s, static_suffixes());
    lemma_last_index_of(t, '-');
    match without_quant_label(t) {
        Some(p) => {
            assert(p =~= s.subrange(0, p.len() as int));
        },
        None => {},
    }
}

fn strip_one_exec(s: &Vec<char>, suffix: &str) -> (r: Vec<char>)
    ensures
        r@ == strip_one(s@, suffix@),
{
    let suf = chars_of(suffix);
    if ends_with(s.as_slice(), suf.as_slice()) {
        let n = s.len() - suf.len();
        let mut r: Vec<char> = Vec::new();
        let mut i: usize = 0;
        while i < n
            invariant
                i <= n <= s@.len(),
                r@ == s@.subrange(0, i as int),
            decreases n - i,
        {
            r.push(s[i]);
            i = i + 1;
            assert(r@ =~= s@.subrange(0, i as int));
        }
        r
    } else {
        s.clone()
    }
}

fn strip_static_suffixes(s: &Vec<char>) -> (r: Vec<char>)
    ensures
        r@ == strip_listed(s@, static_suffixes()),
{
    let a = strip_one_exec(s, "-instruct");
    let b = strip_one_exec(&a, "-it");
    let c = strip_one_exec(&b, "-gguf");
    let d = strip_one_exec(&c, "-bf16");
    let e = strip_one_exec(&d, "-fp16");
    let f = strip_one_exec(&e, "-fp32");
    proof {
        reveal_with_fuel(strip_listed, 7);
        let sufs = static_suffixes();
        assert(sufs.drop_first() =~= seq!["-it"@, "-gguf"@, "-bf16"@, "-fp16"@, "-fp32"@]);
        assert(sufs.drop_first().drop_first() =~= seq!["-gguf"@, "-bf16"@, "-fp16"@, "-fp32"@]);
        assert(sufs.drop_first().drop_first().drop_first() =~= seq!["-bf16"@, "-fp16"@, "-fp32"@]);
        assert(sufs.drop_first().drop_first().drop_first().drop_first() =~= seq!["-fp16"@, "-fp32"@]);
        assert(sufs.drop_first().drop_first().drop_first().drop_first().drop_first() =~= seq!["-fp32"@]);
        assert(sufs.drop_first().drop_first().drop_first().drop_first().drop_first().drop_first() =~= Seq::<Seq<char>>::empty());
    }
    f
}

/// `strip_dynamic_quant_suffix`: the name before a trailing quantization label.
fn strip_dynamic_quant_suffix(name: &Vec<char>) -> (r: Option<Vec<char>>)
    ensures
        match r {
            Some(p) => without_quant_label(name@) == Some(p@),
            None => without_quant_label(name@) is None,
        },
{
    proof { lemma_last_index_of(name@, '-'); }
    let k = match rfind_char(name.as_slice(), '-') {
        Some(k) => k,
        None => return None,
    };
    let n = name.len();
    let ghost suffix = name@.subrange(k + 1, n as int);
    if n - (k + 1) < 2 {
        return None;
    }
    let first = name[k + 1];
    let second = name[k + 2];
    assert(suffix[0] == first && suffix[1] == second);
    if !(first == 'q' || first == 'Q' || first == 'i' || first == 'I' || first == 'f' || first == 'F') {
        return None;
    }
    if !('0' <= second && second <= '9') {
        return None;
    }
    let mut j: usize = k + 2;
    while j < n
        invariant
            k + 2 <= j <= n == name@.len(),
            suffix == name@.subrange(k + 1, n as int),
            last_index_of(name@, '-') == Some(k as int),
            suffix.len() >= 2 && is_quant_lead(suffix[0]) && is_digit(suffix[1]),
            forall|m: int| k + 2 <= m < j ==> is_alnum(#[trigger] name@[m]) || name@[m] == '_',
        decreases n - j,
    {
        let c = name[j];
        if !(('a' <= c && c <= 'z') || ('A' <= c && c <= 'Z') || ('0' <= c && c <= '9') || c == '_') {
            assert(suffix.drop_first()[j - k - 2] == c);
            assert(!(is_alnum(suffix.drop_first()[j - k - 2]) || suffix.drop_first()[j - k - 2] == '_'));
            return None;
        }
        j = j + 1;
    }
    assert(alnum_or_underscore(suffix.drop_first())) by {
        assert forall|m: int| 0 <= m < suffix.drop_first().len() implies is_alnum(#[trigger] suffix.drop_first()[m]) || suffix.drop_first()[m] == '_' by {
            assert(suffix.drop_first()[m] == name@[k + 2 + m]);
        }
    }
    if k == 0 {
        return None;
    }
    let mut p: Vec<char> = Vec::new();
    let mut i: usize = 0;
    while i < k
        invariant
            i <= k < name@.len(),
            p@ == name@.subrange(0, i as int),
        decreases k - i,
    {
        p.push(name[i]);
        i = i + 1;
        assert(p@ =~= name@.subrange(0, i as int));
    }
    Some(p)
}

fn strip_round_exec(s: &Vec<char>) -> (r: Vec<char>)
    ensures
        r@ == strip_round(s@),
{
    let t = strip_static_suffixes(s);
    match strip_dynamic_quant_suffix(&t) {
        Some(p) => p,
        None => t,
    }
}

/// Strip instruct/format suffixes and quantization labels until none is left.
fn strip_quant_suffix(name: &Vec<char>) -> (r: Vec<char>)
    ensures
        r@ == stripped_name(name@),
{
    let mut cur = name.clone();
    assert(cur@ == name@);
    loop
        invariant
            stripped_name(cur@) == stripped_name(name@),
        decreases cur@.len(),
    {
        let r = strip_round_exec(&cur);
        proof { lemma_strip_round_prefix(cur@); }
        if r.len() == cur.len() {
            assert(r@ =~= cur@);
            return cur;
        }
        cur = r;
    }
}

/// The characters an alias may hold: ASCII letters and digits, `-` and
/// `.`; spaces and underscores become `-`; anything else is dropped.
pub open spec fn alias_chars(s: Seq<char>) -> Seq<char>
    decreases s.len(),
{
    if s.len() == 0 {
        seq![]
    } else {
        let c = s.last();
        let prev = alias_chars(s.drop_last());
        if is_alnum(c) || c == '-' || c == '.' {
            prev.push(c)
        } else if c == ' ' || c == '_' {
            prev.push('-')
        } else {
            prev
        }
    }
}

pub open spec fn sanitized_alias(s: Seq<char>) -> Seq<char> {
    let t = trim_char(alias_chars(s), '-');
    if t.len() == 0 { "model"@ } else { t }
}

fn sanitize_alias(alias: &Vec<char>) -> (r: String)
    ensures
        r@ == sanitized_alias(alias@),
{
    let mut out: Vec<char> = Vec::new();
    let mut i: usize = 0;
    while i < alias.len()
        invariant
            i <= alias.len(),
            out@ == alias_chars(alias@.subrange(0, i as int)),
        decreases alias.len() - i,
    {
        let ghost sub = alias@.subrange(0, i + 1);
        assert(sub.drop_last() =~= alias@.subrange(0, i as int));
        let c = alias[i];
        if ('a' <= c && c <= 'z') || ('A' <= c && c <= 'Z') || ('0' <= c && c <= '9') || c == '-' || c == '.' {
            out.push(c);
        } else if c == ' ' || c == '_' {
            out.push('-');
        }
        i = i + 1;
    }
    assert(alias@.subrange(0, alias.len() as int) =~= alias@);
    let (a, b) = trim_char_range(out.as_slice(), '-');
    if a == b {
        string_from_str("model")
    } else {
        string_from(slice_subrange(out.as_slice(), a, b))
    }
}

/// The alias generated for a GGUF file: its file stem, lower-cased, without
/// suffixes and quantization labels, `_` as `-`, sanitized.
pub open spec fn alias_of_path(path: Seq<char>) -> Seq<char> {
    let stem = match file_stem_of(path) { Some(s) => s, None => seq![] };
    sanitized_alias(replace_char(stripped_name(lower(stem)), '_', '-'))
}

/// Generate a short API alias from a GGUF filename or path.
pub fn alias_from_filename(path: &str) -> (r: String)
    ensures
        r@ == alias_of_path(path@),
{
    let stem = match file_stem(path) {
        Some(s) => chars_of(s.as_str()),
        None => Vec::new(),
    };
    let lowered = lower_chars(stem.as_slice());
    let stripped = strip_quant_suffix(&lowered);
    let replaced = replace_chars(stripped.as_slice(), '_', '-');
    sanitize_alias(&replaced)
}

/// Whether a GGUF file name looks like model weights, not a sidecar such
/// as a projector, adapter, LoRA or vocabulary.
pub open spec fn discoverable_name(path: Seq<char>) -> bool {
    match file_name_of(path) {
        None => false,
        Some(n) => {
            let l = lower(n);
            !(has_prefix(l, "mmproj"@) || has_prefix(l, "mtp-"@) || has_prefix(l, "ggml-vocab"@)
                || contains(l, "-mmproj"@) || contains(l, "-lora"@) || contains(l, "-projector"@)
                || contains(l, "projector"@) || contains(l, "-adapter"@) || contains(l, "adapter"@)
                || contains(l, "tokenizer"@) || has_suffix(l, "-vocab.gguf"@))
        },
    }
}

pub fn is_discoverable_gguf_name(path: &str) -> (r: bool)
    ensures
        r == discoverable_name(path@),
{
    let name = match file_name(path) {
        Some(n) => n,
        None => return false,
    };
    let l = to_lower(name.as_str());
    let l = l.as_str();
    !(str_starts_with(l, "mmproj") || str_starts_with(l, "mtp-") || str_starts_with(l, "ggml-vocab")
        || str_contains(l, "-mmproj") || str_contains(l, "-lora") || str_contains(l, "-projector")
        || str_contains(l, "projector") || str_contains(l, "-adapter") || str_contains(l, "adapter")
        || str_contains(l, "tokenizer") || str_ends_with(l, "-vocab.gguf"))
}

/// `alias-<n>`.
pub open spec fn alias_candidate(alias: Seq<char>, n: nat) -> Seq<char> {
    alias + seq!['-'] + decimal(n)
}

/// Every candidate from `alias-2` up to (not including) `alias-<n>` is taken.
pub open spec fn taken_below(alias: Seq<char>, used: Seq<Seq<char>>, n: nat) -> bool {
    forall|d: nat| 2 <= d < n ==> used.contains(#[trigger] alias_candidate(alias, d))
}

/// `alias` when it is free, else the first free `alias-<n>` with `n >= 2`.
pub open spec fn free_alias_of(alias: Seq<char>, used: Seq<Seq<char>>) -> Seq<char> {
    if !used.contains(alias) {
        alias
    } else {
        alias_candidate(alias, choose|n: nat| n >= 2 && !used.contains(alias_candidate(alias, n)) && taken_below(alias, used, n))
    }
}

proof fn lemma_candidate_injective(alias: Seq<char>, a: nat, b: nat)
    requires
        alias_candidate(alias, a) == alias_candidate(alias, b),
    ensures
        a == b,
{
    let k = alias.len() as int + 1;
    assert(decimal(a) =~= alias_candidate(alias, a).subrange(k, alias_candidate(alias, a).len() as int));
    assert(decimal(b) =~= alias_candidate(alias, b).subrange(k, alias_candidate(alias, b).len() as int));
    lemma_decimal_injective(a, b);
}

/// When every candidate below `n` is taken, there are at most as many of
/// them as entries of `used`.
proof fn lemma_taken_bound(alias: Seq<char>, used: Seq<Seq<char>>, n: nat)
    requires
        n >= 2,
        taken_below(alias, used, n),
    ensures
        n - 2 <= used.len(),
{
    let range = vstd::set_lib::set_int_range(2, n as int);
    vstd::set_lib::lemma_int_range(2, n as int);
    let f = |i: int| alias_candidate(alias, i as nat);
    let image = range.map(f);
    assert(vstd::relations::injective_on(f, range)) by {
        assert forall|x: int, y: int| range.contains(x) && range.contains(y) && #[trigger] f(x) == #[trigger] f(y) implies x == y by {
            lemma_candidate_injective(alias, x as nat, y as nat);
        }
    }
    vstd::set_lib::lemma_map_size(range, image, f);
    assert(image.subset_of(used.to_set())) by {
        assert forall|c: Seq<char>| image.contains(c) implies used.to_set().contains(c) by {
            let x = choose|x: int| range.contains(x) && f(x) == c;
            assert(used.contains(alias_candidate(alias, x as nat)));
        }
    }
    used.lemma_cardinality_of_set();
    vstd::set_lib::lemma_len_subset(image, used.to_set());
}

/// `alias`, or the first `alias-<n>` (`n` from 2) that `used` does not hold.
pub fn free_alias(alias: &str, used: &[String]) -> (r: String)
    requires
        used@.len() + 2 <= u64::MAX,
    ensures
        r@ == free_alias_of(alias@, strings_view(used@)),
        !strings_view(used@).contains(r@),
{
    let ghost u = strings_view(used@);
    if !contains_string(used, alias) {
        return string_from_str(alias);
    }
    let mut counter: u64 = 2;
    loop
        invariant
            u == strings_view(used@),
            u.contains(alias@),
            2 <= counter,
            used@.len() + 2 <= u64::MAX,
            taken_below(alias@, u, counter as nat),
        decreases used@.len() + 2 - counter,
    {
        proof { lemma_taken_bound(alias@, u, counter as nat); }
        let head = concat_str(alias, "-");
        let num = fmt_decimal(counter);
        let candidate = concat_str(head.as_str(), num.as_str());
        proof {
            reveal_strlit("-");
            assert(candidate@ =~= alias_candidate(alias@, counter as nat));
        }
        if !contains_string(used, candidate.as_str()) {
            proof {
                let w = choose|n: nat| n >= 2 && !u.contains(alias_candidate(alias@, n)) && taken_below(alias@, u, n);
                assert(w == counter as nat) by {
                    if w < counter {
                        assert(u.contains(alias_candidate(alias@, w)));
                    } else if w > counter {
                        assert(u.contains(alias_candidate(alias@, counter as nat)));
                    }
                }
            }
            return candidate;
        }
        proof {
            assert forall|d: nat| 2 <= d < counter + 1 implies u.contains(#[trigger] alias_candidate(alias@, d)) by {
                if d == counter {
                } else {
                }
            }
            lemma_taken_bound(alias@, u, (counter + 1) as nat);
        }
        counter = counter + 1;
    }
}

fn contains_string(v: &[String], s: &str) -> (r: bool)
    ensures
        r == strings_view(v@).contains(s@),
{
    let mut i: usize = 0;
    while i < v.len()
        invariant
            i <= v.len(),
            forall|j: int| 0 <= j < i ==> strings_view(v@)[j] != s@,
        decreases v.len() - i,
    {
        if str_eq(v[i].as_str(), s) {
            assert(strings_view(v@)[i as int] == s@);
            return true;
        }
        i = i + 1;
    }
    false
}

/// Claim an alias not yet in `used`: `alias` itself, or `alias-2`,
/// `alias-3`, ... and record it as used.
pub fn dedupe_alias(alias: &str, used: &mut Vec<String>) -> (r: String)
    requires
        old(used)@.len() + 3 <= u64::MAX,
        old(used)@.len() + 1 <= usize::MAX,
    ensures
        r@ == free_alias_of(alias@, strings_view(old(used)@)),
        strings_view(final(used)@) == strings_view(old(used)@).push(r@),
{
    let r = free_alias(alias, used.as_slice());
    let ghost before = used@;
    used.push(r.clone());
    assert(strings_view(used@) =~= strings_view(before).push(r@));
    r
}

} // verus!

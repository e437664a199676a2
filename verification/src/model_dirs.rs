//! Which model directories a scan uses, and how a registry file becomes a
//! registry. What exists on disk is probed by the caller and handed in.
use vstd::prelude::*;
use crate::discovery::DiscoveredGguf;
use crate::errors::RuntimeError;
use crate::registry::{
    dedupe_registry_entries, entry_views, first_priority_only, is_deduped, normalize_priority_entries,
    ModelsJsonExport, ModelsRegistry,
};
use crate::text::{
    concat_str, has_suffix, join, join_strings, lower, str_ends_with, str_eq, string_from_str, strings_view,
    to_lower,
};

verus! {

/// A directory as probed on disk: whether it is a directory, its canonical
/// form (the path itself when it cannot be resolved), and whether a scan
/// of it finds a loadable GGUF file.
#[derive(Debug, Clone)]
pub struct DirProbe {
    pub path: String,
    pub is_dir: bool,
    pub canonical: String,
    pub has_gguf: bool,
}

/// The existing directories among the configured ones, in order.
pub open spec fn existing_dirs(ds: Seq<DirProbe>) -> Seq<Seq<char>>
    decreases ds.len(),
{
    if ds.len() == 0 {
        seq![]
    } else {
        existing_dirs(ds.drop_last()) + if ds.last().is_dir { seq![ds.last().path@] } else { seq![] }
    }
}

/// The missing directories among the configured ones, in order.
pub open spec fn missing_dirs(ds: Seq<DirProbe>) -> Seq<Seq<char>>
    decreases ds.len(),
{
    if ds.len() == 0 {
        seq![]
    } else {
        missing_dirs(ds.drop_last()) + if ds.last().is_dir { seq![] } else { seq![ds.last().path@] }
    }
}

/// The configured directories (`parse_models_dirs`, each probed) that
/// exist; an error when none is configured or none exists.
pub fn resolve_models_dirs(configured: &[DirProbe]) -> (r: Result<Vec<String>, RuntimeError>)
    ensures
        configured@.len() == 0 ==> (r matches Err(RuntimeError::ConfigError(m))
            && m@ == "models_dir is empty; set defaults.models_dir in models.toml"@),
        configured@.len() > 0 && existing_dirs(configured@).len() == 0 ==> (r matches Err(RuntimeError::ConfigError(m))
            && m@ == "Models directory does not exist: "@ + join(missing_dirs(configured@), ", "@)),
        configured@.len() > 0 && existing_dirs(configured@).len() > 0 ==> (r matches Ok(ds)
            && strings_view(ds@) == existing_dirs(configured@)),
{
    if configured.len() == 0 {
        return Err(RuntimeError::ConfigError(string_from_str("models_dir is empty; set defaults.models_dir in models.toml")));
    }
    let mut resolved: Vec<String> = Vec::new();
    let mut missing: Vec<String> = Vec::new();
    let mut i: usize = 0;
    while i < configured.len()
        invariant
            i <= configured@.len(),
            strings_view(resolved@) == existing_dirs(configured@.subrange(0, i as int)),
            strings_view(missing@) == missing_dirs(configured@.subrange(0, i as int)),
        decreases configured.len() - i,
    {
        assert(configured@.subrange(0, i + 1).drop_last() =~= configured@.subrange(0, i as int));
        if configured[i].is_dir {
            resolved.push(configured[i].path.clone());
        } else {
            missing.push(configured[i].path.clone());
        }
        i = i + 1;
        assert(strings_view(resolved@) =~= existing_dirs(configured@.subrange(0, i as int)));
        assert(strings_view(missing@) =~= missing_dirs(configured@.subrange(0, i as int)));
    }
    assert(configured@.subrange(0, configured@.len() as int) =~= configured@);
    if resolved.len() == 0 {
        let list = join_strings(missing.as_slice(), ", ");
        return Err(RuntimeError::ConfigError(concat_str("Models directory does not exist: ", list.as_str())));
    }
    Ok(resolved)
}

/// `Path::join` of a relative part: a separator between them unless the
/// base is empty or already ends with one.
pub open spec fn path_join(base: Seq<char>, part: Seq<char>) -> Seq<char> {
    if base.len() == 0 || base.last() == '/' { base + part } else { base + "/"@ + part }
}

pub fn join_path(base: &str, part: &str) -> (r: String)
    ensures
        r@ == path_join(base@, part@),
{
    proof {
        reveal_strlit("/");
        assert("/"@.len() == 1 && "/"@[0] == '/');
        if base@.len() > 0 {
            let tail = base@.subrange(base@.len() - 1, base@.len() as int);
            assert(tail.len() == 1 && tail[0] == base@.last());
            if base@.last() == '/' {
                assert(tail =~= "/"@);
            }
            if has_suffix(base@, "/"@) {
                assert(tail[0] == "/"@[0]);
            }
        }
    }
    if crate::text::str_is_empty(base) || str_ends_with(base, "/") {
        concat_str(base, part)
    } else {
        let a = concat_str(base, "/");
        concat_str(a.as_str(), part)
    }
}

/// Well-known model locations, scanned after the configured ones:
/// `$HOME/models` and `$HOME/.lmstudio/models` when a home is known, then
/// `/models` and `/var/lib/gguf-switchboard/models`.
pub open spec fn common_candidates(home: Option<Seq<char>>) -> Seq<Seq<char>> {
    let tail = seq!["/models"@, "/var/lib/gguf-switchboard/models"@];
    match home {
        Some(h) => seq![path_join(h, "models"@), path_join(path_join(h, ".lmstudio"@), "models"@)] + tail,
        None => tail,
    }
}

pub fn common_models_dir_candidates(home: Option<&str>) -> (r: Vec<String>)
    ensures
        strings_view(r@) == common_candidates(match home { Some(h) => Some(h@), None => None }),
{
    let mut dirs: Vec<String> = Vec::new();
    match home {
        Some(h) => {
            dirs.push(join_path(h, "models"));
            let lm = join_path(h, ".lmstudio");
            dirs.push(join_path(lm.as_str(), "models"));
        },
        None => {},
    }
    dirs.push(string_from_str("/models"));
    dirs.push(string_from_str("/var/lib/gguf-switchboard/models"));
    assert(strings_view(dirs@) =~= common_candidates(match home { Some(h) => Some(h@), None => None }));
    dirs
}

/// The identity two probes of one directory share: the lower-cased
/// canonical path.
pub open spec fn dir_key(p: DirProbe) -> Seq<char> {
    lower(p.canonical@)
}

pub open spec fn key_seen(keys: Seq<Seq<char>>, k: Seq<char>) -> bool {
    exists|i: int| 0 <= i < keys.len() && keys[i] == k
}

/// The scan roots chosen so far and their keys, after the configured
/// directories `ds` (kept when they exist, first of each identity).
pub open spec fn pick_configured(ds: Seq<DirProbe>) -> (Seq<Seq<char>>, Seq<Seq<char>>)
    decreases ds.len(),
{
    if ds.len() == 0 {
        (seq![], seq![])
    } else {
        let (paths, keys) = pick_configured(ds.drop_last());
        let d = ds.last();
        if d.is_dir && !key_seen(keys, dir_key(d)) {
            (paths.push(d.path@), keys.push(dir_key(d)))
        } else {
            (paths, keys)
        }
    }
}

/// Then the common candidates `cs`, kept when they exist, are new and hold a
/// loadable GGUF file.
pub open spec fn pick_candidates(cs: Seq<DirProbe>, start: (Seq<Seq<char>>, Seq<Seq<char>>)) -> (Seq<Seq<char>>, Seq<Seq<char>>)
    decreases cs.len(),
{
    if cs.len() == 0 {
        start
    } else {
        let (paths, keys) = pick_candidates(cs.drop_last(), start);
        let d = cs.last();
        if d.is_dir && !key_seen(keys, dir_key(d)) && d.has_gguf {
            (paths.push(d.path@), keys.push(dir_key(d)))
        } else {
            (paths, keys)
        }
    }
}

fn seen_in(keys: &Vec<String>, k: &str) -> (r: bool)
    ensures
        r == key_seen(strings_view(keys@), k@),
{
    let mut i: usize = 0;
    while i < keys.len()
        invariant
            i <= keys@.len(),
            forall|j: int| 0 <= j < i ==> keys@[j]@ != k@,
        decreases keys.len() - i,
    {
        if str_eq(keys[i].as_str(), k) {
            assert(strings_view(keys@)[i as int] == k@);
            return true;
        }
        i = i + 1;
    }
    false
}

/// Scan roots: the existing configured directories first, then the common
/// locations that hold a loadable GGUF file, each directory once.
pub fn resolve_models_dirs_with_fallback(configured: &[DirProbe], candidates: &[DirProbe]) -> (r: Result<Vec<String>, RuntimeError>)
    ensures
        ({
            let picked = pick_candidates(candidates@, pick_configured(configured@)).0;
            &&& picked.len() == 0 ==> (r matches Err(RuntimeError::ConfigError(m))
                && m@ == "No model directories found; set defaults.models_dir, MODELS_DIR, or place GGUFs under a common path (e.g. ~/models)"@)
            &&& picked.len() > 0 ==> (r matches Ok(ds) && strings_view(ds@) == picked)
        }),
{
    let mut resolved: Vec<String> = Vec::new();
    let mut keys: Vec<String> = Vec::new();
    let mut i: usize = 0;
    while i < configured.len()
        invariant
            i <= configured@.len(),
            (strings_view(resolved@), strings_view(keys@)) == pick_configured(configured@.subrange(0, i as int)),
        decreases configured.len() - i,
    {
        assert(configured@.subrange(0, i + 1).drop_last() =~= configured@.subrange(0, i as int));
        let d = &configured[i];
        let k = to_lower(d.canonical.as_str());
        if d.is_dir && !seen_in(&keys, k.as_str()) {
            resolved.push(d.path.clone());
            keys.push(k);
        }
        i = i + 1;
        assert(strings_view(resolved@) =~= pick_configured(configured@.subrange(0, i as int)).0);
        assert(strings_view(keys@) =~= pick_configured(configured@.subrange(0, i as int)).1);
    }
    assert(configured@.subrange(0, configured@.len() as int) =~= configured@);
    let ghost start = pick_configured(configured@);
    let mut j: usize = 0;
    assert(candidates@.subrange(0, 0) =~= Seq::<DirProbe>::empty());
    while j < candidates.len()
        invariant
            j <= candidates@.len(),
            start == pick_configured(configured@),
            (strings_view(resolved@), strings_view(keys@)) == pick_candidates(candidates@.subrange(0, j as int), start),
        decreases candidates.len() - j,
    {
        assert(candidates@.subrange(0, j + 1).drop_last() =~= candidates@.subrange(0, j as int));
        let d = &candidates[j];
        let k = to_lower(d.canonical.as_str());
        if d.is_dir && !seen_in(&keys, k.as_str()) && d.has_gguf {
            resolved.push(d.path.clone());
            keys.push(k);
        }
        j = j + 1;
        assert(strings_view(resolved@) =~= pick_candidates(candidates@.subrange(0, j as int), start).0);
        assert(strings_view(keys@) =~= pick_candidates(candidates@.subrange(0, j as int), start).1);
    }
    assert(candidates@.subrange(0, candidates@.len() as int) =~= candidates@);
    if resolved.len() == 0 {
        return Err(RuntimeError::ConfigError(string_from_str(
            "No model directories found; set defaults.models_dir, MODELS_DIR, or place GGUFs under a common path (e.g. ~/models)",
        )));
    }
    Ok(resolved)
}

/// The directories that exist and those that do not split the configured
/// list: each configured directory lands in exactly one of the two, by
/// whether it is a directory.
pub proof fn lemma_existing_and_missing(ds: Seq<DirProbe>)
    ensures
        existing_dirs(ds).len() + missing_dirs(ds).len() == ds.len(),
        forall|p: Seq<char>| existing_dirs(ds).contains(p)
            <==> exists|i: int| 0 <= i < ds.len() && #[trigger] ds[i].is_dir && ds[i].path@ == p,
        forall|p: Seq<char>| missing_dirs(ds).contains(p)
            <==> exists|i: int| 0 <= i < ds.len() && !#[trigger] ds[i].is_dir && ds[i].path@ == p,
    decreases ds.len(),
{
    if ds.len() > 0 {
        let init = ds.drop_last();
        lemma_existing_and_missing(init);
        let l = ds.len() - 1;
        assert forall|p: Seq<char>| existing_dirs(ds).contains(p)
            <==> exists|i: int| 0 <= i < ds.len() && #[trigger] ds[i].is_dir && ds[i].path@ == p by {
            if existing_dirs(ds).contains(p) {
                let k = choose|k: int| 0 <= k < existing_dirs(ds).len() && existing_dirs(ds)[k] == p;
                if k < existing_dirs(init).len() {
                    assert(existing_dirs(init).contains(p));
                    let i = choose|i: int| 0 <= i < init.len() && #[trigger] init[i].is_dir && init[i].path@ == p;
                    assert(ds[i] == init[i]);
                } else {
                    assert(ds[l].is_dir && ds[l].path@ == p);
                }
            }
            if exists|i: int| 0 <= i < ds.len() && #[trigger] ds[i].is_dir && ds[i].path@ == p {
                let i = choose|i: int| 0 <= i < ds.len() && #[trigger] ds[i].is_dir && ds[i].path@ == p;
                if i < l {
                    assert(init[i] == ds[i]);
                    assert(existing_dirs(init).contains(p));
                    let k = choose|k: int| 0 <= k < existing_dirs(init).len() && existing_dirs(init)[k] == p;
                    assert(existing_dirs(ds)[k] == p);
                } else {
                    assert(existing_dirs(ds)[existing_dirs(init).len() as int] == p);
                }
            }
        }
        assert forall|p: Seq<char>| missing_dirs(ds).contains(p)
            <==> exists|i: int| 0 <= i < ds.len() && !#[trigger] ds[i].is_dir && ds[i].path@ == p by {
            if missing_dirs(ds).contains(p) {
                let k = choose|k: int| 0 <= k < missing_dirs(ds).len() && missing_dirs(ds)[k] == p;
                if k < missing_dirs(init).len() {
                    assert(missing_dirs(init).contains(p));
                    let i = choose|i: int| 0 <= i < init.len() && !#[trigger] init[i].is_dir && init[i].path@ == p;
                    assert(ds[i] == init[i]);
                } else {
                    assert(!ds[l].is_dir && ds[l].path@ == p);
                }
            }
            if exists|i: int| 0 <= i < ds.len() && !#[trigger] ds[i].is_dir && ds[i].path@ == p {
                let i = choose|i: int| 0 <= i < ds.len() && !#[trigger] ds[i].is_dir && ds[i].path@ == p;
                if i < l {
                    assert(init[i] == ds[i]);
                    assert(missing_dirs(init).contains(p));
                    let k = choose|k: int| 0 <= k < missing_dirs(init).len() && missing_dirs(init)[k] == p;
                    assert(missing_dirs(ds)[k] == p);
                } else {
                    assert(missing_dirs(ds)[missing_dirs(init).len() as int] == p);
                }
            }
        }
    }
}

pub open spec fn keys_distinct(keys: Seq<Seq<char>>) -> bool {
    forall|i: int, j: int| 0 <= i < j < keys.len() ==> keys[i] != keys[j]
}

/// The chosen roots so far are paired with their keys, one key each, no key
/// twice.
pub open spec fn picks_paired(picked: (Seq<Seq<char>>, Seq<Seq<char>>)) -> bool {
    picked.0.len() == picked.1.len() && keys_distinct(picked.1)
}

proof fn lemma_push_distinct(keys: Seq<Seq<char>>, k: Seq<char>)
    requires
        keys_distinct(keys),
        !key_seen(keys, k),
    ensures
        keys_distinct(keys.push(k)),
{
    assert forall|i: int, j: int| 0 <= i < j < keys.push(k).len() implies keys.push(k)[i] != keys.push(k)[j] by {
        if j == keys.len() {
            assert(keys[i] == keys.push(k)[i]);
        }
    }
}

/// `path` with identity `key` is one of the existing directories in `ds`
/// (and holds a loadable GGUF file, when `need_gguf`).
pub open spec fn probed_root(ds: Seq<DirProbe>, path: Seq<char>, key: Seq<char>, need_gguf: bool) -> bool {
    exists|i: int| 0 <= i < ds.len() && ds[i].is_dir && (!need_gguf || ds[i].has_gguf)
        && ds[i].path@ == path && dir_key(ds[i]) == key
}

proof fn lemma_probed_root_init(ds: Seq<DirProbe>, path: Seq<char>, key: Seq<char>, need_gguf: bool)
    requires
        ds.len() > 0,
        probed_root(ds.drop_last(), path, key, need_gguf),
    ensures
        probed_root(ds, path, key, need_gguf),
{
    let init = ds.drop_last();
    let i = choose|i: int| 0 <= i < init.len() && init[i].is_dir && (!need_gguf || init[i].has_gguf)
        && init[i].path@ == path && dir_key(init[i]) == key;
    assert(ds[i] == init[i]);
}

proof fn lemma_probed_root_last(ds: Seq<DirProbe>, need_gguf: bool)
    requires
        ds.len() > 0,
        ds.last().is_dir,
        !need_gguf || ds.last().has_gguf,
    ensures
        probed_root(ds, ds.last().path@, dir_key(ds.last()), need_gguf),
{
    assert(ds[ds.len() - 1] == ds.last());
}

/// Among the configured directories the existing ones are kept, each
/// identity once: every kept root is an existing configured directory with
/// that key, and every existing configured directory's identity is kept.
pub proof fn lemma_pick_configured(ds: Seq<DirProbe>)
    ensures
        picks_paired(pick_configured(ds)),
        forall|j: int| 0 <= j < pick_configured(ds).0.len()
            ==> probed_root(ds, pick_configured(ds).0[j], #[trigger] pick_configured(ds).1[j], false),
        forall|i: int| 0 <= i < ds.len() && #[trigger] ds[i].is_dir ==> key_seen(pick_configured(ds).1, dir_key(ds[i])),
    decreases ds.len(),
{
    if ds.len() > 0 {
        let init = ds.drop_last();
        lemma_pick_configured(init);
        let (paths, keys) = pick_configured(init);
        let d = ds.last();
        let l = ds.len() - 1;
        if d.is_dir && !key_seen(keys, dir_key(d)) {
            lemma_push_distinct(keys, dir_key(d));
        }
        let r = pick_configured(ds);
        assert forall|j: int| 0 <= j < r.0.len() implies probed_root(ds, r.0[j], #[trigger] r.1[j], false) by {
            if j < paths.len() {
                assert(probed_root(init, paths[j], keys[j], false));
                lemma_probed_root_init(ds, paths[j], keys[j], false);
            } else {
                lemma_probed_root_last(ds, false);
            }
        }
        assert forall|i: int| 0 <= i < ds.len() && #[trigger] ds[i].is_dir implies key_seen(r.1, dir_key(ds[i])) by {
            if i < l {
                assert(init[i] == ds[i]);
                assert(init[i].is_dir);
                let w = choose|w: int| 0 <= w < keys.len() && keys[w] == dir_key(init[i]);
                assert(r.1[w] == keys[w]);
            } else if !key_seen(keys, dir_key(d)) {
                assert(r.1[keys.len() as int] == dir_key(d));
            }
        }
    }
}

/// The common candidates only add roots after those already chosen: what
/// was chosen stays in front, keys stay distinct, and every added root is
/// an existing candidate that holds a loadable GGUF file.
pub proof fn lemma_pick_candidates(cs: Seq<DirProbe>, start: (Seq<Seq<char>>, Seq<Seq<char>>))
    requires
        picks_paired(start),
    ensures
        picks_paired(pick_candidates(cs, start)),
        pick_candidates(cs, start).0.len() >= start.0.len(),
        pick_candidates(cs, start).0.subrange(0, start.0.len() as int) == start.0,
        pick_candidates(cs, start).1.subrange(0, start.1.len() as int) == start.1,
        forall|j: int| start.0.len() <= j < pick_candidates(cs, start).0.len()
            ==> probed_root(cs, pick_candidates(cs, start).0[j], #[trigger] pick_candidates(cs, start).1[j], true),
    decreases cs.len(),
{
    if cs.len() == 0 {
        assert(start.0.subrange(0, start.0.len() as int) =~= start.0);
        assert(start.1.subrange(0, start.1.len() as int) =~= start.1);
    } else {
        let init = cs.drop_last();
        lemma_pick_candidates(init, start);
        let (paths, keys) = pick_candidates(init, start);
        let d = cs.last();
        let r = pick_candidates(cs, start);
        if d.is_dir && !key_seen(keys, dir_key(d)) && d.has_gguf {
            lemma_push_distinct(keys, dir_key(d));
            assert(r.0.subrange(0, start.0.len() as int) =~= paths.subrange(0, start.0.len() as int));
            assert(r.1.subrange(0, start.1.len() as int) =~= keys.subrange(0, start.1.len() as int));
        }
        assert forall|j: int| start.0.len() <= j < r.0.len() implies probed_root(cs, r.0[j], #[trigger] r.1[j], true) by {
            if j < paths.len() {
                assert(probed_root(init, paths[j], keys[j], true));
                lemma_probed_root_init(cs, paths[j], keys[j], true);
            } else {
                lemma_probed_root_last(cs, true);
            }
        }
    }
}

/// The fallback scan roots: the existing configured directories come
/// first, each identity once; after them only existing common locations
/// holding a loadable GGUF file, never one whose identity is already
/// chosen; no two roots share an identity.
pub proof fn lemma_fallback_roots(configured: Seq<DirProbe>, candidates: Seq<DirProbe>)
    ensures
        ({
            let first = pick_configured(configured);
            let all = pick_candidates(candidates, first);
            &&& picks_paired(all)
            &&& all.0.subrange(0, first.0.len() as int) == first.0
            &&& forall|i: int| 0 <= i < configured.len() && #[trigger] configured[i].is_dir
                ==> key_seen(all.1, dir_key(configured[i]))
            &&& forall|j: int| 0 <= j < first.0.len() ==> probed_root(configured, all.0[j], #[trigger] all.1[j], false)
            &&& forall|j: int| first.0.len() <= j < all.0.len() ==> probed_root(candidates, all.0[j], #[trigger] all.1[j], true)
        }),
{
    let first = pick_configured(configured);
    lemma_pick_configured(configured);
    lemma_pick_candidates(candidates, first);
    let all = pick_candidates(candidates, first);
    assert forall|i: int| 0 <= i < configured.len() && #[trigger] configured[i].is_dir
        implies key_seen(all.1, dir_key(configured[i])) by {
        let w = choose|w: int| 0 <= w < first.1.len() && first.1[w] == dir_key(configured[i]);
        assert(all.1.subrange(0, first.1.len() as int)[w] == first.1[w]);
    }
    assert forall|j: int| 0 <= j < first.0.len() implies probed_root(configured, all.0[j], #[trigger] all.1[j], false) by {
        assert(all.0.subrange(0, first.0.len() as int)[j] == first.0[j]);
        assert(all.1.subrange(0, first.1.len() as int)[j] == first.1[j]);
        assert(probed_root(configured, first.0[j], first.1[j], false));
    }
}

/// A registry file as read: `models.toml` or its portable JSON form.
pub enum RegistryFile {
    Toml(ModelsRegistry),
    Json(ModelsJsonExport),
}

/// A registry path names the JSON form when it ends in `.json`.
pub fn registry_file_is_json(path: &str) -> (r: bool)
    ensures
        r == has_suffix(path@, ".json"@),
{
    str_ends_with(path, ".json")
}

/// The message of a registry file that could not be read.
pub fn read_error(path: &str, error: &str) -> (r: RuntimeError)
    ensures
        r matches RuntimeError::ConfigError(m) && m@ == "Failed to read models file '"@ + path@ + "': "@ + error@,
{
    let a = concat_str("Failed to read models file '", path);
    let b = concat_str(a.as_str(), "': ");
    RuntimeError::ConfigError(concat_str(b.as_str(), error))
}

impl ModelsRegistry {
    /// The registry of a file as read: a TOML registry with duplicate
    /// entries merged and at most one priority model; a JSON export as
    /// `from_json_export` makes it.
    pub fn load(file: RegistryFile) -> (r: Result<ModelsRegistry, RuntimeError>)
        ensures
            match file {
                RegistryFile::Toml(reg) => r matches Ok(out) && out.version == reg.version
                    && out.auto_discover == reg.auto_discover
                    && exists|d: Seq<crate::registry::EntryView>| is_deduped(entry_views(reg.models@), d)
                        && entry_views(out.models@) == first_priority_only(d),
                RegistryFile::Json(export) => r is Ok,
            },
    {
        match file {
            RegistryFile::Toml(reg) => {
                let mut reg = reg;
                let ghost before = entry_views(reg.models@);
                dedupe_registry_entries(&mut reg.models);
                let ghost d = entry_views(reg.models@);
                normalize_priority_entries(&mut reg.models);
                assert(is_deduped(before, d));
                Ok(reg)
            },
            RegistryFile::Json(export) => ModelsRegistry::from_json_export(export),
        }
    }

    /// A registry of every GGUF file found (see `discover_with_merge`).
    pub fn discover(dirs_text: &str, models_dirs: &[String], files: &[DiscoveredGguf], detected_server: &str) -> (r: Result<ModelsRegistry, RuntimeError>)
        requires
            files@.len() + 3 <= u64::MAX,
            files@.len() + 1 <= usize::MAX,
        ensures
            files@.len() == 0 <==> r is Err,
            r matches Err(e) ==> (e matches RuntimeError::ConfigError(m) && m@ == crate::discovery::no_gguf_message(dirs_text@)),
            r matches Ok(reg) ==> reg.defaults.models_dir@ == join(strings_view(models_dirs@), ","@),
            r matches Ok(reg) ==> reg.defaults.llama_server@ == detected_server@,
    {
        let no_keys: Vec<String> = Vec::new();
        ModelsRegistry::discover_with_merge(dirs_text, models_dirs, files, None, no_keys.as_slice(), detected_server)
    }
}

} // verus!

//! The on-disk model inventory behind `ggs models list` and `ggs models
//! delete`: what each model on disk is called and of what kind, how the
//! command line is read, and which model a delete target names.
use vstd::prelude::*;
use crate::paths::{file_name, file_name_of, file_stem, file_stem_of};
use crate::registry::{entry_views, EntryView, RegistryEntry};
use crate::models_cmd::{pad_end, pad_start, push_padded};
use crate::hf_download::{bytes_text, format_bytes};
use crate::text::{
    all_digits, all_digits_exec, chars_of, concat_str, contains, decimal, digits_value, fmt_decimal, has_prefix,
    has_suffix, join, join_strings, lower, parse_decimal, parse_unsigned, str_contains, str_ends_with, str_eq,
    str_is_empty, str_starts_with, string_from, string_from_str, strings_view, to_lower, trim, trim_str, opt_str,
};
use vstd::slice::slice_subrange;

verus! {

/// The kind a model on disk is listed as, from its name.
pub open spec fn local_kind(name: Seq<char>) -> Seq<char> {
    let l = lower(name);
    if contains(l, "rerank"@) {
        "reranker"@
    } else if contains(l, "embed"@) {
        "embedding"@
    } else if contains(l, "-vl"@) || contains(l, "vision"@) || contains(l, "mmproj"@) {
        "vision"@
    } else if contains(l, "coder"@) || contains(l, "-code"@) {
        "coder"@
    } else {
        "chat"@
    }
}

pub fn infer_kind(name: &str) -> (r: &'static str)
    ensures
        r@ == local_kind(name@),
{
    let l = to_lower(name);
    let s = l.as_str();
    if str_contains(s, "rerank") {
        "reranker"
    } else if str_contains(s, "embed") {
        "embedding"
    } else if str_contains(s, "-vl") || str_contains(s, "vision") || str_contains(s, "mmproj") {
        "vision"
    } else if str_contains(s, "coder") || str_contains(s, "-code") {
        "coder"
    } else {
        "chat"
    }
}

/// One model on disk: a `.gguf` file or a safetensors model directory.
#[derive(Debug, Clone)]
pub struct LocalModelEntry {
    /// 1-based position in the scan; what `delete <n>` takes.
    pub index: usize,
    pub path: String,
    pub size_bytes: u64,
    pub kind: String,
    /// The registered alias, when the model is registered.
    pub alias: Option<String>,
    pub is_safetensors_dir: bool,
}

/// The name a model is shown by: its alias, else its directory name (for a
/// safetensors directory) or file stem, else its whole path.
pub open spec fn shown_name(e: LocalModelEntry) -> Seq<char> {
    match e.alias {
        Some(a) => a@,
        None => {
            let n = if e.is_safetensors_dir { file_name_of(e.path@) } else { file_stem_of(e.path@) };
            match n {
                Some(x) => x,
                None => e.path@,
            }
        },
    }
}

impl LocalModelEntry {
    pub fn display_name(&self) -> (r: String)
        ensures
            r@ == shown_name(*self),
    {
        match &self.alias {
            Some(a) => a.clone(),
            None => {
                let n = if self.is_safetensors_dir { file_name(self.path.as_str()) } else { file_stem(self.path.as_str()) };
                match n {
                    Some(x) => x,
                    None => self.path.clone(),
                }
            },
        }
    }
}

/// The name a model's kind is inferred from: its alias, else its file or
/// directory name.
pub open spec fn kind_source(path: Seq<char>, alias: Option<Seq<char>>) -> Seq<char> {
    match alias {
        Some(a) => a,
        None => match file_name_of(path) {
            Some(n) => n,
            None => seq![],
        },
    }
}

/// Numbers a scan, already sorted by path and without repeats, from 1, and
/// infers each model's kind.
pub fn number_entries(raw: Vec<(String, u64, bool, Option<String>)>) -> (r: Vec<LocalModelEntry>)
    requires
        raw@.len() < usize::MAX,
    ensures
        r@.len() == raw@.len(),
        forall|i: int| 0 <= i < r@.len() ==> {
            let e = #[trigger] r@[i];
            let x = raw@[i];
            &&& e.index == i + 1
            &&& e.path@ == x.0@
            &&& e.size_bytes == x.1
            &&& e.is_safetensors_dir == x.2
            &&& crate::text::opt_str(e.alias) == crate::text::opt_str(x.3)
            &&& e.kind@ == local_kind(kind_source(x.0@, crate::text::opt_str(x.3)))
        },
{
    let mut out: Vec<LocalModelEntry> = Vec::new();
    let mut i: usize = 0;
    while i < raw.len()
        invariant
            i <= raw@.len(),
            raw@.len() < usize::MAX,
            out@.len() == i,
            forall|k: int| 0 <= k < i ==> {
                let e = #[trigger] out@[k];
                let x = raw@[k];
                &&& e.index == k + 1
                &&& e.path@ == x.0@
                &&& e.size_bytes == x.1
                &&& e.is_safetensors_dir == x.2
                &&& crate::text::opt_str(e.alias) == crate::text::opt_str(x.3)
                &&& e.kind@ == local_kind(kind_source(x.0@, crate::text::opt_str(x.3)))
            },
        decreases raw.len() - i,
    {
        let x = &raw[i];
        let name = match &x.3 {
            Some(a) => a.clone(),
            None => match file_name(x.0.as_str()) {
                Some(n) => n,
                None => String::new(),
            },
        };
        let kind = string_from_str(infer_kind(name.as_str()));
        out.push(LocalModelEntry {
            index: i + 1,
            path: x.0.clone(),
            size_bytes: x.1,
            kind,
            alias: crate::text::clone_opt_str(&x.3),
            is_safetensors_dir: x.2,
        });
        i = i + 1;
    }
    out
}

/// `s` cut to `max` characters, the last one replaced by an ellipsis when
/// it is cut.
pub open spec fn truncated(s: Seq<char>, max: nat) -> Seq<char> {
    if s.len() <= max {
        s
    } else {
        s.subrange(0, if max >= 1 { max - 1 } else { 0 }) + seq!['…']
    }
}

pub fn truncate(s: &str, max: usize) -> (r: String)
    ensures
        r@ == truncated(s@, max as nat),
{
    let v = chars_of(s);
    if v.len() <= max {
        return string_from_str(s);
    }
    let keep = if max >= 1 { max - 1 } else { 0 };
    let mut head = string_from(slice_subrange(v.as_slice(), 0, keep));
    crate::text::push_char(&mut head, '…');
    head
}

/// The options `ggs models list` and `delete` share.
#[derive(Debug, Clone)]
pub struct CommonArgs {
    pub dir_overrides: Vec<String>,
    pub registry_path: Option<String>,
    pub json: bool,
    /// The remaining positional arguments (the delete target).
    pub positional: Vec<String>,
    pub yes: bool,
}

/// The state of reading the command line after the arguments before `i`.
pub open spec fn common_step(args: Seq<Seq<char>>, allow_yes: bool, i: int, acc: (Seq<Seq<char>>, Option<Seq<char>>, bool, Seq<Seq<char>>, bool)) -> Result<(Seq<Seq<char>>, Option<Seq<char>>, bool, Seq<Seq<char>>, bool), Seq<char>>
    decreases args.len() - i,
{
    if i < 1 || i >= args.len() {
        Ok(acc)
    } else {
        let a = args[i];
        let sub = args[0];
        if a == "--dir"@ {
            if i + 1 < args.len() {
                common_step(args, allow_yes, i + 2, (acc.0.push(args[i + 1]), acc.1, acc.2, acc.3, acc.4))
            } else {
                Err("models "@ + sub + ": missing value for --dir"@)
            }
        } else if a == "--registry"@ {
            if i + 1 < args.len() {
                common_step(args, allow_yes, i + 2, (acc.0, Some(args[i + 1]), acc.2, acc.3, acc.4))
            } else {
                Err("models "@ + sub + ": missing value for --registry"@)
            }
        } else if a == "--json"@ {
            common_step(args, allow_yes, i + 1, (acc.0, acc.1, true, acc.3, acc.4))
        } else if allow_yes && (a == "--yes"@ || a == "-y"@) {
            common_step(args, allow_yes, i + 1, (acc.0, acc.1, acc.2, acc.3, true))
        } else if a.len() > 0 && a[0] == '-' {
            Err("models "@ + sub + ": unknown flag '"@ + a + "'"@)
        } else {
            common_step(args, allow_yes, i + 1, (acc.0, acc.1, acc.2, acc.3.push(a), acc.4))
        }
    }
}

pub open spec fn common_view(c: CommonArgs) -> (Seq<Seq<char>>, Option<Seq<char>>, bool, Seq<Seq<char>>, bool) {
    (strings_view(c.dir_overrides@), crate::text::opt_str(c.registry_path), c.json, strings_view(c.positional@), c.yes)
}

/// Reads the shared options; `args[0]` is the subcommand.
pub fn parse_common(args: &[String], allow_yes: bool) -> (r: Result<CommonArgs, String>)
    requires
        args@.len() >= 1,
    ensures
        match common_step(strings_view(args@), allow_yes, 1, (seq![], None, false, seq![], false)) {
            Ok(v) => r matches Ok(c) && common_view(c) == v,
            Err(m) => r matches Err(e) && e@ == m,
        },
{
    let ghost av = strings_view(args@);
    let mut out = CommonArgs { dir_overrides: Vec::new(), registry_path: None, json: false, positional: Vec::new(), yes: false };
    let mut i: usize = 1;
    assert(strings_view(out.dir_overrides@) =~= Seq::<Seq<char>>::empty());
    assert(strings_view(out.positional@) =~= Seq::<Seq<char>>::empty());
    while i < args.len()
        invariant
            1 <= i,
            args@.len() >= 1,
            av == strings_view(args@),
            common_step(av, allow_yes, 1, (seq![], None, false, seq![], false))
                == common_step(av, allow_yes, i as int, common_view(out)),
        decreases args.len() - i,
    {
        let a = args[i].as_str();
        assert(av[i as int] == a@);
        assert(av[0] == args@[0]@);
        if str_eq(a, "--dir") {
            if i + 1 < args.len() {
                let ghost before = out.dir_overrides@;
                out.dir_overrides.push(args[i + 1].clone());
                assert(strings_view(out.dir_overrides@) =~= strings_view(before).push(av[i + 1]));
                i = i + 2;
            } else {
                let m1 = concat_str("models ", args[0].as_str());
                return Err(concat_str(m1.as_str(), ": missing value for --dir"));
            }
        } else if str_eq(a, "--registry") {
            if i + 1 < args.len() {
                out.registry_path = Some(args[i + 1].clone());
                i = i + 2;
            } else {
                let m1 = concat_str("models ", args[0].as_str());
                return Err(concat_str(m1.as_str(), ": missing value for --registry"));
            }
        } else if str_eq(a, "--json") {
            out.json = true;
            i = i + 1;
        } else if allow_yes && (str_eq(a, "--yes") || str_eq(a, "-y")) {
            out.yes = true;
            i = i + 1;
        } else if str_starts_with(a, "-") {
            proof {
                reveal_strlit("-");
                assert(a@.len() > 0 && a@[0] == '-') by {
                    assert(a@.subrange(0, 1)[0] == "-"@[0]);
                }
            }
            let m1 = concat_str("models ", args[0].as_str());
            let m2 = concat_str(m1.as_str(), ": unknown flag '");
            let m3 = concat_str(m2.as_str(), a);
            return Err(concat_str(m3.as_str(), "'"));
        } else {
            proof {
                reveal_strlit("-");
                if a@.len() > 0 && a@[0] == '-' {
                    assert(a@.subrange(0, 1) =~= "-"@);
                }
            }
            let ghost before = out.positional@;
            out.positional.push(string_from_str(a));
            assert(strings_view(out.positional@) =~= strings_view(before).push(a@));
            i = i + 1;
        }
    }
    Ok(out)
}

/// `Path::strip_prefix` in its common form: the part of `path` below
/// directory `dir`, or `None` when `path` is not inside it.
pub open spec fn below_dir(path: Seq<char>, dir: Seq<char>) -> Option<Seq<char>> {
    let d = if dir.len() > 0 && dir.last() == '/' { dir.drop_last() } else { dir };
    if path == d {
        Some(seq![])
    } else if has_prefix(path, d + "/"@) {
        Some(path.subrange(d.len() + 1int, path.len() as int))
    } else {
        None
    }
}

/// What a listing shows for a path: the part below the first scanned
/// directory that holds it, else the whole path.
pub open spec fn shortened(path: Seq<char>, dirs: Seq<Seq<char>>) -> Seq<char>
    decreases dirs.len(),
{
    if dirs.len() == 0 {
        path
    } else {
        match below_dir(path, dirs[0]) {
            Some(rel) => rel,
            None => shortened(path, dirs.drop_first()),
        }
    }
}

pub(crate) fn below_dir_exec(path: &str, dir: &str) -> (r: Option<String>)
    ensures
        crate::text::opt_str(r) == below_dir(path@, dir@),
{
    let dv = chars_of(dir);
    let d: Vec<char> = if dv.len() > 0 && dv[dv.len() - 1] == '/' {
        let mut t = dv.clone();
        t.pop();
        assert(t@ =~= dv@.drop_last());
        t
    } else {
        dv
    };
    let pv = chars_of(path);
    if crate::text::seq_eq(pv.as_slice(), d.as_slice()) {
        return Some(String::new());
    }
    let mut with_sep = d.clone();
    with_sep.push('/');
    proof {
        reveal_strlit("/");
        assert(with_sep@ =~= d@ + "/"@);
    }
    if crate::text::starts_with(pv.as_slice(), with_sep.as_slice()) {
        Some(string_from(slice_subrange(pv.as_slice(), with_sep.len(), pv.len())))
    } else {
        None
    }
}

pub fn shorten_path(path: &str, dirs: &[String]) -> (r: String)
    ensures
        r@ == shortened(path@, strings_view(dirs@)),
{
    let ghost ds = strings_view(dirs@);
    let mut k: usize = 0;
    assert(ds.subrange(0, ds.len() as int) =~= ds);
    while k < dirs.len()
        invariant
            k <= dirs@.len(),
            ds == strings_view(dirs@),
            shortened(path@, ds) == shortened(path@, ds.subrange(k as int, ds.len() as int)),
        decreases dirs.len() - k,
    {
        let ghost rest = ds.subrange(k as int, ds.len() as int);
        assert(rest.drop_first() =~= ds.subrange(k + 1, ds.len() as int));
        assert(rest[0] == dirs@[k as int]@);
        match below_dir_exec(path, dirs[k].as_str()) {
            Some(rel) => {
                return rel;
            },
            None => {},
        }
        k = k + 1;
    }
    string_from_str(path)
}

/// The JSON registry written next to a TOML one: `.toml` becomes
/// `.json.toml`'s counterpart `.json` at its last occurrence.
pub open spec fn local_json_sibling(toml_path: Seq<char>) -> Seq<char> {
    match crate::text::last_occurrence(toml_path, ".toml"@) {
        Some(i) => toml_path.subrange(0, i) + ".json"@ + toml_path.subrange(i + 5, toml_path.len() as int),
        None => toml_path + ".json"@,
    }
}

pub fn json_sibling(toml_path: &str) -> (r: String)
    ensures
        r@ == local_json_sibling(toml_path@),
{
    let v = chars_of(toml_path);
    let pat = chars_of(".toml");
    proof {
        reveal_strlit(".toml");
        crate::text::lemma_last_occurrence(v@, pat@);
    }
    match crate::text::rfind(v.as_slice(), pat.as_slice()) {
        Some(idx) => {
            assert(pat@.len() == 5);
            assert(crate::text::occurs_at(v@, pat@, idx as int));
            let n = v.len();
            assert(idx + 5 <= n);
            let a = string_from(slice_subrange(v.as_slice(), 0, idx));
            let b = concat_str(a.as_str(), ".json");
            let c = string_from(slice_subrange(v.as_slice(), idx + 5, n));
            concat_str(b.as_str(), c.as_str())
        },
        None => concat_str(toml_path, ".json"),
    }
}

/// A file that often sits beside a GGUF file: a projector, or a JSON file
/// named after the model.
pub open spec fn related_sidecar(name: Seq<char>, stem: Seq<char>) -> bool {
    contains(lower(name), "mmproj"@) || (has_prefix(name, stem) && has_suffix(lower(name), ".json"@))
}

pub fn is_related_sidecar(name: &str, stem: &str) -> (r: bool)
    ensures
        r == related_sidecar(name@, stem@),
{
    let l = to_lower(name);
    str_contains(l.as_str(), "mmproj") || (str_starts_with(name, stem) && str_ends_with(l.as_str(), ".json"))
}

/// A delete is confirmed by `y` or `yes`, in any case, around whitespace.
pub open spec fn confirms(line: Seq<char>) -> bool {
    let a = lower(trim(line));
    a == "y"@ || a == "yes"@
}

pub fn is_confirmation(line: &str) -> (r: bool)
    ensures
        r == confirms(line@),
{
    let t = trim_str(line);
    let a = to_lower(t.as_str());
    str_eq(a.as_str(), "y") || str_eq(a.as_str(), "yes")
}

/// `usize::from_str`: decimal digits, with an optional leading `+`, that fit
/// a `usize`.
pub open spec fn parsed_index(t: Seq<char>) -> Option<nat> {
    parse_unsigned(t, usize::MAX as nat)
}

/// The entry a delete target names, by its number or, case-insensitively,
/// by alias, file stem or (for a directory) directory name.
pub open spec fn name_matches(e: LocalModelEntry, target: Seq<char>) -> bool {
    let want = lower(target);
    ||| (e.alias matches Some(a) && lower(a@) == want)
    ||| (file_stem_of(e.path@) matches Some(s) && lower(s) == want)
    ||| (e.is_safetensors_dir && (file_name_of(e.path@) matches Some(n) && lower(n) == want))
}

fn name_matches_exec(e: &LocalModelEntry, target: &str) -> (r: bool)
    ensures
        r == name_matches(*e, target@),
{
    let want = to_lower(target);
    let by_alias = match &e.alias {
        Some(a) => str_eq(to_lower(a.as_str()).as_str(), want.as_str()),
        None => false,
    };
    let by_stem = match file_stem(e.path.as_str()) {
        Some(s) => str_eq(to_lower(s.as_str()).as_str(), want.as_str()),
        None => false,
    };
    let by_dir = e.is_safetensors_dir && match file_name(e.path.as_str()) {
        Some(n) => str_eq(to_lower(n.as_str()).as_str(), want.as_str()),
        None => false,
    };
    by_alias || by_stem || by_dir
}

pub open spec fn matching_positions(es: Seq<LocalModelEntry>, target: Seq<char>) -> Seq<int>
    decreases es.len(),
{
    if es.len() == 0 {
        seq![]
    } else {
        let rest = matching_positions(es.drop_last(), target);
        if name_matches(es.last(), target) { rest.push(es.len() - 1) } else { rest }
    }
}

/// The error of an ambiguous name: the numbers of its matches.
pub open spec fn ambiguous_message(target: Seq<char>, es: Seq<LocalModelEntry>, ms: Seq<int>) -> Seq<char> {
    "models delete: '"@ + target + "' is ambiguous ("@ + decimal(ms.len()) + " matches: "@
        + join(ms.map_values(|m: int| "#"@ + decimal(es[m].index as nat)), ", "@) + "); use the number instead"@
}

/// Resolves a delete target to the position of its entry.
pub fn resolve_target(target: &str, entries: &[LocalModelEntry]) -> (r: Result<usize, String>)
    ensures
        match parsed_index(target@) {
            Some(n) => match r {
                Ok(i) => i < entries@.len() && entries@[i as int].index == n
                    && forall|j: int| 0 <= j < i ==> (#[trigger] entries@[j]).index != n,
                Err(m) => (forall|j: int| 0 <= j < entries@.len() ==> (#[trigger] entries@[j]).index != n)
                    && m@ == "models delete: index "@ + decimal(n) + " out of range (1..="@ + decimal(entries@.len() as nat) + ")"@,
            },
            None => {
                let ms = matching_positions(entries@, target@);
                match r {
                    Ok(i) => ms.len() == 1 && ms[0] == i,
                    Err(m) => (ms.len() == 0 && m@ == "models delete: no model matches '"@ + target@
                        + "' — run `ggs models list` to see names and numbers"@)
                        || (ms.len() > 1 && m@ == ambiguous_message(target@, entries@, ms)),
                }
            },
        },
{
    let tv = chars_of(target);
    let n = parse_decimal(tv.as_slice(), usize::MAX as u64);
    match n {
        Some(n) => {
            assert(n <= usize::MAX);
            assert(tv@ == target@);
            let n = n as usize;
            assert(parsed_index(target@) == Some(n as nat));
            let mut i: usize = 0;
            while i < entries.len()
                invariant
                    i <= entries@.len(),
                    parsed_index(target@) == Some(n as nat),
                    forall|j: int| 0 <= j < i ==> (#[trigger] entries@[j]).index != n,
                decreases entries.len() - i,
            {
                if entries[i].index == n {
                    assert(parsed_index(target@) == Some(n as nat));
                    return Ok(i);
                }
                i = i + 1;
            }
            let a = concat_str("models delete: index ", fmt_decimal(n as u64).as_str());
            let b = concat_str(a.as_str(), " out of range (1..=");
            let c = concat_str(b.as_str(), fmt_decimal(entries.len() as u64).as_str());
            Err(concat_str(c.as_str(), ")"))
        },
        None => {
            let mut ms: Vec<usize> = Vec::new();
            let mut i: usize = 0;
            while i < entries.len()
                invariant
                    i <= entries@.len(),
                    ms@.len() == matching_positions(entries@.subrange(0, i as int), target@).len(),
                    forall|k: int| 0 <= k < ms@.len() ==> (#[trigger] ms@[k]) as int == matching_positions(entries@.subrange(0, i as int), target@)[k],
                    forall|k: int| 0 <= k < ms@.len() ==> (#[trigger] ms@[k]) < i,
                decreases entries.len() - i,
            {
                let ghost cur = entries@.subrange(0, i + 1);
                assert(cur.drop_last() =~= entries@.subrange(0, i as int));
                if name_matches_exec(&entries[i], target) {
                    ms.push(i);
                }
                i = i + 1;
            }
            assert(entries@.subrange(0, entries@.len() as int) =~= entries@);
            let ghost msv = matching_positions(entries@, target@);
            if ms.len() == 0 {
                let a = concat_str("models delete: no model matches '", target);
                return Err(concat_str(a.as_str(), "' — run `ggs models list` to see names and numbers"));
            }
            if ms.len() == 1 {
                return Ok(ms[0]);
            }
            let mut tags: Vec<String> = Vec::new();
            let mut k: usize = 0;
            while k < ms.len()
                invariant
                    k <= ms@.len(),
                    ms@.len() == msv.len(),
                    forall|x: int| 0 <= x < ms@.len() ==> (#[trigger] ms@[x]) as int == msv[x],
                    forall|x: int| 0 <= x < ms@.len() ==> (#[trigger] ms@[x]) < entries@.len(),
                    strings_view(tags@) == msv.subrange(0, k as int).map_values(|m: int| "#"@ + decimal(entries@[m].index as nat)),
                decreases ms.len() - k,
            {
                let idx = entries[ms[k]].index;
                let tag = concat_str("#", fmt_decimal(idx as u64).as_str());
                let ghost before = tags@;
                let ghost f = |m: int| "#"@ + decimal(entries@[m].index as nat);
                assert(tag@ == f(msv[k as int]));
                tags.push(tag);
                assert(msv.subrange(0, k + 1) =~= msv.subrange(0, k as int).push(msv[k as int]));
                assert(msv.subrange(0, k + 1).map_values(f) =~= msv.subrange(0, k as int).map_values(f).push(f(msv[k as int])));
                assert(strings_view(tags@) =~= strings_view(before).push(tag@));
                k = k + 1;
            }
            assert(msv.subrange(0, msv.len() as int) =~= msv);
            let list = join_strings(tags.as_slice(), ", ");
            let a = concat_str("models delete: '", target);
            let b = concat_str(a.as_str(), "' is ambiguous (");
            let c = concat_str(b.as_str(), fmt_decimal(ms.len() as u64).as_str());
            let d = concat_str(c.as_str(), " matches: ");
            let e = concat_str(d.as_str(), list.as_str());
            Err(concat_str(e.as_str(), "); use the number instead"))
        },
    }
}

// ── Deleting a model ────────────────────────────────────────────────────────

/// The one delete target among the positional arguments.
pub fn delete_target(positional: &[String]) -> (r: Result<String, String>)
    ensures
        positional@.len() == 1 ==> (r matches Ok(t) && t@ == positional@[0]@),
        positional@.len() == 0 ==> (r matches Err(m)
            && m@ == "models delete: missing target — pass a name or the number from `ggs models list`"@),
        positional@.len() > 1 ==> (r matches Err(m) && m@ == "models delete: expected exactly one target"@),
{
    if positional.len() == 0 {
        return Err(string_from_str("models delete: missing target — pass a name or the number from `ggs models list`"));
    }
    if positional.len() > 1 {
        return Err(string_from_str("models delete: expected exactly one target"));
    }
    Ok(positional[0].clone())
}

/// A resolved (canonical) path lies inside one of the resolved scanned
/// directories, compared by whole path components.
pub open spec fn inside_dirs(path: Seq<char>, dirs: Seq<Seq<char>>) -> bool {
    exists|k: int| 0 <= k < dirs.len() && (#[trigger] below_dir(path, dirs[k])) is Some
}

/// The guard before deleting: the resolved path of the target must lie
/// inside a resolved scanned directory, so that no name or link can lead a
/// delete elsewhere.
pub fn check_inside_scan_dirs(canonical_path: &str, canonical_dirs: &[String], shown_path: &str) -> (r: Result<(), String>)
    ensures
        r is Ok <==> inside_dirs(canonical_path@, strings_view(canonical_dirs@)),
        r matches Err(m) ==> m@ == "models delete: refusing to delete '"@ + shown_path@
            + "' — it is outside the scanned model directories"@,
{
    let ghost ds = strings_view(canonical_dirs@);
    let mut k: usize = 0;
    while k < canonical_dirs.len()
        invariant
            k <= canonical_dirs@.len(),
            ds == strings_view(canonical_dirs@),
            forall|j: int| 0 <= j < k ==> (#[trigger] below_dir(canonical_path@, ds[j])) is None,
        decreases canonical_dirs.len() - k,
    {
        assert(ds[k as int] == canonical_dirs@[k as int]@);
        if below_dir_exec(canonical_path, canonical_dirs[k].as_str()).is_some() {
            return Ok(());
        }
        k = k + 1;
    }
    let a = concat_str("models delete: refusing to delete '", shown_path);
    Err(concat_str(a.as_str(), "' — it is outside the scanned model directories"))
}

/// The alias registered for a model path: that of the first registry entry
/// whose resolved file is the path.
pub open spec fn registered_alias_of(path: Seq<char>, registered: Seq<(Seq<char>, Seq<char>)>) -> Option<Seq<char>>
    decreases registered.len(),
{
    if registered.len() == 0 {
        None
    } else if registered[0].0 == path {
        Some(registered[0].1)
    } else {
        registered_alias_of(path, registered.drop_first())
    }
}

pub open spec fn pair_views(v: Seq<(String, String)>) -> Seq<(Seq<char>, Seq<char>)> {
    v.map_values(|p: (String, String)| (p.0@, p.1@))
}

/// The alias registered for `path` among `(resolved file, alias)` pairs.
pub fn registered_alias(path: &str, registered: &[(String, String)]) -> (r: Option<String>)
    ensures
        opt_str(r) == registered_alias_of(path@, pair_views(registered@)),
{
    let ghost all = pair_views(registered@);
    assert(all.subrange(0, all.len() as int) =~= all);
    let mut i: usize = 0;
    while i < registered.len()
        invariant
            i <= registered@.len(),
            all == pair_views(registered@),
            registered_alias_of(path@, all) == registered_alias_of(path@, all.subrange(i as int, all.len() as int)),
        decreases registered.len() - i,
    {
        let ghost rest = all.subrange(i as int, all.len() as int);
        assert(rest[0] == (registered@[i as int].0@, registered@[i as int].1@));
        assert(rest.drop_first() =~= all.subrange(i + 1, all.len() as int));
        if str_eq(registered[i].0.as_str(), path) {
            return Some(registered[i].1.clone());
        }
        i = i + 1;
    }
    None
}

/// What happens to a delete that passed the scan-directory guard: it goes
/// ahead, or it waits for the user's answer.
#[derive(Debug, Clone, Copy, PartialEq, Eq, Structural)]
pub enum DeleteGate {
    Delete,
    AskFirst,
}

/// The decision before deleting a resolved target: refused when its
/// resolved path lies outside every resolved scanned directory, refused
/// without `--yes` when there is no terminal to ask on; otherwise it goes
/// ahead with `--yes` and asks first without. Every refusal says so.
pub fn delete_decision(
    canonical_path: &str,
    canonical_dirs: &[String],
    shown_path: &str,
    assume_yes: bool,
    stdin_is_terminal: bool,
) -> (r: Result<DeleteGate, String>)
    ensures
        r is Err <==> (!inside_dirs(canonical_path@, strings_view(canonical_dirs@)) || (!assume_yes && !stdin_is_terminal)),
        r matches Err(m) ==> has_prefix(m@, "models delete: refusing to delete"@),
        r matches Err(m) ==> m@ == (if !inside_dirs(canonical_path@, strings_view(canonical_dirs@)) {
            "models delete: refusing to delete '"@ + shown_path@ + "' — it is outside the scanned model directories"@
        } else {
            "models delete: refusing to delete without --yes in a non-interactive shell"@
        }),
        r == Ok::<DeleteGate, String>(DeleteGate::Delete) <==> (inside_dirs(canonical_path@, strings_view(canonical_dirs@)) && assume_yes),
        r == Ok::<DeleteGate, String>(DeleteGate::AskFirst) <==> (inside_dirs(canonical_path@, strings_view(canonical_dirs@))
            && !assume_yes && stdin_is_terminal),
{
    proof {
        reveal_strlit("models delete: refusing to delete");
        reveal_strlit("models delete: refusing to delete '");
        reveal_strlit("models delete: refusing to delete without --yes in a non-interactive shell");
    }
    match check_inside_scan_dirs(canonical_path, canonical_dirs, shown_path) {
        Err(m) => {
            assert(("models delete: refusing to delete '"@ + shown_path@ + "' — it is outside the scanned model directories"@)
                .subrange(0, 33) =~= "models delete: refusing to delete"@);
            Err(m)
        },
        Ok(()) => {
            if assume_yes {
                Ok(DeleteGate::Delete)
            } else if stdin_is_terminal {
                Ok(DeleteGate::AskFirst)
            } else {
                let m = string_from_str("models delete: refusing to delete without --yes in a non-interactive shell");
                assert(m@.subrange(0, 33) =~= "models delete: refusing to delete"@);
                Err(m)
            }
        },
    }
}

/// The registry entries kept when a deleted model is unregistered: every
/// entry whose alias differs, ignoring ASCII case.
pub open spec fn kept_entries(es: Seq<EntryView>, alias: Seq<char>) -> Seq<EntryView>
    decreases es.len(),
{
    if es.len() == 0 {
        Seq::empty()
    } else {
        let rest = kept_entries(es.drop_last(), alias);
        if lower(es.last().alias) == lower(alias) { rest } else { rest.push(es.last()) }
    }
}

proof fn lemma_kept_len(es: Seq<EntryView>, alias: Seq<char>)
    ensures
        kept_entries(es, alias).len() <= es.len(),
        kept_entries(es, alias).len() == es.len() <==> forall|i: int| 0 <= i < es.len() ==> lower((#[trigger] es[i]).alias) != lower(alias),
    decreases es.len(),
{
    if es.len() > 0 {
        lemma_kept_len(es.drop_last(), alias);
        assert forall|i: int| 0 <= i < es.len() - 1 implies es.drop_last()[i] == #[trigger] es[i] by {}
    }
}

/// Drop a deleted model's entries from the registry; says whether any was
/// dropped (and the registry must be written again).
pub fn unregister_alias(models: &mut Vec<RegistryEntry>, alias: &str) -> (r: bool)
    ensures
        entry_views(final(models)@) == kept_entries(entry_views(old(models)@), alias@),
        r == exists|i: int| 0 <= i < old(models)@.len() && lower((#[trigger] old(models)@[i]).alias@) == lower(alias@),
{
    let ghost before = entry_views(models@);
    let want = to_lower(alias);
    let mut kept: Vec<RegistryEntry> = Vec::new();
    let mut i: usize = 0;
    while i < models.len()
        invariant
            i <= models@.len(),
            before == entry_views(models@),
            want@ == lower(alias@),
            entry_views(kept@) == kept_entries(before.subrange(0, i as int), alias@),
        decreases models.len() - i,
    {
        assert(before.subrange(0, i + 1).drop_last() =~= before.subrange(0, i as int));
        assert(before[i as int] == models@[i as int]@);
        let l = to_lower(models[i].alias.as_str());
        if !str_eq(l.as_str(), want.as_str()) {
            let e = models[i].clone_entry();
            let ghost k0 = kept@;
            kept.push(e);
            assert(entry_views(kept@) =~= entry_views(k0).push(e@));
        }
        i = i + 1;
    }
    assert(before.subrange(0, before.len() as int) =~= before);
    proof {
        lemma_kept_len(before, alias@);
        assert forall|k: int| 0 <= k < models@.len() implies (lower((#[trigger] models@[k]).alias@) == lower(alias@)
            <==> lower(before[k].alias) == lower(alias@)) by {
            assert(before[k] == models@[k]@);
        }
    }
    let changed = kept.len() != models.len();
    *models = kept;
    changed
}

// ── Listing ─────────────────────────────────────────────────────────────────

pub open spec fn list_header_text() -> Seq<char> {
    "  "@ + pad_start("#"@, 3) + "  "@ + pad_start("SIZE"@, 10) + "  "@ + pad_end("KIND"@, 9) + "  "@
        + pad_end("ALIAS / NAME"@, 28) + "  PATH"@
}

/// A model's line: number, size, kind, alias (or `(unregistered)`, cut to
/// 28 characters) and the path below its scanned directory.
pub open spec fn list_line_text(e: LocalModelEntry, dirs: Seq<Seq<char>>) -> Seq<char> {
    let name = match e.alias { Some(a) => a@, None => "(unregistered)"@ };
    "  "@ + pad_start(decimal(e.index as nat), 3) + "  "@ + pad_start(bytes_text(e.size_bytes), 10) + "  "@
        + pad_end(e.kind@, 9) + "  "@ + pad_end(truncated(name, 28), 28) + "  "@ + shortened(e.path@, dirs)
}

pub open spec fn list_lines_text(es: Seq<LocalModelEntry>, dirs: Seq<Seq<char>>) -> Seq<char>
    decreases es.len(),
{
    if es.len() == 0 { Seq::empty() } else { list_lines_text(es.drop_last(), dirs) + list_line_text(es.last(), dirs) + "\n"@ }
}

/// What `ggs models list` prints (without `--json`): the scanned
/// directories, then the table of models and how to delete one, or a note
/// that nothing was found.
pub open spec fn list_output_text(es: Seq<LocalModelEntry>, dirs: Seq<Seq<char>>) -> Seq<char> {
    "Scanned: "@ + join(dirs, ", "@) + "\n"@ + if es.len() == 0 {
        "No GGUF files or safetensors model directories found.\n"@
    } else {
        "\n"@ + list_header_text() + "\n"@ + list_lines_text(es, dirs) + "\n"@
            + "Delete one with:  ggs models delete <#|name> [--yes]\n"@
    }
}

fn list_line(e: &LocalModelEntry, dirs: &[String]) -> (r: String)
    ensures
        r@ == list_line_text(*e, strings_view(dirs@)),
{
    let name = match &e.alias {
        Some(a) => a.clone(),
        None => string_from_str("(unregistered)"),
    };
    let mut out = string_from_str("  ");
    push_padded(&mut out, fmt_decimal(e.index as u64).as_str(), 3, true);
    out.append("  ");
    push_padded(&mut out, format_bytes(e.size_bytes).as_str(), 10, true);
    out.append("  ");
    push_padded(&mut out, e.kind.as_str(), 9, false);
    out.append("  ");
    push_padded(&mut out, truncate(name.as_str(), 28).as_str(), 28, false);
    out.append("  ");
    out.append(shorten_path(e.path.as_str(), dirs).as_str());
    assert(out@ =~= list_line_text(*e, strings_view(dirs@)));
    out
}

/// The text of `ggs models list`.
pub fn list_output(entries: &[LocalModelEntry], dirs: &[String]) -> (r: String)
    ensures
        r@ == list_output_text(entries@, strings_view(dirs@)),
{
    let mut out = string_from_str("Scanned: ");
    out.append(join_strings(dirs, ", ").as_str());
    out.append("\n");
    if entries.len() == 0 {
        out.append("No GGUF files or safetensors model directories found.\n");
        return out;
    }
    out.append("\n");
    let mut header = string_from_str("  ");
    push_padded(&mut header, "#", 3, true);
    header.append("  ");
    push_padded(&mut header, "SIZE", 10, true);
    header.append("  ");
    push_padded(&mut header, "KIND", 9, false);
    header.append("  ");
    push_padded(&mut header, "ALIAS / NAME", 28, false);
    header.append("  PATH");
    assert(header@ =~= list_header_text());
    out.append(header.as_str());
    out.append("\n");
    let ghost head = out@;
    let mut i: usize = 0;
    while i < entries.len()
        invariant
            i <= entries@.len(),
            out@ == head + list_lines_text(entries@.subrange(0, i as int), strings_view(dirs@)),
        decreases entries.len() - i,
    {
        let line = list_line(&entries[i], dirs);
        out.append(line.as_str());
        out.append("\n");
        assert(entries@.subrange(0, i + 1).drop_last() =~= entries@.subrange(0, i as int));
        i = i + 1;
    }
    assert(entries@.subrange(0, entries@.len() as int) =~= entries@);
    out.append("\n");
    out.append("Delete one with:  ggs models delete <#|name> [--yes]\n");
    assert(out@ =~= list_output_text(entries@, strings_view(dirs@)));
    out
}

} // verus!

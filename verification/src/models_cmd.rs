//! The `models` command's rules: which files of a Hugging Face repository
//! are model weights, which quantization each is, which complete options a
//! repository offers, which file a `--quant` selector picks, and how names,
//! sizes and the search table are written.
use vstd::prelude::*;
use vstd::slice::slice_subrange;
use crate::hf_download::{one_decimal, tenths_of, HfTreeEntry, fmt_one_decimal};
use crate::paths::{file_name, file_name_of, file_stem, file_stem_of};
use crate::registry::{free_alias, free_alias_of, alias_chars};
use crate::text::{
    all_digits, chars_of, concat_str, contains, decimal, fmt_decimal, has_suffix, is_alnum, is_digit,
    last_index_of, last_occurrence, lemma_last_index_of, lemma_last_occurrence, lower, lower_chars,
    non_empty, occurs_at, parse_decimal, parse_unsigned, replace_char, replace_chars, rfind, rfind_char,
    seq_eq, split_chars, split_on, str_contains, str_eq, string_from, string_from_str, strings_view,
    to_lower, to_upper, trim, trim_char, trim_char_range, trim_range, upper, upper_chars, vec_views,
    join, join_strings,
};

verus! {

// ── Quantization labels ─────────────────────────────────────────────────────

/// A quantization label such as `Q4_K_M`, `IQ4_XS`, `BF16` or `MXFP4`
/// (upper case).
pub open spec fn quant_token(v: Seq<char>) -> bool {
    v == "BF16"@ || v == "FP16"@ || v == "FP32"@ || v == "F16"@ || v == "F32"@ || v == "MXFP4"@ || v == "NVFP4"@
        || (v.len() >= 4 && v[0] == 'I' && v[1] == 'Q' && is_digit(v[2]) && v[3] == '_')
        || (v.len() >= 3 && v[0] == 'Q' && is_digit(v[1]) && v[2] == '_')
}

pub fn is_quant_token(value: &str) -> (r: bool)
    ensures
        r == quant_token(value@),
{
    if str_eq(value, "BF16") || str_eq(value, "FP16") || str_eq(value, "FP32") || str_eq(value, "F16")
        || str_eq(value, "F32") || str_eq(value, "MXFP4") || str_eq(value, "NVFP4") {
        return true;
    }
    let v = chars_of(value);
    (v.len() >= 4 && v[0] == 'I' && v[1] == 'Q' && '0' <= v[2] && v[2] <= '9' && v[3] == '_')
        || (v.len() >= 3 && v[0] == 'Q' && '0' <= v[1] && v[1] <= '9' && v[2] == '_')
}

/// The last `-`/`.`-separated part of the file stem that is a quantization
/// label, upper-cased; empty when there is none.
pub open spec fn quant_of(filename: Seq<char>) -> Seq<char> {
    let stem = match file_stem_of(filename) { Some(s) => s, None => filename };
    last_quant_part(split_on(stem, seq!['-', '.']))
}

pub open spec fn last_quant_part(parts: Seq<Seq<char>>) -> Seq<char>
    decreases parts.len(),
{
    if parts.len() == 0 {
        seq![]
    } else if quant_token(upper(parts.last())) {
        upper(parts.last())
    } else {
        last_quant_part(parts.drop_last())
    }
}

/// Extract a quantization label from a GGUF filename.
pub fn extract_quant(filename: &str) -> (r: String)
    ensures
        r@ == quant_of(filename@),
{
    let stem = match file_stem(filename) {
        Some(s) => chars_of(s.as_str()),
        None => chars_of(filename),
    };
    let seps: Vec<char> = vec!['-', '.'];
    assert(seps@ =~= seq!['-', '.']);
    let parts = split_chars(stem.as_slice(), seps.as_slice());
    let ghost all = vec_views(parts@);
    assert(all == split_on(stem@, seq!['-', '.']));
    assert(last_quant_part(all) == quant_of(filename@));
    let mut i: usize = parts.len();
    assert(all.subrange(0, i as int) =~= all);
    while i > 0
        invariant
            i <= parts@.len(),
            all == vec_views(parts@),
            last_quant_part(all) == quant_of(filename@),
            last_quant_part(all) == last_quant_part(all.subrange(0, i as int)),
        decreases i,
    {
        let ghost sub = all.subrange(0, i as int);
        assert(sub.drop_last() =~= all.subrange(0, i - 1));
        let up = upper_chars(parts[i - 1].as_slice());
        let u = string_from(up.as_slice());
        assert(sub.last() == parts@[i - 1]@);
        if is_quant_token(u.as_str()) {
            return u;
        }
        i = i - 1;
    }
    assert(all.subrange(0, 0) =~= Seq::<Seq<char>>::empty());
    String::new()
}

/// Whether a file name looks like main model weights (not a projector,
/// adapter, LoRA, tokenizer or vocabulary).
pub open spec fn model_gguf(path: Seq<char>) -> bool {
    let l = lower(path);
    !(contains(l, "mmproj"@) || contains(l, "-lora"@) || contains(l, "-projector"@) || contains(l, "projector"@)
        || contains(l, "-adapter"@) || contains(l, "tokenizer"@) || contains(l, "vocab"@))
}

pub fn is_model_gguf(path: &str) -> (r: bool)
    ensures
        r == model_gguf(path@),
{
    let l = to_lower(path);
    let l = l.as_str();
    !(str_contains(l, "mmproj") || str_contains(l, "-lora") || str_contains(l, "-projector")
        || str_contains(l, "projector") || str_contains(l, "-adapter") || str_contains(l, "tokenizer")
        || str_contains(l, "vocab"))
}

/// The pieces between non-alphanumeric characters.
pub open spec fn alnum_tokens(s: Seq<char>) -> Seq<Seq<char>>
    decreases s.len(),
{
    if s.len() == 0 {
        seq![seq![]]
    } else {
        let prev = alnum_tokens(s.drop_last());
        if !is_alnum(s.last()) {
            prev.push(seq![])
        } else {
            prev.update(prev.len() - 1, prev.last().push(s.last()))
        }
    }
}

fn alnum_split(s: &[char]) -> (r: Vec<Vec<char>>)
    ensures
        vec_views(r@) == alnum_tokens(s@),
{
    let mut parts: Vec<Vec<char>> = Vec::new();
    let mut cur: Vec<char> = Vec::new();
    let ghost mut acc: Seq<Seq<char>> = seq![];
    let mut i: usize = 0;
    assert(s@.subrange(0, 0) =~= Seq::<char>::empty());
    assert(vec_views(parts@) =~= acc);
    while i < s.len()
        invariant
            i <= s.len(),
            vec_views(parts@) == acc,
            acc.push(cur@) == alnum_tokens(s@.subrange(0, i as int)),
        decreases s.len() - i,
    {
        let c = s[i];
        assert(s@.subrange(0, i + 1).drop_last() =~= s@.subrange(0, i as int));
        let alnum = ('a' <= c && c <= 'z') || ('A' <= c && c <= 'Z') || ('0' <= c && c <= '9');
        if !alnum {
            let ghost done_view = cur@;
            let done = cur;
            let ghost pv = parts@;
            parts.push(done);
            proof {
                assert(vec_views(parts@) =~= vec_views(pv).push(done_view));
                acc = acc.push(done_view);
            }
            cur = Vec::new();
            assert(acc.push(cur@) =~= acc.push(seq![]));
        } else {
            let ghost old_cur = cur@;
            cur.push(c);
            assert(acc.push(cur@) =~= acc.push(old_cur).update(acc.len() as int, old_cur.push(c)));
        }
        i = i + 1;
    }
    assert(s@.subrange(0, s.len() as int) =~= s@);
    let ghost last = cur@;
    let ghost pv = parts@;
    parts.push(cur);
    assert(vec_views(parts@) =~= vec_views(pv).push(last));
    parts
}

/// A name that marks a repository or file as a draft or speculator model.
pub open spec fn auxiliary_token(v: Seq<char>) -> bool {
    exists|i: int| 0 <= i < alnum_tokens(v).len() && {
        let t = lower(#[trigger] alnum_tokens(v)[i]);
        t == "drafter"@ || t == "speculator"@
    }
}

pub fn contains_auxiliary_token(value: &str) -> (r: bool)
    ensures
        r == auxiliary_token(value@),
{
    let v = chars_of(value);
    let tokens = alnum_split(v.as_slice());
    let ghost ts = vec_views(tokens@);
    let mut i: usize = 0;
    while i < tokens.len()
        invariant
            i <= tokens@.len(),
            ts == vec_views(tokens@),
            ts == alnum_tokens(value@),
            forall|j: int| 0 <= j < i ==> {
                let t = lower(#[trigger] ts[j]);
                !(t == "drafter"@ || t == "speculator"@)
            },
        decreases tokens.len() - i,
    {
        let t = lower_chars(tokens[i].as_slice());
        let s = string_from(t.as_slice());
        assert(ts[i as int] == tokens@[i as int]@);
        if str_eq(s.as_str(), "drafter") || str_eq(s.as_str(), "speculator") {
            return true;
        }
        i = i + 1;
    }
    false
}

/// `s` with every trailing copy of `p` removed (`trim_end_matches`).
pub open spec fn strip_all_suffix(s: Seq<char>, p: Seq<char>) -> Seq<char>
    decreases s.len(),
{
    if p.len() > 0 && has_suffix(s, p) { strip_all_suffix(s.subrange(0, s.len() - p.len()), p) } else { s }
}

pub open spec fn count_quant_parts(parts: Seq<Seq<char>>) -> nat
    decreases parts.len(),
{
    if parts.len() == 0 {
        0
    } else {
        count_quant_parts(parts.drop_last()) + if quant_token(upper(parts.last())) { 1nat } else { 0nat }
    }
}

/// A file of a draft or multi-token-prediction head rather than a model:
/// an `mtp` file carrying more than one quantization label, or a `dspark`
/// support file.
pub open spec fn auxiliary_file(path: Seq<char>) -> bool {
    let name = match file_name_of(path) { Some(n) => n, None => path };
    let l = lower(name);
    let tokens = non_empty(alnum_tokens(l));
    let quants = count_quant_parts(split_on(strip_all_suffix(l, ".gguf"@), seq!['-', '.']));
    (tokens.contains("mtp"@) && quants > 1)
        || (tokens.contains("dspark"@) && ((tokens.len() > 0 && tokens[0] == "dspark"@) || tokens.contains("support"@)))
}

fn strip_all_suffix_exec(s: &Vec<char>, p: &str) -> (r: Vec<char>)
    ensures
        r@ == strip_all_suffix(s@, p@),
{
    let pat = chars_of(p);
    let mut end: usize = s.len();
    assert(s@.subrange(0, end as int) =~= s@);
    while pat.len() > 0 && crate::text::ends_with(slice_subrange(s.as_slice(), 0, end), pat.as_slice())
        invariant
            end <= s@.len(),
            pat@ == p@,
            strip_all_suffix(s@, p@) == strip_all_suffix(s@.subrange(0, end as int), p@),
        decreases end,
    {
        let ghost t = s@.subrange(0, end as int);
        end = end - pat.len();
        assert(t.subrange(0, t.len() - pat@.len()) =~= s@.subrange(0, end as int));
    }
    let r = slice_subrange(s.as_slice(), 0, end);
    let mut v: Vec<char> = Vec::new();
    let mut i: usize = 0;
    while i < r.len()
        invariant
            i <= r@.len(),
            v@ == r@.subrange(0, i as int),
        decreases r.len() - i,
    {
        v.push(r[i]);
        i = i + 1;
        assert(v@ =~= r@.subrange(0, i as int));
    }
    assert(r@.subrange(0, r@.len() as int) =~= r@);
    v
}

fn token_in(tokens: &Vec<Vec<char>>, t: &str) -> (r: bool)
    ensures
        r == vec_views(tokens@).contains(t@),
{
    let tc = chars_of(t);
    let mut i: usize = 0;
    while i < tokens.len()
        invariant
            i <= tokens@.len(),
            tc@ == t@,
            forall|j: int| 0 <= j < i ==> vec_views(tokens@)[j] != t@,
        decreases tokens.len() - i,
    {
        assert(vec_views(tokens@)[i as int] == tokens@[i as int]@);
        if seq_eq(tokens[i].as_slice(), tc.as_slice()) {
            return true;
        }
        i = i + 1;
    }
    false
}

fn keep_non_empty(parts: Vec<Vec<char>>) -> (r: Vec<Vec<char>>)
    ensures
        vec_views(r@) == non_empty(vec_views(parts@)),
{
    let ghost all = vec_views(parts@);
    let mut out: Vec<Vec<char>> = Vec::new();
    let mut i: usize = 0;
    while i < parts.len()
        invariant
            i <= parts@.len(),
            all == vec_views(parts@),
            vec_views(out@) == non_empty(all.subrange(0, i as int)),
        decreases parts.len() - i,
    {
        assert(all.subrange(0, i + 1).drop_last() =~= all.subrange(0, i as int));
        assert(all.subrange(0, i + 1).last() == parts@[i as int]@);
        if parts[i].len() > 0 {
            let ghost before = vec_views(out@);
            out.push(parts[i].clone());
            assert(vec_views(out@) =~= before.push(parts@[i as int]@));
        }
        i = i + 1;
    }
    assert(all.subrange(0, parts@.len() as int) =~= all);
    out
}

pub fn is_auxiliary_model_file(path: &str) -> (r: bool)
    ensures
        r == auxiliary_file(path@),
{
    let name = match file_name(path) {
        Some(n) => chars_of(n.as_str()),
        None => chars_of(path),
    };
    let l = lower_chars(name.as_slice());
    let tokens = keep_non_empty(alnum_split(l.as_slice()));
    let stripped = strip_all_suffix_exec(&l, ".gguf");
    let seps: Vec<char> = vec!['-', '.'];
    assert(seps@ =~= seq!['-', '.']);
    let parts = split_chars(stripped.as_slice(), seps.as_slice());
    let ghost pv = vec_views(parts@);
    let mut quants: usize = 0;
    let mut i: usize = 0;
    while i < parts.len()
        invariant
            i <= parts@.len(),
            pv == vec_views(parts@),
            quants as nat == count_quant_parts(pv.subrange(0, i as int)),
            quants <= i,
        decreases parts.len() - i,
    {
        assert(pv.subrange(0, i + 1).drop_last() =~= pv.subrange(0, i as int));
        assert(pv.subrange(0, i + 1).last() == parts@[i as int]@);
        let up = string_from(upper_chars(parts[i].as_slice()).as_slice());
        if is_quant_token(up.as_str()) {
            quants = quants + 1;
        }
        i = i + 1;
    }
    assert(pv.subrange(0, parts@.len() as int) =~= pv);
    let has_mtp = token_in(&tokens, "mtp");
    let has_dspark = token_in(&tokens, "dspark");
    let first_dspark = tokens.len() > 0 && seq_eq(tokens[0].as_slice(), chars_of("dspark").as_slice());
    proof {
        if tokens@.len() > 0 {
            assert(vec_views(tokens@)[0] == tokens@[0]@);
        }
    }
    (has_mtp && quants > 1) || (has_dspark && (first_dspark || token_in(&tokens, "support")))
}

/// A shard `prefix-<index>-of-<total>.gguf` of a split model, as
/// `(prefix, index, total)` with `1 <= index <= total`.
pub open spec fn split_part_of(path: Seq<char>) -> Option<(Seq<char>, nat, nat)> {
    if path.len() < 5 || lower(path.subrange(path.len() - 5, path.len() as int)) != ".gguf"@ {
        None
    } else {
        let stem = path.subrange(0, path.len() - 5);
        match last_occurrence(stem, "-of-"@) {
            None => None,
            Some(k) => {
                let before = stem.subrange(0, k);
                let total_text = stem.subrange(k + 4, stem.len() as int);
                match last_index_of(before, '-') {
                    None => None,
                    Some(j) => {
                        let prefix = before.subrange(0, j);
                        let index_text = before.subrange(j + 1, before.len() as int);
                        match (parse_unsigned(index_text, usize::MAX as nat), parse_unsigned(total_text, usize::MAX as nat)) {
                            (Some(index), Some(total)) => if index > 0 && total > 0 && index <= total {
                                Some((prefix, index, total))
                            } else {
                                None
                            },
                            _ => None,
                        }
                    },
                }
            },
        }
    }
}

pub fn split_model_part(path: &str) -> (r: Option<(String, usize, usize)>)
    ensures
        match r {
            Some((p, i, t)) => split_part_of(path@) == Some((p@, i as nat, t as nat)),
            None => split_part_of(path@) is None,
        },
{
    let v = chars_of(path);
    let n = v.len();
    if n < 5 {
        return None;
    }
    let tail = lower_chars(slice_subrange(v.as_slice(), n - 5, n));
    if !seq_eq(tail.as_slice(), chars_of(".gguf").as_slice()) {
        return None;
    }
    let stem = slice_subrange(v.as_slice(), 0, n - 5);
    let sep = chars_of("-of-");
    proof {
        reveal_strlit("-of-");
        lemma_last_occurrence(stem@, sep@);
    }
    let k = match rfind(stem, sep.as_slice()) {
        Some(k) => k,
        None => return None,
    };
    assert(occurs_at(stem@, sep@, k as int));
    let before = slice_subrange(stem, 0, k);
    let total_text = slice_subrange(stem, k + 4, stem.len());
    proof { lemma_last_index_of(before@, '-'); }
    let j = match rfind_char(before, '-') {
        Some(j) => j,
        None => return None,
    };
    let prefix = slice_subrange(before, 0, j);
    let index_text = slice_subrange(before, j + 1, before.len());
    let index = match parse_decimal(index_text, usize::MAX as u64) {
        Some(x) => x,
        None => return None,
    };
    let total = match parse_decimal(total_text, usize::MAX as u64) {
        Some(x) => x,
        None => return None,
    };
    if index > 0 && total > 0 && index <= total {
        Some((string_from(prefix), index as usize, total as usize))
    } else {
        None
    }
}

/// A model fits when it takes at most five sixths of the capacity (a 20%
/// headroom); an unknown size never fits.
pub open spec fn supported(model_bytes: Option<u64>, capacity_bytes: u64) -> bool {
    match model_bytes {
        Some(b) => b * 120 <= capacity_bytes * 100,
        None => false,
    }
}

pub fn is_supported(model_bytes: Option<u64>, capacity_bytes: u64) -> (r: bool)
    ensures
        r == supported(model_bytes, capacity_bytes),
{
    match model_bytes {
        Some(b) => (b as u128) * 120 <= (capacity_bytes as u128) * 100,
        None => false,
    }
}

/// `repo` with `/` written as `__`, usable as a directory name.
pub open spec fn repo_dirname_of(repo: Seq<char>) -> Seq<char>
    decreases repo.len(),
{
    if repo.len() == 0 {
        seq![]
    } else if repo.last() == '/' {
        repo_dirname_of(repo.drop_last()) + seq!['_', '_']
    } else {
        repo_dirname_of(repo.drop_last()).push(repo.last())
    }
}

pub fn sanitize_repo_dirname(repo: &str) -> (r: String)
    ensures
        r@ == repo_dirname_of(repo@),
{
    let v = chars_of(repo);
    let mut out: Vec<char> = Vec::new();
    let mut i: usize = 0;
    while i < v.len()
        invariant
            i <= v@.len(),
            out@ == repo_dirname_of(v@.subrange(0, i as int)),
        decreases v.len() - i,
    {
        assert(v@.subrange(0, i + 1).drop_last() =~= v@.subrange(0, i as int));
        if v[i] == '/' {
            out.push('_');
            out.push('_');
            assert(out@ =~= repo_dirname_of(v@.subrange(0, i + 1)));
        } else {
            out.push(v[i]);
        }
        i = i + 1;
    }
    assert(v@.subrange(0, v@.len() as int) =~= v@);
    string_from(out.as_slice())
}

/// Characters outside ASCII letters, digits, `.` and `-` become `-`.
pub open spec fn repo_alias_chars(s: Seq<char>) -> Seq<char> {
    s.map_values(|c: char| if is_alnum(c) || c == '.' || c == '-' { c } else { '-' })
}

/// A short alias for a repository id: its last path segment, lower-cased,
/// `_` as `-`, other punctuation as `-`, without leading or trailing `-`.
pub open spec fn alias_of_repo(repo: Seq<char>) -> Seq<char> {
    let name = match last_index_of(repo, '/') { Some(k) => repo.subrange(k + 1, repo.len() as int), None => repo };
    trim_char(repo_alias_chars(replace_char(lower(name), '_', '-')), '-')
}

pub fn alias_from_repo(repo: &str) -> (r: String)
    ensures
        r@ == alias_of_repo(repo@),
{
    let v = chars_of(repo);
    let n = v.len();
    proof { lemma_last_index_of(v@, '/'); }
    let name = match rfind_char(v.as_slice(), '/') {
        Some(k) => slice_subrange(v.as_slice(), k + 1, n),
        None => v.as_slice(),
    };
    let l = lower_chars(name);
    let rep = replace_chars(l.as_slice(), '_', '-');
    let mut out: Vec<char> = Vec::new();
    let mut i: usize = 0;
    while i < rep.len()
        invariant
            i <= rep@.len(),
            out@ == repo_alias_chars(rep@.subrange(0, i as int)),
        decreases rep.len() - i,
    {
        let c = rep[i];
        let keep = ('a' <= c && c <= 'z') || ('A' <= c && c <= 'Z') || ('0' <= c && c <= '9') || c == '.' || c == '-';
        out.push(if keep { c } else { '-' });
        i = i + 1;
        assert(out@ =~= repo_alias_chars(rep@.subrange(0, i as int)));
    }
    assert(rep@.subrange(0, rep@.len() as int) =~= rep@);
    let (a, b) = trim_char_range(out.as_slice(), '-');
    string_from(slice_subrange(out.as_slice(), a, b))
}

/// The kind a model file is taken to have from its name.
pub open spec fn kind_of_filename(filename: Seq<char>) -> Seq<char> {
    let l = lower(filename);
    if contains(l, "rerank"@) {
        "reranker"@
    } else if contains(l, "embed"@) {
        "embedding"@
    } else if contains(l, "-vl"@) || contains(l, "vision"@) {
        "vision"@
    } else if contains(l, "coder"@) || contains(l, "-code"@) {
        "coder"@
    } else {
        "chat"@
    }
}

pub fn infer_kind_from_filename(filename: &str) -> (r: String)
    ensures
        r@ == kind_of_filename(filename@),
{
    let l = to_lower(filename);
    let l = l.as_str();
    if str_contains(l, "rerank") {
        string_from_str("reranker")
    } else if str_contains(l, "embed") {
        string_from_str("embedding")
    } else if str_contains(l, "-vl") || str_contains(l, "vision") {
        string_from_str("vision")
    } else if str_contains(l, "coder") || str_contains(l, "-code") {
        string_from_str("coder")
    } else {
        string_from_str("chat")
    }
}

/// Bytes as decimal megabytes, rounded up (`5243 MB`).
pub open spec fn mb_text(bytes: u64) -> Seq<char> {
    decimal(((bytes + 999999) / 1000000) as nat) + " MB"@
}

pub fn format_mb(bytes: u64) -> (r: String)
    ensures
        r@ == mb_text(bytes),
{
    let mb = ((bytes as u128 + 999999) / 1000000) as u64;
    concat_str(fmt_decimal(mb).as_str(), " MB")
}

/// An alias not in `used`: `alias`, or the first free `alias-2`, `alias-3`, ...
pub fn dedupe_alias(alias: &str, used: &[String]) -> (r: String)
    requires
        used@.len() + 2 <= u64::MAX,
    ensures
        r@ == free_alias_of(alias@, strings_view(used@)),
{
    free_alias(alias, used)
}

pub open spec fn connections_message() -> Seq<char> {
    "models pull: --connections must be an integer from 1 to 16"@
}

/// `--connections`: an integer from 1 to 16.
pub fn parse_connections(value: &str) -> (r: Result<u16, &'static str>)
    ensures
        match parse_unsigned(value@, u16::MAX as nat) {
            Some(n) => if 1 <= n <= 16 { r == Ok::<u16, &'static str>(n as u16) } else { r matches Err(m) && m@ == connections_message() },
            None => r matches Err(m) && m@ == connections_message(),
        },
{
    let msg: &'static str = "models pull: --connections must be an integer from 1 to 16";
    let v = chars_of(value);
    let n = match parse_decimal(v.as_slice(), u16::MAX as u64) {
        Some(n) => n,
        None => return Err(msg),
    };
    if !(1 <= n && n <= 16) {
        return Err(msg);
    }
    Ok(n as u16)
}

/// The value after the flag at `*i`, advancing past both.
pub fn require_val(args: &[String], i: &mut usize, flag: &str) -> (r: Result<String, String>)
    requires
        *old(i) + 2 <= usize::MAX,
    ensures
        *old(i) + 1 < args@.len() ==> (r matches Ok(v) && v@ == args@[*old(i) + 1]@ && *final(i) == *old(i) + 2),
        *old(i) + 1 >= args@.len() ==> (r matches Err(m) && m@ == "models pull vllm: missing value for "@ + flag@
            && *final(i) == *old(i)),
{
    if *i + 1 < args.len() {
        let val = args[*i + 1].clone();
        *i = *i + 2;
        Ok(val)
    } else {
        Err(concat_str("models pull vllm: missing value for ", flag))
    }
}

/// `mb` MiB as GiB with one decimal.
pub open spec fn gib_text(mb: u64) -> Seq<char> {
    one_decimal(tenths_of(mb as nat, 1024))
}

pub open spec fn hardware_summary_text(ram_mb: u64, vram_mb: u64) -> Seq<char> {
    let total = if ram_mb + vram_mb > u64::MAX { u64::MAX } else { (ram_mb + vram_mb) as u64 };
    "Hardware: System RAM "@ + gib_text(ram_mb) + " GiB | NVIDIA VRAM "@ + gib_text(vram_mb) + " GiB | Total "@
        + gib_text(total) + " GiB"@
}

/// The hardware line of `models search`: RAM, VRAM and their sum in GiB.
pub fn format_hardware_summary(total_ram_mb: u64, total_vram_mb: u64) -> (r: String)
    ensures
        r@ == hardware_summary_text(total_ram_mb, total_vram_mb),
{
    let total = total_ram_mb.saturating_add(total_vram_mb);
    let a = concat_str("Hardware: System RAM ", fmt_one_decimal(total_ram_mb, 1024).as_str());
    let b = concat_str(a.as_str(), " GiB | NVIDIA VRAM ");
    let c = concat_str(b.as_str(), fmt_one_decimal(total_vram_mb, 1024).as_str());
    let d = concat_str(c.as_str(), " GiB | Total ");
    let e = concat_str(d.as_str(), fmt_one_decimal(total, 1024).as_str());
    concat_str(e.as_str(), " GiB")
}

// ── Selecting a file by `--quant` ───────────────────────────────────────────

/// A file `--quant auto` may pick: not auxiliary, not a shard, with a
/// quantization label, and fitting the capacity.
pub open spec fn auto_eligible(e: HfTreeEntry, capacity: u64) -> bool {
    !auxiliary_file(e.path@) && !auxiliary_token(e.path@) && split_part_of(e.path@) is None
        && quant_of(e.path@).len() > 0 && supported(Some(e.size), capacity)
}

/// The last of the largest eligible files (`max_by_key` keeps the last of
/// equal maxima).
pub open spec fn is_auto_choice(es: Seq<HfTreeEntry>, capacity: u64, i: int) -> bool {
    &&& 0 <= i < es.len()
    &&& auto_eligible(es[i], capacity)
    &&& forall|j: int| 0 <= j < es.len() && auto_eligible(#[trigger] es[j], capacity) ==> es[j].size <= es[i].size
    &&& forall|j: int| i < j < es.len() && auto_eligible(#[trigger] es[j], capacity) ==> es[j].size < es[i].size
}

pub open spec fn has_quant(es: Seq<HfTreeEntry>, q: Seq<char>) -> bool {
    exists|i: int| 0 <= i < es.len() && quant_of((#[trigger] es[i]).path@) == q
}

/// `Q<digits>`: a quantization family.
pub open spec fn is_family(sel: Seq<char>) -> bool {
    sel.len() >= 2 && sel[0] == 'Q' && all_digits(sel.drop_first())
}

pub open spec fn family_preferences(sel: Seq<char>) -> Seq<Seq<char>> {
    seq![sel + "_K_M"@, sel + "_K_S"@, sel + "_0"@, sel + "_1"@]
}

/// The first of the family's preferred labels that some file has.
pub open spec fn first_preferred(es: Seq<HfTreeEntry>, prefs: Seq<Seq<char>>) -> Option<Seq<char>>
    decreases prefs.len(),
{
    if prefs.len() == 0 {
        None
    } else if has_quant(es, prefs[0]) {
        Some(prefs[0])
    } else {
        first_preferred(es, prefs.drop_first())
    }
}

/// The label a selector asks for: `K_M` means `Q4_K_M`, a family its first
/// available preferred label, anything else itself.
pub open spec fn target_of(es: Seq<HfTreeEntry>, sel: Seq<char>) -> Result<Seq<char>, Seq<char>> {
    if sel == "K_M"@ {
        Ok("Q4_K_M"@)
    } else if is_family(sel) {
        match first_preferred(es, family_preferences(sel)) {
            Some(t) => Ok(t),
            None => Err("no preferred "@ + sel + " quantization is available"@),
        }
    } else {
        Ok(sel)
    }
}

pub open spec fn count_quant(es: Seq<HfTreeEntry>, q: Seq<char>) -> nat
    decreases es.len(),
{
    if es.len() == 0 {
        0
    } else {
        count_quant(es.drop_last(), q) + if quant_of(es.last().path@) == q { 1nat } else { 0nat }
    }
}

/// Which file a `--quant` selector picks, by index, or why none.
pub open spec fn selection(es: Seq<HfTreeEntry>, selector: Seq<char>, capacity: u64, repository: Seq<char>) -> Result<int, Seq<char>> {
    let sel = upper(trim(selector));
    if sel == "AUTO"@ {
        if auxiliary_token(repository) {
            Err("auto selection is disabled for an auxiliary repository"@)
        } else if exists|i: int| is_auto_choice(es, capacity, i) {
            Ok(choose|i: int| is_auto_choice(es, capacity, i))
        } else {
            Err("no quantization fits the detected hardware capacity"@)
        }
    } else {
        match target_of(es, sel) {
            Err(m) => Err(m),
            Ok(t) => if count_quant(es, t) == 1 {
                Ok(choose|i: int| 0 <= i < es.len() && quant_of(es[i].path@) == t)
            } else if count_quant(es, t) == 0 {
                Err("quantization "@ + t + " is not available"@)
            } else {
                Err("multiple files provide "@ + t + "; use a repository with one file per quantization"@)
            },
        }
    }
}

/// `--quant auto` picks the largest file that fits: the pick is eligible,
/// no eligible file is larger, and it is the last of equally large ones; it
/// succeeds whenever some file is eligible and the repository is not an
/// auxiliary one.
pub proof fn lemma_auto_selection_is_largest(es: Seq<HfTreeEntry>, selector: Seq<char>, capacity: u64, repository: Seq<char>)
    requires
        upper(trim(selector)) == "AUTO"@,
    ensures
        selection(es, selector, capacity, repository) matches Ok(i) ==> {
            &&& 0 <= i < es.len()
            &&& auto_eligible(es[i], capacity)
            &&& forall|j: int| 0 <= j < es.len() && auto_eligible(#[trigger] es[j], capacity) ==> es[j].size <= es[i].size
            &&& forall|j: int| i < j < es.len() && auto_eligible(#[trigger] es[j], capacity) ==> es[j].size < es[i].size
        },
        (!auxiliary_token(repository) && exists|j: int| 0 <= j < es.len() && auto_eligible(#[trigger] es[j], capacity))
            ==> selection(es, selector, capacity, repository) is Ok,
{
    if !auxiliary_token(repository) && exists|j: int| 0 <= j < es.len() && auto_eligible(#[trigger] es[j], capacity) {
        let j = choose|j: int| 0 <= j < es.len() && auto_eligible(#[trigger] es[j], capacity);
        lemma_auto_choice_exists(es, capacity, j);
    }
}

proof fn lemma_auto_choice_exists(es: Seq<HfTreeEntry>, capacity: u64, w: int)
    requires
        0 <= w < es.len(),
        auto_eligible(es[w], capacity),
    ensures
        exists|i: int| is_auto_choice(es, capacity, i),
    decreases u64::MAX - es[w].size, es.len() - w,
{
    if exists|j: int| 0 <= j < es.len() && auto_eligible(#[trigger] es[j], capacity) && (es[j].size > es[w].size || (es[j].size == es[w].size && j > w)) {
        let j = choose|j: int| 0 <= j < es.len() && auto_eligible(#[trigger] es[j], capacity) && (es[j].size > es[w].size || (es[j].size == es[w].size && j > w));
        lemma_auto_choice_exists(es, capacity, j);
    } else {
        assert(is_auto_choice(es, capacity, w));
    }
}

pub open spec fn deref_entries(es: Seq<&HfTreeEntry>) -> Seq<HfTreeEntry> {
    es.map_values(|e: &HfTreeEntry| *e)
}

fn quant_count(entries: &[&HfTreeEntry], t: &str) -> (r: (usize, Option<usize>))
    ensures
        r.0 as nat == count_quant(deref_entries(entries@), t@) || (r.0 == 2 && count_quant(deref_entries(entries@), t@) >= 2),
        r.0 <= 2,
        r.0 >= 1 ==> (r.1 matches Some(i) && i < entries@.len() && quant_of(entries@[i as int].path@) == t@),
        r.0 == 0 ==> !has_quant(deref_entries(entries@), t@),
{
    let ghost es = deref_entries(entries@);
    let mut n: usize = 0;
    let mut first: Option<usize> = None;
    let mut i: usize = 0;
    while i < entries.len()
        invariant
            i <= entries@.len(),
            es == deref_entries(entries@),
            n <= 2,
            n as nat == count_quant(es.subrange(0, i as int), t@) || (n == 2 && count_quant(es.subrange(0, i as int), t@) >= 2),
            n >= 1 ==> (first matches Some(k) && k < entries@.len() && quant_of(entries@[k as int].path@) == t@),
            n == 0 ==> forall|j: int| 0 <= j < i ==> quant_of((#[trigger] es[j]).path@) != t@,
        decreases entries.len() - i,
    {
        assert(es.subrange(0, i + 1).drop_last() =~= es.subrange(0, i as int));
        assert(es[i as int] == *entries@[i as int]);
        let q = extract_quant(entries[i].path.as_str());
        if str_eq(q.as_str(), t) {
            if n == 0 {
                first = Some(i);
            }
            if n < 2 {
                n = n + 1;
            }
        }
        i = i + 1;
    }
    assert(es.subrange(0, entries@.len() as int) =~= es);
    (n, first)
}

fn auto_choice(entries: &[&HfTreeEntry], capacity_bytes: u64) -> (r: Option<usize>)
    ensures
        match r {
            Some(i) => is_auto_choice(deref_entries(entries@), capacity_bytes, i as int),
            None => !exists|i: int| is_auto_choice(deref_entries(entries@), capacity_bytes, i),
        },
{
    let ghost es = deref_entries(entries@);
    let mut best: Option<usize> = None;
    let mut i: usize = 0;
    while i < entries.len()
        invariant
            i <= entries@.len(),
            es == deref_entries(entries@),
            match best {
                Some(b) => b < i && auto_eligible(es[b as int], capacity_bytes)
                    && (forall|j: int| 0 <= j < i && auto_eligible(#[trigger] es[j], capacity_bytes) ==> es[j].size <= es[b as int].size)
                    && (forall|j: int| b < j < i && auto_eligible(#[trigger] es[j], capacity_bytes) ==> es[j].size < es[b as int].size),
                None => forall|j: int| 0 <= j < i ==> !auto_eligible(#[trigger] es[j], capacity_bytes),
            },
        decreases entries.len() - i,
    {
        let e = entries[i];
        assert(es[i as int] == *e);
        let path = e.path.as_str();
        let eligible = !is_auxiliary_model_file(path) && !contains_auxiliary_token(path)
            && split_model_part(path).is_none() && !crate::text::str_is_empty(extract_quant(path).as_str())
            && is_supported(Some(e.size), capacity_bytes);
        if eligible {
            match best {
                Some(b) => {
                    if e.size >= entries[b].size {
                        best = Some(i);
                    }
                },
                None => {
                    best = Some(i);
                },
            }
        }
        i = i + 1;
    }
    match best {
        Some(b) => Some(b),
        None => {
            assert forall|k: int| !is_auto_choice(es, capacity_bytes, k) by {}
            None
        },
    }
}

fn family_target(entries: &[&HfTreeEntry], sel: &str) -> (r: Option<String>)
    ensures
        match r {
            Some(t) => first_preferred(deref_entries(entries@), family_preferences(sel@)) == Some(t@),
            None => first_preferred(deref_entries(entries@), family_preferences(sel@)) is None,
        },
{
    let ghost es = deref_entries(entries@);
    let prefs: Vec<String> = vec![
        concat_str(sel, "_K_M"),
        concat_str(sel, "_K_S"),
        concat_str(sel, "_0"),
        concat_str(sel, "_1"),
    ];
    let ghost pv = strings_view(prefs@);
    assert(pv =~= family_preferences(sel@));
    assert(pv.subrange(0, 4) =~= pv);
    let mut k: usize = 0;
    while k < prefs.len()
        invariant
            k <= prefs@.len(),
            prefs@.len() == 4,
            pv == strings_view(prefs@),
            es == deref_entries(entries@),
            first_preferred(es, family_preferences(sel@)) == first_preferred(es, pv.subrange(k as int, 4)),
        decreases prefs.len() - k,
    {
        let ghost rest = pv.subrange(k as int, 4);
        assert(rest[0] == prefs@[k as int]@);
        assert(rest.drop_first() =~= pv.subrange(k + 1, 4));
        let (n, first) = quant_count(entries, prefs[k].as_str());
        if n > 0 {
            proof {
                let i = first->0;
                assert(es[i as int] == *entries@[i as int]);
                assert(has_quant(es, rest[0]));
            }
            return Some(prefs[k].clone());
        }
        k = k + 1;
    }
    assert(pv.subrange(4, 4) =~= Seq::<Seq<char>>::empty());
    None
}

/// The file a `--quant` selector picks among `entries`: `auto` takes the
/// largest file that fits `capacity_bytes`; `K_M` means `Q4_K_M`; `Q4`
/// and the like take the family's preferred label; any other selector is
/// matched exactly and must match one file.
pub fn select_quant_entry<'a>(entries: &'a [&'a HfTreeEntry], selector: &str, capacity_bytes: u64, repository: &str)
    -> (r: Result<&'a HfTreeEntry, String>)
    ensures
        match selection(deref_entries(entries@), selector@, capacity_bytes, repository@) {
            Ok(i) => r matches Ok(e) && 0 <= i < entries@.len() && *e == *entries@[i],
            Err(m) => r matches Err(s) && s@ == m,
        },
{
    let ghost es = deref_entries(entries@);
    let trimmed = crate::text::trim_str(selector);
    let sel = to_upper(trimmed.as_str());
    assert(sel@ == upper(trim(selector@)));
    if str_eq(sel.as_str(), "AUTO") {
        if contains_auxiliary_token(repository) {
            return Err(string_from_str("auto selection is disabled for an auxiliary repository"));
        }
        return match auto_choice(entries, capacity_bytes) {
            Some(i) => {
                proof {
                    let w = choose|w: int| is_auto_choice(es, capacity_bytes, w);
                    assert(w == i) by {
                        if w < i {
                            assert(es[i as int].size < es[w].size);
                        } else if w > i {
                            assert(es[w].size < es[i as int].size);
                        }
                    }
                }
                Ok(entries[i])
            },
            None => Err(string_from_str("no quantization fits the detected hardware capacity")),
        };
    }
    let sv = chars_of(sel.as_str());
    let family = if sv.len() >= 2 && sv[0] == 'Q' {
        let rest = slice_subrange(sv.as_slice(), 1, sv.len());
        assert(rest@ =~= sel@.drop_first());
        crate::text::all_digits_exec(rest)
    } else {
        false
    };
    assert(family == is_family(sel@));
    let target: String = if str_eq(sel.as_str(), "K_M") {
        string_from_str("Q4_K_M")
    } else if family {
        match family_target(entries, sel.as_str()) {
            Some(t) => t,
            None => {
                let a = concat_str("no preferred ", sel.as_str());
                return Err(concat_str(a.as_str(), " quantization is available"));
            },
        }
    } else {
        sel
    };
    assert(target_of(es, upper(trim(selector@))) == Ok::<Seq<char>, Seq<char>>(target@));
    let (n, first) = quant_count(entries, target.as_str());
    if n == 1 {
        let i = first.unwrap();
        proof {
            lemma_single_quant(es, target@, i as int);
        }
        Ok(entries[i])
    } else if n == 0 {
        let a = concat_str("quantization ", target.as_str());
        Err(concat_str(a.as_str(), " is not available"))
    } else {
        let a = concat_str("multiple files provide ", target.as_str());
        Err(concat_str(a.as_str(), "; use a repository with one file per quantization"))
    }
}

proof fn lemma_count_quant_pos(es: Seq<HfTreeEntry>, q: Seq<char>, i: int)
    requires
        0 <= i < es.len(),
        quant_of(es[i].path@) == q,
    ensures
        count_quant(es, q) >= 1,
    decreases es.len(),
{
    if i < es.len() - 1 {
        lemma_count_quant_pos(es.drop_last(), q, i);
    }
}

/// With exactly one file of label `q`, it is the one at `i`.
proof fn lemma_single_quant(es: Seq<HfTreeEntry>, q: Seq<char>, i: int)
    requires
        0 <= i < es.len(),
        quant_of(es[i].path@) == q,
        count_quant(es, q) == 1,
    ensures
        (choose|k: int| 0 <= k < es.len() && quant_of(es[k].path@) == q) == i,
{
    let k = choose|k: int| 0 <= k < es.len() && quant_of(es[k].path@) == q;
    if k != i {
        lemma_count_two(es, q, i, k);
    }
}

proof fn lemma_count_two(es: Seq<HfTreeEntry>, q: Seq<char>, i: int, k: int)
    requires
        0 <= i < es.len(),
        0 <= k < es.len(),
        i != k,
        quant_of(es[i].path@) == q,
        quant_of(es[k].path@) == q,
    ensures
        count_quant(es, q) >= 2,
    decreases es.len(),
{
    let last = es.len() - 1;
    if i == last {
        lemma_count_quant_pos(es.drop_last(), q, k);
    } else if k == last {
        lemma_count_quant_pos(es.drop_last(), q, i);
    } else {
        lemma_count_two(es.drop_last(), q, i, k);
    }
}

// ── The search table ────────────────────────────────────────────────────────

/// One repository row of `models search`, its cells already written.
#[derive(Debug, Clone)]
pub struct SearchRow {
    pub repo: String,
    pub files: String,
    pub size: String,
    pub fit: String,
    pub context: String,
    pub arch: String,
    pub speed: String,
    pub balanced: String,
    pub precision: String,
    pub quants: String,
}

pub open spec fn row_cells(r: SearchRow) -> Seq<Seq<char>> {
    seq![r.repo@, r.files@, r.size@, r.fit@, r.context@, r.arch@, r.speed@, r.balanced@, r.precision@, r.quants@]
}

pub open spec fn table_headings() -> Seq<Seq<char>> {
    seq!["REPO"@, "FILES"@, "SIZE"@, "FIT"@, "CONTEXT"@, "ARCH"@, "SPEED"@, "BALANCED"@, "PRECISION"@, "QUANT"@]
}

/// Bytes a character takes in UTF-8.
pub open spec fn utf8_len(c: char) -> nat {
    if (c as u32) < 0x80 { 1 } else if (c as u32) < 0x800 { 2 } else if (c as u32) < 0x10000 { 3 } else { 4 }
}

/// Bytes a string takes in UTF-8 (`str::len`).
pub open spec fn byte_len(s: Seq<char>) -> nat
    decreases s.len(),
{
    if s.len() == 0 { 0 } else { byte_len(s.drop_last()) + utf8_len(s.last()) }
}

/// The width of column `c`: the longest of its heading and its cells, in bytes.
pub open spec fn column_width(rows: Seq<SearchRow>, c: int) -> nat
    decreases rows.len(),
{
    if rows.len() == 0 {
        byte_len(table_headings()[c])
    } else {
        let w = column_width(rows.drop_last(), c);
        let cell = byte_len(row_cells(rows.last())[c]);
        if cell > w { cell } else { w }
    }
}

pub open spec fn spaces(n: nat) -> Seq<char> {
    Seq::new(n, |i: int| ' ')
}

/// Left-aligned in `w` characters (`{:<w$}`).
pub open spec fn pad_end(s: Seq<char>, w: nat) -> Seq<char> {
    if s.len() >= w { s } else { s + spaces((w - s.len()) as nat) }
}

/// Right-aligned in `w` characters (`{:>w$}`).
pub open spec fn pad_start(s: Seq<char>, w: nat) -> Seq<char> {
    if s.len() >= w { s } else { spaces((w - s.len()) as nat) + s }
}

/// Columns 1 to 3 (files, size, fit) are right-aligned, the others left.
pub open spec fn aligned_cell(cells: Seq<Seq<char>>, widths: Seq<nat>, c: int) -> Seq<char> {
    if 1 <= c <= 3 { pad_start(cells[c], widths[c]) } else { pad_end(cells[c], widths[c]) }
}

/// The first `k` padded cells, each followed by ` | `.
pub open spec fn leading_cells(cells: Seq<Seq<char>>, widths: Seq<nat>, k: nat) -> Seq<char>
    decreases k,
{
    if k == 0 { seq![] } else { leading_cells(cells, widths, (k - 1) as nat) + aligned_cell(cells, widths, k - 1) + " | "@ }
}

/// A table line: nine padded cells, then the last cell unpadded.
pub open spec fn table_line(cells: Seq<Seq<char>>, widths: Seq<nat>) -> Seq<char> {
    leading_cells(cells, widths, 9) + cells[9] + "\n"@
}

pub open spec fn table_widths(rows: Seq<SearchRow>) -> Seq<nat> {
    Seq::new(9, |c: int| column_width(rows, c))
}

pub open spec fn table_body(rows: Seq<SearchRow>, widths: Seq<nat>) -> Seq<char>
    decreases rows.len(),
{
    if rows.len() == 0 {
        seq![]
    } else {
        table_body(rows.drop_last(), widths) + table_line(row_cells(rows.last()), widths)
    }
}

/// The search table: a heading line, then one line per row.
pub open spec fn search_table(rows: Seq<SearchRow>) -> Seq<char> {
    table_line(table_headings(), table_widths(rows)) + table_body(rows, table_widths(rows))
}

pub open spec fn is_ascii_text(s: Seq<char>) -> bool {
    forall|i: int| 0 <= i < s.len() ==> (#[trigger] s[i] as u32) < 0x80
}

/// Where the `k`-th ` | ` separator of a table line ends: the widths of
/// the first `k` columns, each with its separator.
pub open spec fn column_offset(widths: Seq<nat>, k: nat) -> nat
    decreases k,
{
    if k == 0 { 0 } else { column_offset(widths, (k - 1) as nat) + widths[k - 1] + 3 }
}

proof fn lemma_byte_len_ascii(s: Seq<char>)
    requires
        is_ascii_text(s),
    ensures
        byte_len(s) == s.len(),
    decreases s.len(),
{
    if s.len() > 0 {
        assert(is_ascii_text(s.drop_last()));
        lemma_byte_len_ascii(s.drop_last());
        assert(s.last() == s[s.len() - 1]);
    }
}

proof fn lemma_column_width_covers(rows: Seq<SearchRow>, c: int)
    requires
        0 <= c < 10,
    ensures
        column_width(rows, c) >= byte_len(table_headings()[c]),
        forall|r: int| 0 <= r < rows.len() ==> column_width(rows, c) >= byte_len(row_cells(#[trigger] rows[r])[c]),
    decreases rows.len(),
{
    if rows.len() > 0 {
        lemma_column_width_covers(rows.drop_last(), c);
        assert forall|r: int| 0 <= r < rows.len() implies column_width(rows, c) >= byte_len(row_cells(#[trigger] rows[r])[c]) by {
            if r < rows.len() - 1 {
                assert(rows[r] == rows.drop_last()[r]);
            }
        }
    }
}

proof fn lemma_leading_cells_len(cells: Seq<Seq<char>>, widths: Seq<nat>, k: nat)
    requires
        k <= 9,
        cells.len() == 10,
        widths.len() == 9,
        forall|c: int| 0 <= c < k ==> (#[trigger] cells[c]).len() <= widths[c],
    ensures
        leading_cells(cells, widths, k).len() == column_offset(widths, k),
    decreases k,
{
    if k > 0 {
        lemma_leading_cells_len(cells, widths, (k - 1) as nat);
        reveal_strlit(" | ");
        let c = k - 1;
        assert(cells[c].len() <= widths[c]);
        assert(aligned_cell(cells, widths, c).len() == widths[c]);
    }
}

/// The search table is aligned: with every cell in plain ASCII, the
/// heading line and every row line put the `k`-th ` | ` separator at the
/// same place, after exactly the column widths so far; each line ends with
/// its last (quantization) cell unpadded.
pub proof fn lemma_search_table_aligned(rows: Seq<SearchRow>)
    requires
        forall|r: int, c: int| 0 <= r < rows.len() && 0 <= c < 9 ==> is_ascii_text(#[trigger] row_cells(rows[r])[c]),
    ensures
        forall|k: nat| k <= 9 ==> #[trigger] leading_cells(table_headings(), table_widths(rows), k).len()
            == column_offset(table_widths(rows), k),
        forall|r: int, k: nat| 0 <= r < rows.len() && k <= 9
            ==> #[trigger] leading_cells(row_cells(rows[r]), table_widths(rows), k).len() == column_offset(table_widths(rows), k),
        forall|r: int| 0 <= r < rows.len() ==> #[trigger] table_line(row_cells(rows[r]), table_widths(rows))
            == leading_cells(row_cells(rows[r]), table_widths(rows), 9) + rows[r].quants@ + "\n"@,
{
    let w = table_widths(rows);
    reveal_strlit("REPO");
    reveal_strlit("FILES");
    reveal_strlit("SIZE");
    reveal_strlit("FIT");
    reveal_strlit("CONTEXT");
    reveal_strlit("ARCH");
    reveal_strlit("SPEED");
    reveal_strlit("BALANCED");
    reveal_strlit("PRECISION");
    reveal_strlit("QUANT");
    assert forall|c: int| 0 <= c < 9 implies (#[trigger] table_headings()[c]).len() <= w[c] by {
        lemma_column_width_covers(rows, c);
        assert(is_ascii_text(table_headings()[c]));
        lemma_byte_len_ascii(table_headings()[c]);
    }
    assert forall|k: nat| k <= 9 implies #[trigger] leading_cells(table_headings(), w, k).len() == column_offset(w, k) by {
        lemma_leading_cells_len(table_headings(), w, k);
    }
    assert forall|r: int, k: nat| 0 <= r < rows.len() && k <= 9
        implies #[trigger] leading_cells(row_cells(rows[r]), w, k).len() == column_offset(w, k) by {
        assert forall|c: int| 0 <= c < 9 implies (#[trigger] row_cells(rows[r])[c]).len() <= w[c] by {
            lemma_column_width_covers(rows, c);
            lemma_byte_len_ascii(row_cells(rows[r])[c]);
        }
        lemma_leading_cells_len(row_cells(rows[r]), w, k);
    }
}

/// `str::len`: the length of the string's UTF-8 encoding in bytes.
#[verifier::external_body]
pub(crate) fn byte_len_exec(s: &str) -> (r: usize)
    ensures
        r as nat == byte_len(s@),
{
    s.len()
}

fn char_count(s: &str) -> (r: usize)
    ensures
        r as nat == s@.len(),
{
    s.unicode_len()
}

fn push_spaces(out: &mut String, n: usize)
    ensures
        final(out)@ == old(out)@ + spaces(n as nat),
{
    let mut i: usize = 0;
    while i < n
        invariant
            i <= n,
            out@ == old(out)@ + spaces(i as nat),
        decreases n - i,
    {
        crate::text::push_char(out, ' ');
        i = i + 1;
        assert(out@ =~= old(out)@ + spaces(i as nat));
    }
}

pub(crate) fn push_padded(out: &mut String, s: &str, w: usize, right: bool)
    ensures
        final(out)@ == old(out)@ + (if right { pad_start(s@, w as nat) } else { pad_end(s@, w as nat) }),
{
    let n = char_count(s);
    if right && n < w {
        push_spaces(out, w - n);
    }
    out.append(s);
    if !right && n < w {
        push_spaces(out, w - n);
    }
    assert(out@ =~= old(out)@ + (if right { pad_start(s@, w as nat) } else { pad_end(s@, w as nat) }));
}

fn push_line(out: &mut String, cells: &[&str; 10], widths: &[usize; 9])
    ensures
        final(out)@ == old(out)@ + table_line(
            Seq::new(10, |i: int| cells@[i]@),
            Seq::new(9, |i: int| widths@[i] as nat),
        ),
{
    let ghost cs = Seq::new(10, |i: int| cells@[i]@);
    let ghost ws = Seq::new(9, |i: int| widths@[i] as nat);
    let mut c: usize = 0;
    while c < 9
        invariant
            c <= 9,
            cs == Seq::new(10, |i: int| cells@[i]@),
            ws == Seq::new(9, |i: int| widths@[i] as nat),
            out@ == old(out)@ + leading_cells(cs, ws, c as nat),
        decreases 9 - c,
    {
        let right = 1 <= c && c <= 3;
        push_padded(out, cells[c], widths[c], right);
        out.append(" | ");
        assert(cs[c as int] == cells@[c as int]@ && ws[c as int] == widths@[c as int] as nat);
        assert(out@ =~= old(out)@ + leading_cells(cs, ws, (c + 1) as nat));
        c = c + 1;
    }
    out.append(cells[9]);
    out.append("\n");
    assert(cs[9] == cells@[9]@);
    assert(out@ =~= old(out)@ + table_line(cs, ws));
}

fn row_array(r: &SearchRow) -> (a: [&str; 10])
    ensures
        Seq::new(10, |i: int| a@[i]@) == row_cells(*r),
{
    let a: [&str; 10] = [
        r.repo.as_str(), r.files.as_str(), r.size.as_str(), r.fit.as_str(), r.context.as_str(),
        r.arch.as_str(), r.speed.as_str(), r.balanced.as_str(), r.precision.as_str(), r.quants.as_str(),
    ];
    assert(Seq::new(10, |i: int| a@[i]@) =~= row_cells(*r));
    a
}

/// Lay out the `models search` table: every column but the last as wide as
/// its widest entry, heading included.
pub fn render_search_table(rows: &[SearchRow]) -> (r: String)
    ensures
        r@ == search_table(rows@),
{
    let headings: [&str; 10] = ["REPO", "FILES", "SIZE", "FIT", "CONTEXT", "ARCH", "SPEED", "BALANCED", "PRECISION", "QUANT"];
    assert(Seq::new(10, |i: int| headings@[i]@) =~= table_headings());
    let mut widths: [usize; 9] = [0; 9];
    let mut c: usize = 0;
    while c < 9
        invariant
            c <= 9,
            forall|k: int| 0 <= k < c ==> widths@[k] as nat == column_width(rows@, k),
            Seq::new(10, |i: int| headings@[i]@) == table_headings(),
        decreases 9 - c,
    {
        let mut w = byte_len_exec(headings[c]);
        assert(headings@[c as int]@ == table_headings()[c as int]);
        let mut j: usize = 0;
        while j < rows.len()
            invariant
                j <= rows@.len(),
                c < 9,
                w as nat == column_width(rows@.subrange(0, j as int), c as int),
                Seq::new(10, |i: int| headings@[i]@) == table_headings(),
            decreases rows.len() - j,
        {
            let cells = row_array(&rows[j]);
            let n = byte_len_exec(cells[c]);
            assert(cells@[c as int]@ == row_cells(rows@[j as int])[c as int]);
            assert(rows@.subrange(0, j + 1).drop_last() =~= rows@.subrange(0, j as int));
            if n > w {
                w = n;
            }
            j = j + 1;
        }
        assert(rows@.subrange(0, rows@.len() as int) =~= rows@);
        widths[c] = w;
        c = c + 1;
    }
    let ghost ws = Seq::new(9, |i: int| widths@[i] as nat);
    assert(ws =~= table_widths(rows@));
    let mut out = String::new();
    push_line(&mut out, &headings, &widths);
    let mut j: usize = 0;
    while j < rows.len()
        invariant
            j <= rows@.len(),
            ws == Seq::new(9, |i: int| widths@[i] as nat),
            ws == table_widths(rows@),
            out@ == table_line(table_headings(), ws) + table_body(rows@.subrange(0, j as int), ws),
        decreases rows.len() - j,
    {
        let cells = row_array(&rows[j]);
        push_line(&mut out, &cells, &widths);
        assert(rows@.subrange(0, j + 1).drop_last() =~= rows@.subrange(0, j as int));
        j = j + 1;
    }
    assert(rows@.subrange(0, rows@.len() as int) =~= rows@);
    out
}

} // verus!

//! The decisions of `models search` and `models search vllm`: reading their
//! arguments, the cells of the result table, the suggested pull commands,
//! which vLLM candidates fit, and the text printed. Querying the Hub,
//! probing the hardware and the floating-point speed and quality estimates
//! are the caller's; it hands in what it found, numbers already rendered.
use vstd::prelude::*;
use crate::fit::{can_possibly_serve, hardware_can_possibly_serve, HardwareSummary};
use crate::hf_download::{bytes_text, format_bytes, fmt_one_decimal, one_decimal, tenths_of, HfTreeEntry};
use crate::models_cmd::{
    format_mb, hardware_summary_text, mb_text, pad_end, push_padded, render_search_table, row_cells, search_table, SearchRow,
};
use crate::text::{
    concat_str, decimal, float_literal, fmt_decimal, has_prefix, has_suffix, is_float_literal, join, join_strings,
    opt_str, parse_decimal_str, parse_unsigned, str_ends_with, str_eq, str_starts_with, string_from_str, strings_view,
};
use crate::vllm_meta::{is_safetensors_repo, safetensors_repo, VllmMetadata};
use crate::model_options::{
    cand_quant, complete_model_options, entry_candidate, lists_quant, minimal_offers, option_before, option_view,
    quants_distinct, ModelOption,
};
use crate::models_cmd::{auxiliary_token, contains_auxiliary_token, is_supported, supported};
use crate::text::{contains, lower, str_contains, to_lower};

verus! {

// ── Arguments ───────────────────────────────────────────────────────────────

/// Which search was asked for: `models search vllm ...` or a GGUF search.
#[derive(Debug, Clone, Copy, PartialEq, Eq, Structural)]
pub enum SearchMode {
    Gguf,
    Vllm,
}

/// `args[0]` is `search`; a second word `vllm` selects the vLLM search,
/// whose own arguments start there.
pub fn search_mode(args: &[String]) -> (r: SearchMode)
    ensures
        r == (if args@.len() > 1 && args@[1]@ == "vllm"@ { SearchMode::Vllm } else { SearchMode::Gguf }),
{
    if args.len() > 1 && str_eq(args[1].as_str(), "vllm") {
        SearchMode::Vllm
    } else {
        SearchMode::Gguf
    }
}

/// What `models search <query> [--limit N] [--ram-bandwidth-gbps N]` asks.
#[derive(Debug, Clone)]
pub struct SearchArgs {
    pub query: String,
    pub limit: u32,
    /// `--ram-bandwidth-gbps` as given, checked to be a number; the speed
    /// estimate that reads it is the caller's.
    pub ram_bandwidth_gbps: Option<String>,
}

/// What `models search vllm <query> [--limit N]` asks.
#[derive(Debug, Clone)]
pub struct VllmSearchArgs {
    pub query: String,
    pub limit: u32,
}

pub ghost struct SearchScan {
    pub query: Option<Seq<char>>,
    pub limit: u32,
    pub bandwidth: Option<Seq<char>>,
}

pub open spec fn search_prefix(vllm: bool) -> Seq<char> {
    if vllm { "models search vllm: "@ } else { "models search: "@ }
}

/// Reading the arguments from index `i` on; the vLLM search knows no
/// `--ram-bandwidth-gbps`.
pub open spec fn scan_search(args: Seq<Seq<char>>, i: int, st: SearchScan, vllm: bool) -> Result<SearchScan, Seq<char>>
    decreases args.len() - i,
{
    if i >= args.len() || i < 1 {
        Ok(st)
    } else {
        let a = args[i];
        let has_value = i + 1 < args.len();
        let v = args[i + 1];
        if a == "--limit"@ {
            if !has_value {
                Err(search_prefix(vllm) + "missing value for --limit"@)
            } else {
                match parse_unsigned(v, u32::MAX as nat) {
                    Some(n) => scan_search(args, i + 2, SearchScan { limit: n as u32, ..st }, vllm),
                    None => Err(search_prefix(vllm) + "invalid value for --limit"@),
                }
            }
        } else if !vllm && a == "--ram-bandwidth-gbps"@ {
            if !has_value {
                Err("models search: missing value for --ram-bandwidth-gbps"@)
            } else if float_literal(v) {
                scan_search(args, i + 2, SearchScan { bandwidth: Some(v), ..st }, vllm)
            } else {
                Err("models search: invalid value for --ram-bandwidth-gbps"@)
            }
        } else if has_prefix(a, "-"@) {
            Err(search_prefix(vllm) + "unknown flag '"@ + a + "'"@)
        } else {
            scan_search(args, i + 1, SearchScan { query: Some(a), ..st }, vllm)
        }
    }
}

/// No query yet; at most 30 results for the vLLM search, 10 for GGUF.
pub open spec fn initial_search_scan(vllm: bool) -> SearchScan {
    SearchScan { query: None, limit: if vllm { 30 } else { 10 }, bandwidth: None }
}

/// The outcome of reading the arguments: the scan, or the first error; a
/// search without a query is an error.
pub open spec fn search_args_of(args: Seq<Seq<char>>, vllm: bool) -> Result<SearchScan, Seq<char>> {
    match scan_search(args, 1, initial_search_scan(vllm), vllm) {
        Ok(st) => if st.query is None { Err(search_prefix(vllm) + "missing search query"@) } else { Ok(st) },
        Err(m) => Err(m),
    }
}

fn scan_args(args: &[String], vllm: bool) -> (r: Result<(String, u32, Option<String>), String>)
    ensures
        match search_args_of(strings_view(args@), vllm) {
            Ok(st) => r matches Ok(t) && st.query == Some(t.0@) && st.limit == t.1 && st.bandwidth == opt_str(t.2),
            Err(m) => r matches Err(s) && s@ == m,
        },
{
    let ghost av = strings_view(args@);
    let prefix = if vllm { "models search vllm: " } else { "models search: " };
    assert(prefix@ == search_prefix(vllm));
    let mut query: Option<String> = None;
    let mut limit: u32 = if vllm { 30 } else { 10 };
    let mut bandwidth: Option<String> = None;
    let ghost init = initial_search_scan(vllm);
    assert(init == SearchScan { query: opt_str(query), limit, bandwidth: opt_str(bandwidth) });
    let mut i: usize = 1;
    while i < args.len()
        invariant
            1 <= i,
            av == strings_view(args@),
            prefix@ == search_prefix(vllm),
            init == initial_search_scan(vllm),
            scan_search(av, 1, init, vllm) == scan_search(av, i as int,
                SearchScan { query: opt_str(query), limit, bandwidth: opt_str(bandwidth) }, vllm),
        decreases args.len() - i,
    {
        let a = args[i].as_str();
        assert(av[i as int] == a@);
        let has_value = i + 1 < args.len();
        proof {
            if has_value {
                assert(av[i + 1] == args@[i + 1]@);
            }
        }
        if str_eq(a, "--limit") {
            if !has_value {
                return Err(concat_str(prefix, "missing value for --limit"));
            }
            match parse_decimal_str(args[i + 1].as_str(), 4294967295u64) {
                Some(n) => {
                    limit = n as u32;
                },
                None => {
                    return Err(concat_str(prefix, "invalid value for --limit"));
                },
            }
            i = i + 2;
        } else if !vllm && str_eq(a, "--ram-bandwidth-gbps") {
            if !has_value {
                return Err(string_from_str("models search: missing value for --ram-bandwidth-gbps"));
            }
            if !is_float_literal(args[i + 1].as_str()) {
                return Err(string_from_str("models search: invalid value for --ram-bandwidth-gbps"));
            }
            bandwidth = Some(args[i + 1].clone());
            i = i + 2;
        } else if str_starts_with(a, "-") {
            let m1 = concat_str(prefix, "unknown flag '");
            let m2 = concat_str(m1.as_str(), a);
            return Err(concat_str(m2.as_str(), "'"));
        } else {
            query = Some(string_from_str(a));
            i = i + 1;
        }
    }
    match query {
        Some(q) => Ok((q, limit, bandwidth)),
        None => Err(concat_str(prefix, "missing search query")),
    }
}

/// Read the arguments of `models search` (`args[0]` is `search`).
pub fn parse_search_args(args: &[String]) -> (r: Result<SearchArgs, String>)
    ensures
        match search_args_of(strings_view(args@), false) {
            Ok(st) => r matches Ok(a) && st.query == Some(a.query@) && st.limit == a.limit
                && st.bandwidth == opt_str(a.ram_bandwidth_gbps),
            Err(m) => r matches Err(s) && s@ == m,
        },
{
    match scan_args(args, false) {
        Ok((query, limit, ram_bandwidth_gbps)) => Ok(SearchArgs { query, limit, ram_bandwidth_gbps }),
        Err(m) => Err(m),
    }
}

/// Read the arguments of `models search vllm` (`args[0]` is `vllm`).
pub fn parse_search_vllm_args(args: &[String]) -> (r: Result<VllmSearchArgs, String>)
    ensures
        match search_args_of(strings_view(args@), true) {
            Ok(st) => r matches Ok(a) && st.query == Some(a.query@) && st.limit == a.limit,
            Err(m) => r matches Err(s) && s@ == m,
        },
{
    match scan_args(args, true) {
        Ok((query, limit, _)) => Ok(VllmSearchArgs { query, limit }),
        Err(m) => Err(m),
    }
}

// ── The GGUF search table ───────────────────────────────────────────────────

/// What the table reads of one hit of the Hub's model search.
#[derive(Debug, Clone)]
pub struct SearchHit {
    /// `id`: the repository.
    pub id: Option<String>,
    /// The `rfilename` of each entry of `siblings` that has one.
    pub sibling_files: Vec<String>,
    /// `gguf.total`: the model's size in bytes.
    pub gguf_total: Option<u64>,
    /// `gguf.context_length`.
    pub context_length: Option<u64>,
    /// `gguf.architecture`.
    pub architecture: Option<String>,
    /// The entries of `tags` that are strings.
    pub tags: Vec<String>,
}

/// A quantization the estimates picked, its numbers already rendered:
/// tokens per second with no decimal, quality percent with one.
#[derive(Debug, Clone)]
pub struct QuantPick {
    pub quant: String,
    pub tokens_per_sec: String,
    pub quality_score: String,
}

/// The assessment of one repository as the table shows it: the fit score
/// rendered with no decimal, the fastest, balanced and most precise
/// quantizations, and every quantization that fits.
#[derive(Debug, Clone)]
pub struct AssessmentCells {
    pub fit_score: String,
    pub fastest: Option<QuantPick>,
    pub balanced: Option<QuantPick>,
    pub best_precision: Option<QuantPick>,
    pub quants: Vec<String>,
}

/// How many of the files are `.gguf` files.
pub open spec fn gguf_count(files: Seq<Seq<char>>) -> nat
    decreases files.len(),
{
    if files.len() == 0 {
        0
    } else {
        gguf_count(files.drop_last()) + if has_suffix(files.last(), ".gguf"@) { 1nat } else { 0nat }
    }
}

pub open spec fn speed_cell(p: QuantPick) -> Seq<char> {
    p.quant@ + " ~"@ + p.tokens_per_sec@ + "tok/s"@
}

pub open spec fn balanced_cell(p: QuantPick) -> Seq<char> {
    p.quant@ + " ~"@ + p.tokens_per_sec@ + "tok/s/~"@ + p.quality_score@ + "%"@
}

pub open spec fn precision_cell(p: QuantPick) -> Seq<char> {
    p.quant@ + " ~"@ + p.quality_score@ + "%"@
}

/// The assessment shown beside hit `i`, when there is one.
pub open spec fn assessment_at(assessments: Seq<AssessmentCells>, i: int) -> Option<AssessmentCells> {
    if 0 <= i < assessments.len() { Some(assessments[i]) } else { None }
}

/// The ten cells of a hit's row: repository (`?` without one), number of
/// GGUF files, size, fit score, context, architecture, fastest, balanced and
/// most precise quantization, and the quantizations that fit; a missing
/// assessment or pick shows `-`.
pub open spec fn search_cells(hit: SearchHit, a: Option<AssessmentCells>) -> Seq<Seq<char>> {
    seq![
        match hit.id { Some(id) => id@, None => "?"@ },
        decimal(gguf_count(strings_view(hit.sibling_files@))),
        match hit.gguf_total { Some(t) => mb_text(t), None => Seq::<char>::empty() },
        match a { Some(x) => x.fit_score@, None => "-"@ },
        match hit.context_length { Some(c) => decimal(c as nat) + " tok"@, None => Seq::<char>::empty() },
        match hit.architecture { Some(x) => x@, None => Seq::<char>::empty() },
        match a { Some(x) => match x.fastest { Some(p) => speed_cell(p), None => "-"@ }, None => "-"@ },
        match a { Some(x) => match x.balanced { Some(p) => balanced_cell(p), None => "-"@ }, None => "-"@ },
        match a { Some(x) => match x.best_precision { Some(p) => precision_cell(p), None => "-"@ }, None => "-"@ },
        match a { Some(x) => if x.quants@.len() > 0 { join(strings_view(x.quants@), ","@) } else { "-"@ }, None => "-"@ },
    ]
}

fn count_gguf(files: &[String]) -> (r: u64)
    ensures
        r as nat == gguf_count(strings_view(files@)),
{
    let ghost fs = strings_view(files@);
    let mut n: u64 = 0;
    let mut i: usize = 0;
    while i < files.len()
        invariant
            i <= files@.len(),
            fs == strings_view(files@),
            n as nat == gguf_count(fs.subrange(0, i as int)),
            n <= i,
        decreases files.len() - i,
    {
        assert(fs.subrange(0, i + 1).drop_last() =~= fs.subrange(0, i as int));
        if str_ends_with(files[i].as_str(), ".gguf") {
            n = n + 1;
        }
        i = i + 1;
    }
    assert(fs.subrange(0, fs.len() as int) =~= fs);
    n
}

fn cat3(a: &str, b: &str, c: &str) -> (r: String)
    ensures
        r@ == a@ + b@ + c@,
{
    let x = concat_str(a, b);
    concat_str(x.as_str(), c)
}

fn pick_cell(p: &Option<QuantPick>, kind: u8) -> (r: String)
    requires
        kind < 3,
    ensures
        r@ == match *p {
            Some(q) => if kind == 0 { speed_cell(q) } else if kind == 1 { balanced_cell(q) } else { precision_cell(q) },
            None => "-"@,
        },
{
    match p {
        Some(q) => {
            let head = cat3(q.quant.as_str(), " ~", if kind == 2 { q.quality_score.as_str() } else { q.tokens_per_sec.as_str() });
            if kind == 0 {
                concat_str(head.as_str(), "tok/s")
            } else if kind == 1 {
                let m = cat3(head.as_str(), "tok/s/~", q.quality_score.as_str());
                concat_str(m.as_str(), "%")
            } else {
                concat_str(head.as_str(), "%")
            }
        },
        None => string_from_str("-"),
    }
}

/// The row of hit `index`, beside its assessment when there is one.
pub fn search_row(hit: &SearchHit, assessments: &[AssessmentCells], index: usize) -> (r: SearchRow)
    ensures
        row_cells(r) == search_cells(*hit, assessment_at(assessments@, index as int)),
{
    let repo = match &hit.id {
        Some(id) => id.clone(),
        None => string_from_str("?"),
    };
    let files = fmt_decimal(count_gguf(hit.sibling_files.as_slice()));
    let size = match hit.gguf_total {
        Some(t) => format_mb(t),
        None => String::new(),
    };
    let context = match hit.context_length {
        Some(c) => concat_str(fmt_decimal(c).as_str(), " tok"),
        None => String::new(),
    };
    let arch = match &hit.architecture {
        Some(a) => a.clone(),
        None => String::new(),
    };
    let (fit, speed, balanced, precision, quants) = if index < assessments.len() {
        let a = &assessments[index];
        let quants = if a.quants.len() > 0 { join_strings(a.quants.as_slice(), ",") } else { string_from_str("-") };
        (a.fit_score.clone(), pick_cell(&a.fastest, 0), pick_cell(&a.balanced, 1), pick_cell(&a.best_precision, 2), quants)
    } else {
        (string_from_str("-"), string_from_str("-"), string_from_str("-"), string_from_str("-"), string_from_str("-"))
    };
    let r = SearchRow { repo, files, size, fit, context, arch, speed, balanced, precision, quants };
    assert(row_cells(r) =~= search_cells(*hit, assessment_at(assessments@, index as int)));
    r
}

/// One row per hit, in order, hit `i` beside assessment `i`.
pub fn search_rows(hits: &[SearchHit], assessments: &[AssessmentCells]) -> (r: Vec<SearchRow>)
    ensures
        r@.len() == hits@.len(),
        forall|i: int| 0 <= i < hits@.len() ==> row_cells(#[trigger] r@[i]) == search_cells(hits@[i], assessment_at(assessments@, i)),
{
    let mut rows: Vec<SearchRow> = Vec::new();
    let mut i: usize = 0;
    while i < hits.len()
        invariant
            i <= hits@.len(),
            rows@.len() == i,
            forall|k: int| 0 <= k < i ==> row_cells(#[trigger] rows@[k]) == search_cells(hits@[k], assessment_at(assessments@, k)),
        decreases hits.len() - i,
    {
        let row = search_row(&hits[i], assessments, i);
        rows.push(row);
        i = i + 1;
    }
    rows
}

// ── Assessing a repository ──────────────────────────────────────────────────

/// A repository holds a model of its own: no tag marks it a draft or
/// auxiliary model, its architecture is no drafter's, and neither its name
/// nor any of its files carries a `drafter` or `speculator` token.
pub open spec fn standalone(hit: SearchHit, entries: Seq<HfTreeEntry>) -> bool {
    let arch = lower(match hit.architecture { Some(a) => a@, None => Seq::empty() });
    &&& !exists|k: int| 0 <= k < hit.tags@.len() && {
            let t = lower(#[trigger] hit.tags@[k]@);
            t == "draft-model"@ || t == "auxiliary-model"@
        }
    &&& !(arch == "dflash"@ || arch == "deepseek4-dspark"@ || contains(arch, "draft"@) || contains(arch, "speculator"@))
    &&& !(match hit.id { Some(id) => auxiliary_token(id@), None => false })
    &&& !exists|k: int| 0 <= k < entries.len() && auxiliary_token(#[trigger] entries[k].path@)
}

pub fn is_standalone_model(hit: &SearchHit, entries: &[HfTreeEntry]) -> (r: bool)
    ensures
        r == standalone(*hit, entries@),
{
    let mut k: usize = 0;
    while k < hit.tags.len()
        invariant
            k <= hit.tags@.len(),
            forall|j: int| 0 <= j < k ==> {
                let t = lower(#[trigger] hit.tags@[j]@);
                !(t == "draft-model"@ || t == "auxiliary-model"@)
            },
        decreases hit.tags.len() - k,
    {
        let t = to_lower(hit.tags[k].as_str());
        if str_eq(t.as_str(), "draft-model") || str_eq(t.as_str(), "auxiliary-model") {
            return false;
        }
        k = k + 1;
    }
    let arch = match &hit.architecture {
        Some(a) => to_lower(a.as_str()),
        None => String::new(),
    };
    assert(arch@ =~= lower(match hit.architecture { Some(a) => a@, None => Seq::empty() }));
    if str_eq(arch.as_str(), "dflash") || str_eq(arch.as_str(), "deepseek4-dspark") || str_contains(arch.as_str(), "draft")
        || str_contains(arch.as_str(), "speculator") {
        return false;
    }
    let repository_is_auxiliary = match &hit.id {
        Some(id) => contains_auxiliary_token(id.as_str()),
        None => false,
    };
    if repository_is_auxiliary {
        return false;
    }
    let mut i: usize = 0;
    while i < entries.len()
        invariant
            i <= entries@.len(),
            forall|j: int| 0 <= j < i ==> !auxiliary_token(#[trigger] entries@[j].path@),
        decreases entries.len() - i,
    {
        if contains_auxiliary_token(entries[i].path.as_str()) {
            return false;
        }
        i = i + 1;
    }
    true
}

/// What the search decides of a repository apart from its speed and
/// quality estimates: whether any quantization fits, which ones do, and
/// the one it recommends.
#[derive(Debug, Clone)]
pub struct SearchAssessment {
    pub supported: bool,
    pub quants: Vec<ModelOption>,
    pub recommended_quant: Option<String>,
}

/// The options whose size fits the capacity, in order.
pub open spec fn fitting_options(all: Seq<ModelOption>, capacity: u64) -> Seq<ModelOption>
    decreases all.len(),
{
    if all.len() == 0 {
        Seq::empty()
    } else {
        let rest = fitting_options(all.drop_last(), capacity);
        if supported(Some(all.last().bytes), capacity) { rest.push(all.last()) } else { rest }
    }
}

/// `Q4_K_M` when it fits, else the last (largest) fitting quantization.
pub open spec fn recommended_of(qs: Seq<ModelOption>) -> Option<Seq<char>> {
    if exists|i: int| 0 <= i < qs.len() && (#[trigger] qs[i]).quant@ == "Q4_K_M"@ {
        Some("Q4_K_M"@)
    } else if qs.len() > 0 {
        Some(qs.last().quant@)
    } else {
        None
    }
}

/// The complete options of a listing, as `complete_model_options` gives them.
pub open spec fn complete_options(es: Seq<HfTreeEntry>, all: Seq<ModelOption>) -> bool {
    &&& minimal_offers(es, all, es.len() as int)
    &&& quants_distinct(all)
    &&& forall|i: int| 0 <= i < es.len() && (#[trigger] entry_candidate(es, i)) is Some ==> lists_quant(all, cand_quant(es, i))
    &&& forall|a: int, b: int| 0 <= a < b < all.len() ==> option_before(option_view(#[trigger] all[a]), option_view(#[trigger] all[b]))
}

/// Assess a repository for a machine holding `capacity_bytes`: nothing for
/// a draft or auxiliary repository; else its complete options that fit,
/// and the recommended one.
pub fn assess_repository(hit: &SearchHit, entries: &[HfTreeEntry], capacity_bytes: u64) -> (r: SearchAssessment)
    ensures
        !standalone(*hit, entries@) ==> !r.supported && r.quants@.len() == 0 && r.recommended_quant is None,
        standalone(*hit, entries@) ==> exists|all: Seq<ModelOption>| #![trigger complete_options(entries@, all)]
            complete_options(entries@, all) && r.quants@ == fitting_options(all, capacity_bytes),
        r.supported == (r.quants@.len() > 0),
        opt_str(r.recommended_quant) == recommended_of(r.quants@),
{
    if !is_standalone_model(hit, entries) {
        return SearchAssessment { supported: false, quants: Vec::new(), recommended_quant: None };
    }
    let all = complete_model_options(entries);
    assert(complete_options(entries@, all@));
    let mut quants: Vec<ModelOption> = Vec::new();
    let mut i: usize = 0;
    while i < all.len()
        invariant
            i <= all@.len(),
            quants@ == fitting_options(all@.subrange(0, i as int), capacity_bytes),
        decreases all.len() - i,
    {
        assert(all@.subrange(0, i + 1).drop_last() =~= all@.subrange(0, i as int));
        if is_supported(Some(all[i].bytes), capacity_bytes) {
            quants.push(ModelOption { quant: all[i].quant.clone(), bytes: all[i].bytes });
            assert(quants@.last() == all@[i as int]);
        }
        i = i + 1;
    }
    assert(all@.subrange(0, all@.len() as int) =~= all@);
    let mut k: usize = 0;
    while k < quants.len() && !str_eq(quants[k].quant.as_str(), "Q4_K_M")
        invariant
            k <= quants@.len(),
            forall|j: int| 0 <= j < k ==> (#[trigger] quants@[j]).quant@ != "Q4_K_M"@,
        decreases quants.len() - k,
    {
        k = k + 1;
    }
    let recommended: Option<String> = if k < quants.len() {
        Some(string_from_str("Q4_K_M"))
    } else if quants.len() > 0 {
        Some(quants[quants.len() - 1].quant.clone())
    } else {
        None
    };
    let supported = quants.len() > 0;
    SearchAssessment { supported, quants, recommended_quant: recommended }
}

// ── Suggested pull commands ─────────────────────────────────────────────────

/// The pull commands suggested for a repository whose assessment has a
/// fastest quantization: that one, then the balanced and the most precise
/// ones when they name a quantization not shown yet.
pub open spec fn pull_lines(repo: Seq<char>, a: AssessmentCells) -> Seq<Seq<char>> {
    let f = a.fastest.unwrap();
    let first = "Try: ggs models pull "@ + repo + " --quant "@ + f.quant@ + "   (fastest, ~"@ + f.tokens_per_sec@
        + " tok/s est.)"@;
    let show_b = a.balanced is Some && a.balanced.unwrap().quant@ != f.quant@;
    let b = a.balanced.unwrap();
    let line_b = "     ggs models pull "@ + repo + " --quant "@ + b.quant@ + "   (balanced, ~"@ + b.tokens_per_sec@
        + " tok/s / ~"@ + b.quality_score@ + "% quality est.)"@;
    let p = a.best_precision.unwrap();
    let show_p = a.best_precision is Some && p.quant@ != f.quant@ && !(show_b && p.quant@ == b.quant@);
    let line_p = "     ggs models pull "@ + repo + " --quant "@ + p.quant@ + "   (least precision loss, ~"@
        + p.quality_score@ + "% quality est.)"@;
    seq![first] + (if show_b { seq![line_b] } else { Seq::empty() }) + (if show_p { seq![line_p] } else { Seq::empty() })
}

/// The first hit, among those with an assessment, that names a repository
/// and has a fastest quantization.
pub open spec fn first_pullable(hits: Seq<SearchHit>, assessments: Seq<AssessmentCells>, i: int) -> Option<int>
    decreases hits.len() - i,
{
    if i < 0 || i >= hits.len() || i >= assessments.len() {
        None
    } else if hits[i].id is Some && assessments[i].fastest is Some {
        Some(i)
    } else {
        first_pullable(hits, assessments, i + 1)
    }
}

pub open spec fn sample_pull_text(hits: Seq<SearchHit>, assessments: Seq<AssessmentCells>) -> Option<Seq<char>> {
    match first_pullable(hits, assessments, 0) {
        Some(i) => Some(join(pull_lines(hits[i].id.unwrap()@, assessments[i]), "\n"@)),
        None => None,
    }
}

fn pull_command_text(repo: &str, a: &AssessmentCells) -> (r: String)
    requires
        a.fastest is Some,
    ensures
        r@ == join(pull_lines(repo@, *a), "\n"@),
{
    let f = a.fastest.as_ref().unwrap();
    let mut out = string_from_str("Try: ggs models pull ");
    out.append(repo);
    out.append(" --quant ");
    out.append(f.quant.as_str());
    out.append("   (fastest, ~");
    out.append(f.tokens_per_sec.as_str());
    out.append(" tok/s est.)");
    let ghost lines = pull_lines(repo@, *a);
    let ghost first = lines[0];
    assert(out@ =~= first);
    let show_b = match &a.balanced {
        Some(b) => !str_eq(b.quant.as_str(), f.quant.as_str()),
        None => false,
    };
    let ghost after_b = if show_b { seq![first, lines[1]] } else { seq![first] };
    if show_b {
        let b = a.balanced.as_ref().unwrap();
        out.append("\n");
        out.append("     ggs models pull ");
        out.append(repo);
        out.append(" --quant ");
        out.append(b.quant.as_str());
        out.append("   (balanced, ~");
        out.append(b.tokens_per_sec.as_str());
        out.append(" tok/s / ~");
        out.append(b.quality_score.as_str());
        out.append("% quality est.)");
        proof {
            let ghost bb = a.balanced.unwrap();
            let ghost line_b = "     ggs models pull "@ + repo@ + " --quant "@ + bb.quant@ + "   (balanced, ~"@
                + bb.tokens_per_sec@ + " tok/s / ~"@ + bb.quality_score@ + "% quality est.)"@;
            assert(lines[1] == line_b);
            assert(after_b.drop_last() =~= seq![first]);
            assert(join(seq![first], "\n"@) == first);
            assert(join(after_b, "\n"@) == first + "\n"@ + line_b);
            assert(out@ =~= first + "\n"@ + line_b);
        }
    } else {
        assert(out@ =~= join(after_b, "\n"@));
    }
    let show_p = match &a.best_precision {
        Some(p) => !str_eq(p.quant.as_str(), f.quant.as_str())
            && !(show_b && str_eq(p.quant.as_str(), a.balanced.as_ref().unwrap().quant.as_str())),
        None => false,
    };
    if show_p {
        let p = a.best_precision.as_ref().unwrap();
        out.append("\n");
        out.append("     ggs models pull ");
        out.append(repo);
        out.append(" --quant ");
        out.append(p.quant.as_str());
        out.append("   (least precision loss, ~");
        out.append(p.quality_score.as_str());
        out.append("% quality est.)");
        let ghost all = after_b.push(lines[lines.len() - 1]);
        assert(lines =~= all);
        assert(all.drop_last() =~= after_b);
        assert(out@ =~= join(all, "\n"@));
    } else {
        assert(lines =~= after_b);
    }
    out
}

/// The pull commands suggested under the table: those of the first hit
/// that names a repository and whose assessment has a fastest quantization.
pub fn sample_pull_command(hits: &[SearchHit], assessments: &[AssessmentCells]) -> (r: Option<String>)
    ensures
        match sample_pull_text(hits@, assessments@) {
            Some(t) => r matches Some(s) && s@ == t,
            None => r is None,
        },
{
    let mut i: usize = 0;
    while i < hits.len() && i < assessments.len()
        invariant
            i <= hits@.len(),
            first_pullable(hits@, assessments@, 0) == first_pullable(hits@, assessments@, i as int),
        decreases hits.len() - i,
    {
        if hits[i].id.is_some() && assessments[i].fastest.is_some() {
            let repo = hits[i].id.as_ref().unwrap();
            return Some(pull_command_text(repo.as_str(), &assessments[i]));
        }
        i = i + 1;
    }
    None
}

// ── The text of a GGUF search ───────────────────────────────────────────────

/// The footer of both searches: the commands there are.
pub open spec fn commands_help_text() -> Seq<char> {
    "\nCommands:\n  ggs models search <query>                 GGUF/llama.cpp models\n  ggs models search vllm <query>            safetensors/vLLM models (preferred when available)\n  ggs models pull <repo> [--quant Q]         download + register a GGUF model\n  ggs models pull vllm <repo> [--draft ...]  download + register a vLLM model\n  ggs models files <repo>                    list a repo's files\n"@
}

pub fn search_commands_help() -> (r: String)
    ensures
        r@ == commands_help_text(),
{
    string_from_str("\nCommands:\n  ggs models search <query>                 GGUF/llama.cpp models\n  ggs models search vllm <query>            safetensors/vLLM models (preferred when available)\n  ggs models pull <repo> [--quant Q]         download + register a GGUF model\n  ggs models pull vllm <repo> [--draft ...]  download + register a vLLM model\n  ggs models files <repo>                    list a repo's files\n")
}

/// The legend under the GGUF table.
pub open spec fn legend_text() -> Seq<char> {
    "FIT: 0-100 memory-fit score (100 = comfortable headroom; 0 = does not fit RAM+VRAM). SPEED/PRECISION: the quant that maximizes each — tok/s from a memory-bandwidth model (verify against `llama-bench` on your machine), quality % from published per-quant perplexity measurements (\"~\" = extrapolated, not directly measured for this architecture). BALANCED: the quant with the best average of speed and quality, both normalized to this model's own quant options — a middle ground when you don't want either extreme. See docs/QUANT_SCORING.md for methodology and sources; override RAM bandwidth with --ram-bandwidth-gbps if you've measured your own."@
}

/// Whether a hit lists a `.safetensors` file.
pub open spec fn lists_safetensors(hit: SearchHit) -> bool {
    exists|k: int| 0 <= k < hit.sibling_files@.len() && has_suffix(#[trigger] hit.sibling_files@[k]@, ".safetensors"@)
}

/// The first hit from index `i` on that names a repository and lists a
/// `.safetensors` file: a build vLLM can serve.
pub open spec fn first_safetensors_hit(hits: Seq<SearchHit>, i: int) -> Option<int>
    decreases hits.len() - i,
{
    if i < 0 || i >= hits.len() {
        None
    } else if lists_safetensors(hits[i]) && hits[i].id is Some {
        Some(i)
    } else {
        first_safetensors_hit(hits, i + 1)
    }
}

fn lists_safetensors_exec(hit: &SearchHit) -> (r: bool)
    ensures
        r == lists_safetensors(*hit),
{
    let mut k: usize = 0;
    while k < hit.sibling_files.len()
        invariant
            k <= hit.sibling_files@.len(),
            forall|j: int| 0 <= j < k ==> !has_suffix(#[trigger] hit.sibling_files@[j]@, ".safetensors"@),
        decreases hit.sibling_files.len() - k,
    {
        if str_ends_with(hit.sibling_files[k].as_str(), ".safetensors") {
            return true;
        }
        k = k + 1;
    }
    false
}

/// The repository of the first hit of a plain Hub search that has a
/// safetensors build, if any.
pub fn vllm_alternative(hits: &[SearchHit]) -> (r: Option<String>)
    ensures
        match first_safetensors_hit(hits@, 0) {
            Some(i) => r matches Some(s) && hits@[i].id == Some(s),
            None => r is None,
        },
{
    let mut i: usize = 0;
    while i < hits.len()
        invariant
            i <= hits@.len(),
            first_safetensors_hit(hits@, 0) == first_safetensors_hit(hits@, i as int),
        decreases hits.len() - i,
    {
        if lists_safetensors_exec(&hits[i]) && hits[i].id.is_some() {
            return hits[i].id.clone();
        }
        i = i + 1;
    }
    None
}

pub open spec fn vllm_notice_text(repo: Seq<char>, query: Seq<char>) -> Seq<char> {
    "★ A vLLM-servable (safetensors) build is also available: "@ + repo
        + "\n  vLLM is preferred when both exist — see: ggs models search vllm \""@ + query + "\""@
}

/// What a GGUF search prints, given the rows of its table: nothing found;
/// or the hardware line, the speed-model line, the table, its legend, the
/// suggested pull commands, a pointer to a vLLM build when the plain
/// search found one, and the commands footer.
pub open spec fn search_output_text(
    query: Seq<char>,
    hits: Seq<SearchHit>,
    assessments: Seq<AssessmentCells>,
    rows: Seq<SearchRow>,
    total_ram_mb: u64,
    total_vram_mb: u64,
    speed_line: Seq<char>,
    plain_hits: Option<Seq<SearchHit>>,
) -> Seq<char> {
    if hits.len() == 0 {
        "No GGUF models found for \""@ + query + "\""@ + "\n"@
    } else {
        let pull = match sample_pull_text(hits, assessments) { Some(t) => t + "\n"@, None => Seq::empty() };
        let alternative = match plain_hits {
            Some(ph) => match first_safetensors_hit(ph, 0) {
                Some(i) => "\n"@ + vllm_notice_text(ph[i].id.unwrap()@, query) + "\n"@,
                None => Seq::empty(),
            },
            None => Seq::empty(),
        };
        hardware_summary_text(total_ram_mb, total_vram_mb) + "\n"@ + speed_line + "\n"@ + "\n"@ + search_table(rows)
            + legend_text() + "\n"@ + pull + alternative + commands_help_text()
    }
}

/// The rows the table shows for these hits and assessments.
pub open spec fn rows_for(rows: Seq<SearchRow>, hits: Seq<SearchHit>, assessments: Seq<AssessmentCells>) -> bool {
    rows.len() == hits.len()
        && forall|i: int| 0 <= i < hits.len() ==> row_cells(#[trigger] rows[i]) == search_cells(hits[i], assessment_at(assessments, i))
}

/// Everything a GGUF search prints: `hits` and `assessments` are what the
/// Hub search and the estimates gave, `speed_line` the line that states the
/// speed model's inputs, `plain_hits` the hits of the plain search for a
/// vLLM build (`None` when it failed).
pub fn search_output(
    query: &str,
    hits: &[SearchHit],
    assessments: &[AssessmentCells],
    total_ram_mb: u64,
    total_vram_mb: u64,
    speed_line: &str,
    plain_hits: &Option<Vec<SearchHit>>,
) -> (r: String)
    ensures
        exists|rows: Seq<SearchRow>| #![trigger rows_for(rows, hits@, assessments@)]
            rows_for(rows, hits@, assessments@) && r@ == search_output_text(query@, hits@, assessments@, rows,
            total_ram_mb, total_vram_mb, speed_line@, match plain_hits { Some(v) => Some(v@), None => None }),
{
    let ghost ph = match plain_hits { Some(v) => Some(v@), None => None };
    let rows = search_rows(hits, assessments);
    assert(rows_for(rows@, hits@, assessments@));
    if hits.len() == 0 {
        let a = concat_str("No GGUF models found for \"", query);
        let b = concat_str(a.as_str(), "\"");
        let r = concat_str(b.as_str(), "\n");
        assert(r@ == search_output_text(query@, hits@, assessments@, rows@, total_ram_mb, total_vram_mb, speed_line@, ph));
        return r;
    }
    let mut out = crate::models_cmd::format_hardware_summary(total_ram_mb, total_vram_mb);
    out.append("\n");
    out.append(speed_line);
    out.append("\n");
    out.append("\n");
    let table = render_search_table(rows.as_slice());
    out.append(table.as_str());
    out.append("FIT: 0-100 memory-fit score (100 = comfortable headroom; 0 = does not fit RAM+VRAM). SPEED/PRECISION: the quant that maximizes each — tok/s from a memory-bandwidth model (verify against `llama-bench` on your machine), quality % from published per-quant perplexity measurements (\"~\" = extrapolated, not directly measured for this architecture). BALANCED: the quant with the best average of speed and quality, both normalized to this model's own quant options — a middle ground when you don't want either extreme. See docs/QUANT_SCORING.md for methodology and sources; override RAM bandwidth with --ram-bandwidth-gbps if you've measured your own.");
    out.append("\n");
    let ghost head = out@;
    let pull = sample_pull_command(hits, assessments);
    match &pull {
        Some(c) => {
            out.append(c.as_str());
            out.append("\n");
        },
        None => {},
    }
    let ghost with_pull = out@;
    let alternative = match plain_hits {
        Some(v) => vllm_alternative(v.as_slice()),
        None => None,
    };
    match &alternative {
        Some(repo) => {
            out.append("\n");
            out.append("★ A vLLM-servable (safetensors) build is also available: ");
            out.append(repo.as_str());
            out.append("\n  vLLM is preferred when both exist — see: ggs models search vllm \"");
            out.append(query);
            out.append("\"");
            out.append("\n");
        },
        None => {},
    }
    let ghost with_alt = out@;
    let help = search_commands_help();
    out.append(help.as_str());
    proof {
        let pull_t = match sample_pull_text(hits@, assessments@) { Some(t) => t + "\n"@, None => Seq::<char>::empty() };
        assert(with_pull =~= head + pull_t);
        let alt_t = match ph {
            Some(p) => match first_safetensors_hit(p, 0) {
                Some(i) => "\n"@ + vllm_notice_text(p[i].id.unwrap()@, query@) + "\n"@,
                None => Seq::<char>::empty(),
            },
            None => Seq::<char>::empty(),
        };
        assert(with_alt =~= with_pull + alt_t);
        assert(out@ =~= search_output_text(query@, hits@, assessments@, rows@, total_ram_mb, total_vram_mb, speed_line@, ph));
    }
    out
}

// ── The vLLM search ─────────────────────────────────────────────────────────

/// A safetensors repository the vLLM search found: its metadata and the
/// total size of its `.safetensors` files.
#[derive(Debug, Clone)]
pub struct VllmCandidate {
    pub repo: String,
    pub meta: VllmMetadata,
    pub size_bytes: u64,
}

/// The total size of the `.safetensors` files of a repository tree.
pub open spec fn safetensors_total(es: Seq<HfTreeEntry>) -> nat
    decreases es.len(),
{
    if es.len() == 0 {
        0
    } else {
        safetensors_total(es.drop_last()) + if has_suffix(es.last().path@, ".safetensors"@) { es.last().size as nat } else { 0nat }
    }
}

proof fn lemma_safetensors_total_prefix(es: Seq<HfTreeEntry>, i: int)
    requires
        0 <= i <= es.len(),
    ensures
        safetensors_total(es.subrange(0, i)) <= safetensors_total(es),
    decreases es.len() - i,
{
    if i < es.len() {
        lemma_safetensors_total_prefix(es, i + 1);
        assert(es.subrange(0, i + 1).drop_last() =~= es.subrange(0, i));
    } else {
        assert(es.subrange(0, i) =~= es);
    }
}

/// A hit of the vLLM search is kept when its tree looks servable; its size
/// is that of its `.safetensors` files, its metadata what its `config.json`
/// gave (none when it could not be read).
pub fn vllm_candidate(repo: &str, entries: &[HfTreeEntry], meta: Option<VllmMetadata>) -> (r: Option<VllmCandidate>)
    requires
        safetensors_total(entries@) <= u64::MAX,
    ensures
        r is Some <==> safetensors_repo(entries@),
        r matches Some(c) ==> c.repo@ == repo@ && c.size_bytes as nat == safetensors_total(entries@) && match meta {
            Some(m) => c.meta == m,
            None => c.meta.quantization is None && c.meta.draft_model is None && c.meta.num_speculative_tokens is None
                && c.meta.max_position_embeddings is None && c.meta.architecture is None,
        },
{
    if !is_safetensors_repo(entries) {
        return None;
    }
    let mut total: u64 = 0;
    let mut i: usize = 0;
    while i < entries.len()
        invariant
            i <= entries@.len(),
            safetensors_total(entries@) <= u64::MAX,
            total as nat == safetensors_total(entries@.subrange(0, i as int)),
        decreases entries.len() - i,
    {
        proof {
            lemma_safetensors_total_prefix(entries@, i + 1);
            assert(entries@.subrange(0, i + 1).drop_last() =~= entries@.subrange(0, i as int));
        }
        if str_ends_with(entries[i].path.as_str(), ".safetensors") {
            total = total + entries[i].size;
        }
        i = i + 1;
    }
    assert(entries@.subrange(0, entries@.len() as int) =~= entries@);
    let meta = match meta {
        Some(m) => m,
        None => VllmMetadata::empty(),
    };
    Some(VllmCandidate { repo: string_from_str(repo), meta, size_bytes: total })
}

/// vLLM holds the weights on the GPUs alone: a repository fits when its
/// size in MiB can possibly be served from VRAM (an unknown size does).
pub open spec fn vllm_fits(size_bytes: u64, hw: HardwareSummary) -> bool {
    can_possibly_serve((size_bytes / 1048576) as nat, hw, false)
}

pub open spec fn vllm_header_text() -> Seq<char> {
    pad_end("REPO"@, 48) + " | "@ + pad_end("SIZE"@, 10) + " | "@ + pad_end("FITS"@, 5) + " | "@ + pad_end("QUANT"@, 10)
        + " | "@ + pad_end("MAX CTX"@, 10) + " | "@ + pad_end("ARCHITECTURE"@, 24) + " | "@
        + "DRAFT MODEL (speculative decoding)"@
}

pub open spec fn opt_or(o: Option<String>, d: Seq<char>) -> Seq<char> {
    match o { Some(s) => s@, None => d }
}

/// A candidate's line: repository, size (`-` when unknown), whether it
/// fits (`?` when the size is unknown), quantization, context length,
/// architecture and draft model.
pub open spec fn vllm_line_text(c: VllmCandidate, hw: HardwareSummary) -> Seq<char> {
    let size = if c.size_bytes > 0 { bytes_text(c.size_bytes) } else { "-"@ };
    let fits = if c.size_bytes == 0 { "?"@ } else if vllm_fits(c.size_bytes, hw) { "yes"@ } else { "no"@ };
    let ctx = match c.meta.max_position_embeddings { Some(n) => decimal(n as nat), None => "-"@ };
    pad_end(c.repo@, 48) + " | "@ + pad_end(size, 10) + " | "@ + pad_end(fits, 5) + " | "@
        + pad_end(opt_or(c.meta.quantization, "none (fp16/bf16)"@), 10) + " | "@ + pad_end(ctx, 10) + " | "@
        + pad_end(opt_or(c.meta.architecture, "-"@), 24) + " | "@ + opt_or(c.meta.draft_model, "-"@)
}

pub open spec fn vllm_lines_text(cs: Seq<VllmCandidate>, hw: HardwareSummary) -> Seq<char>
    decreases cs.len(),
{
    if cs.len() == 0 { Seq::empty() } else { vllm_lines_text(cs.drop_last(), hw) + vllm_line_text(cs.last(), hw) + "\n"@ }
}

/// The first candidate from index `i` on that fits.
pub open spec fn first_fitting(cs: Seq<VllmCandidate>, hw: HardwareSummary, i: int) -> Option<int>
    decreases cs.len() - i,
{
    if i < 0 || i >= cs.len() {
        None
    } else if vllm_fits(cs[i].size_bytes, hw) {
        Some(i)
    } else {
        first_fitting(cs, hw, i + 1)
    }
}

pub open spec fn no_fit_text(n: nat, query: Seq<char>, total_vram_mb: u64, limit: u32) -> Seq<char> {
    "Found "@ + decimal(n) + " safetensors repo(s) for \""@ + query + "\", but none fit this hardware's "@
        + one_decimal(tenths_of(total_vram_mb as nat, 1024))
        + " GiB total VRAM (vLLM requires GPU-resident weights) — listed below anyway so you can see what was found. Try a more specific query for a quantized variant (e.g. `ggs models search vllm \""@
        + query + " awq\"` or `\""@ + query + " gptq\"`), a higher `--limit` (currently "@ + decimal(limit as nat)
        + "), or `ggs models search "@ + query + "` for GGUF instead."@
}

/// What a vLLM search prints: nothing found; or, when no candidate fits,
/// a notice first; then the table of every candidate, the pull command for
/// the first that fits, and the commands footer.
pub open spec fn vllm_output_text(query: Seq<char>, limit: u32, cs: Seq<VllmCandidate>, hw: HardwareSummary) -> Seq<char> {
    if cs.len() == 0 {
        "No vLLM-servable (safetensors) models found for \""@ + query + "\""@ + "\n"@
    } else {
        let notice = if first_fitting(cs, hw, 0) is None {
            no_fit_text(cs.len(), query, hw.total_vram_mb, limit) + "\n"@
        } else {
            Seq::empty()
        };
        let try_line = match first_fitting(cs, hw, 0) {
            Some(i) => "\nTry: ggs models pull vllm "@ + cs[i].repo@
                + "   (pulls safetensors + config, writes models.toml with backend = \"vllm\")"@ + "\n"@,
            None => Seq::empty(),
        };
        notice + vllm_header_text() + "\n"@ + vllm_lines_text(cs, hw) + try_line + commands_help_text()
    }
}

/// The table of a vLLM search has one line per candidate, in order, none
/// left out for not fitting; the pull suggestion names the first candidate
/// that fits, and there is none exactly when no candidate fits.
pub proof fn lemma_vllm_rows(cs: Seq<VllmCandidate>, hw: HardwareSummary)
    ensures
        vllm_lines_text(cs, hw) == join(Seq::new(cs.len(), |i: int| vllm_line_text(cs[i], hw) + "\n"@), seq![]),
        first_fitting(cs, hw, 0) matches Some(i) ==> 0 <= i < cs.len() && vllm_fits(cs[i].size_bytes, hw)
            && forall|j: int| 0 <= j < i ==> !vllm_fits(#[trigger] cs[j].size_bytes, hw),
        first_fitting(cs, hw, 0) is None ==> forall|j: int| 0 <= j < cs.len() ==> !vllm_fits(#[trigger] cs[j].size_bytes, hw),
    decreases cs.len(),
{
    lemma_first_fitting(cs, hw, 0);
    let lines = Seq::new(cs.len(), |i: int| vllm_line_text(cs[i], hw) + "\n"@);
    if cs.len() > 0 {
        let init = cs.drop_last();
        lemma_vllm_rows(init, hw);
        let prev = Seq::new(init.len(), |i: int| vllm_line_text(init[i], hw) + "\n"@);
        assert(lines.drop_last() =~= prev);
        if cs.len() == 1 {
            assert(vllm_lines_text(init, hw) == Seq::<char>::empty());
            assert(vllm_lines_text(cs, hw) =~= lines[0]);
        } else {
            assert(join(lines, seq![]) == join(prev, seq![]) + seq![] + lines.last());
            assert(join(prev, seq![]) + Seq::<char>::empty() + lines.last() =~= vllm_lines_text(cs, hw));
        }
    }
}

proof fn lemma_first_fitting(cs: Seq<VllmCandidate>, hw: HardwareSummary, k: int)
    requires
        0 <= k,
    ensures
        first_fitting(cs, hw, k) matches Some(i) ==> k <= i < cs.len() && vllm_fits(cs[i].size_bytes, hw)
            && forall|j: int| k <= j < i ==> !vllm_fits(#[trigger] cs[j].size_bytes, hw),
        first_fitting(cs, hw, k) is None ==> forall|j: int| k <= j < cs.len() ==> !vllm_fits(#[trigger] cs[j].size_bytes, hw),
    decreases cs.len() - k,
{
    if k < cs.len() && !vllm_fits(cs[k].size_bytes, hw) {
        lemma_first_fitting(cs, hw, k + 1);
    }
}

fn vllm_line(c: &VllmCandidate, hw: &HardwareSummary) -> (r: String)
    ensures
        r@ == vllm_line_text(*c, *hw),
{
    let size = if c.size_bytes > 0 { format_bytes(c.size_bytes) } else { string_from_str("-") };
    let fits = if c.size_bytes == 0 {
        "?"
    } else if hardware_can_possibly_serve(c.size_bytes / 1048576, hw, false) {
        "yes"
    } else {
        "no"
    };
    let ctx = match c.meta.max_position_embeddings {
        Some(n) => fmt_decimal(n as u64),
        None => string_from_str("-"),
    };
    let quant = match &c.meta.quantization {
        Some(q) => q.as_str(),
        None => "none (fp16/bf16)",
    };
    let arch = match &c.meta.architecture {
        Some(a) => a.as_str(),
        None => "-",
    };
    let draft = match &c.meta.draft_model {
        Some(d) => d.as_str(),
        None => "-",
    };
    let mut out = String::new();
    push_padded(&mut out, c.repo.as_str(), 48, false);
    out.append(" | ");
    push_padded(&mut out, size.as_str(), 10, false);
    out.append(" | ");
    push_padded(&mut out, fits, 5, false);
    out.append(" | ");
    push_padded(&mut out, quant, 10, false);
    out.append(" | ");
    push_padded(&mut out, ctx.as_str(), 10, false);
    out.append(" | ");
    push_padded(&mut out, arch, 24, false);
    out.append(" | ");
    out.append(draft);
    assert(out@ =~= vllm_line_text(*c, *hw));
    out
}

fn vllm_header() -> (r: String)
    ensures
        r@ == vllm_header_text(),
{
    let mut out = String::new();
    push_padded(&mut out, "REPO", 48, false);
    out.append(" | ");
    push_padded(&mut out, "SIZE", 10, false);
    out.append(" | ");
    push_padded(&mut out, "FITS", 5, false);
    out.append(" | ");
    push_padded(&mut out, "QUANT", 10, false);
    out.append(" | ");
    push_padded(&mut out, "MAX CTX", 10, false);
    out.append(" | ");
    push_padded(&mut out, "ARCHITECTURE", 24, false);
    out.append(" | ");
    out.append("DRAFT MODEL (speculative decoding)");
    assert(out@ =~= vllm_header_text());
    out
}

/// Everything a vLLM search prints, given the candidates found (in the
/// order the searches finished) and the hardware.
pub fn search_vllm_output(query: &str, limit: u32, candidates: &[VllmCandidate], hw: &HardwareSummary) -> (r: String)
    ensures
        r@ == vllm_output_text(query@, limit, candidates@, *hw),
{
    if candidates.len() == 0 {
        let a = concat_str("No vLLM-servable (safetensors) models found for \"", query);
        let b = concat_str(a.as_str(), "\"");
        return concat_str(b.as_str(), "\n");
    }
    let mut i: usize = 0;
    while i < candidates.len() && !hardware_can_possibly_serve(candidates[i].size_bytes / 1048576, hw, false)
        invariant
            i <= candidates@.len(),
            first_fitting(candidates@, *hw, 0) == first_fitting(candidates@, *hw, i as int),
        decreases candidates.len() - i,
    {
        i = i + 1;
    }
    let first: Option<usize> = if i < candidates.len() { Some(i) } else { None };
    assert(first_fitting(candidates@, *hw, 0) == match first { Some(k) => Some(k as int), None => None::<int> });
    let mut out = String::new();
    if first.is_none() {
        out.append("Found ");
        out.append(fmt_decimal(candidates.len() as u64).as_str());
        out.append(" safetensors repo(s) for \"");
        out.append(query);
        out.append("\", but none fit this hardware's ");
        out.append(fmt_one_decimal(hw.total_vram_mb, 1024).as_str());
        out.append(" GiB total VRAM (vLLM requires GPU-resident weights) — listed below anyway so you can see what was found. Try a more specific query for a quantized variant (e.g. `ggs models search vllm \"");
        out.append(query);
        out.append(" awq\"` or `\"");
        out.append(query);
        out.append(" gptq\"`), a higher `--limit` (currently ");
        out.append(fmt_decimal(limit as u64).as_str());
        out.append("), or `ggs models search ");
        out.append(query);
        out.append("` for GGUF instead.");
        out.append("\n");
    }
    let ghost notice = out@;
    let header = vllm_header();
    out.append(header.as_str());
    out.append("\n");
    let ghost head = out@;
    let mut j: usize = 0;
    while j < candidates.len()
        invariant
            j <= candidates@.len(),
            out@ == head + vllm_lines_text(candidates@.subrange(0, j as int), *hw),
        decreases candidates.len() - j,
    {
        let line = vllm_line(&candidates[j], hw);
        out.append(line.as_str());
        out.append("\n");
        assert(candidates@.subrange(0, j + 1).drop_last() =~= candidates@.subrange(0, j as int));
        j = j + 1;
    }
    assert(candidates@.subrange(0, candidates@.len() as int) =~= candidates@);
    let ghost lines = out@;
    match first {
        Some(k) => {
            out.append("\nTry: ggs models pull vllm ");
            out.append(candidates[k].repo.as_str());
            out.append("   (pulls safetensors + config, writes models.toml with backend = \"vllm\")");
            out.append("\n");
        },
        None => {},
    }
    let help = search_commands_help();
    out.append(help.as_str());
    proof {
        let n = candidates@.len();
        if first is None {
            assert(notice =~= no_fit_text(n as nat, query@, hw.total_vram_mb, limit) + "\n"@);
        } else {
            assert(notice =~= Seq::<char>::empty());
        }
        assert(out@ =~= vllm_output_text(query@, limit, candidates@, *hw));
    }
    out
}

} // verus!

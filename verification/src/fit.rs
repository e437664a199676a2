//! Hardware-aware preflight planning for llama.cpp loads.
//!
//! Before a model is loaded the planner derives, from GPU topology, free
//! VRAM, model size and the requested context, a bounded ladder of
//! increasingly conservative load profiles ([`FitPlan`]s): requested context
//! with the default KV cache, then a quantized KV cache, then smaller
//! contexts, and on the last attempt a reduced GPU offload.
use vstd::prelude::*;
use crate::args::{set_flag_value, strs, with_flag, with_ngl};
use crate::batch::{batch_flags, ubatch_flags, with_batch_size, with_ubatch_size};
use crate::context::{context_flags, with_context_size};
use crate::args::ngl_flags;
use crate::paths::{file_name, file_name_of};
use crate::text::{
    last_index_of, lemma_last_index_of, lower, lower_chars, rfind_char, seq_eq, chars_of, clone_opt_str, opt_str, concat_str, lex_lt, lex_less, lemma_lex_irreflexive, lemma_lex_transitive, lemma_lex_total, lemma_lex_asymmetric, decimal, digit_char, fmt_decimal, push_char, str_eq, string_from,
    string_from_str,
};

verus! {

// ── Configuration ───────────────────────────────────────────────────────────

/// Fit-related configuration (the `[fit]` section).
#[derive(Clone, Debug)]
pub struct FitConfig {
    pub enabled: bool,
    pub vram_reserve_mb: u32,
    pub multi_gpu: String,
    pub split_mode: String,
    pub max_attempts: u32,
    pub cache_profiles: bool,
}

pub fn default_fit_enabled() -> (r: bool)
    ensures
        !r,
{
    false
}

pub fn default_vram_reserve_mb() -> (r: u32)
    ensures
        r == 2048,
{
    2048
}

pub fn default_multi_gpu() -> (r: String)
    ensures
        r@ == "auto"@,
{
    string_from_str("auto")
}

pub fn default_split_mode() -> (r: String)
    ensures
        r@ == "layer"@,
{
    string_from_str("layer")
}

pub fn default_true() -> (r: bool)
    ensures
        r,
{
    true
}

impl FitConfig {
    pub fn default() -> (c: FitConfig)
        ensures
            !c.enabled,
            c.vram_reserve_mb == 2048,
            c.multi_gpu@ == "auto"@,
            c.split_mode@ == "layer"@,
            c.max_attempts == 5,
            c.cache_profiles,
    {
        FitConfig {
            enabled: default_fit_enabled(),
            vram_reserve_mb: default_vram_reserve_mb(),
            multi_gpu: default_multi_gpu(),
            split_mode: default_split_mode(),
            max_attempts: 5,
            cache_profiles: true,
        }
    }

    /// KV cache fallback types.
    pub fn kv_fallback_types(&self) -> (r: Vec<String>)
        ensures
            r@.len() == 1,
            r@[0]@ == "q8_0"@,
    {
        let mut v: Vec<String> = Vec::new();
        v.push(string_from_str("q8_0"));
        v
    }

    /// Context reduction steps, in percent of the requested context.
    pub fn context_step_percents(&self) -> (r: Vec<u32>)
        ensures
            r@ == seq![100u32, 75u32, 50u32, 25u32],
    {
        let mut v: Vec<u32> = Vec::new();
        v.push(100);
        v.push(75);
        v.push(50);
        v.push(25);
        assert(v@ =~= seq![100u32, 75u32, 50u32, 25u32]);
        v
    }

    /// Minimum context size floor.
    pub fn context_minimum(&self) -> (r: u32)
        ensures
            r == 4096,
    {
        4096
    }
}

// ── Hardware ────────────────────────────────────────────────────────────────

/// One GPU as reported by the driver.
#[derive(Clone, Debug)]
pub struct GpuDeviceInfo {
    pub index: u32,
    pub name: String,
    pub total_mb: u64,
    pub free_mb: u64,
    pub used_mb: u64,
}

/// Snapshot of the machine's GPU and RAM state.
#[derive(Clone, Debug)]
pub struct HardwareSummary {
    pub gpus: Vec<GpuDeviceInfo>,
    pub total_vram_mb: u64,
    pub free_vram_mb: u64,
    pub system_ram_mb: u64,
    pub hardware_fingerprint: String,
}

pub open spec fn sum_total_mb(g: Seq<GpuDeviceInfo>) -> nat
    decreases g.len(),
{
    if g.len() == 0 { 0 } else { sum_total_mb(g.drop_last()) + g.last().total_mb as nat }
}

pub open spec fn sum_free_mb(g: Seq<GpuDeviceInfo>) -> nat
    decreases g.len(),
{
    if g.len() == 0 { 0 } else { sum_free_mb(g.drop_last()) + g.last().free_mb as nat }
}

pub open spec fn sat_sub(a: nat, b: nat) -> nat {
    if a >= b { (a - b) as nat } else { 0 }
}

pub open spec fn fallback_vram_mb(vram_gb: u32) -> nat {
    (if vram_gb >= 1 { vram_gb as nat } else { 1 }) * 1024
}

pub(crate) proof fn lemma_sum_prefix(g: Seq<GpuDeviceInfo>, i: int)
    requires
        0 <= i < g.len(),
    ensures
        sum_total_mb(g.subrange(0, i + 1)) == sum_total_mb(g.subrange(0, i)) + g[i].total_mb,
        sum_free_mb(g.subrange(0, i + 1)) == sum_free_mb(g.subrange(0, i)) + g[i].free_mb,
{
    assert(g.subrange(0, i + 1).drop_last() =~= g.subrange(0, i));
}

pub(crate) proof fn lemma_sum_monotone(g: Seq<GpuDeviceInfo>, i: int)
    requires
        0 <= i <= g.len(),
    ensures
        sum_total_mb(g.subrange(0, i)) <= sum_total_mb(g),
        sum_free_mb(g.subrange(0, i)) <= sum_free_mb(g),
    decreases g.len() - i,
{
    if i < g.len() {
        lemma_sum_prefix(g, i);
        lemma_sum_monotone(g, i + 1);
    } else {
        assert(g.subrange(0, i) =~= g);
    }
}

impl HardwareSummary {
    /// Summarize a probe: the GPUs the driver reported, the fallback VRAM
    /// capacity in GB (used when no GPU was found) and the system RAM.
    pub fn probe(vram_gb: u32, gpus: Vec<GpuDeviceInfo>, system_ram_mb: u64) -> (h: HardwareSummary)
        requires
            sum_total_mb(gpus@) <= u64::MAX,
            sum_free_mb(gpus@) <= u64::MAX,
        ensures
            h.gpus@ == gpus@,
            h.total_vram_mb == (if gpus@.len() == 0 { fallback_vram_mb(vram_gb) } else { sum_total_mb(gpus@) }),
            h.free_vram_mb == (if gpus@.len() == 0 { fallback_vram_mb(vram_gb) } else { sum_free_mb(gpus@) }),
            h.system_ram_mb == system_ram_mb,
            fingerprint_of(gpus@, h.total_vram_mb, h.hardware_fingerprint@),
    {
        let fallback: u64 = (if vram_gb >= 1 { vram_gb as u64 } else { 1 }) * 1024;
        let mut total: u64 = 0;
        let mut free: u64 = 0;
        let mut i: usize = 0;
        while i < gpus.len()
            invariant
                i <= gpus@.len(),
                sum_total_mb(gpus@) <= u64::MAX,
                sum_free_mb(gpus@) <= u64::MAX,
                total as nat == sum_total_mb(gpus@.subrange(0, i as int)),
                free as nat == sum_free_mb(gpus@.subrange(0, i as int)),
            decreases gpus.len() - i,
        {
            proof {
                lemma_sum_prefix(gpus@, i as int);
                lemma_sum_monotone(gpus@, i + 1);
            }
            total = total + gpus[i].total_mb;
            free = free + gpus[i].free_mb;
            i = i + 1;
        }
        assert(gpus@.subrange(0, i as int) =~= gpus@);
        let total_vram_mb = if gpus.len() == 0 { fallback } else { total };
        let free_vram_mb = if gpus.len() == 0 { fallback } else { free };
        let hardware_fingerprint = compute_hardware_fingerprint(&gpus, total_vram_mb);
        HardwareSummary { gpus, total_vram_mb, free_vram_mb, system_ram_mb, hardware_fingerprint }
    }

    /// Usable VRAM budget after subtracting the safety reserve.
    pub fn usable_vram_mb(&self, reserve_mb: u32) -> (r: u64)
        ensures
            r == sat_sub(self.free_vram_mb as nat, reserve_mb as nat),
    {
        self.free_vram_mb.saturating_sub(reserve_mb as u64)
    }

    /// True when more than one GPU is detected.
    pub fn is_multi_gpu(&self) -> (r: bool)
        ensures
            r == (self.gpus@.len() > 1),
    {
        self.gpus.len() > 1
    }
}

// ── Hardware fingerprint ────────────────────────────────────────────────────

/// `char::is_whitespace` (the Unicode `White_Space` property).
pub open spec fn is_space(c: char) -> bool {
    ||| c == ' ' || c == '\t' || c == '\n' || c == '\u{0B}' || c == '\u{0C}' || c == '\r'
    ||| c == '\u{85}' || c == '\u{A0}' || c == '\u{1680}'
    ||| ('\u{2000}' <= c && c <= '\u{200A}')
    ||| c == '\u{2028}' || c == '\u{2029}' || c == '\u{202F}' || c == '\u{205F}' || c == '\u{3000}'
}

/// The last whitespace-separated token of `s`, or `s` itself when it has none.
pub open spec fn last_token(s: Seq<char>) -> Seq<char> {
    let stripped = trim_end_spaces(s);
    if stripped.len() == 0 {
        s
    } else {
        stripped.subrange(token_start(stripped, stripped.len() as int), stripped.len() as int)
    }
}

pub open spec fn trim_end_spaces(s: Seq<char>) -> Seq<char>
    decreases s.len(),
{
    if s.len() > 0 && is_space(s.last()) { trim_end_spaces(s.drop_last()) } else { s }
}

/// Start of the run of non-space characters that ends at `end`.
pub open spec fn token_start(s: Seq<char>, end: int) -> int
    decreases end,
{
    if end <= 0 || end > s.len() {
        0
    } else if is_space(s[end - 1]) {
        end
    } else {
        token_start(s, end - 1)
    }
}

/// Number of GPUs called `name`.
pub open spec fn name_count(g: Seq<GpuDeviceInfo>, name: Seq<char>) -> nat
    decreases g.len(),
{
    if g.len() == 0 {
        0
    } else {
        name_count(g.drop_last(), name) + if g.last().name@ == name { 1nat } else { 0nat }
    }
}

/// One of the first `k` GPUs is called `name`.
pub open spec fn has_gpu_named(g: Seq<GpuDeviceInfo>, k: int, name: Seq<char>) -> bool {
    exists|m: int| 0 <= m < k && g[m].name@ == name
}

/// `name` occurs in `ns`.
pub open spec fn lists_name(ns: Seq<Seq<char>>, name: Seq<char>) -> bool {
    exists|i: int| 0 <= i < ns.len() && ns[i] == name
}

/// Every name in `ns` belongs to one of the first `k` GPUs, and each of
/// those GPUs' names is in `ns`.
pub open spec fn names_cover(g: Seq<GpuDeviceInfo>, k: int, ns: Seq<Seq<char>>) -> bool {
    &&& forall|i: int| 0 <= i < ns.len() ==> #[trigger] has_gpu_named(g, k, ns[i])
    &&& forall|m: int| 0 <= m < k ==> #[trigger] lists_name(ns, g[m].name@)
}

/// `names` lists every GPU name exactly once, in ascending order.
pub open spec fn sorted_gpu_names(g: Seq<GpuDeviceInfo>, names: Seq<Seq<char>>) -> bool {
    sorted_lex(names) && names_cover(g, g.len() as int, names)
}

pub open spec fn sorted_lex(ns: Seq<Seq<char>>) -> bool {
    forall|i: int, j: int| 0 <= i < j < ns.len() ==> lex_lt(ns[i], ns[j])
}

/// `"{count}x{short}"` parts joined by `+`.
pub open spec fn fingerprint_parts(g: Seq<GpuDeviceInfo>, names: Seq<Seq<char>>) -> Seq<char>
    decreases names.len(),
{
    if names.len() == 0 {
        seq![]
    } else {
        let part = decimal(name_count(g, names.last())) + seq!['x'] + last_token(names.last());
        if names.len() == 1 {
            part
        } else {
            fingerprint_parts(g, names.drop_last()) + seq!['+'] + part
        }
    }
}

/// `cpu-{total}mb` without GPUs, otherwise the grouped GPU names and total.
pub open spec fn fingerprint_of(g: Seq<GpuDeviceInfo>, total_vram_mb: u64, fp: Seq<char>) -> bool {
    if g.len() == 0 {
        fp == seq!['c', 'p', 'u', '-'] + decimal(total_vram_mb as nat) + seq!['m', 'b']
    } else {
        exists|names: Seq<Seq<char>>| sorted_gpu_names(g, names)
            && fp == fingerprint_parts(g, names) + seq!['-'] + decimal(total_vram_mb as nat)
    }
}


pub fn is_space_exec(c: char) -> (r: bool)
    ensures
        r == is_space(c),
{
    c == ' ' || c == '\t' || c == '\n' || c == '\u{0B}' || c == '\u{0C}' || c == '\r'
        || c == '\u{85}' || c == '\u{A0}' || c == '\u{1680}'
        || ('\u{2000}' <= c && c <= '\u{200A}')
        || c == '\u{2028}' || c == '\u{2029}' || c == '\u{202F}' || c == '\u{205F}' || c == '\u{3000}'
}

proof fn lemma_trim_end_prefix(s: Seq<char>, end: int)
    requires
        0 < end <= s.len(),
        is_space(s[end - 1]),
    ensures
        trim_end_spaces(s.subrange(0, end)) == trim_end_spaces(s.subrange(0, end - 1)),
{
    assert(s.subrange(0, end).drop_last() =~= s.subrange(0, end - 1));
}

/// The last whitespace-separated token of `s` (`split_whitespace().last()`),
/// or `s` when it has none.
pub fn last_token_exec(s: &[char]) -> (r: Vec<char>)
    ensures
        r@ == last_token(s@),
{
    let mut end: usize = s.len();
    assert(s@.subrange(0, end as int) =~= s@);
    while end > 0 && is_space_exec(s[end - 1])
        invariant
            end <= s.len(),
            trim_end_spaces(s@) == trim_end_spaces(s@.subrange(0, end as int)),
        decreases end,
    {
        proof { lemma_trim_end_prefix(s@, end as int); }
        end = end - 1;
    }
    let ghost st = s@.subrange(0, end as int);
    assert(trim_end_spaces(st) == st);
    if end == 0 {
        let mut v: Vec<char> = Vec::new();
        let mut k: usize = 0;
        while k < s.len()
            invariant
                k <= s.len(),
                v@ == s@.subrange(0, k as int),
            decreases s.len() - k,
        {
            v.push(s[k]);
            k = k + 1;
            assert(v@ =~= s@.subrange(0, k as int));
        }
        assert(v@ =~= s@);
        return v;
    }
    let mut start: usize = end;
    while start > 0 && !is_space_exec(s[start - 1])
        invariant
            start <= end,
            end <= s.len(),
            st == s@.subrange(0, end as int),
            token_start(st, end as int) == token_start(st, start as int),
        decreases start,
    {
        start = start - 1;
    }
    assert(token_start(st, start as int) == start);
    let mut v: Vec<char> = Vec::new();
    let mut k: usize = start;
    while k < end
        invariant
            start <= k <= end,
            end <= s.len(),
            v@ == s@.subrange(start as int, k as int),
        decreases end - k,
    {
        v.push(s[k]);
        k = k + 1;
        assert(v@ =~= s@.subrange(start as int, k as int));
    }
    assert(st.subrange(start as int, end as int) =~= s@.subrange(start as int, end as int));
    v
}


proof fn lemma_insert_sorted(ns: Seq<Seq<char>>, p: int, x: Seq<char>)
    requires
        sorted_lex(ns),
        0 <= p <= ns.len(),
        forall|i: int| 0 <= i < p ==> lex_lt(ns[i], x),
        p < ns.len() ==> lex_lt(x, ns[p]),
    ensures
        sorted_lex(ns.insert(p, x)),
{
    let r = ns.insert(p, x);
    assert forall|i: int, j: int| 0 <= i < j < r.len() implies lex_lt(r[i], r[j]) by {
        if j < p {
        } else if j == p {
        } else if i < p {
            // r[i] = ns[i] < x < ns[p] <= ns[j - 1]
            if j - 1 > p {
                lemma_lex_transitive(x, ns[p], ns[j - 1]);
            }
            lemma_lex_transitive(ns[i], x, ns[j - 1]);
        } else if i == p {
            if j - 1 > p {
                lemma_lex_transitive(x, ns[p], ns[j - 1]);
            }
        } else {
        }
    }
}

proof fn lemma_name_count_prefix(g: Seq<GpuDeviceInfo>, name: Seq<char>, k: int)
    requires
        0 <= k < g.len(),
    ensures
        name_count(g.subrange(0, k + 1), name)
            == name_count(g.subrange(0, k), name) + if g[k].name@ == name { 1nat } else { 0nat },
{
    assert(g.subrange(0, k + 1).drop_last() =~= g.subrange(0, k));
}

fn count_named(gpus: &[GpuDeviceInfo], name: &[char]) -> (r: u64)
    ensures
        r as nat == name_count(gpus@, name@),
{
    let mut c: u64 = 0;
    let mut k: usize = 0;
    while k < gpus.len()
        invariant
            k <= gpus@.len(),
            c as nat == name_count(gpus@.subrange(0, k as int), name@),
            c <= k,
        decreases gpus.len() - k,
    {
        let x = chars_of(gpus[k].name.as_str());
        proof { lemma_name_count_prefix(gpus@, name@, k as int); }
        if crate::text::seq_eq(&x, name) {
            c = c + 1;
        }
        k = k + 1;
    }
    assert(gpus@.subrange(0, k as int) =~= gpus@);
    c
}

proof fn lemma_cover_found(g: Seq<GpuDeviceInfo>, k: int, ns: Seq<Seq<char>>, p: int)
    requires
        0 <= k < g.len(),
        names_cover(g, k, ns),
        0 <= p < ns.len(),
        ns[p] == g[k].name@,
    ensures
        names_cover(g, k + 1, ns),
{
    assert forall|i: int| 0 <= i < ns.len() implies #[trigger] has_gpu_named(g, k + 1, ns[i]) by {
        assert(has_gpu_named(g, k, ns[i]));
        let m0 = choose|m: int| 0 <= m < k && g[m].name@ == ns[i];
        assert(0 <= m0 < k + 1 && g[m0].name@ == ns[i]);
    }
    assert forall|m: int| 0 <= m < k + 1 implies #[trigger] lists_name(ns, g[m].name@) by {
        if m == k {
            assert(0 <= p < ns.len() && ns[p] == g[m].name@);
        }
    }
}

proof fn lemma_cover_inserted(g: Seq<GpuDeviceInfo>, k: int, old_ns: Seq<Seq<char>>, p: int)
    requires
        0 <= k < g.len(),
        names_cover(g, k, old_ns),
        0 <= p <= old_ns.len(),
    ensures
        names_cover(g, k + 1, old_ns.insert(p, g[k].name@)),
{
    let ns = old_ns.insert(p, g[k].name@);
    assert forall|i: int| 0 <= i < ns.len() implies #[trigger] has_gpu_named(g, k + 1, ns[i]) by {
        if i == p {
            assert(0 <= k < k + 1 && g[k].name@ == ns[i]);
        } else {
            let j = if i < p { i } else { i - 1 };
            assert(ns[i] == old_ns[j]);
            assert(has_gpu_named(g, k, old_ns[j]));
            let m0 = choose|m: int| 0 <= m < k && g[m].name@ == old_ns[j];
            assert(0 <= m0 < k + 1 && g[m0].name@ == ns[i]);
        }
    }
    assert forall|m: int| 0 <= m < k + 1 implies #[trigger] lists_name(ns, g[m].name@) by {
        if m == k {
            assert(0 <= p < ns.len() && ns[p] == g[m].name@);
        } else {
            assert(lists_name(old_ns, g[m].name@));
            let i0 = choose|i: int| 0 <= i < old_ns.len() && old_ns[i] == g[m].name@;
            if i0 < p {
                assert(ns[i0] == old_ns[i0]);
                assert(0 <= i0 < ns.len() && ns[i0] == g[m].name@);
            } else {
                assert(ns[i0 + 1] == old_ns[i0]);
                assert(0 <= i0 + 1 < ns.len() && ns[i0 + 1] == g[m].name@);
            }
        }
    }
}

/// Sorted, distinct GPU names.
fn sorted_names(gpus: &[GpuDeviceInfo]) -> (r: Vec<Vec<char>>)
    ensures
        sorted_gpu_names(gpus@, r@.map_values(|v: Vec<char>| v@)),
{
    let mut names: Vec<Vec<char>> = Vec::new();
    let ghost mut ns: Seq<Seq<char>> = seq![];
    proof {
        assert(ns =~= names@.map_values(|v: Vec<char>| v@));
    }
    let mut k: usize = 0;
    while k < gpus.len()
        invariant
            k <= gpus@.len(),
            ns == names@.map_values(|v: Vec<char>| v@),
            sorted_lex(ns),
            names_cover(gpus@, k as int, ns),
        decreases gpus.len() - k,
    {
        let x = chars_of(gpus[k].name.as_str());
        let mut p: usize = 0;
        while p < names.len() && lex_less(&names[p], &x)
            invariant
                p <= names@.len(),
                ns == names@.map_values(|v: Vec<char>| v@),
                forall|i: int| 0 <= i < p ==> lex_lt(#[trigger] ns[i], x@),
            decreases names.len() - p,
        {
            assert(ns[p as int] == names@[p as int]@);
            p = p + 1;
        }
        let found = p < names.len() && crate::text::seq_eq(&names[p], &x);
        if p < names.len() {
            assert(ns[p as int] == names@[p as int]@);
        }
        if found {
            proof { lemma_cover_found(gpus@, k as int, ns, p as int); }
        } else {
            proof {
                if p < ns.len() {
                    lemma_lex_total(x@, ns[p as int]);
                }
                lemma_insert_sorted(ns, p as int, x@);
                lemma_cover_inserted(gpus@, k as int, ns, p as int);
            }
            let ghost old_ns = ns;
            let ghost old_names = names@;
            names.insert(p, x);
            proof {
                ns = old_ns.insert(p as int, x@);
                assert(names@ == old_names.insert(p as int, x));
                assert(ns =~= names@.map_values(|v: Vec<char>| v@));
            }
        }
        k = k + 1;
    }
    names
}

/// Group GPUs by name (sorted), render `"{count}x{short}"` parts joined by
/// `+`, then append the total VRAM; `cpu-{total}mb` without GPUs.
pub fn compute_hardware_fingerprint(gpus: &[GpuDeviceInfo], total_vram_mb: u64) -> (r: String)
    ensures
        fingerprint_of(gpus@, total_vram_mb, r@),
{
    if gpus.len() == 0 {
        let mut s = string_from_str("cpu-");
        let t = fmt_decimal(total_vram_mb);
        s.append(t.as_str());
        s.append("mb");
        proof {
            reveal_strlit("cpu-");
            reveal_strlit("mb");
        }
        assert(s@ =~= seq!['c', 'p', 'u', '-'] + decimal(total_vram_mb as nat) + seq!['m', 'b']);
        return s;
    }
    let names = sorted_names(gpus);
    let ghost ns = names@.map_values(|v: Vec<char>| v@);
    let mut out = String::new();
    let mut i: usize = 0;
    while i < names.len()
        invariant
            i <= names@.len(),
            ns == names@.map_values(|v: Vec<char>| v@),
            out@ == fingerprint_parts(gpus@, ns.subrange(0, i as int)),
        decreases names.len() - i,
    {
        let count = count_named(gpus, &names[i]);
        let short = last_token_exec(&names[i]);
        let ghost prev = out@;
        if i > 0 {
            push_char(&mut out, '+');
        }
        let c = fmt_decimal(count);
        out.append(c.as_str());
        push_char(&mut out, 'x');
        let sh = string_from(&short);
        out.append(sh.as_str());
        proof {
            let sub = ns.subrange(0, i + 1);
            assert(sub.drop_last() =~= ns.subrange(0, i as int));
            assert(sub.last() == names@[i as int]@);
            if i == 0 {
                assert(out@ =~= fingerprint_parts(gpus@, sub));
            } else {
                assert(out@ =~= fingerprint_parts(gpus@, sub));
            }
        }
        i = i + 1;
    }
    assert(ns.subrange(0, i as int) =~= ns);
    push_char(&mut out, '-');
    let t = fmt_decimal(total_vram_mb);
    out.append(t.as_str());
    assert(out@ =~= fingerprint_parts(gpus@, ns) + seq!['-'] + decimal(total_vram_mb as nat));
    out
}


// ── Model metadata ──────────────────────────────────────────────────────────

/// Metadata about the model being planned.
#[derive(Clone, Debug)]
pub struct ModelSummary {
    pub file_path: String,
    pub file_size_mb: u64,
    pub block_count: Option<u32>,
    pub architecture: Option<String>,
    pub max_context_from_gguf: Option<u32>,
    pub requested_context: u32,
    pub model_fingerprint: String,
    pub ngl_pinned: bool,
    pub pinned_ngl: Option<u32>,
    /// Model kind ("chat", "embedding", ...).
    pub kind: Option<String>,
    /// Minimum context this model must always keep.
    pub context_floor: Option<u32>,
}

/// `name:size_mb`, the key under which load profiles of a file are cached.
pub open spec fn model_fingerprint_of(file_path: Seq<char>, file_size_mb: nat) -> Seq<char> {
    let name = match file_name_of(file_path) {
        Some(n) => n,
        None => file_path,
    };
    name + seq![':'] + decimal(file_size_mb)
}

impl ModelSummary {
    /// Summarize a model file whose size on disk is `file_size_bytes`
    /// (`None` when its metadata could not be read).
    pub fn from_file(
        file_path: &str,
        file_size_bytes: Option<u64>,
        block_count: Option<u32>,
        architecture: Option<String>,
        max_context_from_gguf: Option<u32>,
        requested_context: u32,
        ngl_pinned: bool,
        pinned_ngl: Option<u32>,
    ) -> (r: ModelSummary)
        ensures
            r.file_path@ == file_path@,
            r.file_size_mb as nat == (match file_size_bytes { Some(b) => b as nat / 1048576, None => 0 }),
            r.model_fingerprint@ == model_fingerprint_of(file_path@, r.file_size_mb as nat),
            r.block_count == block_count,
            r.architecture == architecture,
            r.max_context_from_gguf == max_context_from_gguf,
            r.requested_context == requested_context,
            r.ngl_pinned == ngl_pinned,
            r.pinned_ngl == pinned_ngl,
            r.kind is None,
            r.context_floor is None,
    {
        let file_size_mb: u64 = match file_size_bytes {
            Some(b) => b / (1024 * 1024),
            None => 0,
        };
        let name = match file_name(file_path) {
            Some(n) => n,
            None => string_from_str(file_path),
        };
        let with_colon = concat_str(name.as_str(), ":");
        let size_text = fmt_decimal(file_size_mb);
        let model_fingerprint = concat_str(with_colon.as_str(), size_text.as_str());
        proof {
            reveal_strlit(":");
            assert(model_fingerprint@ =~= model_fingerprint_of(file_path@, file_size_mb as nat));
        }
        ModelSummary {
            file_path: string_from_str(file_path),
            file_size_mb,
            block_count,
            architecture,
            max_context_from_gguf,
            requested_context,
            model_fingerprint,
            ngl_pinned,
            pinned_ngl,
            kind: None,
            context_floor: None,
        }
    }

    /// Set the model kind.
    pub fn with_kind(self, kind: &str) -> (r: ModelSummary)
        ensures
            r.kind matches Some(k) && k@ == kind@,
            r.file_size_mb == self.file_size_mb,
            r.block_count == self.block_count,
            r.requested_context == self.requested_context,
            r.ngl_pinned == self.ngl_pinned,
            r.pinned_ngl == self.pinned_ngl,
            r.context_floor == self.context_floor,
            r.file_path@ == self.file_path@,
            r.model_fingerprint@ == self.model_fingerprint@,
    {
        let mut m = self;
        m.kind = Some(string_from_str(kind));
        m
    }

    /// Set the per-model minimum context floor.
    pub fn with_context_floor(self, floor: Option<u32>) -> (r: ModelSummary)
        ensures
            r.context_floor == floor,
            r.kind == self.kind,
            r.file_size_mb == self.file_size_mb,
            r.block_count == self.block_count,
            r.requested_context == self.requested_context,
            r.ngl_pinned == self.ngl_pinned,
            r.pinned_ngl == self.pinned_ngl,
            r.file_path@ == self.file_path@,
            r.model_fingerprint@ == self.model_fingerprint@,
    {
        let mut m = self;
        m.context_floor = floor;
        m
    }
}

// ── Plans ───────────────────────────────────────────────────────────────────

/// A single load profile to attempt.
///
/// `tensor_split_tenths` holds the per-GPU tensor-split ratios in tenths
/// (`12` stands for `1.2`).
#[derive(Clone, Debug)]
pub struct FitPlan {
    pub context_size: u32,
    pub ngl: u32,
    pub split_mode: Option<String>,
    pub tensor_split_tenths: Option<Vec<u64>>,
    pub cache_type_k: Option<String>,
    pub cache_type_v: Option<String>,
    pub reason: String,
    pub attempt: u32,
    /// Batch size for embedding models (`-b`).
    pub batch_size: Option<u32>,
    /// Micro-batch size for embedding models (`-ub`).
    pub ubatch_size: Option<u32>,
}

pub ghost struct FitPlanView {
    pub context_size: u32,
    pub ngl: u32,
    pub split_mode: Option<Seq<char>>,
    pub tensor_split_tenths: Option<Seq<u64>>,
    pub cache_type_k: Option<Seq<char>>,
    pub cache_type_v: Option<Seq<char>>,
    pub reason: Seq<char>,
    pub attempt: u32,
    pub batch_size: Option<u32>,
    pub ubatch_size: Option<u32>,
}

pub open spec fn opt_seq(o: Option<Vec<u64>>) -> Option<Seq<u64>> {
    match o {
        Some(v) => Some(v@),
        None => None,
    }
}

impl View for FitPlan {
    type V = FitPlanView;

    open spec fn view(&self) -> FitPlanView {
        FitPlanView {
            context_size: self.context_size,
            ngl: self.ngl,
            split_mode: opt_str(self.split_mode),
            tensor_split_tenths: opt_seq(self.tensor_split_tenths),
            cache_type_k: opt_str(self.cache_type_k),
            cache_type_v: opt_str(self.cache_type_v),
            reason: self.reason@,
            attempt: self.attempt,
            batch_size: self.batch_size,
            ubatch_size: self.ubatch_size,
        }
    }
}

pub open spec fn plan_views(p: Seq<FitPlan>) -> Seq<FitPlanView> {
    p.map_values(|x: FitPlan| x@)
}

fn clone_opt_vec(o: &Option<Vec<u64>>) -> (r: Option<Vec<u64>>)
    ensures
        opt_seq(r) == opt_seq(*o),
{
    match o {
        Some(v) => Some(v.clone()),
        None => None,
    }
}

impl FitPlan {
    pub fn clone_plan(&self) -> (r: FitPlan)
        ensures
            r@ == self@,
    {
        FitPlan {
            context_size: self.context_size,
            ngl: self.ngl,
            split_mode: clone_opt_str(&self.split_mode),
            tensor_split_tenths: clone_opt_vec(&self.tensor_split_tenths),
            cache_type_k: clone_opt_str(&self.cache_type_k),
            cache_type_v: clone_opt_str(&self.cache_type_v),
            reason: self.reason.clone(),
            attempt: self.attempt,
            batch_size: self.batch_size,
            ubatch_size: self.ubatch_size,
        }
    }
}

// ── Ladder specification ────────────────────────────────────────────────────

pub open spec fn min_nat(a: nat, b: nat) -> nat {
    if a <= b { a } else { b }
}

pub open spec fn max_nat(a: nat, b: nat) -> nat {
    if a >= b { a } else { b }
}

pub open spec fn is_embedding_model(m: ModelSummary) -> bool {
    m.kind matches Some(k) && k@ == "embedding"@
}

pub open spec fn usable_mb(hw: HardwareSummary, reserve_mb: u32) -> nat {
    sat_sub(hw.free_vram_mb as nat, reserve_mb as nat)
}

/// VRAM left for activations once the weights are resident.
pub open spec fn embedding_headroom(hw: HardwareSummary, m: ModelSummary, c: FitConfig) -> nat {
    sat_sub(usable_mb(hw, c.vram_reserve_mb), m.file_size_mb as nat)
}

/// Embedding context cap by VRAM headroom tier.
pub open spec fn balanced_context(headroom_mb: nat) -> nat {
    if headroom_mb > 8 * 1024 {
        16384
    } else if headroom_mb >= 3 * 1024 {
        8192
    } else if headroom_mb >= 1536 {
        4096
    } else {
        2048
    }
}

pub open spec fn requested_ctx(hw: HardwareSummary, m: ModelSummary, c: FitConfig) -> nat {
    if is_embedding_model(m) {
        min_nat(m.requested_context as nat, balanced_context(embedding_headroom(hw, m, c)))
    } else {
        m.requested_context as nat
    }
}

pub open spec fn min_ctx(m: ModelSummary) -> nat {
    max_nat(
        if is_embedding_model(m) { 2048 } else { 4096 },
        match m.context_floor { Some(f) => f as nat, None => 0 },
    )
}

pub open spec fn sat_mul(a: nat, b: nat) -> nat {
    if a * b <= u64::MAX { a * b } else { u64::MAX as nat }
}

/// Full offload unless the weights exceed usable VRAM, else the share of
/// layers that fits (pinned values are kept).
pub open spec fn default_ngl(hw: HardwareSummary, m: ModelSummary, c: FitConfig) -> nat {
    let usable = usable_mb(hw, c.vram_reserve_mb);
    if m.ngl_pinned {
        match m.pinned_ngl { Some(n) => n as nat, None => 999 }
    } else if m.file_size_mb as nat <= usable || m.block_count is None {
        999
    } else {
        let layers = max_nat(m.block_count->0 as nat, 1);
        let n = sat_mul(layers, usable) / max_nat(m.file_size_mb as nat, 1);
        min_nat(if n <= u32::MAX { n } else { layers }, layers)
    }
}

pub open spec fn min_free_mb(g: Seq<GpuDeviceInfo>) -> nat
    decreases g.len(),
{
    if g.len() == 0 {
        u64::MAX as nat
    } else {
        min_nat(min_free_mb(g.drop_last()), g.last().free_mb as nat)
    }
}

/// `free / min_free` rounded to one decimal place, in tenths (half away
/// from zero).
pub open spec fn split_tenths(free: nat, min_free: nat) -> nat {
    (20 * free + min_free) / (2 * min_free)
}

pub open spec fn tensor_split_of(g: Seq<GpuDeviceInfo>) -> Option<Seq<u64>> {
    let m = min_free_mb(g);
    if m > 0 {
        Some(Seq::new(g.len(), |i: int| split_tenths(g[i].free_mb as nat, m) as u64))
    } else {
        None
    }
}

/// Split mode and tensor split: only with several GPUs and `multi_gpu = "auto"`.
pub open spec fn gpu_split(hw: HardwareSummary, c: FitConfig) -> (Option<Seq<char>>, Option<Seq<u64>>) {
    if !(hw.gpus@.len() > 1) || c.multi_gpu@ != "auto"@ {
        (None, None)
    } else {
        (Some(c.split_mode@), tensor_split_of(hw.gpus@))
    }
}

/// Base `(batch, ubatch)` by headroom tier.
pub open spec fn batch_tier(headroom_mb: nat) -> (u32, u32) {
    if headroom_mb > 8 * 1024 {
        (4096, 2048)
    } else if headroom_mb >= 5 * 1024 {
        (2048, 1024)
    } else if headroom_mb >= 3 * 1024 {
        (1024, 512)
    } else if headroom_mb >= 1536 {
        (512, 256)
    } else {
        (256, 128)
    }
}

pub open spec fn max_u32(a: u32, b: u32) -> u32 {
    if a >= b { a } else { b }
}

/// Drop each element equal to its predecessor.
pub open spec fn dedup_adjacent(s: Seq<u32>) -> Seq<u32>
    decreases s.len(),
{
    if s.len() == 0 {
        s
    } else {
        let d = dedup_adjacent(s.drop_last());
        if d.len() > 0 && d.last() == s.last() { d } else { d.push(s.last()) }
    }
}

/// Batch fallback steps: base, 75 %, 50 %, 25 %, each at least 256,
/// distinct and descending.
pub open spec fn batch_steps(base: u32) -> Seq<u32> {
    dedup_adjacent(seq![
        max_u32(base, 256),
        max_u32(((base as nat * 3) / 4) as u32, 256),
        max_u32(base / 2, 256),
        max_u32(base / 4, 256),
    ])
}

/// Context steps: 100/75/50/25 % of the requested context, each at least
/// the minimum, distinct and descending.
pub open spec fn ctx_steps(requested: nat, minimum: nat) -> Seq<u32> {
    dedup_adjacent(seq![
        max_nat(requested, minimum) as u32,
        max_nat((requested * 3) / 4, minimum) as u32,
        max_nat(requested / 2, minimum) as u32,
        max_nat(requested / 4, minimum) as u32,
    ])
}

pub open spec fn max_attempts(c: FitConfig) -> nat {
    max_nat(c.max_attempts as nat, 1)
}

pub open spec fn plan_count(hw: HardwareSummary, m: ModelSummary, c: FitConfig) -> nat {
    min_nat(max_attempts(c), 1 + ctx_steps(requested_ctx(hw, m, c), min_ctx(m)).len())
}

/// `100 * ctx / requested`, rounded half to even.
pub open spec fn percent_of(ctx: nat, requested: nat) -> nat {
    let q = (100 * ctx) / requested;
    let r = (100 * ctx) % requested;
    if 2 * r > requested {
        q + 1
    } else if 2 * r == requested && q % 2 == 1 {
        q + 1
    } else {
        q
    }
}

pub open spec fn reason_parts(
    ctx: nat,
    req: nat,
    kv: Option<Seq<char>>,
    ngl: nat,
    dngl: nat,
    batch: Option<(nat, nat)>,
) -> Seq<Seq<char>> {
    (if ctx < req {
        seq!["context "@ + decimal(req) + seq!['\u{2192}'] + decimal(ctx) + " ("@ + decimal(percent_of(ctx, req)) + "%)"@]
    } else {
        seq![]
    }) + (match kv {
        Some(t) => seq!["KV="@ + t],
        None => seq![],
    }) + (if ngl < dngl {
        seq!["ngl "@ + decimal(dngl) + seq!['\u{2192}'] + decimal(ngl)]
    } else {
        seq![]
    }) + (match batch {
        Some((cur, def)) => if cur < def { seq!["batch "@ + decimal(def) + seq!['\u{2192}'] + decimal(cur)] } else { seq![] },
        None => seq![],
    })
}

/// Join with `", "`.
pub open spec fn join_comma(parts: Seq<Seq<char>>) -> Seq<char>
    decreases parts.len(),
{
    if parts.len() == 0 {
        seq![]
    } else if parts.len() == 1 {
        parts[0]
    } else {
        join_comma(parts.drop_last()) + ", "@ + parts.last()
    }
}

pub open spec fn reason_text(attempt: nat, parts: Seq<Seq<char>>) -> Seq<char> {
    "attempt "@ + decimal(attempt) + ": "@ + if parts.len() == 0 { "requested parameters"@ } else { join_comma(parts) }
}

/// Context step of plan `i`: the first plan and the second both use the
/// requested context; after that each plan takes the next smaller step.
pub open spec fn ladder_step(i: nat) -> int {
    if i == 0 { 0 } else { i - 1 }
}

/// The `i`-th plan of the ladder (zero-based): the first keeps the default
/// KV cache type, every later one uses Q8.
pub open spec fn ladder_plan(hw: HardwareSummary, m: ModelSummary, c: FitConfig, i: nat) -> FitPlanView {
    let req = requested_ctx(hw, m, c);
    let steps = ctx_steps(req, min_ctx(m));
    let ctx = steps[ladder_step(i)];
    let kv: Option<Seq<char>> = if i == 0 { None } else { Some("q8_0"@) };
    let dngl = default_ngl(hw, m, c);
    let ngl: nat = if i + 1 == max_attempts(c) && dngl > 1 && !m.ngl_pinned { (dngl * 3) / 4 } else { dngl };
    let emb = is_embedding_model(m);
    let (base_batch, base_ubatch) = batch_tier(embedding_headroom(hw, m, c));
    let bsteps = batch_steps(base_batch);
    let b = bsteps[min_nat(i, (bsteps.len() - 1) as nat) as int];
    let ub = min_nat(base_ubatch as nat, max_nat((b / 2) as nat, 128));
    let split = gpu_split(hw, c);
    FitPlanView {
        context_size: ctx,
        ngl: ngl as u32,
        split_mode: split.0,
        tensor_split_tenths: split.1,
        cache_type_k: kv,
        cache_type_v: kv,
        reason: reason_text(
            i + 1,
            reason_parts(ctx as nat, req, kv, ngl, dngl, if emb { Some((b as nat, base_batch as nat)) } else { None }),
        ),
        attempt: (i + 1) as u32,
        batch_size: if emb { Some(b) } else { None },
        ubatch_size: if emb { Some(ub as u32) } else { None },
    }
}

/// The whole fallback ladder.
pub open spec fn ladder(hw: HardwareSummary, m: ModelSummary, c: FitConfig) -> Seq<FitPlanView> {
    Seq::new(plan_count(hw, m, c), |i: int| ladder_plan(hw, m, c, i as nat))
}

/// Inputs on which the ladder's arithmetic stays in range: reducing the GPU
/// offload to three quarters must not overflow `u32`.
pub open spec fn ladder_in_range(hw: HardwareSummary, m: ModelSummary, c: FitConfig) -> bool {
    (plan_count(hw, m, c) == max_attempts(c) && !m.ngl_pinned) ==> default_ngl(hw, m, c) * 3 <= u32::MAX
}


// ── Ladder construction ─────────────────────────────────────────────────────

pub fn is_embedding(model: &ModelSummary) -> (r: bool)
    ensures
        r == is_embedding_model(*model),
{
    match &model.kind {
        Some(k) => str_eq(k.as_str(), "embedding"),
        None => false,
    }
}

/// Embedding context cap by VRAM headroom tier.
pub fn balanced_embedding_context(headroom_mb: u64) -> (r: u32)
    ensures
        r as nat == balanced_context(headroom_mb as nat),
{
    if headroom_mb > 8 * 1024 {
        16384
    } else if headroom_mb >= 3 * 1024 {
        8192
    } else if headroom_mb >= 1536 {
        4096
    } else {
        2048
    }
}

fn dedup_desc(raw: &[u32]) -> (r: Vec<u32>)
    ensures
        r@ == dedup_adjacent(raw@),
{
    let mut out: Vec<u32> = Vec::new();
    let mut i: usize = 0;
    while i < raw.len()
        invariant
            i <= raw.len(),
            out@ == dedup_adjacent(raw@.subrange(0, i as int)),
        decreases raw.len() - i,
    {
        let ghost pre = raw@.subrange(0, i + 1);
        assert(pre.drop_last() =~= raw@.subrange(0, i as int));
        if out.len() == 0 || out[out.len() - 1] != raw[i] {
            out.push(raw[i]);
        }
        i = i + 1;
    }
    assert(raw@.subrange(0, i as int) =~= raw@);
    out
}

/// Batch and micro-batch sizes from VRAM headroom after reserve and weights:
/// `(default_batch, default_ubatch, fallback_steps)`, all empty for
/// non-embedding models.
pub fn compute_embedding_batch_sizes(
    hardware: &HardwareSummary,
    model: &ModelSummary,
    reserve_mb: u32,
) -> (r: (Option<u32>, Option<u32>, Vec<u32>))
    ensures
        is_embedding_model(*model) ==> {
            let tier = batch_tier(sat_sub(usable_mb(*hardware, reserve_mb), model.file_size_mb as nat));
            &&& r.0 == Some(tier.0)
            &&& r.1 == Some(tier.1)
            &&& r.2@ == batch_steps(tier.0)
        },
        !is_embedding_model(*model) ==> r.0 is None && r.1 is None && r.2@.len() == 0,
{
    if !is_embedding(model) {
        return (None, None, Vec::new());
    }
    let headroom_mb = hardware.usable_vram_mb(reserve_mb).saturating_sub(model.file_size_mb);
    let (base_batch, base_ubatch): (u32, u32) = if headroom_mb > 8 * 1024 {
        (4096, 2048)
    } else if headroom_mb >= 5 * 1024 {
        (2048, 1024)
    } else if headroom_mb >= 3 * 1024 {
        (1024, 512)
    } else if headroom_mb >= 1536 {
        (512, 256)
    } else {
        (256, 128)
    };
    let raw = [
        if base_batch >= 256 { base_batch } else { 256 },
        if (base_batch * 3) / 4 >= 256 { (base_batch * 3) / 4 } else { 256 },
        if base_batch / 2 >= 256 { base_batch / 2 } else { 256 },
        if base_batch / 4 >= 256 { base_batch / 4 } else { 256 },
    ];
    assert(raw@ =~= seq![
        max_u32(base_batch, 256),
        max_u32(((base_batch as nat * 3) / 4) as u32, 256),
        max_u32(base_batch / 2, 256),
        max_u32(base_batch / 4, 256),
    ]);
    let steps = dedup_desc(&raw);
    (Some(base_batch), Some(base_ubatch), steps)
}

fn min_free(gpus: &[GpuDeviceInfo]) -> (r: u64)
    ensures
        r as nat == min_free_mb(gpus@),
{
    let mut m: u64 = u64::MAX;
    let mut i: usize = 0;
    while i < gpus.len()
        invariant
            i <= gpus@.len(),
            m as nat == min_free_mb(gpus@.subrange(0, i as int)),
        decreases gpus.len() - i,
    {
        assert(gpus@.subrange(0, i + 1).drop_last() =~= gpus@.subrange(0, i as int));
        if gpus[i].free_mb < m {
            m = gpus[i].free_mb;
        }
        i = i + 1;
    }
    assert(gpus@.subrange(0, i as int) =~= gpus@);
    m
}

/// Split mode and per-GPU tensor split proportional to free VRAM.
pub fn compute_gpu_split(hardware: &HardwareSummary, config: &FitConfig) -> (r: (Option<String>, Option<Vec<u64>>))
    ensures
        (opt_str(r.0), opt_seq(r.1)) == gpu_split(*hardware, *config),
{
    if !hardware.is_multi_gpu() || !str_eq(config.multi_gpu.as_str(), "auto") {
        return (None, None);
    }
    let split_mode = Some(config.split_mode.clone());
    let m = min_free(&hardware.gpus);
    if m == 0 {
        return (split_mode, None);
    }
    let mut tenths: Vec<u64> = Vec::new();
    let mut i: usize = 0;
    while i < hardware.gpus.len()
        invariant
            i <= hardware.gpus@.len(),
            m > 0,
            m as nat == min_free_mb(hardware.gpus@),
            tenths@.len() == i,
            forall|j: int| 0 <= j < i ==> tenths@[j] == split_tenths(hardware.gpus@[j].free_mb as nat, m as nat) as u64,
        decreases hardware.gpus.len() - i,
    {
        let free = hardware.gpus[i].free_mb as u128;
        let t = (20 * free + (m as u128)) / (2 * (m as u128));
        tenths.push(t as u64);
        i = i + 1;
    }
    let ghost expect = Seq::new(hardware.gpus@.len(), |j: int| split_tenths(hardware.gpus@[j].free_mb as nat, m as nat) as u64);
    assert(tenths@ =~= expect);
    (split_mode, Some(tenths))
}

/// Default `-ngl`: the pinned value, full offload, or the share of layers
/// that fits in usable VRAM.
pub fn compute_default_ngl(hardware: &HardwareSummary, model: &ModelSummary, config: &FitConfig) -> (r: u32)
    ensures
        r as nat == default_ngl(*hardware, *model, *config),
{
    let usable = hardware.usable_vram_mb(config.vram_reserve_mb);
    if model.ngl_pinned {
        match model.pinned_ngl {
            Some(n) => n,
            None => 999,
        }
    } else if model.file_size_mb <= usable || model.block_count.is_none() {
        999
    } else {
        let bc = match model.block_count { Some(b) => b, None => 999 };
        let layers: u32 = if bc >= 1 { bc } else { 1 };
        let prod: u64 = match (layers as u64).checked_mul(usable) {
            Some(p) => p,
            None => u64::MAX,
        };
        let size: u64 = if model.file_size_mb >= 1 { model.file_size_mb } else { 1 };
        let n = prod / size;
        let fitted: u32 = if n <= 0xffff_ffff { n as u32 } else { layers };
        if fitted <= layers { fitted } else { layers }
    }
}

/// The default GPU layer count: a pinned count is kept (999 when pinned
/// without a number); weights that fit in usable VRAM (free minus the
/// reserve) or an unknown layer count give full offload (999); otherwise
/// only the share of the `L` layers that fits is offloaded: `L * U / S`
/// layers for weights of `S` MB and `U` MB usable, always fewer than `L`.
pub proof fn lemma_default_ngl_share(hw: HardwareSummary, m: ModelSummary, c: FitConfig)
    ensures
        ({
            let u: int = if hw.free_vram_mb >= c.vram_reserve_mb { hw.free_vram_mb - c.vram_reserve_mb } else { 0 };
            let s: int = m.file_size_mb as int;
            let d = default_ngl(hw, m, c);
            &&& m.ngl_pinned ==> d == (match m.pinned_ngl { Some(n) => n as int, None => 999 })
            &&& !m.ngl_pinned && (s <= u || m.block_count is None) ==> d == 999
            &&& !m.ngl_pinned && s > u && m.block_count is Some && m.block_count->0 >= 1 ==> {
                let l: int = m.block_count->0 as int;
                &&& d < l
                &&& l * u <= u64::MAX ==> d == (l * u) / s
                &&& d == (if l * u <= u64::MAX { l * u } else { u64::MAX as int }) / s
            }
        }),
{
    let u: int = if hw.free_vram_mb >= c.vram_reserve_mb { hw.free_vram_mb - c.vram_reserve_mb } else { 0 };
    let s: int = m.file_size_mb as int;
    assert(usable_mb(hw, c.vram_reserve_mb) == u);
    if !m.ngl_pinned && s > u {
        if let Some(l) = m.block_count {
            if l >= 1 {
                let li: int = l as int;
                assert(max_nat(l as nat, 1) == li);
                assert(max_nat(m.file_size_mb as nat, 1) == s);
                assert(0 <= u < s);
                assert(li * u < li * s) by (nonlinear_arith)
                    requires li >= 1, 0 <= u < s;
                assert((li * u) / s < li) by (nonlinear_arith)
                    requires li >= 1, 0 <= u < s, li * u < li * s;
                assert((u64::MAX as int) / s < li || li * u <= u64::MAX) by (nonlinear_arith)
                    requires li >= 1, 0 <= u < s;
                assert(((u64::MAX as int) / s) <= u64::MAX) by (nonlinear_arith)
                    requires s >= 1;
                assert((li * u) / s <= u64::MAX) by (nonlinear_arith)
                    requires li >= 1, 0 <= u < s, (li * u) / s < li, li <= u32::MAX;
            }
        }
    }
}

/// Half-to-even rounding of `100 * ctx / requested`.
fn percent(ctx: u32, requested: u32) -> (r: u64)
    requires
        requested > 0,
    ensures
        r as nat == percent_of(ctx as nat, requested as nat),
{
    let num: u64 = 100 * (ctx as u64);
    let q = num / (requested as u64);
    let rem = num % (requested as u64);
    if 2 * rem > requested as u64 {
        q + 1
    } else if 2 * rem == requested as u64 && q % 2 == 1 {
        q + 1
    } else {
        q
    }
}

/// Current and default batch size, to show a reduction in the reason.
pub struct BatchInfo {
    pub current: u32,
    pub default: u32,
}

fn arrow_pair(label: &str, from: u64, to: u64) -> (r: String)
    ensures
        r@ == label@ + decimal(from as nat) + seq!['\u{2192}'] + decimal(to as nat),
{
    let mut s = string_from_str(label);
    let a = fmt_decimal(from);
    s.append(a.as_str());
    push_char(&mut s, '\u{2192}');
    let b = fmt_decimal(to);
    s.append(b.as_str());
    s
}

/// Human-readable reason for one attempt.
pub fn format_reason(
    ctx: u32,
    requested_ctx: u32,
    kv: &Option<String>,
    ngl: u32,
    default_ngl: u32,
    attempt: u32,
    batch: Option<BatchInfo>,
) -> (r: String)
    ensures
        r@ == reason_text(
            attempt as nat,
            reason_parts(
                ctx as nat,
                requested_ctx as nat,
                opt_str(*kv),
                ngl as nat,
                default_ngl as nat,
                match batch { Some(b) => Some((b.current as nat, b.default as nat)), None => None },
            ),
        ),
{
    let mut parts: Vec<String> = Vec::new();
    if ctx < requested_ctx {
        let mut p = arrow_pair("context ", requested_ctx as u64, ctx as u64);
        p.append(" (");
        let pct = fmt_decimal(percent(ctx, requested_ctx));
        p.append(pct.as_str());
        p.append("%)");
        parts.push(p);
    }
    if let Some(kv_type) = kv {
        parts.push(concat_str("KV=", kv_type.as_str()));
    }
    if ngl < default_ngl {
        parts.push(arrow_pair("ngl ", default_ngl as u64, ngl as u64));
    }
    if let Some(b) = &batch {
        if b.current < b.default {
            parts.push(arrow_pair("batch ", b.default as u64, b.current as u64));
        }
    }
    let ghost expected = reason_parts(
        ctx as nat,
        requested_ctx as nat,
        opt_str(*kv),
        ngl as nat,
        default_ngl as nat,
        match batch { Some(b) => Some((b.current as nat, b.default as nat)), None => None },
    );
    assert(crate::args::strs(parts@) =~= expected);
    let mut out = string_from_str("attempt ");
    let a = fmt_decimal(attempt as u64);
    out.append(a.as_str());
    out.append(": ");
    if parts.len() == 0 {
        out.append("requested parameters");
    } else {
        let joined = join_with_comma(&parts);
        out.append(joined.as_str());
    }
    out
}

fn join_with_comma(parts: &[String]) -> (r: String)
    ensures
        r@ == join_comma(crate::args::strs(parts@)),
{
    let ghost ps = crate::args::strs(parts@);
    let mut out = String::new();
    let mut i: usize = 0;
    while i < parts.len()
        invariant
            i <= parts@.len(),
            ps == crate::args::strs(parts@),
            out@ == join_comma(ps.subrange(0, i as int)),
        decreases parts.len() - i,
    {
        let ghost sub = ps.subrange(0, i + 1);
        assert(sub.drop_last() =~= ps.subrange(0, i as int));
        if i > 0 {
            out.append(", ");
        }
        out.append(parts[i].as_str());
        proof {
            if i == 0 {
                assert(out@ =~= sub[0]);
            }
        }
        i = i + 1;
    }
    assert(ps.subrange(0, i as int) =~= ps);
    out
}


pub proof fn lemma_dedup_len(s: Seq<u32>)
    ensures
        dedup_adjacent(s).len() <= s.len(),
        s.len() > 0 ==> dedup_adjacent(s).len() > 0,
    decreases s.len(),
{
    if s.len() > 0 {
        lemma_dedup_len(s.drop_last());
    }
}

/// Every element of the deduplicated sequence comes from the input.
pub proof fn lemma_dedup_elements(s: Seq<u32>)
    ensures
        forall|i: int| 0 <= i < dedup_adjacent(s).len() ==> exists|j: int| 0 <= j < s.len() && s[j] == #[trigger] dedup_adjacent(s)[i],
    decreases s.len(),
{
    if s.len() > 0 {
        lemma_dedup_elements(s.drop_last());
        let d = dedup_adjacent(s.drop_last());
        assert forall|i: int| 0 <= i < dedup_adjacent(s).len() implies exists|j: int| 0 <= j < s.len() && s[j] == #[trigger] dedup_adjacent(s)[i] by {
            if i < d.len() {
                let j = choose|j: int| 0 <= j < s.drop_last().len() && s.drop_last()[j] == d[i];
                assert(s[j] == dedup_adjacent(s)[i]);
            } else {
                assert(s[s.len() - 1] == dedup_adjacent(s)[i]);
            }
        }
    }
}

/// Plan `i` of the ladder, computed from the per-ladder quantities.
fn make_plan(
    hardware: &HardwareSummary,
    model: &ModelSummary,
    config: &FitConfig,
    i: usize,
    req: u32,
    steps: &Vec<u32>,
    dngl: u32,
    split: &(Option<String>, Option<Vec<u64>>),
    batch: &(Option<u32>, Option<u32>, Vec<u32>),
    max_att: u32,
    kv_name: &String,
) -> (p: FitPlan)
    requires
        (i as nat) < plan_count(*hardware, *model, *config),
        req as nat == requested_ctx(*hardware, *model, *config),
        steps@ == ctx_steps(req as nat, min_ctx(*model)),
        dngl as nat == default_ngl(*hardware, *model, *config),
        (opt_str(split.0), opt_seq(split.1)) == gpu_split(*hardware, *config),
        is_embedding_model(*model) ==> {
            let tier = batch_tier(embedding_headroom(*hardware, *model, *config));
            &&& batch.0 == Some(tier.0)
            &&& batch.1 == Some(tier.1)
            &&& batch.2@ == batch_steps(tier.0)
        },
        !is_embedding_model(*model) ==> batch.0 is None,
        max_att as nat == max_attempts(*config),
        kv_name@ == "q8_0"@,
        ladder_in_range(*hardware, *model, *config),
    ensures
        p@ == ladder_plan(*hardware, *model, *config, i as nat),
{
    let ctx = if i == 0 { steps[0] } else { steps[i - 1] };
    let kv: Option<String> = if i == 0 { None } else { Some(kv_name.clone()) };
    let ngl: u32 = if i + 1 == max_att as usize && dngl > 1 && !model.ngl_pinned {
        (dngl * 3) / 4
    } else {
        dngl
    };
    let (batch_size, ubatch_size, batch_info) = match batch.0 {
        Some(default) => {
            let bsteps = &batch.2;
            proof {
                let tier = batch_tier(embedding_headroom(*hardware, *model, *config));
                lemma_dedup_len(seq![
                    max_u32(tier.0, 256),
                    max_u32(((tier.0 as nat * 3) / 4) as u32, 256),
                    max_u32(tier.0 / 2, 256),
                    max_u32(tier.0 / 4, 256),
                ]);
            }
            let idx = if i < bsteps.len() - 1 { i } else { bsteps.len() - 1 };
            let b = bsteps[idx];
            let half = if b / 2 >= 128 { b / 2 } else { 128 };
            let ub = match batch.1 {
                Some(d) => if d <= half { d } else { half },
                None => 128,
            };
            (Some(b), Some(ub), Some(BatchInfo { current: b, default }))
        },
        None => (None, None, None),
    };
    let reason = format_reason(ctx, req, &kv, ngl, dngl, (i + 1) as u32, batch_info);
    let kv2 = clone_opt_str(&kv);
    FitPlan {
        context_size: ctx,
        ngl,
        split_mode: clone_opt_str(&split.0),
        tensor_split_tenths: clone_opt_vec(&split.1),
        cache_type_k: kv,
        cache_type_v: kv2,
        reason,
        attempt: (i + 1) as u32,
        batch_size,
        ubatch_size,
    }
}

/// The full fallback ladder for one load.
pub fn build_fallback_ladder(hardware: &HardwareSummary, model: &ModelSummary, config: &FitConfig) -> (r: Vec<FitPlan>)
    requires
        ladder_in_range(*hardware, *model, *config),
    ensures
        plan_views(r@) == ladder(*hardware, *model, *config),
        r@.len() >= 1,
{
    let max_att: u32 = if config.max_attempts >= 1 { config.max_attempts } else { 1 };
    let emb = is_embedding(model);
    let usable = hardware.usable_vram_mb(config.vram_reserve_mb);
    let req: u32 = if emb {
        let cap = balanced_embedding_context(usable.saturating_sub(model.file_size_mb));
        if model.requested_context <= cap { model.requested_context } else { cap }
    } else {
        model.requested_context
    };
    let base_min: u32 = if emb {
        2048
    } else {
        let m = config.context_minimum();
        if m >= 512 { m } else { 512 }
    };
    let floor: u32 = match model.context_floor { Some(f) => f, None => 0 };
    let min_c: u32 = if base_min >= floor { base_min } else { floor };
    let dngl = compute_default_ngl(hardware, model, config);
    let split = compute_gpu_split(hardware, config);
    let batch = compute_embedding_batch_sizes(hardware, model, config.vram_reserve_mb);
    let r3: u32 = ((req as u64 * 3) / 4) as u32;
    let raw = [
        if req >= min_c { req } else { min_c },
        if r3 >= min_c { r3 } else { min_c },
        if req / 2 >= min_c { req / 2 } else { min_c },
        if req / 4 >= min_c { req / 4 } else { min_c },
    ];
    assert(raw@ =~= seq![
        max_nat(req as nat, min_c as nat) as u32,
        max_nat((req as nat * 3) / 4, min_c as nat) as u32,
        max_nat(req as nat / 2, min_c as nat) as u32,
        max_nat(req as nat / 4, min_c as nat) as u32,
    ]);
    let steps = dedup_desc(&raw);
    proof { lemma_dedup_len(raw@); }
    let kv_types = config.kv_fallback_types();
    let kv_name = &kv_types[0];
    let count: usize = if (max_att as usize) <= 1 + steps.len() { max_att as usize } else { 1 + steps.len() };
    assert(count as nat == plan_count(*hardware, *model, *config));
    let mut plans: Vec<FitPlan> = Vec::new();
    let mut i: usize = 0;
    while i < count
        invariant
            i <= count,
            count as nat == plan_count(*hardware, *model, *config),
            req as nat == requested_ctx(*hardware, *model, *config),
            steps@ == ctx_steps(req as nat, min_ctx(*model)),
            dngl as nat == default_ngl(*hardware, *model, *config),
            (opt_str(split.0), opt_seq(split.1)) == gpu_split(*hardware, *config),
            is_embedding_model(*model) ==> {
                let tier = batch_tier(embedding_headroom(*hardware, *model, *config));
                &&& batch.0 == Some(tier.0)
                &&& batch.1 == Some(tier.1)
                &&& batch.2@ == batch_steps(tier.0)
            },
            !is_embedding_model(*model) ==> batch.0 is None,
            max_att as nat == max_attempts(*config),
            kv_name@ == "q8_0"@,
            ladder_in_range(*hardware, *model, *config),
            plans@.len() == i,
            forall|j: int| 0 <= j < i ==> (#[trigger] plans@[j])@ == ladder_plan(*hardware, *model, *config, j as nat),
        decreases count - i,
    {
        let p = make_plan(hardware, model, config, i, req, &steps, dngl, &split, &batch, max_att, kv_name);
        plans.push(p);
        i = i + 1;
    }
    assert(plan_views(plans@) =~= ladder(*hardware, *model, *config));
    plans
}


// ── Rewriting backend arguments ─────────────────────────────────────────────

/// A ratio in tenths as `{:.1}` prints it (`12` → `1.2`).
pub open spec fn tenths_text(t: u64) -> Seq<char> {
    decimal((t / 10) as nat) + seq!['.', digit_char((t % 10) as nat)]
}

/// Ratios joined by commas.
pub open spec fn tenths_list(ts: Seq<u64>) -> Seq<char>
    decreases ts.len(),
{
    if ts.len() == 0 {
        seq![]
    } else if ts.len() == 1 {
        tenths_text(ts[0])
    } else {
        tenths_list(ts.drop_last()) + seq![','] + tenths_text(ts.last())
    }
}

pub open spec fn set_opt(args: Seq<Seq<char>>, flag: &str, value: Option<Seq<char>>) -> Seq<Seq<char>> {
    match value {
        Some(v) => set_flag_value(args, seq![flag], true, flag@, v),
        None => args,
    }
}

/// `base` with every setting of plan `p` written into it.
pub open spec fn apply_plan(base: Seq<Seq<char>>, p: FitPlanView) -> Seq<Seq<char>> {
    let a1 = set_flag_value(base, context_flags(), false, "-c"@, decimal(p.context_size as nat));
    let a2 = set_flag_value(a1, ngl_flags(), true, "-ngl"@, decimal(p.ngl as nat));
    let a3 = set_opt(a2, "--split-mode", p.split_mode);
    let a4 = set_opt(a3, "--tensor-split", match p.tensor_split_tenths { Some(t) => Some(tenths_list(t)), None => None });
    let a5 = set_opt(a4, "--cache-type-k", p.cache_type_k);
    let a6 = set_opt(a5, "--cache-type-v", p.cache_type_v);
    let a7 = match p.batch_size {
        Some(b) => set_flag_value(a6, batch_flags(), true, "-b"@, decimal(b as nat)),
        None => a6,
    };
    match p.ubatch_size {
        Some(u) => set_flag_value(a7, ubatch_flags(), true, "-ub"@, decimal(u as nat)),
        None => a7,
    }
}

fn push_tenths(out: &mut String, t: u64)
    ensures
        final(out)@ == old(out)@ + tenths_text(t),
{
    let whole = fmt_decimal(t / 10);
    out.append(whole.as_str());
    push_char(out, '.');
    let d: u8 = (t % 10) as u8;
    let c = (d + 48) as char;
    push_char(out, c);
    assert(final(out)@ =~= old(out)@ + tenths_text(t));
}

/// Tensor-split ratios rendered as `1.0,1.2`.
pub fn format_tensor_split(ts: &[u64]) -> (r: String)
    ensures
        r@ == tenths_list(ts@),
{
    let mut out = String::new();
    let mut i: usize = 0;
    while i < ts.len()
        invariant
            i <= ts@.len(),
            out@ == tenths_list(ts@.subrange(0, i as int)),
        decreases ts.len() - i,
    {
        let ghost sub = ts@.subrange(0, i + 1);
        assert(sub.drop_last() =~= ts@.subrange(0, i as int));
        if i > 0 {
            push_char(&mut out, ',');
        }
        push_tenths(&mut out, ts[i]);
        proof {
            if i == 0 {
                assert(out@ =~= tenths_text(sub[0]));
            }
        }
        i = i + 1;
    }
    assert(ts@.subrange(0, i as int) =~= ts@);
    out
}

fn set_opt_exec(args: Vec<String>, flag: &str, value: &Option<String>) -> (r: Vec<String>)
    ensures
        strs(r@) == set_opt(strs(args@), flag, opt_str(*value)),
{
    match value {
        Some(v) => with_flag(&args, flag, v.as_str()),
        None => args,
    }
}

// ── The planner ─────────────────────────────────────────────────────────────

/// State machine that hands out a pre-computed ladder of increasingly
/// conservative [`FitPlan`]s.
pub struct FitPlanner {
    hardware: HardwareSummary,
    model: ModelSummary,
    config: FitConfig,
    plans: Vec<FitPlan>,
    current: usize,
}

impl FitPlanner {
    /// The pre-computed plans.
    pub closed spec fn plans_view(&self) -> Seq<FitPlanView> {
        plan_views(self.plans@)
    }

    /// How many times the planner has advanced.
    pub closed spec fn position(&self) -> nat {
        self.current as nat
    }

    pub closed spec fn hardware_spec(&self) -> HardwareSummary {
        self.hardware
    }

    pub closed spec fn model_spec(&self) -> ModelSummary {
        self.model
    }

    pub closed spec fn config_spec(&self) -> FitConfig {
        self.config
    }

    /// The ladder is never empty.
    pub closed spec fn wf(&self) -> bool {
        self.plans@.len() >= 1
    }

    /// Create a new planner and pre-compute the full fallback ladder.
    pub fn new(hardware: HardwareSummary, model: ModelSummary, config: FitConfig) -> (r: FitPlanner)
        requires
            ladder_in_range(hardware, model, config),
        ensures
            r.wf(),
            r.plans_view() == ladder(hardware, model, config),
            r.position() == 0,
            r.hardware_spec() == hardware,
            r.model_spec() == model,
            r.config_spec() == config,
    {
        let plans = build_fallback_ladder(&hardware, &model, &config);
        FitPlanner { hardware, model, config, plans, current: 0 }
    }

    /// The current plan to attempt (the last one once exhausted).
    pub fn current_plan(&self) -> (r: &FitPlan)
        requires
            self.wf(),
        ensures
            r@ == self.plans_view()[min_nat(self.position(), (self.plans_view().len() - 1) as nat) as int],
    {
        let last = self.plans.len() - 1;
        let idx = if self.current <= last { self.current } else { last };
        &self.plans[idx]
    }

    /// Advance to the next fallback plan; `None` once every plan was tried.
    pub fn advance(&mut self, failure_reason: &str) -> (r: Option<FitPlan>)
        requires
            old(self).wf(),
            old(self).position() < usize::MAX,
        ensures
            final(self).wf(),
            final(self).plans_view() == old(self).plans_view(),
            final(self).position() == old(self).position() + 1,
            final(self).hardware_spec() == old(self).hardware_spec(),
            final(self).model_spec() == old(self).model_spec(),
            final(self).config_spec() == old(self).config_spec(),
            match r {
                Some(p) => final(self).position() < old(self).plans_view().len()
                    && p@ == old(self).plans_view()[final(self).position() as int],
                None => final(self).position() >= old(self).plans_view().len(),
            },
    {
        self.current = self.current + 1;
        if self.current >= self.plans.len() {
            return None;
        }
        Some(self.plans[self.current].clone_plan())
    }

    /// True when there are no more fallback plans.
    pub fn is_exhausted(&self) -> (r: bool)
        ensures
            r == (self.position() >= self.plans_view().len()),
    {
        self.current >= self.plans.len()
    }

    /// The total number of pre-computed plans.
    pub fn total_plans(&self) -> (r: usize)
        ensures
            r == self.plans_view().len(),
    {
        self.plans.len()
    }

    /// All pre-computed plans.
    pub fn all_plans(&self) -> (r: &[FitPlan])
        ensures
            plan_views(r@) == self.plans_view(),
    {
        self.plans.as_slice()
    }

    /// The hardware summary.
    pub fn hardware(&self) -> (r: &HardwareSummary)
        ensures
            *r == self.hardware_spec(),
    {
        &self.hardware
    }

    /// The model summary.
    pub fn model(&self) -> (r: &ModelSummary)
        ensures
            *r == self.model_spec(),
    {
        &self.model
    }

    /// The fit config.
    pub fn fit_config(&self) -> (r: &FitConfig)
        ensures
            *r == self.config_spec(),
    {
        &self.config
    }

    /// Apply a plan to a base set of llama-server args, rewriting `-c`,
    /// `-ngl`, `--split-mode`, `--tensor-split`, `--cache-type-k`,
    /// `--cache-type-v`, `-b` and `-ub` as needed.
    pub fn apply_plan_to_args(base_args: &[String], plan: &FitPlan) -> (r: Vec<String>)
        ensures
            strs(r@) == apply_plan(strs(base_args@), plan@),
    {
        let args = with_context_size(base_args, plan.context_size);
        let args = with_ngl(&args, plan.ngl);
        let args = set_opt_exec(args, "--split-mode", &plan.split_mode);
        let ts: Option<String> = match &plan.tensor_split_tenths {
            Some(t) => Some(format_tensor_split(t.as_slice())),
            None => None,
        };
        let args = set_opt_exec(args, "--tensor-split", &ts);
        let args = set_opt_exec(args, "--cache-type-k", &plan.cache_type_k);
        let args = set_opt_exec(args, "--cache-type-v", &plan.cache_type_v);
        let args = match plan.batch_size {
            Some(b) => with_batch_size(&args, b),
            None => args,
        };
        match plan.ubatch_size {
            Some(u) => with_ubatch_size(&args, u),
            None => args,
        }
    }
}


// ── Laws of the ladder ──────────────────────────────────────────────────────

pub open spec fn non_increasing(s: Seq<u32>) -> bool {
    forall|i: int, j: int| 0 <= i <= j < s.len() ==> s[j] <= s[i]
}

pub open spec fn strictly_decreasing(s: Seq<u32>) -> bool {
    forall|i: int, j: int| 0 <= i < j < s.len() ==> s[j] < s[i]
}

proof fn lemma_dedup_last(s: Seq<u32>)
    requires
        s.len() > 0,
    ensures
        dedup_adjacent(s).len() > 0,
        dedup_adjacent(s).last() == s.last(),
    decreases s.len(),
{
    lemma_dedup_len(s);
}

proof fn lemma_dedup_strict(s: Seq<u32>)
    requires
        non_increasing(s),
    ensures
        strictly_decreasing(dedup_adjacent(s)),
    decreases s.len(),
{
    if s.len() > 0 {
        let t = s.drop_last();
        assert(non_increasing(t));
        lemma_dedup_strict(t);
        let d = dedup_adjacent(t);
        if d.len() > 0 {
            lemma_dedup_last(t);
            assert(s.last() <= t.last());
            lemma_dedup_elements(t);
        }
    }
}

/// Every element of `dedup_adjacent(s)` is at least `lo` when every element
/// of `s` is.
proof fn lemma_dedup_lower_bound(s: Seq<u32>, lo: nat)
    requires
        forall|i: int| 0 <= i < s.len() ==> s[i] >= lo,
    ensures
        forall|i: int| 0 <= i < dedup_adjacent(s).len() ==> dedup_adjacent(s)[i] >= lo,
{
    lemma_dedup_elements(s);
    assert forall|i: int| 0 <= i < dedup_adjacent(s).len() implies dedup_adjacent(s)[i] >= lo by {
        let j = choose|j: int| 0 <= j < s.len() && s[j] == dedup_adjacent(s)[i];
    }
}

proof fn lemma_ctx_steps(requested: nat, minimum: nat)
    requires
        requested <= u32::MAX,
        minimum <= u32::MAX,
    ensures
        ctx_steps(requested, minimum).len() >= 1,
        ctx_steps(requested, minimum).len() <= 4,
        strictly_decreasing(ctx_steps(requested, minimum)),
        forall|i: int| 0 <= i < ctx_steps(requested, minimum).len() ==> ctx_steps(requested, minimum)[i] >= minimum,
{
    let raw = seq![
        max_nat(requested, minimum) as u32,
        max_nat((requested * 3) / 4, minimum) as u32,
        max_nat(requested / 2, minimum) as u32,
        max_nat(requested / 4, minimum) as u32,
    ];
    assert(non_increasing(raw));
    lemma_dedup_len(raw);
    lemma_dedup_strict(raw);
    lemma_dedup_lower_bound(raw, minimum);
}

proof fn lemma_batch_steps(base: u32)
    ensures
        batch_steps(base).len() >= 1,
        strictly_decreasing(batch_steps(base)),
        forall|i: int| 0 <= i < batch_steps(base).len() ==> batch_steps(base)[i] >= 256,
{
    let raw = seq![
        max_u32(base, 256),
        max_u32(((base as nat * 3) / 4) as u32, 256),
        max_u32(base / 2, 256),
        max_u32(base / 4, 256),
    ];
    assert(non_increasing(raw));
    lemma_dedup_len(raw);
    lemma_dedup_strict(raw);
    lemma_dedup_lower_bound(raw, 256);
}

/// The layer count of attempt `i`: the default offload, cut to three
/// quarters on the last of `max_attempts` attempts unless the layer count is
/// pinned or there is at most one layer to give.
pub open spec fn ladder_ngl(hw: HardwareSummary, m: ModelSummary, c: FitConfig, i: nat) -> nat {
    let d = default_ngl(hw, m, c);
    if i + 1 == max_attempts(c) && d > 1 && !m.ngl_pinned { (d * 3) / 4 } else { d }
}

/// The ladder is never empty and never longer than `max_attempts`; attempts
/// are numbered from 1; the first attempt keeps the default KV cache and
/// every later one uses Q8 for both K and V; every context is at least the
/// floor and contexts never grow along the ladder; no two attempts repeat
/// the same context and cache type; the first two attempts keep the
/// requested context (as far as the floor allows); the layer count is the
/// default offload on every attempt but a last one that reduces it.
pub proof fn lemma_ladder_shape(hw: HardwareSummary, m: ModelSummary, c: FitConfig)
    ensures
        ladder(hw, m, c).len() >= 1,
        ladder(hw, m, c).len() <= max_attempts(c),
        ladder(hw, m, c)[0].cache_type_k is None,
        ladder(hw, m, c)[0].context_size == max_nat(requested_ctx(hw, m, c), min_ctx(m)),
        ladder(hw, m, c).len() >= 2 ==> ladder(hw, m, c)[1].context_size == ladder(hw, m, c)[0].context_size,
        forall|i: int| 0 <= i < ladder(hw, m, c).len() ==> #[trigger] ladder(hw, m, c)[i].attempt == i + 1,
        forall|i: int| 0 <= i < ladder(hw, m, c).len() ==> #[trigger] ladder(hw, m, c)[i].context_size >= min_ctx(m),
        forall|i: int| 0 <= i < ladder(hw, m, c).len() ==>
            #[trigger] ladder(hw, m, c)[i].cache_type_v == ladder(hw, m, c)[i].cache_type_k,
        forall|i: int| 1 <= i < ladder(hw, m, c).len() ==> #[trigger] ladder(hw, m, c)[i].cache_type_k == Some("q8_0"@),
        forall|i: int| 0 <= i < ladder(hw, m, c).len() ==> #[trigger] ladder(hw, m, c)[i].ngl == ladder_ngl(hw, m, c, i as nat),
        forall|i: int| 0 <= i < ladder(hw, m, c).len() ==> #[trigger] ladder(hw, m, c)[i].ngl <= default_ngl(hw, m, c),
        forall|i: int, j: int| 0 <= i <= j < ladder(hw, m, c).len()
            ==> ladder(hw, m, c)[j].context_size <= ladder(hw, m, c)[i].context_size,
        forall|i: int, j: int| 0 <= i < j < ladder(hw, m, c).len() ==>
            !(ladder(hw, m, c)[i].context_size == ladder(hw, m, c)[j].context_size
                && ladder(hw, m, c)[i].cache_type_k == ladder(hw, m, c)[j].cache_type_k),
{
    let req = requested_ctx(hw, m, c);
    let mn = min_ctx(m);
    assert(req <= u32::MAX && mn <= u32::MAX) by {
        assert(m.requested_context <= u32::MAX);
    }
    lemma_ctx_steps(req, mn);
    let steps = ctx_steps(req, mn);
    let raw = seq![
        max_nat(req, mn) as u32,
        max_nat((req * 3) / 4, mn) as u32,
        max_nat(req / 2, mn) as u32,
        max_nat(req / 4, mn) as u32,
    ];
    lemma_dedup_len(raw);
    reveal_with_fuel(dedup_adjacent, 5);
    assert(steps[0] == max_nat(req, mn));
    let l = ladder(hw, m, c);
    assert(l.len() >= 1);
    let d = default_ngl(hw, m, c);
    assert(d <= u32::MAX) by {
        if !m.ngl_pinned && !(m.file_size_mb as nat <= usable_mb(hw, c.vram_reserve_mb) || m.block_count is None) {
            let layers = max_nat(m.block_count->0 as nat, 1);
            assert(layers <= u32::MAX);
        }
    }
    assert forall|i: int| 0 <= i < l.len() implies #[trigger] l[i].attempt == i + 1 by {
        assert(l.len() <= max_attempts(c));
        assert(i + 1 <= u32::MAX) by {
            assert(max_attempts(c) <= u32::MAX);
        }
    }
    assert forall|i: int| 0 <= i < l.len() implies #[trigger] l[i].context_size >= mn by {
        assert(0 <= ladder_step(i as nat) < steps.len());
    }
    assert forall|i: int| 0 <= i < l.len() implies #[trigger] l[i].ngl == ladder_ngl(hw, m, c, i as nat) by {
        assert((d * 3) / 4 <= d);
    }
    assert forall|i: int| 0 <= i < l.len() implies #[trigger] l[i].ngl <= d by {
        assert((d * 3) / 4 <= d);
    }
    assert forall|i: int, j: int| 0 <= i <= j < l.len() implies l[j].context_size <= l[i].context_size by {
        assert(ladder_step(i as nat) <= ladder_step(j as nat));
        if ladder_step(i as nat) < ladder_step(j as nat) {
            assert(steps[ladder_step(j as nat)] < steps[ladder_step(i as nat)]);
        }
    }
    assert forall|i: int, j: int| 0 <= i < j < l.len() implies
        !(l[i].context_size == l[j].context_size && l[i].cache_type_k == l[j].cache_type_k) by {
        if i > 0 {
            assert(ladder_step(i as nat) < ladder_step(j as nat));
            assert(steps[ladder_step(j as nat)] < steps[ladder_step(i as nat)]);
        }
    }
}

/// Embedding models get a batch and micro-batch size on every attempt: the
/// batch is at least 256, never grows along the ladder, and the micro-batch
/// never exceeds it. Other models get neither.
pub proof fn lemma_ladder_batches(hw: HardwareSummary, m: ModelSummary, c: FitConfig)
    ensures
        is_embedding_model(m) ==> forall|i: int| 0 <= i < ladder(hw, m, c).len() ==> {
            &&& #[trigger] ladder(hw, m, c)[i].batch_size matches Some(b) && b >= 256
            &&& ladder(hw, m, c)[i].ubatch_size matches Some(u)
                && u <= ladder(hw, m, c)[i].batch_size->0
        },
        is_embedding_model(m) ==> forall|i: int, j: int| 0 <= i <= j < ladder(hw, m, c).len()
            ==> ladder(hw, m, c)[j].batch_size->0 <= ladder(hw, m, c)[i].batch_size->0,
        !is_embedding_model(m) ==> forall|i: int| 0 <= i < ladder(hw, m, c).len() ==>
            (#[trigger] ladder(hw, m, c)[i]).batch_size is None && ladder(hw, m, c)[i].ubatch_size is None,
{
    let l = ladder(hw, m, c);
    let tier = batch_tier(embedding_headroom(hw, m, c));
    lemma_batch_steps(tier.0);
    let bs = batch_steps(tier.0);
    if is_embedding_model(m) {
        assert forall|i: int| 0 <= i < l.len() implies {
            &&& #[trigger] l[i].batch_size matches Some(b) && b >= 256
            &&& l[i].ubatch_size matches Some(u) && u <= l[i].batch_size->0
        } by {
            let k = min_nat(i as nat, (bs.len() - 1) as nat) as int;
            assert(0 <= k < bs.len());
            assert(bs[k] >= 256);
        }
        assert forall|i: int, j: int| 0 <= i <= j < l.len() implies l[j].batch_size->0 <= l[i].batch_size->0 by {
            let ki = min_nat(i as nat, (bs.len() - 1) as nat) as int;
            let kj = min_nat(j as nat, (bs.len() - 1) as nat) as int;
            assert(ki <= kj);
            if ki < kj {
                assert(bs[kj] < bs[ki]);
            }
        }
    }
}


// ── Coarse capacity check ───────────────────────────────────────────────────

/// Whether the weights can possibly be held: 15 % headroom over the weight
/// size must fit in VRAM (plus system RAM when `allow_cpu_ram`). Unknown
/// sizes (`0`) never block.
pub open spec fn can_possibly_serve(weights_mb: nat, hw: HardwareSummary, allow_cpu_ram: bool) -> bool {
    weights_mb == 0 || {
        let required = min_nat(weights_mb + weights_mb / 7, u64::MAX as nat);
        let capacity = if allow_cpu_ram {
            min_nat(hw.total_vram_mb as nat + hw.system_ram_mb as nat, u64::MAX as nat)
        } else {
            hw.total_vram_mb as nat
        };
        required <= capacity
    }
}

pub fn hardware_can_possibly_serve(weights_mb: u64, hardware: &HardwareSummary, allow_cpu_ram: bool) -> (r: bool)
    ensures
        r == can_possibly_serve(weights_mb as nat, *hardware, allow_cpu_ram),
{
    if weights_mb == 0 {
        return true;
    }
    let required_mb = weights_mb.saturating_add(weights_mb / 7);
    let capacity_mb = if allow_cpu_ram {
        hardware.total_vram_mb.saturating_add(hardware.system_ram_mb)
    } else {
        hardware.total_vram_mb
    };
    required_mb <= capacity_mb
}

/// The model reference a vLLM command line serves: the argument after `serve`.
pub fn vllm_model_ref_from_args<'a>(args: &'a [String]) -> (r: Option<&'a str>)
    ensures
        match r {
            Some(v) => crate::args::value_after(strs(args@), seq!["serve"], false) == Some(v@),
            None => crate::args::value_after(strs(args@), seq!["serve"], false) is None,
        },
{
    crate::args::flag_value(args, "serve")
}

/// One file of a local directory: its name and its size in bytes.
#[derive(Debug, Clone)]
pub struct DirFile {
    pub name: String,
    pub size: u64,
}

/// `Path::extension` of a file name: what follows its last `.`, unless
/// that dot begins the name.
pub open spec fn extension_of(name: Seq<char>) -> Option<Seq<char>> {
    match last_index_of(name, '.') {
        Some(p) => if p > 0 { Some(name.subrange(p + 1, name.len() as int)) } else { None },
        None => None,
    }
}

/// A file whose extension is `safetensors`, in any case.
pub open spec fn is_safetensors_file(name: Seq<char>) -> bool {
    match extension_of(name) {
        Some(e) => lower(e) == "safetensors"@,
        None => false,
    }
}

/// The total size of the safetensors files in a directory listing.
pub open spec fn local_safetensors_bytes(files: Seq<DirFile>) -> nat
    decreases files.len(),
{
    if files.len() == 0 {
        0
    } else {
        local_safetensors_bytes(files.drop_last()) + if is_safetensors_file(files.last().name@) { files.last().size as nat } else { 0nat }
    }
}

proof fn lemma_local_bytes_prefix(fs: Seq<DirFile>, i: int)
    requires
        0 <= i <= fs.len(),
    ensures
        local_safetensors_bytes(fs.subrange(0, i)) <= local_safetensors_bytes(fs),
    decreases fs.len() - i,
{
    if i < fs.len() {
        lemma_local_bytes_prefix(fs, i + 1);
        assert(fs.subrange(0, i + 1).drop_last() =~= fs.subrange(0, i));
    } else {
        assert(fs.subrange(0, i) =~= fs);
    }
}

fn is_safetensors_file_exec(name: &str) -> (r: bool)
    ensures
        r == is_safetensors_file(name@),
{
    let v = chars_of(name);
    proof { lemma_last_index_of(v@, '.'); }
    match rfind_char(&v, '.') {
        Some(p) => {
            if p == 0 {
                return false;
            }
            assert(last_index_of(v@, '.') == Some(p as int));
            assert(p < v.len());
            let mut ext: Vec<char> = Vec::new();
            let mut i: usize = p + 1;
            while i < v.len()
                invariant
                    p + 1 <= i <= v.len(),
                    ext@ == v@.subrange(p + 1, i as int),
                decreases v.len() - i,
            {
                ext.push(v[i]);
                i = i + 1;
                assert(ext@ =~= v@.subrange(p + 1, i as int));
            }
            let l = lower_chars(&ext);
            let target: [char; 11] = ['s', 'a', 'f', 'e', 't', 'e', 'n', 's', 'o', 'r', 's'];
            proof {
                reveal_strlit("safetensors");
                assert(target@ =~= "safetensors"@);
            }
            seq_eq(&l, &target)
        },
        None => false,
    }
}

/// Whether a file name's extension is `ext` (given lower-case), in any case.
pub(crate) fn extension_is(name: &str, ext: &[char]) -> (r: bool)
    ensures
        r == match extension_of(name@) { Some(e) => lower(e) == ext@, None => false },
{
    let v = chars_of(name);
    proof { lemma_last_index_of(v@, '.'); }
    match rfind_char(&v, '.') {
        Some(p) => {
            if p == 0 {
                return false;
            }
            assert(last_index_of(v@, '.') == Some(p as int));
            assert(p < v.len());
            let mut e: Vec<char> = Vec::new();
            let mut i: usize = p + 1;
            while i < v.len()
                invariant
                    p + 1 <= i <= v.len(),
                    e@ == v@.subrange(p + 1, i as int),
                decreases v.len() - i,
            {
                e.push(v[i]);
                i = i + 1;
                assert(e@ =~= v@.subrange(p + 1, i as int));
            }
            let l = lower_chars(&e);
            seq_eq(&l, ext)
        },
        None => false,
    }
}

/// The size in MiB (rounded down) of the safetensors files of a directory
/// listing; an empty listing, as for a directory that does not exist,
/// gives 0.
pub fn sum_safetensors_mb(files: &[DirFile]) -> (r: u64)
    requires
        local_safetensors_bytes(files@) <= u64::MAX,
    ensures
        r as nat == local_safetensors_bytes(files@) / 1048576,
{
    let mut total: u64 = 0;
    let mut i: usize = 0;
    while i < files.len()
        invariant
            i <= files@.len(),
            local_safetensors_bytes(files@) <= u64::MAX,
            total as nat == local_safetensors_bytes(files@.subrange(0, i as int)),
        decreases files.len() - i,
    {
        proof {
            lemma_local_bytes_prefix(files@, i + 1);
            assert(files@.subrange(0, i + 1).drop_last() =~= files@.subrange(0, i as int));
        }
        if is_safetensors_file_exec(files[i].name.as_str()) {
            total = total + files[i].size;
        }
        i = i + 1;
    }
    assert(files@.subrange(0, files@.len() as int) =~= files@);
    total / 1048576
}

/// The weight size in MiB of the model a vLLM command line serves:
/// `model_dir_files` lists the directory that the argument after `serve`
/// names (empty when that is no local directory). Without a `serve`
/// argument the size is unknown: 0.
pub fn vllm_model_size_mb_from_args(args: &[String], model_dir_files: &[DirFile]) -> (r: u64)
    requires
        local_safetensors_bytes(model_dir_files@) <= u64::MAX,
    ensures
        r as nat == (if crate::args::value_after(strs(args@), seq!["serve"], false) is None { 0 } else {
            local_safetensors_bytes(model_dir_files@) / 1048576
        }),
{
    match vllm_model_ref_from_args(args) {
        Some(_) => sum_safetensors_mb(model_dir_files),
        None => 0,
    }
}

// ── vLLM planning ───────────────────────────────────────────────────────────

/// A single vLLM load profile. `gpu_memory_utilization` is the fraction as
/// written on the command line (two decimals, e.g. `0.90`).
pub struct VllmFitPlan {
    pub max_model_len: u32,
    pub gpu_memory_utilization: String,
    pub tensor_parallel_size: u32,
    pub reason: String,
    pub attempt: u32,
}

pub ghost struct VllmFitPlanView {
    pub max_model_len: u32,
    pub gpu_memory_utilization: Seq<char>,
    pub tensor_parallel_size: u32,
    pub reason: Seq<char>,
    pub attempt: u32,
}

impl View for VllmFitPlan {
    type V = VllmFitPlanView;

    open spec fn view(&self) -> VllmFitPlanView {
        VllmFitPlanView {
            max_model_len: self.max_model_len,
            gpu_memory_utilization: self.gpu_memory_utilization@,
            tensor_parallel_size: self.tensor_parallel_size,
            reason: self.reason@,
            attempt: self.attempt,
        }
    }
}

pub open spec fn vllm_views(p: Seq<VllmFitPlan>) -> Seq<VllmFitPlanView> {
    p.map_values(|x: VllmFitPlan| x@)
}

/// Shard across every GPU when the model does not fit on one.
pub open spec fn vllm_tensor_parallel(hw: HardwareSummary, model_size_mb: nat, pinned: Option<u32>, c: FitConfig) -> u32 {
    match pinned {
        Some(t) => t,
        None => if hw.gpus@.len() <= 1 || model_size_mb == 0 {
            1
        } else {
            let per_gpu = usable_mb(hw, c.vram_reserve_mb) / hw.gpus@.len();
            if model_size_mb <= max_nat(per_gpu, 1) { 1 } else { hw.gpus@.len() as u32 }
        },
    }
}

pub open spec fn vllm_ctx_steps(requested: nat, c: FitConfig) -> Seq<u32> {
    let s = ctx_steps(requested, 4096);
    if s.len() <= max_attempts(c) { s } else { s.take(max_attempts(c) as int) }
}

pub open spec fn vllm_reason(attempt: nat, ctx: nat, requested: nat) -> Seq<char> {
    "attempt "@ + decimal(attempt) + ": "@ + if ctx < requested {
        "max_model_len "@ + decimal(requested) + seq!['\u{2192}'] + decimal(ctx) + " ("@ + decimal(percent_of(ctx, requested)) + "%)"@
    } else {
        "requested parameters"@
    }
}

pub open spec fn vllm_ladder(
    hw: HardwareSummary,
    model_size_mb: nat,
    requested: nat,
    pinned_tp: Option<u32>,
    gmu: Seq<char>,
    c: FitConfig,
) -> Seq<VllmFitPlanView> {
    let steps = vllm_ctx_steps(requested, c);
    Seq::new(steps.len(), |i: int| VllmFitPlanView {
        max_model_len: steps[i],
        gpu_memory_utilization: gmu,
        tensor_parallel_size: vllm_tensor_parallel(hw, model_size_mb, pinned_tp, c),
        reason: vllm_reason((i + 1) as nat, steps[i] as nat, requested),
        attempt: (i + 1) as u32,
    })
}

fn vllm_reason_exec(attempt: u32, ctx: u32, requested: u32) -> (r: String)
    ensures
        r@ == vllm_reason(attempt as nat, ctx as nat, requested as nat),
{
    let mut out = string_from_str("attempt ");
    let a = fmt_decimal(attempt as u64);
    out.append(a.as_str());
    out.append(": ");
    if ctx < requested {
        let p = arrow_pair("max_model_len ", requested as u64, ctx as u64);
        out.append(p.as_str());
        out.append(" (");
        let pct = fmt_decimal(percent(ctx, requested));
        out.append(pct.as_str());
        out.append("%)");
    } else {
        out.append("requested parameters");
    }
    out
}

fn build_vllm_fallback_ladder(
    hardware: &HardwareSummary,
    model_size_mb: u64,
    requested_context: u32,
    pinned_tensor_parallel_size: Option<u32>,
    gpu_memory_utilization: &String,
    config: &FitConfig,
) -> (r: Vec<VllmFitPlan>)
    ensures
        vllm_views(r@) == vllm_ladder(
            *hardware,
            model_size_mb as nat,
            requested_context as nat,
            pinned_tensor_parallel_size,
            gpu_memory_utilization@,
            *config,
        ),
        r@.len() >= 1,
{
    let max_att: u32 = if config.max_attempts >= 1 { config.max_attempts } else { 1 };
    let usable = hardware.usable_vram_mb(config.vram_reserve_mb);
    let tp: u32 = match pinned_tensor_parallel_size {
        Some(t) => t,
        None => if hardware.gpus.len() <= 1 || model_size_mb == 0 {
            1
        } else {
            let per_gpu = usable / (hardware.gpus.len() as u64);
            let cap = if per_gpu >= 1 { per_gpu } else { 1 };
            if model_size_mb <= cap { 1 } else { hardware.gpus.len() as u32 }
        },
    };
    let req = requested_context;
    let min_c: u32 = 4096;
    let r3: u32 = ((req as u64 * 3) / 4) as u32;
    let raw = [
        if req >= min_c { req } else { min_c },
        if r3 >= min_c { r3 } else { min_c },
        if req / 2 >= min_c { req / 2 } else { min_c },
        if req / 4 >= min_c { req / 4 } else { min_c },
    ];
    assert(raw@ =~= seq![
        max_nat(req as nat, 4096) as u32,
        max_nat((req as nat * 3) / 4, 4096) as u32,
        max_nat(req as nat / 2, 4096) as u32,
        max_nat(req as nat / 4, 4096) as u32,
    ]);
    let steps = dedup_desc(&raw);
    proof { lemma_dedup_len(raw@); }
    let count: usize = if steps.len() <= max_att as usize { steps.len() } else { max_att as usize };
    let ghost vsteps = vllm_ctx_steps(req as nat, *config);
    assert(count == vsteps.len());
    let mut plans: Vec<VllmFitPlan> = Vec::new();
    let mut i: usize = 0;
    while i < count
        invariant
            i <= count,
            count <= steps@.len(),
            count == vsteps.len(),
            vsteps == vllm_ctx_steps(req as nat, *config),
            steps@ == ctx_steps(req as nat, 4096),
            max_att as nat == max_attempts(*config),
            tp == vllm_tensor_parallel(*hardware, model_size_mb as nat, pinned_tensor_parallel_size, *config),
            plans@.len() == i,
            forall|j: int| 0 <= j < i ==> (#[trigger] plans@[j])@ == vllm_ladder(
                *hardware,
                model_size_mb as nat,
                req as nat,
                pinned_tensor_parallel_size,
                gpu_memory_utilization@,
                *config,
            )[j],
        decreases count - i,
    {
        let ctx = steps[i];
        assert(vsteps[i as int] == ctx);
        let reason = vllm_reason_exec((i + 1) as u32, ctx, req);
        plans.push(VllmFitPlan {
            max_model_len: ctx,
            gpu_memory_utilization: gpu_memory_utilization.clone(),
            tensor_parallel_size: tp,
            reason,
            attempt: (i + 1) as u32,
        });
        i = i + 1;
    }
    assert(vllm_views(plans@) =~= vllm_ladder(
        *hardware,
        model_size_mb as nat,
        req as nat,
        pinned_tensor_parallel_size,
        gpu_memory_utilization@,
        *config,
    ));
    plans
}

/// State machine over a pre-computed vLLM ladder (context reductions only).
pub struct VllmFitPlanner {
    plans: Vec<VllmFitPlan>,
    current: usize,
}

impl VllmFitPlanner {
    pub closed spec fn plans_view(&self) -> Seq<VllmFitPlanView> {
        vllm_views(self.plans@)
    }

    pub closed spec fn position(&self) -> nat {
        self.current as nat
    }

    pub closed spec fn wf(&self) -> bool {
        self.plans@.len() >= 1
    }

    /// Plans from hardware and model size. `gpu_memory_utilization` is the
    /// fraction to pass to vLLM, already written with two decimals.
    pub fn new(
        hardware: &HardwareSummary,
        model_size_mb: u64,
        requested_context: u32,
        pinned_tensor_parallel_size: Option<u32>,
        gpu_memory_utilization: String,
        config: &FitConfig,
    ) -> (r: VllmFitPlanner)
        ensures
            r.wf(),
            r.position() == 0,
            r.plans_view() == vllm_ladder(
                *hardware,
                model_size_mb as nat,
                requested_context as nat,
                pinned_tensor_parallel_size,
                gpu_memory_utilization@,
                *config,
            ),
    {
        let plans = build_vllm_fallback_ladder(
            hardware,
            model_size_mb,
            requested_context,
            pinned_tensor_parallel_size,
            &gpu_memory_utilization,
            config,
        );
        VllmFitPlanner { plans, current: 0 }
    }

    pub fn current_plan(&self) -> (r: &VllmFitPlan)
        requires
            self.wf(),
        ensures
            r@ == self.plans_view()[min_nat(self.position(), (self.plans_view().len() - 1) as nat) as int],
    {
        let last = self.plans.len() - 1;
        let idx = if self.current <= last { self.current } else { last };
        &self.plans[idx]
    }

    pub fn advance(&mut self, failure_reason: &str) -> (r: Option<&VllmFitPlan>)
        requires
            old(self).wf(),
            old(self).position() < usize::MAX,
        ensures
            final(self).wf(),
            final(self).plans_view() == old(self).plans_view(),
            final(self).position() == old(self).position() + 1,
            match r {
                Some(p) => final(self).position() < old(self).plans_view().len()
                    && p@ == old(self).plans_view()[final(self).position() as int],
                None => final(self).position() >= old(self).plans_view().len(),
            },
    {
        self.current = self.current + 1;
        if self.current >= self.plans.len() {
            return None;
        }
        Some(&self.plans[self.current])
    }

    pub fn is_exhausted(&self) -> (r: bool)
        ensures
            r == (self.position() >= self.plans_view().len()),
    {
        self.current >= self.plans.len()
    }

    pub fn total_plans(&self) -> (r: usize)
        ensures
            r == self.plans_view().len(),
    {
        self.plans.len()
    }

    pub fn all_plans(&self) -> (r: &[VllmFitPlan])
        ensures
            vllm_views(r@) == self.plans_view(),
    {
        self.plans.as_slice()
    }

    /// Rewrite `--max-model-len`, `--gpu-memory-utilization` and
    /// `--tensor-parallel-size`.
    pub fn apply_plan_to_args(base_args: &[String], plan: &VllmFitPlan) -> (r: Vec<String>)
        ensures
            strs(r@) == set_flag_value(
                set_flag_value(
                    set_flag_value(strs(base_args@), seq!["--max-model-len"], true, "--max-model-len"@, decimal(plan.max_model_len as nat)),
                    seq!["--gpu-memory-utilization"], true, "--gpu-memory-utilization"@, plan.gpu_memory_utilization@),
                seq!["--tensor-parallel-size"], true, "--tensor-parallel-size"@, decimal(plan.tensor_parallel_size as nat)),
    {
        let len = fmt_decimal(plan.max_model_len as u64);
        let args = with_flag(base_args, "--max-model-len", len.as_str());
        let args = with_flag(&args, "--gpu-memory-utilization", plan.gpu_memory_utilization.as_str());
        let tp = fmt_decimal(plan.tensor_parallel_size as u64);
        with_flag(&args, "--tensor-parallel-size", tp.as_str())
    }
}

} // verus!

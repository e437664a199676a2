//! Enrichment of registry entries from the Hugging Face Hub catalog: what a
//! catalog hit says of a model, how well a hit matches a local file, and
//! how the enrichment fills only what an entry leaves empty.
use vstd::prelude::*;
use crate::models_cmd::{byte_len, byte_len_exec};
use crate::paths::{file_name, file_name_of, file_stem, file_stem_of};
use crate::registry::{EntryView, RegistryEntry};
use crate::text::{
    chars_of, clone_opt_str, clone_strings, concat_str, contains, first_occurrence, find, has_prefix, join,
    join_strings, lower, opt_str, split_chars, split_on, str_contains, str_eq, str_is_empty, str_starts_with,
    string_from, string_from_str, strings_view, to_lower, trim, trim_str, vec_views,
};
use vstd::slice::slice_subrange;

verus! {

/// What the catalog's GGUF metadata says of a repository.
#[derive(Debug, Clone, Copy)]
pub struct HfGgufMeta {
    pub context_length: Option<u32>,
    pub total: Option<u64>,
    pub total_file_size: Option<u64>,
}

/// The model card, as far as it is read: its `description` string.
#[derive(Debug, Clone)]
pub struct HfCardData {
    pub description: Option<String>,
}

#[derive(Debug, Clone)]
pub struct HfSibling {
    pub rfilename: String,
}

/// One model object of the catalog.
#[derive(Debug, Clone)]
pub struct HfModelHit {
    pub id: String,
    pub pipeline_tag: Option<String>,
    pub tags: Vec<String>,
    pub gguf: Option<HfGgufMeta>,
    /// The card under `card_data`.
    pub card_data: Option<HfCardData>,
    /// The card under `cardData`, read when `card_data` is absent.
    pub card_data_camel: Option<HfCardData>,
    pub siblings: Vec<HfSibling>,
}

#[derive(Debug, Clone)]
pub struct HfEnrichment {
    pub hf_repo: String,
    pub description: Option<String>,
    pub kind: Option<String>,
    pub max_context_length: Option<u32>,
    pub min_vram_gb: Option<u32>,
    pub capabilities: Vec<String>,
}

/// Whole gigabytes (10^9 bytes) needed for `bytes`, rounded up, at least one.
pub open spec fn gb_ceil(bytes: nat) -> u32 {
    let gb = (bytes + 999_999_999) / 1_000_000_000;
    if gb > u32::MAX { u32::MAX } else if gb < 1 { 1 } else { gb as u32 }
}

pub fn gb_ceil_exec(bytes: u64) -> (r: u32)
    ensures
        r == gb_ceil(bytes as nat),
{
    let gb: u64 = bytes / 1_000_000_000 + if bytes % 1_000_000_000 > 0 { 1u64 } else { 0u64 };
    assert(gb == (bytes + 999_999_999) / 1_000_000_000) by (nonlinear_arith)
        requires gb == bytes / 1_000_000_000 + if bytes % 1_000_000_000 > 0 { 1int } else { 0int };
    if gb > 4294967295u64 {
        4294967295u32
    } else if gb < 1 {
        1
    } else {
        gb as u32
    }
}

/// The trimmed, non-empty description of the hit's card.
pub open spec fn hit_description(h: HfModelHit) -> Option<Seq<char>> {
    let card = match h.card_data {
        Some(c) => Some(c),
        None => h.card_data_camel,
    };
    match card {
        Some(c) => match c.description {
            Some(d) => if trim(d@).len() > 0 { Some(trim(d@)) } else { None },
            None => None,
        },
        None => None,
    }
}

/// The model size the catalog reports: `total`, else `totalFileSize`.
pub open spec fn hit_size(h: HfModelHit) -> Option<u64> {
    match h.gguf {
        Some(g) => match g.total {
            Some(t) => Some(t),
            None => g.total_file_size,
        },
        None => None,
    }
}

pub open spec fn lower_all(ts: Seq<Seq<char>>) -> Seq<Seq<char>> {
    ts.map_values(|t: Seq<char>| lower(t))
}

pub open spec fn opt_or_empty(o: Option<Seq<char>>) -> Seq<char> {
    match o {
        Some(s) => s,
        None => seq![],
    }
}

/// The model kind the catalog suggests: embedding, vision, coder or chat,
/// from the pipeline tag, the tags and the local file name.
pub open spec fn hf_kind(pipeline_tag: Option<Seq<char>>, tags: Seq<Seq<char>>, local: Seq<char>) -> Option<Seq<char>> {
    let tag = lower(opt_or_empty(pipeline_tag));
    let hay = tag + " "@ + join(lower_all(tags), " "@) + " "@ + lower(local);
    if contains(tag, "feature-extraction"@) || contains(tag, "sentence-similarity"@) || contains(hay, "embed"@) {
        Some("embedding"@)
    } else if contains(tag, "image-text-to-text"@) || contains(tag, "any-to-any"@) || contains(hay, "vision"@)
        || contains(hay, "-vl"@) || contains(hay, "mmproj"@) {
        Some("vision"@)
    } else if contains(hay, "coder"@) || contains(hay, "code"@) {
        Some("coder"@)
    } else if tag.len() > 0 || tags.len() > 0 {
        Some("chat"@)
    } else {
        None
    }
}

fn lower_strings(ts: &Vec<String>) -> (r: Vec<String>)
    ensures
        strings_view(r@) == lower_all(strings_view(ts@)),
{
    let mut out: Vec<String> = Vec::new();
    let mut i: usize = 0;
    while i < ts.len()
        invariant
            i <= ts@.len(),
            out@.len() == i,
            forall|k: int| 0 <= k < i ==> (#[trigger] out@[k])@ == lower(ts@[k]@),
        decreases ts.len() - i,
    {
        out.push(to_lower(ts[i].as_str()));
        i = i + 1;
    }
    assert(strings_view(out@) =~= lower_all(strings_view(ts@)));
    out
}

pub fn infer_kind_from_hf(pipeline_tag: &Option<String>, tags: &Vec<String>, local_filename: &str) -> (r: Option<String>)
    ensures
        opt_str(r) == hf_kind(opt_str(*pipeline_tag), strings_view(tags@), local_filename@),
{
    let tag = match pipeline_tag {
        Some(t) => to_lower(t.as_str()),
        None => String::new(),
    };
    let lowered = lower_strings(tags);
    let joined = join_strings(lowered.as_slice(), " ");
    let a = concat_str(tag.as_str(), " ");
    let b = concat_str(a.as_str(), joined.as_str());
    let c = concat_str(b.as_str(), " ");
    let l = to_lower(local_filename);
    let hay = concat_str(c.as_str(), l.as_str());
    assert(lower(Seq::<char>::empty()) =~= Seq::<char>::empty());
    assert(tag@ == lower(opt_or_empty(opt_str(*pipeline_tag))));
    assert(hay@ == tag@ + " "@ + join(lower_all(strings_view(tags@)), " "@) + " "@ + lower(local_filename@));
    let t = tag.as_str();
    let h = hay.as_str();
    if str_contains(t, "feature-extraction") || str_contains(t, "sentence-similarity") || str_contains(h, "embed") {
        Some(string_from_str("embedding"))
    } else if str_contains(t, "image-text-to-text") || str_contains(t, "any-to-any") || str_contains(h, "vision")
        || str_contains(h, "-vl") || str_contains(h, "mmproj") {
        Some(string_from_str("vision"))
    } else if str_contains(h, "coder") || str_contains(h, "code") {
        Some(string_from_str("coder"))
    } else if !str_is_empty(t) || tags.len() > 0 {
        Some(string_from_str("chat"))
    } else {
        None
    }
}

/// The capabilities the catalog suggests, sorted: `reasoning`, `tools`,
/// `vision`, each when its words occur in the pipeline tag and tags.
pub open spec fn hf_capabilities(pipeline_tag: Option<Seq<char>>, tags: Seq<Seq<char>>) -> Seq<Seq<char>> {
    let hay = lower(opt_or_empty(pipeline_tag) + " "@ + join(tags, " "@));
    (if contains(hay, "reasoning"@) || contains(hay, "think"@) { seq!["reasoning"@] } else { seq![] })
        + (if contains(hay, "tool"@) || contains(hay, "function-calling"@) { seq!["tools"@] } else { seq![] })
        + (if contains(hay, "image-text-to-text"@) || contains(hay, "any-to-any"@) || contains(hay, "vision"@)
        || contains(hay, "vlm"@) { seq!["vision"@] } else { seq![] })
}

pub fn capabilities_from_hf(pipeline_tag: &Option<String>, tags: &Vec<String>) -> (r: Vec<String>)
    ensures
        strings_view(r@) == hf_capabilities(opt_str(*pipeline_tag), strings_view(tags@)),
{
    let pt = match pipeline_tag {
        Some(t) => t.clone(),
        None => String::new(),
    };
    let joined = join_strings(tags.as_slice(), " ");
    let a = concat_str(pt.as_str(), " ");
    let b = concat_str(a.as_str(), joined.as_str());
    let hay = to_lower(b.as_str());
    let h = hay.as_str();
    let mut caps: Vec<String> = Vec::new();
    let ghost c0 = strings_view(caps@);
    if str_contains(h, "reasoning") || str_contains(h, "think") {
        caps.push(string_from_str("reasoning"));
    }
    let ghost c1 = strings_view(caps@);
    if str_contains(h, "tool") || str_contains(h, "function-calling") {
        caps.push(string_from_str("tools"));
    }
    let ghost c2 = strings_view(caps@);
    if str_contains(h, "image-text-to-text") || str_contains(h, "any-to-any") || str_contains(h, "vision")
        || str_contains(h, "vlm") {
        caps.push(string_from_str("vision"));
    }
    assert(strings_view(caps@) =~= hf_capabilities(opt_str(*pipeline_tag), strings_view(tags@)));
    caps
}

/// What a catalog hit says of the model behind local file `local`.
pub open spec fn enrichment_matches(x: HfEnrichment, h: HfModelHit, local: Seq<char>) -> bool {
    &&& x.hf_repo@ == h.id@
    &&& opt_str(x.description) == hit_description(h)
    &&& opt_str(x.kind) == hf_kind(opt_str(h.pipeline_tag), strings_view(h.tags@), local)
    &&& x.max_context_length == match h.gguf { Some(g) => g.context_length, None => None }
    &&& x.min_vram_gb == match hit_size(h) { Some(b) => Some(gb_ceil(b as nat)), None => None }
    &&& strings_view(x.capabilities@) == hf_capabilities(opt_str(h.pipeline_tag), strings_view(h.tags@))
}

pub fn enrichment_from_hit(hit: &HfModelHit, local_filename: &str) -> (r: HfEnrichment)
    ensures
        enrichment_matches(r, *hit, local_filename@),
{
    let card = match &hit.card_data {
        Some(c) => Some(c),
        None => match &hit.card_data_camel {
            Some(c) => Some(c),
            None => None,
        },
    };
    let description = match card {
        Some(c) => match &c.description {
            Some(d) => {
                let t = trim_str(d.as_str());
                if str_is_empty(t.as_str()) { None } else { Some(t) }
            },
            None => None,
        },
        None => None,
    };
    let size_bytes = match &hit.gguf {
        Some(g) => match g.total {
            Some(t) => Some(t),
            None => g.total_file_size,
        },
        None => None,
    };
    let min_vram_gb = match size_bytes {
        Some(b) => Some(gb_ceil_exec(b)),
        None => None,
    };
    let max_context_length = match &hit.gguf {
        Some(g) => g.context_length,
        None => None,
    };
    let kind = infer_kind_from_hf(&hit.pipeline_tag, &hit.tags, local_filename);
    let capabilities = capabilities_from_hf(&hit.pipeline_tag, &hit.tags);
    HfEnrichment { hf_repo: hit.id.clone(), description, kind, max_context_length, min_vram_gb, capabilities }
}

// ---------------------------------------------------------------- matching hits to files

/// The quantization markers cut from a file stem, in the order tried.
pub open spec fn quant_markers() -> Seq<Seq<char>> {
    seq!["-q4_"@, "-q5_"@, "-q6_"@, "-q8_"@, "-q3_"@, "-q2_"@, "-f16"@, "-f32"@, "-iq"@]
}

/// The stem cut before the first (case-insensitive) occurrence of the first
/// marker, in list order, that occurs.
pub open spec fn strip_markers(stem: Seq<char>, markers: Seq<Seq<char>>) -> Seq<char>
    decreases markers.len(),
{
    if markers.len() == 0 {
        stem
    } else {
        match first_occurrence(lower(stem), markers[0]) {
            Some(i) => stem.subrange(0, i),
            None => strip_markers(stem, markers.drop_first()),
        }
    }
}

pub open spec fn strip_quant(stem: Seq<char>) -> Seq<char> {
    strip_markers(stem, quant_markers())
}

/// `Qwen3.5-9B-Q4_K_M` becomes `Qwen3.5-9B`.
pub fn strip_quant_suffix(stem: &str) -> (r: String)
    ensures
        r@ == strip_quant(stem@),
{
    let markers: [&str; 9] = ["-q4_", "-q5_", "-q6_", "-q8_", "-q3_", "-q2_", "-f16", "-f32", "-iq"];
    assert(Seq::new(9, |i: int| markers@[i]@) =~= quant_markers());
    let l = to_lower(stem);
    let lv = chars_of(l.as_str());
    let sv = chars_of(stem);
    let mut k: usize = 0;
    assert(quant_markers().subrange(0, 9) =~= quant_markers());
    while k < 9
        invariant
            k <= 9,
            lv@ == lower(stem@),
            sv@ == stem@,
            Seq::new(9, |i: int| markers@[i]@) == quant_markers(),
            strip_quant(stem@) == strip_markers(stem@, quant_markers().subrange(k as int, 9)),
        decreases 9 - k,
    {
        let ghost rest = quant_markers().subrange(k as int, 9);
        assert(rest.drop_first() =~= quant_markers().subrange(k + 1, 9));
        assert(rest[0] == markers@[k as int]@);
        let m = chars_of(markers[k]);
        match find(lv.as_slice(), m.as_slice()) {
            Some(idx) => {
                proof { crate::text::lemma_first_occurrence(lv@, m@); }
                assert(lower(stem@).len() == stem@.len());
                return string_from(slice_subrange(sv.as_slice(), 0, idx));
            },
            None => {},
        }
        k = k + 1;
    }
    string_from_str(stem)
}

/// The catalog search query for a registry file: its file stem without the
/// quantization marker.
pub open spec fn search_query(file: Seq<char>) -> Seq<char> {
    let name = match file_name_of(file) { Some(n) => n, None => file };
    let stem = match file_stem_of(name) { Some(s) => s, None => name };
    strip_quant(stem)
}

pub fn search_query_for_file(file: &str) -> (r: String)
    ensures
        r@ == search_query(file@),
{
    let name = match file_name(file) {
        Some(n) => n,
        None => string_from_str(file),
    };
    let stem = match file_stem(name.as_str()) {
        Some(s) => s,
        None => name,
    };
    strip_quant_suffix(stem.as_str())
}

pub open spec fn sibling_names(h: HfModelHit) -> Seq<Seq<char>> {
    h.siblings@.map_values(|s: HfSibling| lower(s.rfilename@))
}

pub open spec fn some_equal(names: Seq<Seq<char>>, x: Seq<char>) -> bool {
    exists|i: int| 0 <= i < names.len() && names[i] == x
}

pub open spec fn some_containing(names: Seq<Seq<char>>, x: Seq<char>) -> bool {
    exists|i: int| 0 <= i < names.len() && contains(names[i], x)
}

/// Some piece longer than three bytes occurs in `id`.
pub open spec fn some_long_piece_in(pieces: Seq<Seq<char>>, id: Seq<char>) -> bool {
    exists|k: int| 0 <= k < pieces.len() && byte_len(pieces[k]) > 3 && contains(id, pieces[k])
}

/// How well a hit matches a local file name, higher being better; `-1` for
/// a catalog object that did not read as a hit (`None`).
pub open spec fn hit_score(h: Option<HfModelHit>, local: Seq<char>) -> int {
    match h {
        None => -1,
        Some(hit) => {
            let local_lower = lower(local);
            let stem = lower(match file_stem_of(local) { Some(s) => s, None => local });
            let core = strip_quant(stem);
            let names = sibling_names(hit);
            let id = lower(hit.id@);
            let parts = split_on(core, seq!['-']);
            (if some_equal(names, local_lower) { 100int } else { 0int })
                + (if some_containing(names, core) { 40int } else { 0int })
                + (if has_prefix(id, "lmstudio-community/"@) { 20int } else { 0int })
                + (if contains(id, core) || some_long_piece_in(parts, id) { 10int } else { 0int })
                + (if hit.gguf is Some { 5int } else { 0int })
        },
    }
}

pub fn score_hf_hit(hit: Option<&HfModelHit>, local_filename: &str) -> (r: i32)
    ensures
        r as int == hit_score(match hit { Some(h) => Some(*h), None => None }, local_filename@),
{
    let hit = match hit {
        Some(h) => h,
        None => {
            return -1;
        },
    };
    let local_lower = to_lower(local_filename);
    let stem_raw = match file_stem(local_filename) {
        Some(s) => s,
        None => string_from_str(local_filename),
    };
    let stem = to_lower(stem_raw.as_str());
    let core = strip_quant_suffix(stem.as_str());
    let ghost names = sibling_names(*hit);
    let mut exact = false;
    let mut partial = false;
    let mut i: usize = 0;
    while i < hit.siblings.len()
        invariant
            i <= hit.siblings@.len(),
            names == sibling_names(*hit),
            names.len() == hit.siblings@.len(),
            exact == exists|j: int| 0 <= j < i && names[j] == local_lower@,
            partial == exists|j: int| 0 <= j < i && contains(names[j], core@),
        decreases hit.siblings.len() - i,
    {
        let n = to_lower(hit.siblings[i].rfilename.as_str());
        assert(n@ == names[i as int]);
        if str_eq(n.as_str(), local_lower.as_str()) {
            exact = true;
        }
        if str_contains(n.as_str(), core.as_str()) {
            partial = true;
        }
        i = i + 1;
    }
    let id = to_lower(hit.id.as_str());
    let cv = chars_of(core.as_str());
    let dash: [char; 1] = ['-'];
    assert(dash@ =~= seq!['-']);
    let parts = split_chars(cv.as_slice(), dash.as_slice());
    let mut piece_hit = false;
    let mut k: usize = 0;
    while k < parts.len()
        invariant
            k <= parts@.len(),
            vec_views(parts@) == split_on(core@, seq!['-']),
            piece_hit == exists|j: int| 0 <= j < k && byte_len(split_on(core@, seq!['-'])[j]) > 3
                && contains(id@, split_on(core@, seq!['-'])[j]),
        decreases parts.len() - k,
    {
        let p = string_from(parts[k].as_slice());
        assert(p@ == split_on(core@, seq!['-'])[k as int]);
        if byte_len_exec(p.as_str()) > 3 && str_contains(id.as_str(), p.as_str()) {
            piece_hit = true;
        }
        k = k + 1;
    }
    assert(local_lower@ == lower(local_filename@));
    assert(stem@ == lower(match file_stem_of(local_filename@) { Some(x) => x, None => local_filename@ }));
    assert(core@ == strip_quant(stem@));
    assert(id@ == lower(hit.id@));
    assert(exact == some_equal(names, local_lower@));
    assert(partial == some_containing(names, core@));
    assert(piece_hit == some_long_piece_in(split_on(core@, seq!['-']), id@));
    let mut score: i32 = 0;
    if exact {
        score = score + 100;
    }
    if partial {
        score = score + 40;
    }
    if str_starts_with(id.as_str(), "lmstudio-community/") {
        score = score + 20;
    }
    if str_contains(id.as_str(), core.as_str()) || piece_hit {
        score = score + 10;
    }
    if hit.gguf.is_some() {
        score = score + 5;
    }
    score
}

/// The index of the best-scoring hit with a positive score; among equal
/// best scores the last one.
pub open spec fn best_index(scores: Seq<i32>) -> Option<int> {
    if exists|i: int| 0 <= i < scores.len() && scores[i] > 0 {
        Some(choose|i: int| 0 <= i < scores.len() && scores[i] > 0
            && (forall|j: int| 0 <= j < scores.len() ==> scores[j] <= scores[i])
            && (forall|j: int| i < j < scores.len() ==> scores[j] < scores[i]))
    } else {
        None
    }
}

proof fn lemma_best_index_is(scores: Seq<i32>, b: int)
    requires
        0 <= b < scores.len(),
        scores[b] > 0,
        forall|j: int| 0 <= j < scores.len() ==> scores[j] <= scores[b],
        forall|j: int| b < j < scores.len() ==> scores[j] < scores[b],
    ensures
        best_index(scores) == Some(b),
{
    let c = choose|i: int| 0 <= i < scores.len() && scores[i] > 0
            && (forall|j: int| 0 <= j < scores.len() ==> scores[j] <= scores[i])
            && (forall|j: int| i < j < scores.len() ==> scores[j] < scores[i]);
    assert(c == b) by {
        if c < b {
            assert(scores[b] < scores[c]);
        } else if c > b {
            assert(scores[c] < scores[b]);
        }
    }
}

pub fn best_hit_index(scores: &[i32]) -> (r: Option<usize>)
    ensures
        match r {
            Some(i) => i < scores.len() && scores@[i as int] > 0
                && (forall|j: int| 0 <= j < scores.len() ==> scores@[j] <= scores@[i as int])
                && (forall|j: int| i < j < scores.len() ==> scores@[j] < scores@[i as int])
                && best_index(scores@) == Some(i as int),
            None => best_index(scores@) is None,
        },
{
    let mut best: Option<usize> = None;
    let mut i: usize = 0;
    while i < scores.len()
        invariant
            i <= scores.len(),
            match best {
                Some(b) => b < i && scores@[b as int] > 0
                    && (forall|j: int| 0 <= j < i ==> scores@[j] <= scores@[b as int])
                    && (forall|j: int| b < j < i ==> scores@[j] < scores@[b as int]),
                None => forall|j: int| 0 <= j < i ==> scores@[j] <= 0,
            },
        decreases scores.len() - i,
    {
        let s = scores[i];
        match best {
            Some(b) => {
                if s >= scores[b] {
                    best = Some(i);
                }
            },
            None => {
                if s > 0 {
                    best = Some(i);
                }
            },
        }
        i = i + 1;
    }
    match best {
        Some(b) => {
            proof { lemma_best_index_is(scores@, b as int); }
        },
        None => {},
    }
    best
}

// ---------------------------------------------------------------- applying

/// The entry with the enrichment filled into what it leaves empty; pinned
/// values are never overwritten.
pub open spec fn enriched(e: EntryView, x: HfEnrichment) -> EntryView {
    EntryView {
        hf_repo: if e.hf_repo is None { Some(x.hf_repo@) } else { e.hf_repo },
        description: if e.description is None { opt_str(x.description) } else { e.description },
        kind: if e.kind is None { opt_str(x.kind) } else { e.kind },
        max_context_length: if e.max_context_length is None { x.max_context_length } else { e.max_context_length },
        min_vram_gb: if e.min_vram_gb is None { x.min_vram_gb } else { e.min_vram_gb },
        capabilities: if e.capabilities.len() == 0 && x.capabilities@.len() > 0 {
            strings_view(x.capabilities@)
        } else {
            e.capabilities
        },
        ..e
    }
}

/// Applies an enrichment to the fields an entry leaves empty.
pub fn apply_enrichment(entry: &mut RegistryEntry, enrich: &HfEnrichment)
    ensures
        final(entry)@ == enriched(old(entry)@, *enrich),
{
    if entry.hf_repo.is_none() {
        entry.hf_repo = Some(enrich.hf_repo.clone());
    }
    if entry.description.is_none() {
        entry.description = clone_opt_str(&enrich.description);
    }
    if entry.kind.is_none() {
        entry.kind = clone_opt_str(&enrich.kind);
    }
    if entry.max_context_length.is_none() {
        entry.max_context_length = enrich.max_context_length;
    }
    if entry.min_vram_gb.is_none() {
        entry.min_vram_gb = enrich.min_vram_gb;
    }
    if entry.capabilities.len() == 0 && enrich.capabilities.len() > 0 {
        entry.capabilities = clone_strings(&enrich.capabilities);
    }
}

/// What one registry entry's sync did.
#[derive(Debug, Clone, Copy, PartialEq, Eq, Structural)]
pub enum SyncOutcome {
    /// The entry is disabled.
    Skipped,
    /// No hit scored above zero.
    Missed,
    /// The best hit was applied.
    Matched,
}

/// The catalog request for an entry: by its repository when it names one,
/// else a search for its file's stem.
#[derive(Debug, Clone)]
pub enum HfQuery {
    ById(String),
    Search(String),
}

pub fn sync_query(entry: &RegistryEntry) -> (r: HfQuery)
    ensures
        match r {
            HfQuery::ById(repo) => entry.hf_repo matches Some(h) && repo@ == h@,
            HfQuery::Search(q) => entry.hf_repo is None && q@ == search_query(entry.file@),
        },
{
    match &entry.hf_repo {
        Some(repo) => HfQuery::ById(repo.clone()),
        None => HfQuery::Search(search_query_for_file(entry.file.as_str())),
    }
}

/// The file name a registry entry is matched by.
pub open spec fn entry_filename(file: Seq<char>) -> Seq<char> {
    match file_name_of(file) {
        Some(n) => n,
        None => file,
    }
}

pub open spec fn scores_of(hits: Seq<Option<HfModelHit>>, local: Seq<char>) -> Seq<i32> {
    hits.map_values(|h: Option<HfModelHit>| hit_score(h, local) as i32)
}

/// The entry after a local file size refined a missing VRAM figure.
pub open spec fn with_local_size(e: EntryView, local_bytes: Option<u64>) -> EntryView {
    match local_bytes {
        Some(b) => if e.min_vram_gb is None { EntryView { min_vram_gb: Some(gb_ceil(b as nat)), ..e } } else { e },
        None => e,
    }
}

fn apply_hit(entry: &mut RegistryEntry, h: &HfModelHit, filename: &str, local_file_bytes: Option<u64>)
    ensures
        exists|x: HfEnrichment| #[trigger] enrichment_matches(x, *h, filename@)
            && final(entry)@ == with_local_size(enriched(old(entry)@, x), local_file_bytes),
{
    let x = enrichment_from_hit(h, filename);
    apply_enrichment(entry, &x);
    if entry.min_vram_gb.is_none() {
        match local_file_bytes {
            Some(bytes) => {
                entry.min_vram_gb = Some(gb_ceil_exec(bytes));
            },
            None => {},
        }
    }
    assert(enrichment_matches(x, *h, filename@));
}

/// Syncs one entry from the catalog hits fetched for it (`None` where an
/// object did not read as a hit), and from the size of its local file when
/// that is known.
pub fn sync_entry(entry: &mut RegistryEntry, hits: &Vec<Option<HfModelHit>>, local_file_bytes: Option<u64>) -> (r: SyncOutcome)
    ensures
        !old(entry).enabled ==> (r == SyncOutcome::Skipped && final(entry)@ == old(entry)@),
        old(entry).enabled ==> ({
            let local = entry_filename(old(entry).file@);
            let scores = scores_of(hits@, local);
            match best_index(scores) {
                None => r == SyncOutcome::Missed && final(entry)@ == old(entry)@,
                Some(i) => {
                    &&& r == SyncOutcome::Matched
                    &&& hits@[i] is Some
                    &&& exists|x: HfEnrichment| #[trigger] enrichment_matches(x, hits@[i]->0, local)
                        && final(entry)@ == with_local_size(enriched(old(entry)@, x), local_file_bytes)
                },
            }
        }),
{
    if !entry.enabled {
        return SyncOutcome::Skipped;
    }
    let filename = match file_name(entry.file.as_str()) {
        Some(n) => n,
        None => entry.file.clone(),
    };
    let ghost local = entry_filename(entry.file@);
    let ghost scores = scores_of(hits@, local);
    let mut s: Vec<i32> = Vec::new();
    let mut i: usize = 0;
    while i < hits.len()
        invariant
            i <= hits@.len(),
            filename@ == local,
            s@.len() == i,
            forall|k: int| 0 <= k < i ==> (#[trigger] s@[k]) as int == hit_score(hits@[k], local),
            scores == scores_of(hits@, local),
        decreases hits.len() - i,
    {
        let sc = match &hits[i] {
            Some(h) => score_hf_hit(Some(h), filename.as_str()),
            None => score_hf_hit(None, filename.as_str()),
        };
        s.push(sc);
        i = i + 1;
    }
    assert(s@ =~= scores);
    match best_hit_index(s.as_slice()) {
        None => SyncOutcome::Missed,
        Some(b) => {
            match &hits[b] {
                Some(h) => {
                    apply_hit(entry, h, filename.as_str(), local_file_bytes);
                    SyncOutcome::Matched
                },
                None => {
                    assert(s@[b as int] == -1);
                    SyncOutcome::Missed
                },
            }
        },
    }
}

/// Counts of a sync run.
#[derive(Debug, Clone, Copy)]
pub struct SyncSummary {
    pub matched: usize,
    pub missed: usize,
    pub skipped: usize,
}

pub open spec fn count_of(os: Seq<SyncOutcome>, o: SyncOutcome) -> nat
    decreases os.len(),
{
    if os.len() == 0 {
        0
    } else {
        count_of(os.drop_last(), o) + if os.last() == o { 1nat } else { 0nat }
    }
}

impl SyncSummary {
    /// The counts of each outcome.
    pub fn tally(outcomes: &[SyncOutcome]) -> (r: SyncSummary)
        ensures
            r.matched == count_of(outcomes@, SyncOutcome::Matched),
            r.missed == count_of(outcomes@, SyncOutcome::Missed),
            r.skipped == count_of(outcomes@, SyncOutcome::Skipped),
    {
        let mut r = SyncSummary { matched: 0, missed: 0, skipped: 0 };
        let mut i: usize = 0;
        while i < outcomes.len()
            invariant
                i <= outcomes@.len(),
                r.matched + r.missed + r.skipped == i,
                r.matched == count_of(outcomes@.subrange(0, i as int), SyncOutcome::Matched),
                r.missed == count_of(outcomes@.subrange(0, i as int), SyncOutcome::Missed),
                r.skipped == count_of(outcomes@.subrange(0, i as int), SyncOutcome::Skipped),
            decreases outcomes.len() - i,
        {
            assert(outcomes@.subrange(0, i + 1).drop_last() =~= outcomes@.subrange(0, i as int));
            match outcomes[i] {
                SyncOutcome::Matched => r.matched = r.matched + 1,
                SyncOutcome::Missed => r.missed = r.missed + 1,
                SyncOutcome::Skipped => r.skipped = r.skipped + 1,
            }
            i = i + 1;
        }
        assert(outcomes@.subrange(0, outcomes@.len() as int) =~= outcomes@);
        r
    }
}

} // verus!

//! vLLM serving metadata of a Hugging Face safetensors repository: which
//! repositories and files a vLLM deployment needs, and what a repository's
//! `config.json` says of quantization, speculative decoding, context length
//! and architecture.
use vstd::prelude::*;
use crate::hf_download::HfTreeEntry;
use crate::json::{json_at, present_at, present_at_exec, str_at, str_at_exec, u64_at, u64_at_exec, KindView, json_lookup, JsonKind};
use crate::text::{has_suffix, lower, opt_str, str_ends_with, str_eq, to_lower};

verus! {

/// A weights file: `*.safetensors` or its `*.safetensors.index.json`.
pub open spec fn is_weights_path(p: Seq<char>) -> bool {
    has_suffix(p, ".safetensors"@) || has_suffix(p, ".safetensors.index.json"@)
}

/// The repository tree looks vLLM-servable: safetensors weights and a
/// `config.json`.
pub open spec fn safetensors_repo(entries: Seq<HfTreeEntry>) -> bool {
    (exists|i: int| 0 <= i < entries.len() && is_weights_path(#[trigger] entries[i].path@))
        && (exists|i: int| 0 <= i < entries.len() && #[trigger] entries[i].path@ == "config.json"@)
}

pub fn is_safetensors_repo(entries: &[HfTreeEntry]) -> (r: bool)
    ensures
        r == safetensors_repo(entries@),
{
    let mut has_weights = false;
    let mut has_config = false;
    let mut i: usize = 0;
    while i < entries.len()
        invariant
            i <= entries@.len(),
            has_weights == exists|j: int| 0 <= j < i && is_weights_path(#[trigger] entries@[j].path@),
            has_config == exists|j: int| 0 <= j < i && #[trigger] entries@[j].path@ == "config.json"@,
        decreases entries.len() - i,
    {
        let p = entries[i].path.as_str();
        if str_ends_with(p, ".safetensors") || str_ends_with(p, ".safetensors.index.json") {
            has_weights = true;
        }
        if str_eq(p, "config.json") {
            has_config = true;
        }
        i = i + 1;
    }
    has_weights && has_config
}

/// The small files, besides the weights, that vLLM needs to serve a model.
pub open spec fn serving_config_files() -> Seq<Seq<char>> {
    seq![
        "config.json"@,
        "generation_config.json"@,
        "tokenizer.json"@,
        "tokenizer_config.json"@,
        "special_tokens_map.json"@,
        "vocab.json"@,
        "merges.txt"@,
        "chat_template.jinja"@,
    ]
}

/// Files worth pulling for a vLLM deployment: the weights and the serving
/// files; other formats a repository ships are left out.
pub fn is_vllm_serving_file(path: &str) -> (r: bool)
    ensures
        r == (is_weights_path(path@) || serving_config_files().contains(path@)),
{
    if str_ends_with(path, ".safetensors") || str_ends_with(path, ".safetensors.index.json") {
        return true;
    }
    let names: [&str; 8] = [
        "config.json",
        "generation_config.json",
        "tokenizer.json",
        "tokenizer_config.json",
        "special_tokens_map.json",
        "vocab.json",
        "merges.txt",
        "chat_template.jinja",
    ];
    assert(Seq::new(8, |i: int| names@[i]@) =~= serving_config_files());
    let mut k: usize = 0;
    while k < 8
        invariant
            k <= 8,
            Seq::new(8, |i: int| names@[i]@) == serving_config_files(),
            forall|j: int| 0 <= j < k ==> serving_config_files()[j] != path@,
        decreases 8 - k,
    {
        if str_eq(path, names[k]) {
            assert(serving_config_files()[k as int] == path@);
            return true;
        }
        k = k + 1;
    }
    assert(!serving_config_files().contains(path@)) by {
        if serving_config_files().contains(path@) {
            let j = choose|j: int| 0 <= j < serving_config_files().len() && serving_config_files()[j] == path@;
            assert(serving_config_files()[j] != path@);
        }
    }
    false
}

#[derive(Debug, Clone)]
pub struct VllmMetadata {
    /// vLLM `--quantization`, from `quantization_config`, lower-cased.
    pub quantization: Option<String>,
    /// The model a Speculators-format draft pairs with.
    pub draft_model: Option<String>,
    /// vLLM `--num-speculative-tokens`.
    pub num_speculative_tokens: Option<u32>,
    /// `max_position_embeddings`, the maximum context length.
    pub max_position_embeddings: Option<u32>,
    /// `architectures[0]`, such as `Qwen2ForCausalLM`.
    pub architecture: Option<String>,
}

impl VllmMetadata {
    pub fn empty() -> (r: VllmMetadata)
        ensures
            r.quantization is None,
            r.draft_model is None,
            r.num_speculative_tokens is None,
            r.max_position_embeddings is None,
            r.architecture is None,
    {
        VllmMetadata {
            quantization: None,
            draft_model: None,
            num_speculative_tokens: None,
            max_position_embeddings: None,
            architecture: None,
        }
    }
}

/// The string at the first of `pointers` where anything is present.
pub open spec fn first_present_str(text: Seq<char>, pointers: Seq<Seq<char>>) -> Option<Seq<char>>
    decreases pointers.len(),
{
    if pointers.len() == 0 {
        None
    } else if present_at(text, pointers[0]) {
        str_at(text, pointers[0])
    } else {
        first_present_str(text, pointers.drop_first())
    }
}

/// The unsigned integer at the first of `pointers` where anything is present.
pub open spec fn first_present_u64(text: Seq<char>, pointers: Seq<Seq<char>>) -> Option<u64>
    decreases pointers.len(),
{
    if pointers.len() == 0 {
        None
    } else if present_at(text, pointers[0]) {
        u64_at(text, pointers[0])
    } else {
        first_present_u64(text, pointers.drop_first())
    }
}

pub open spec fn fits_u32(n: Option<u64>) -> Option<u32> {
    match n {
        Some(v) => if v <= u32::MAX { Some(v as u32) } else { None },
        None => None,
    }
}

/// What a `config.json` text says for vLLM; everything absent when the text
/// is not JSON or a field is missing or of another type.
pub open spec fn config_metadata_matches(m: VllmMetadata, text: Seq<char>) -> bool {
    if json_at(text, seq![]) is None {
        &&& m.quantization is None
        &&& m.draft_model is None
        &&& m.num_speculative_tokens is None
        &&& m.max_position_embeddings is None
        &&& m.architecture is None
    } else {
        &&& opt_str(m.quantization) == match first_present_str(
            text,
            seq!["/quantization_config/quant_method"@, "/quantization_config/quantization_method"@],
        ) {
            Some(q) => Some(lower(q)),
            None => None,
        }
        &&& opt_str(m.draft_model) == first_present_str(
            text,
            seq!["/speculators_config/target_model"@, "/speculators_config/verifier"@, "/speculators_config/base_model"@],
        )
        &&& m.num_speculative_tokens == fits_u32(first_present_u64(
            text,
            seq!["/speculators_config/num_speculative_tokens"@, "/speculators_config/num_lookahead_tokens"@],
        ))
        &&& m.max_position_embeddings == fits_u32(u64_at(text, "/max_position_embeddings"@))
        &&& opt_str(m.architecture) == (if json_at(text, "/architectures"@) == Some(Some(KindView::Array)) {
            str_at(text, "/architectures/0"@)
        } else {
            None
        })
    }
}

fn first_present_str_exec(text: &str, a: &str, b: &str, c: Option<&str>) -> (r: Option<String>)
    ensures
        opt_str(r) == first_present_str(text@, match c {
            Some(c) => seq![a@, b@, c@],
            None => seq![a@, b@],
        }),
{
    let ghost ps = match c {
        Some(c) => seq![a@, b@, c@],
        None => seq![a@, b@],
    };
    assert(ps.drop_first()[0] == b@);
    proof {
        reveal_with_fuel(first_present_str, 4);
    }
    if present_at_exec(text, a) {
        return str_at_exec(text, a);
    }
    if present_at_exec(text, b) {
        return str_at_exec(text, b);
    }
    match c {
        Some(c) => {
            assert(ps.drop_first().drop_first() =~= seq![c@]);
            assert(seq![c@].drop_first() =~= Seq::<Seq<char>>::empty());
            if present_at_exec(text, c) {
                return str_at_exec(text, c);
            }
            None
        },
        None => {
            assert(ps.drop_first().drop_first() =~= Seq::<Seq<char>>::empty());
            None
        },
    }
}

fn to_u32(n: Option<u64>) -> (r: Option<u32>)
    ensures
        r == fits_u32(n),
{
    match n {
        Some(v) => if v <= 4294967295u64 { Some(v as u32) } else { None },
        None => None,
    }
}

/// Reads vLLM serving metadata from a repository's `config.json` text.
pub fn parse_config_json(text: &str) -> (r: VllmMetadata)
    ensures
        config_metadata_matches(r, text@),
{
    proof {
        reveal_strlit("");
        reveal_with_fuel(first_present_u64, 3);
    }
    assert(""@ =~= Seq::<char>::empty());
    if json_lookup(text, "").is_none() {
        return VllmMetadata::empty();
    }
    let quantization = match first_present_str_exec(
        text,
        "/quantization_config/quant_method",
        "/quantization_config/quantization_method",
        None,
    ) {
        Some(q) => Some(to_lower(q.as_str())),
        None => None,
    };
    let draft_model = first_present_str_exec(
        text,
        "/speculators_config/target_model",
        "/speculators_config/verifier",
        Some("/speculators_config/base_model"),
    );
    let ghost tokens = seq!["/speculators_config/num_speculative_tokens"@, "/speculators_config/num_lookahead_tokens"@];
    assert(tokens.drop_first()[0] == "/speculators_config/num_lookahead_tokens"@);
    assert(tokens.drop_first().drop_first() =~= Seq::<Seq<char>>::empty());
    let n = if present_at_exec(text, "/speculators_config/num_speculative_tokens") {
        u64_at_exec(text, "/speculators_config/num_speculative_tokens")
    } else if present_at_exec(text, "/speculators_config/num_lookahead_tokens") {
        u64_at_exec(text, "/speculators_config/num_lookahead_tokens")
    } else {
        None
    };
    let num_speculative_tokens = to_u32(n);
    let max_position_embeddings = to_u32(u64_at_exec(text, "/max_position_embeddings"));
    let architecture = match json_lookup(text, "/architectures") {
        Some(Some(JsonKind::Array)) => str_at_exec(text, "/architectures/0"),
        _ => None,
    };
    VllmMetadata { quantization, draft_model, num_speculative_tokens, max_position_embeddings, architecture }
}

} // verus!

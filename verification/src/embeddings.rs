//! Admission and batching of embedding requests: the token estimate of an
//! input, the batch limits a model really runs with, the refusal of inputs
//! that cannot fit one micro-batch, and the grouping of many inputs into
//! batches without changing one-input/one-output cardinality.
use vstd::prelude::*;
use crate::args::{lemma_first_flag_value, lemma_no_flag, one_of, positive_flag_value, strs};
use crate::batch::{batch_flags, get_batch_size, get_ubatch_size, ubatch_flags, EMBEDDING_BATCH_FLOOR};
use crate::config::ModelConfig;
use crate::errors::RuntimeError;
use crate::models_cmd::{byte_len, byte_len_exec};
use crate::text::{concat_str, decimal, fmt_decimal, parse_unsigned, strings_view, string_from_str};

verus! {

/// The input of an embedding request: one text or several.
#[derive(Debug, Clone)]
pub enum EmbeddingInput {
    Single(String),
    Multiple(Vec<String>),
}

/// The texts of an input, in order.
pub open spec fn input_texts(i: EmbeddingInput) -> Seq<Seq<char>> {
    match i {
        EmbeddingInput::Single(t) => seq![t@],
        EmbeddingInput::Multiple(ts) => strings_view(ts@),
    }
}

/// About four bytes per token, rounded up (the byte count taken modulo
/// 2^32, as a 32-bit length).
pub open spec fn estimate(text: Seq<char>) -> nat {
    ((byte_len(text) % 4294967296) + 3) / 4
}

pub fn estimate_tokens(text: &str) -> (r: u32)
    ensures
        r as nat == estimate(text@),
        r <= 1073741824,
{
    let n = byte_len_exec(text) as u64;
    let m: u64 = n % 4294967296;
    assert((m + 3) / 4 <= 1073741824);
    ((m + 3) / 4) as u32
}

/// The logical and physical batch sizes a model runs with: the load
/// profile's, else the configured arguments', else the floor; the physical
/// size never above the logical one.
pub open spec fn batch_limits(cfg: ModelConfig) -> (u32, u32) {
    let from_args_b = positive_flag_value(strs(cfg.args@), batch_flags(), true);
    let from_args_u = positive_flag_value(strs(cfg.args@), ubatch_flags(), true);
    let profile_b = match cfg.runtime_profile { Some(p) => p.batch_size, None => None };
    let profile_u = match cfg.runtime_profile { Some(p) => p.ubatch_size, None => None };
    let batch: u32 = match profile_b {
        Some(b) => b,
        None => match from_args_b { Some(v) => v as u32, None => EMBEDDING_BATCH_FLOOR },
    };
    let ubatch: u32 = match profile_u {
        Some(u) => u,
        None => match from_args_u { Some(v) => v as u32, None => EMBEDDING_BATCH_FLOOR },
    };
    (batch, if ubatch < batch { ubatch } else { batch })
}

pub fn effective_batch_limits(cfg: &ModelConfig) -> (r: (u32, u32))
    ensures
        r == batch_limits(*cfg),
{
    let profile_batch = match &cfg.runtime_profile {
        Some(p) => p.batch_size,
        None => None,
    };
    let profile_ubatch = match &cfg.runtime_profile {
        Some(p) => p.ubatch_size,
        None => None,
    };
    let batch = match profile_batch {
        Some(b) => b,
        None => match get_batch_size(cfg.args.as_slice()) {
            Some(b) => b,
            None => EMBEDDING_BATCH_FLOOR,
        },
    };
    let ubatch = match profile_ubatch {
        Some(u) => u,
        None => match get_ubatch_size(cfg.args.as_slice()) {
            Some(u) => u,
            None => EMBEDDING_BATCH_FLOOR,
        },
    };
    (batch, if ubatch < batch { ubatch } else { batch })
}

/// The spellings of the logical batch flag.
pub open spec fn is_batch_spelling(a: Seq<char>) -> bool {
    a == "-b"@ || a == "--batch-size"@ || a == "--batch"@
}

/// The spellings of the physical (micro-)batch flag.
pub open spec fn is_ubatch_spelling(a: Seq<char>) -> bool {
    a == "-ub"@ || a == "--ubatch-size"@ || a == "--ubatch"@
}

/// `v` is the positive number after the first of the spellings `sp` in
/// `a`, found at position `i`.
pub open spec fn first_spelled_value(a: Seq<Seq<char>>, sp: spec_fn(Seq<char>) -> bool, i: int, v: nat) -> bool {
    &&& 0 <= i && i + 1 < a.len() && sp(a[i])
    &&& forall|j: int| 0 <= j < i ==> !sp(#[trigger] a[j])
    &&& parse_unsigned(a[i + 1], u32::MAX as nat) == Some(v) && v > 0
}

proof fn lemma_spellings(fl: Seq<&str>, sp: spec_fn(Seq<char>) -> bool, x: &str, y: &str, z: &str)
    requires
        fl.len() == 3,
        fl[0]@ == x@ && fl[1]@ == y@ && fl[2]@ == z@,
        forall|a: Seq<char>| #[trigger] sp(a) <==> (a == x@ || a == y@ || a == z@),
    ensures
        forall|a: Seq<char>| one_of(fl, a) <==> #[trigger] sp(a),
{
    assert forall|a: Seq<char>| one_of(fl, a) <==> #[trigger] sp(a) by {
        if one_of(fl, a) {
            let k = choose|k: int| 0 <= k < fl.len() && fl[k]@ == a;
        }
        if a == x@ { assert(fl[0]@ == a); }
        if a == y@ { assert(fl[1]@ == a); }
        if a == z@ { assert(fl[2]@ == a); }
    }
}

/// Without a load profile, the physical batch limit is the positive value
/// after the first `-ub`/`--ubatch-size`/`--ubatch` flag (else the floor),
/// capped at the logical limit, which is the positive value after the
/// first `-b`/`--batch-size`/`--batch` flag (else the floor). The `-b`
/// value affects the physical limit only through that cap.
pub proof fn lemma_batch_limits_from_flags(cfg: ModelConfig, ib: int, vb: nat, iu: int, vu: nat)
    requires
        cfg.runtime_profile is None,
    ensures
        ({
            let a = strs(cfg.args@);
            let lim = batch_limits(cfg);
            let b: nat = if first_spelled_value(a, |x: Seq<char>| is_batch_spelling(x), ib, vb) { vb }
                else { EMBEDDING_BATCH_FLOOR as nat };
            let u: nat = if first_spelled_value(a, |x: Seq<char>| is_ubatch_spelling(x), iu, vu) { vu }
                else { EMBEDDING_BATCH_FLOOR as nat };
            &&& (first_spelled_value(a, |x: Seq<char>| is_batch_spelling(x), ib, vb)
                || forall|j: int| 0 <= j < a.len() ==> !is_batch_spelling(#[trigger] a[j]))
                ==> lim.0 == b
            &&& (first_spelled_value(a, |x: Seq<char>| is_ubatch_spelling(x), iu, vu)
                || forall|j: int| 0 <= j < a.len() ==> !is_ubatch_spelling(#[trigger] a[j]))
                ==> lim.1 == (if u < lim.0 { u } else { lim.0 as nat })
            &&& lim.1 <= lim.0
        }),
{
    let a = strs(cfg.args@);
    reveal_strlit("-b");
    reveal_strlit("--batch-size");
    reveal_strlit("--batch");
    reveal_strlit("-ub");
    reveal_strlit("--ubatch-size");
    reveal_strlit("--ubatch");
    let bs = |x: Seq<char>| is_batch_spelling(x);
    let us = |x: Seq<char>| is_ubatch_spelling(x);
    lemma_spellings(batch_flags(), bs, "-b", "--batch-size", "--batch");
    lemma_spellings(ubatch_flags(), us, "-ub", "--ubatch-size", "--ubatch");
    if first_spelled_value(a, bs, ib, vb) {
        lemma_first_flag_value(a, batch_flags(), true, ib, vb);
    } else if forall|j: int| 0 <= j < a.len() ==> !is_batch_spelling(#[trigger] a[j]) {
        assert forall|j: int| 0 <= j < a.len() implies !one_of(batch_flags(), #[trigger] a[j]) by {
            assert(!bs(a[j]));
        }
        lemma_no_flag(a, batch_flags(), true);
    }
    if first_spelled_value(a, us, iu, vu) {
        lemma_first_flag_value(a, ubatch_flags(), true, iu, vu);
    } else if forall|j: int| 0 <= j < a.len() ==> !is_ubatch_spelling(#[trigger] a[j]) {
        assert forall|j: int| 0 <= j < a.len() implies !one_of(ubatch_flags(), #[trigger] a[j]) by {
            assert(!us(a[j]));
        }
        lemma_no_flag(a, ubatch_flags(), true);
    }
}

/// A load profile's batch sizes take precedence over the arguments: its
/// batch size is the logical limit, and its micro-batch size, capped at
/// that limit, is the physical one.
pub proof fn lemma_batch_limits_from_profile(cfg: ModelConfig)
    ensures
        cfg.runtime_profile is Some && cfg.runtime_profile->0.batch_size is Some
            ==> batch_limits(cfg).0 == cfg.runtime_profile->0.batch_size->0,
        cfg.runtime_profile is Some && cfg.runtime_profile->0.ubatch_size is Some
            ==> batch_limits(cfg).1 == (if cfg.runtime_profile->0.ubatch_size->0 < batch_limits(cfg).0 {
                cfg.runtime_profile->0.ubatch_size->0
            } else {
                batch_limits(cfg).0
            }),
{
}

/// The refusal of input `index` estimated at `tokens` over `ubatch`.
pub open spec fn oversized_message(index: nat, tokens: nat, ubatch: nat) -> Seq<char> {
    "input["@ + decimal(index) + "] is about "@ + decimal(tokens)
        + " tokens, over the model's physical batch size of "@ + decimal(ubatch)
        + ". Split the text into smaller chunks, or raise `ubatch_size` (and `batch_size`) for this model in models.toml."@
}

/// Refuses, before the backend sees it, the first input estimated over one
/// micro-batch; a single text cannot be split without changing the
/// request's cardinality.
pub fn reject_oversized_inputs(input: &EmbeddingInput, ubatch: u32) -> (r: Result<(), RuntimeError>)
    ensures
        match r {
            Ok(()) => forall|i: int| 0 <= i < input_texts(*input).len() ==> estimate(#[trigger] input_texts(*input)[i]) <= ubatch,
            Err(RuntimeError::InvalidRequest(m)) => exists|i: int| 0 <= i < input_texts(*input).len()
                && estimate(#[trigger] input_texts(*input)[i]) > ubatch
                && (forall|j: int| 0 <= j < i ==> estimate(input_texts(*input)[j]) <= ubatch)
                && m@ == oversized_message(i as nat, estimate(input_texts(*input)[i]), ubatch as nat),
            Err(_) => false,
        },
{
    let single: Vec<String>;
    let texts: &Vec<String> = match input {
        EmbeddingInput::Single(t) => {
            single = vec![t.clone()];
            &single
        },
        EmbeddingInput::Multiple(ts) => ts,
    };
    assert(strings_view(texts@) =~= input_texts(*input));
    let mut i: usize = 0;
    while i < texts.len()
        invariant
            i <= texts@.len(),
            strings_view(texts@) == input_texts(*input),
            forall|j: int| 0 <= j < i ==> estimate(input_texts(*input)[j]) <= ubatch,
        decreases texts.len() - i,
    {
        let tokens = estimate_tokens(texts[i].as_str());
        assert(texts@[i as int]@ == input_texts(*input)[i as int]);
        if tokens > ubatch {
            let a = concat_str("input[", fmt_decimal(i as u64).as_str());
            let b = concat_str(a.as_str(), "] is about ");
            let c = concat_str(b.as_str(), fmt_decimal(tokens as u64).as_str());
            let d = concat_str(c.as_str(), " tokens, over the model's physical batch size of ");
            let e = concat_str(d.as_str(), fmt_decimal(ubatch as u64).as_str());
            let m = concat_str(
                e.as_str(),
                ". Split the text into smaller chunks, or raise `ubatch_size` (and `batch_size`) for this model in models.toml.",
            );
            return Err(RuntimeError::InvalidRequest(m));
        }
        i = i + 1;
    }
    Ok(())
}

/// The batches closed so far, the open batch and its token estimate, after
/// the texts `ts`: a text opens a new batch when it would take a non-empty
/// open batch over `max`.
pub open spec fn chunk_state(ts: Seq<Seq<char>>, max: nat) -> (Seq<Seq<Seq<char>>>, Seq<Seq<char>>, nat)
    decreases ts.len(),
{
    if ts.len() == 0 {
        (seq![], seq![], 0)
    } else {
        let (bs, cur, ct) = chunk_state(ts.drop_last(), max);
        let t = estimate(ts.last());
        if ct + t > max && cur.len() > 0 {
            (bs.push(cur), seq![ts.last()], t)
        } else {
            (bs, cur.push(ts.last()), ct + t)
        }
    }
}

/// The batches of texts `ts` under a budget of `max` tokens each.
pub open spec fn chunks(ts: Seq<Seq<char>>, max: nat) -> Seq<Seq<Seq<char>>> {
    let (bs, cur, _) = chunk_state(ts, max);
    if cur.len() > 0 { bs.push(cur) } else { bs }
}

/// The texts of batches, in order.
pub open spec fn flatten(bs: Seq<Seq<Seq<char>>>) -> Seq<Seq<char>>
    decreases bs.len(),
{
    if bs.len() == 0 { seq![] } else { flatten(bs.drop_last()) + bs.last() }
}

proof fn lemma_flatten_push(bs: Seq<Seq<Seq<char>>>, b: Seq<Seq<char>>)
    ensures
        flatten(bs.push(b)) == flatten(bs) + b,
{
    assert(bs.push(b).drop_last() =~= bs);
}

proof fn lemma_chunk_state_flat(ts: Seq<Seq<char>>, max: nat)
    ensures
        flatten(chunk_state(ts, max).0) + chunk_state(ts, max).1 == ts,
        ts.len() > 0 ==> chunk_state(ts, max).1.len() > 0,
        forall|k: int| 0 <= k < chunk_state(ts, max).0.len() ==> (#[trigger] chunk_state(ts, max).0[k]).len() > 0,
    decreases ts.len(),
{
    if ts.len() == 0 {
        assert(flatten(Seq::<Seq<Seq<char>>>::empty()) + Seq::<Seq<char>>::empty() =~= ts);
    } else {
        lemma_chunk_state_flat(ts.drop_last(), max);
        let (bs, cur, ct) = chunk_state(ts.drop_last(), max);
        let t = estimate(ts.last());
        if ct + t > max && cur.len() > 0 {
            lemma_flatten_push(bs, cur);
            assert(flatten(bs.push(cur)) + seq![ts.last()] =~= ts);
        } else {
            assert(flatten(bs) + cur == ts.drop_last());
            assert((flatten(bs) + cur).push(ts.last()) =~= ts);
            assert(flatten(bs) + cur.push(ts.last()) =~= (flatten(bs) + cur).push(ts.last()));
        }
    }
}

/// Batching keeps every text, once and in order, and makes no empty batch:
/// the batches joined give back the texts.
pub proof fn lemma_chunks_keep_texts(ts: Seq<Seq<char>>, max: nat)
    ensures
        flatten(chunks(ts, max)) == ts,
        forall|k: int| 0 <= k < chunks(ts, max).len() ==> (#[trigger] chunks(ts, max)[k]).len() > 0,
{
    lemma_chunk_state_flat(ts, max);
    let (bs, cur, _) = chunk_state(ts, max);
    if cur.len() > 0 {
        lemma_flatten_push(bs, cur);
    } else {
        assert(flatten(bs) + cur =~= flatten(bs));
    }
}

/// The token estimate of a batch: the sum over its texts.
pub open spec fn batch_tokens(b: Seq<Seq<char>>) -> nat
    decreases b.len(),
{
    if b.len() == 0 { 0 } else { batch_tokens(b.drop_last()) + estimate(b.last()) }
}

/// A batch keeps to the budget, or is one text that alone exceeds it.
pub open spec fn within_budget(b: Seq<Seq<char>>, max: nat) -> bool {
    batch_tokens(b) <= max || b.len() == 1
}

proof fn lemma_chunk_state_budget(ts: Seq<Seq<char>>, max: nat)
    ensures
        chunk_state(ts, max).2 == batch_tokens(chunk_state(ts, max).1),
        within_budget(chunk_state(ts, max).1, max) || chunk_state(ts, max).1.len() == 0,
        forall|k: int| 0 <= k < chunk_state(ts, max).0.len() ==> within_budget(#[trigger] chunk_state(ts, max).0[k], max),
    decreases ts.len(),
{
    if ts.len() > 0 {
        lemma_chunk_state_budget(ts.drop_last(), max);
        let (bs, cur, ct) = chunk_state(ts.drop_last(), max);
        let x = ts.last();
        let t = estimate(x);
        if ct + t > max && cur.len() > 0 {
            assert(seq![x].drop_last() =~= Seq::<Seq<char>>::empty());
            assert(seq![x].last() == x);
            assert(batch_tokens(Seq::<Seq<char>>::empty()) == 0);
            assert(batch_tokens(seq![x]) == t);
        } else {
            assert(cur.push(x).drop_last() =~= cur);
            assert(batch_tokens(cur.push(x)) == ct + t);
        }
    }
}

/// Every batch keeps to the token budget, unless it is a single text that
/// exceeds the budget on its own.
pub proof fn lemma_chunks_respect_budget(ts: Seq<Seq<char>>, max: nat)
    ensures
        forall|k: int| 0 <= k < chunks(ts, max).len() ==> within_budget(#[trigger] chunks(ts, max)[k], max),
{
    lemma_chunk_state_budget(ts, max);
    let (bs, cur, _) = chunk_state(ts, max);
    assert forall|k: int| 0 <= k < chunks(ts, max).len() implies within_budget(#[trigger] chunks(ts, max)[k], max) by {
        if k < bs.len() {
            assert(chunks(ts, max)[k] == bs[k]);
        }
    }
}

/// The inputs a request is sent as: a single text as it is; several texts
/// in batches (the input itself when there are none).
pub open spec fn chunked_inputs(input: EmbeddingInput, max: nat) -> Seq<Seq<Seq<char>>> {
    match input {
        EmbeddingInput::Single(t) => seq![seq![t@]],
        EmbeddingInput::Multiple(ts) => if ts@.len() == 0 { seq![seq![]] } else { chunks(strings_view(ts@), max) },
    }
}

pub fn chunk_embedding_input(input: &EmbeddingInput, max_tokens_per_batch: u32) -> (r: Vec<EmbeddingInput>)
    ensures
        r@.map_values(|b: EmbeddingInput| input_texts(b)) == chunked_inputs(*input, max_tokens_per_batch as nat),
        forall|k: int| 0 <= k < r@.len() ==> (#[trigger] r@[k] is Single) == (input is Single),
{
    match input {
        EmbeddingInput::Single(t) => {
            let r = vec![EmbeddingInput::Single(t.clone())];
            assert(r@.map_values(|b: EmbeddingInput| input_texts(b)) =~= chunked_inputs(*input, max_tokens_per_batch as nat));
            r
        },
        EmbeddingInput::Multiple(texts) => {
            let ghost ts = strings_view(texts@);
            let ghost max = max_tokens_per_batch as nat;
            let mut batches: Vec<EmbeddingInput> = Vec::new();
            let mut current: Vec<String> = Vec::new();
            let mut current_tokens: u64 = 0;
            let mut i: usize = 0;
            while i < texts.len()
                invariant
                    i <= texts@.len(),
                    ts == strings_view(texts@),
                    max == max_tokens_per_batch as nat,
                    batches@.map_values(|b: EmbeddingInput| input_texts(b)) == chunk_state(ts.subrange(0, i as int), max).0,
                    strings_view(current@) == chunk_state(ts.subrange(0, i as int), max).1,
                    current_tokens as nat == chunk_state(ts.subrange(0, i as int), max).2,
                    current_tokens <= 4294967295,
                    current@.len() == 0 ==> current_tokens == 0,
                    forall|k: int| 0 <= k < batches@.len() ==> (#[trigger] batches@[k]) is Multiple,
                decreases texts.len() - i,
            {
                let ghost pre = ts.subrange(0, i + 1);
                assert(pre.drop_last() =~= ts.subrange(0, i as int));
                assert(pre.last() == texts@[i as int]@);
                let tokens = estimate_tokens(texts[i].as_str());
                if current_tokens + (tokens as u64) > (max_tokens_per_batch as u64) && current.len() > 0 {
                    let full = current;
                    let ghost before = batches@;
                    batches.push(EmbeddingInput::Multiple(full));
                    assert(batches@.map_values(|b: EmbeddingInput| input_texts(b))
                        =~= before.map_values(|b: EmbeddingInput| input_texts(b)).push(strings_view(full@)));
                    current = Vec::new();
                    current.push(texts[i].clone());
                    current_tokens = tokens as u64;
                    assert(strings_view(current@) =~= seq![pre.last()]);
                } else {
                    let ghost before = current@;
                    current.push(texts[i].clone());
                    assert(strings_view(current@) =~= strings_view(before).push(pre.last()));
                    current_tokens = current_tokens + tokens as u64;
                }
                i = i + 1;
            }
            assert(ts.subrange(0, texts@.len() as int) =~= ts);
            if current.len() > 0 {
                let ghost before = batches@;
                batches.push(EmbeddingInput::Multiple(current));
                assert(batches@.map_values(|b: EmbeddingInput| input_texts(b))
                    =~= before.map_values(|b: EmbeddingInput| input_texts(b)).push(chunk_state(ts, max).1));
            }
            if batches.len() == 0 {
                proof {
                    lemma_chunk_state_flat(ts, max);
                }
                let r = vec![EmbeddingInput::Multiple(crate::text::clone_strings(texts))];
                assert(r@.map_values(|b: EmbeddingInput| input_texts(b)) =~= seq![Seq::<Seq<char>>::empty()]);
                return r;
            }
            proof {
                lemma_chunk_state_flat(ts, max);
            }
            batches
        },
    }
}

} // verus!

//! The complete model files a repository offers, one per quantization: a
//! single GGUF file, or a split set whose every part is present, each
//! quantization at its smallest size, listed from the smallest up.
use vstd::prelude::*;
use crate::hf_download::HfTreeEntry;
use crate::models_cmd::{
    auxiliary_file, extract_quant, is_auxiliary_model_file, is_model_gguf, model_gguf, quant_of, split_model_part,
    split_part_of,
};
use crate::text::{lemma_lex_asymmetric, lemma_lex_irreflexive, lemma_lex_total, lemma_lex_transitive, lex_less, lex_lt, str_eq};

verus! {

/// One downloadable quantization and its size in bytes.
#[derive(Debug, Clone, PartialEq, Eq)]
pub struct ModelOption {
    pub quant: String,
    pub bytes: u64,
}

/// A main-model GGUF file that is not an auxiliary (draft, MTP, ...) file.
pub open spec fn eligible(e: HfTreeEntry) -> bool {
    model_gguf(e.path@) && !auxiliary_file(e.path@)
}

/// The parts (index, total, size) of split set `p`, in listing order.
pub open spec fn group_parts(es: Seq<HfTreeEntry>, p: Seq<char>) -> Seq<(nat, nat, u64)>
    decreases es.len(),
{
    if es.len() == 0 {
        seq![]
    } else {
        let rest = group_parts(es.drop_last(), p);
        let e = es.last();
        match split_part_of(e.path@) {
            Some((q, i, t)) => if eligible(e) && q == p { rest.push((i, t, e.size)) } else { rest },
            None => rest,
        }
    }
}

pub open spec fn sizes_sum(g: Seq<(nat, nat, u64)>) -> nat
    decreases g.len(),
{
    if g.len() == 0 { 0 } else { (sizes_sum(g.drop_last()) + g.last().2) as nat }
}

/// A split set is complete when all its parts agree on the total, no index
/// repeats, there are as many parts as the total, and the size fits 64 bits.
pub open spec fn group_complete(g: Seq<(nat, nat, u64)>) -> bool {
    &&& g.len() > 0
    &&& forall|k: int| 0 <= k < g.len() ==> (#[trigger] g[k]).1 == g[0].1
    &&& forall|a: int, b: int| 0 <= a < b < g.len() ==> (#[trigger] g[a]).0 != (#[trigger] g[b]).0
    &&& g.len() == g[0].1
    &&& sizes_sum(g) <= u64::MAX
}

/// The quantization and size that entry `i` offers, if any: its own for a
/// single file, its set's for a part of a complete split set.
#[verifier::opaque]
pub open spec fn entry_candidate(es: Seq<HfTreeEntry>, i: int) -> Option<(Seq<char>, u64)> {
    let e = es[i];
    if !eligible(e) {
        None
    } else {
        match split_part_of(e.path@) {
            None => {
                let q = quant_of(e.path@);
                if q.len() > 0 { Some((q, e.size)) } else { None }
            },
            Some((p, _, _)) => {
                let g = group_parts(es, p);
                let q = quant_of(p);
                if group_complete(g) && q.len() > 0 { Some((q, sizes_sum(g) as u64)) } else { None }
            },
        }
    }
}

pub open spec fn offers(es: Seq<HfTreeEntry>, q: Seq<char>, b: u64) -> bool {
    exists|i: int| 0 <= i < es.len() && #[trigger] entry_candidate(es, i) == Some((q, b))
}

pub open spec fn cand_quant(es: Seq<HfTreeEntry>, i: int) -> Seq<char> {
    (entry_candidate(es, i)->0).0
}

pub open spec fn cand_size(es: Seq<HfTreeEntry>, i: int) -> u64 {
    (entry_candidate(es, i)->0).1
}

/// Options are listed by size, then by quantization name.
pub open spec fn option_before(a: (Seq<char>, u64), b: (Seq<char>, u64)) -> bool {
    a.1 < b.1 || (a.1 == b.1 && lex_lt(a.0, b.0))
}

pub open spec fn option_view(o: ModelOption) -> (Seq<char>, u64) {
    (o.quant@, o.bytes)
}

fn collect_group(entries: &[HfTreeEntry], prefix: &str) -> (r: Vec<(usize, usize, u64)>)
    ensures
        r@.len() == group_parts(entries@, prefix@).len(),
        forall|k: int| 0 <= k < r@.len() ==> ((#[trigger] r@[k]).0 as nat, r@[k].1 as nat, r@[k].2) == group_parts(entries@, prefix@)[k],
{
    let mut g: Vec<(usize, usize, u64)> = Vec::new();
    let mut i: usize = 0;
    while i < entries.len()
        invariant
            i <= entries@.len(),
            g@.len() == group_parts(entries@.subrange(0, i as int), prefix@).len(),
            forall|k: int| 0 <= k < g@.len() ==> ((#[trigger] g@[k]).0 as nat, g@[k].1 as nat, g@[k].2)
                == group_parts(entries@.subrange(0, i as int), prefix@)[k],
        decreases entries.len() - i,
    {
        let ghost pre = entries@.subrange(0, i as int);
        let ghost cur = entries@.subrange(0, i + 1);
        assert(cur.drop_last() =~= pre);
        assert(cur.last() == entries@[i as int]);
        let e = &entries[i];
        let path = e.path.as_str();
        let ghost before = g@;
        match split_model_part(path) {
            Some((p, idx, total)) => {
                if is_model_gguf(path) && !is_auxiliary_model_file(path) && str_eq(p.as_str(), prefix) {
                    g.push((idx, total, e.size));
                    assert(group_parts(cur, prefix@) == group_parts(pre, prefix@).push((idx as nat, total as nat, e.size)));
                    assert forall|k: int| 0 <= k < g@.len() implies ((#[trigger] g@[k]).0 as nat, g@[k].1 as nat, g@[k].2)
                        == group_parts(cur, prefix@)[k] by {
                        if k < before.len() {
                            assert(g@[k] == before[k]);
                        }
                    }
                } else {
                    assert(group_parts(cur, prefix@) == group_parts(pre, prefix@));
                }
            },
            None => {
                assert(group_parts(cur, prefix@) == group_parts(pre, prefix@));
            },
        }
        i = i + 1;
    }
    assert(entries@.subrange(0, entries@.len() as int) =~= entries@);
    g
}

fn group_total(g: &Vec<(usize, usize, u64)>, Ghost(spec_g): Ghost<Seq<(nat, nat, u64)>>) -> (r: Option<u64>)
    requires
        g@.len() == spec_g.len(),
        forall|k: int| 0 <= k < g@.len() ==> ((#[trigger] g@[k]).0 as nat, g@[k].1 as nat, g@[k].2) == spec_g[k],
    ensures
        match r {
            Some(s) => group_complete(spec_g) && s == sizes_sum(spec_g),
            None => !group_complete(spec_g),
        },
{
    if g.len() == 0 {
        return None;
    }
    let total = g[0].1;
    let mut k: usize = 0;
    while k < g.len()
        invariant
            k <= g@.len(),
            g@.len() == spec_g.len(),
            forall|j: int| 0 <= j < g@.len() ==> ((#[trigger] g@[j]).0 as nat, g@[j].1 as nat, g@[j].2) == spec_g[j],
            total == g@[0].1,
            forall|j: int| 0 <= j < k ==> (#[trigger] spec_g[j]).1 == spec_g[0].1,
        decreases g.len() - k,
    {
        if g[k].1 != total {
            assert(spec_g[k as int].1 != spec_g[0].1);
            return None;
        }
        k = k + 1;
    }
    let mut a: usize = 0;
    while a < g.len()
        invariant
            a <= g@.len(),
            g@.len() == spec_g.len(),
            forall|j: int| 0 <= j < g@.len() ==> ((#[trigger] g@[j]).0 as nat, g@[j].1 as nat, g@[j].2) == spec_g[j],
            forall|x: int, y: int| 0 <= x < a && x < y < spec_g.len() ==> (#[trigger] spec_g[x]).0 != (#[trigger] spec_g[y]).0,
        decreases g.len() - a,
    {
        let mut b: usize = a + 1;
        while b < g.len()
            invariant
                a < g@.len(),
                a + 1 <= b <= g@.len(),
                g@.len() == spec_g.len(),
                forall|j: int| 0 <= j < g@.len() ==> ((#[trigger] g@[j]).0 as nat, g@[j].1 as nat, g@[j].2) == spec_g[j],
                forall|x: int, y: int| 0 <= x < a && x < y < spec_g.len() ==> (#[trigger] spec_g[x]).0 != (#[trigger] spec_g[y]).0,
                forall|y: int| a < y < b ==> spec_g[a as int].0 != (#[trigger] spec_g[y]).0,
            decreases g.len() - b,
        {
            if g[a].0 == g[b].0 {
                assert(spec_g[a as int].0 == spec_g[b as int].0);
                return None;
            }
            b = b + 1;
        }
        a = a + 1;
    }
    if g.len() != total {
        return None;
    }
    let mut sum: u64 = 0;
    let mut s: usize = 0;
    while s < g.len()
        invariant
            s <= g@.len(),
            g@.len() == spec_g.len(),
            forall|j: int| 0 <= j < g@.len() ==> ((#[trigger] g@[j]).0 as nat, g@[j].1 as nat, g@[j].2) == spec_g[j],
            sum == sizes_sum(spec_g.subrange(0, s as int)),
        decreases g.len() - s,
    {
        assert(spec_g.subrange(0, s + 1).drop_last() =~= spec_g.subrange(0, s as int));
        proof { lemma_sizes_sum_prefix(spec_g, s as int + 1); }
        match sum.checked_add(g[s].2) {
            Some(n) => {
                sum = n;
            },
            None => {
                proof { lemma_sizes_sum_prefix_le(spec_g, s as int + 1); }
                return None;
            },
        }
        s = s + 1;
    }
    assert(spec_g.subrange(0, spec_g.len() as int) =~= spec_g);
    Some(sum)
}

proof fn lemma_sizes_sum_prefix(g: Seq<(nat, nat, u64)>, n: int)
    requires
        0 < n <= g.len(),
    ensures
        sizes_sum(g.subrange(0, n)) == sizes_sum(g.subrange(0, n - 1)) + g[n - 1].2,
{
    assert(g.subrange(0, n).drop_last() =~= g.subrange(0, n - 1));
}

proof fn lemma_sizes_sum_prefix_le(g: Seq<(nat, nat, u64)>, n: int)
    requires
        0 <= n <= g.len(),
    ensures
        sizes_sum(g.subrange(0, n)) <= sizes_sum(g),
    decreases g.len() - n,
{
    if n < g.len() {
        lemma_sizes_sum_prefix_le(g, n + 1);
        assert(g.subrange(0, n + 1).drop_last() =~= g.subrange(0, n));
    } else {
        assert(g.subrange(0, n) =~= g);
    }
}

fn candidate_of(entries: &[HfTreeEntry], i: usize) -> (r: Option<(String, u64)>)
    requires
        i < entries@.len(),
    ensures
        match r {
            Some((q, b)) => entry_candidate(entries@, i as int) == Some((q@, b)),
            None => entry_candidate(entries@, i as int) is None,
        },
{
    reveal(entry_candidate);
    let e = &entries[i];
    let path = e.path.as_str();
    if !(is_model_gguf(path) && !is_auxiliary_model_file(path)) {
        return None;
    }
    match split_model_part(path) {
        None => {
            let q = extract_quant(path);
            if !crate::text::str_is_empty(q.as_str()) { Some((q, e.size)) } else { None }
        },
        Some((p, _, _)) => {
            let g = collect_group(entries, p.as_str());
            let ghost sg = group_parts(entries@, p@);
            match group_total(&g, Ghost(sg)) {
                Some(sum) => {
                    let q = extract_quant(p.as_str());
                    if !crate::text::str_is_empty(q.as_str()) { Some((q, sum)) } else { None }
                },
                None => None,
            }
        },
    }
}

fn option_less(a: &ModelOption, b: &ModelOption) -> (r: bool)
    ensures
        r == option_before(option_view(*a), option_view(*b)),
{
    a.bytes < b.bytes || (a.bytes == b.bytes && lex_less(crate::text::chars_of(a.quant.as_str()).as_slice(), crate::text::chars_of(b.quant.as_str()).as_slice()))
}

fn find_quant(options: &Vec<ModelOption>, q: &str) -> (r: Option<usize>)
    ensures
        match r {
            Some(k) => k < options@.len() && options@[k as int].quant@ == q@,
            None => forall|m: int| 0 <= m < options@.len() ==> (#[trigger] options@[m]).quant@ != q@,
        },
{
    let mut k: usize = 0;
    while k < options.len()
        invariant
            k <= options@.len(),
            forall|m: int| 0 <= m < k ==> (#[trigger] options@[m]).quant@ != q@,
        decreases options.len() - k,
    {
        if str_eq(options[k].quant.as_str(), q) {
            return Some(k);
        }
        k = k + 1;
    }
    None
}

/// Each listed option is offered, at the smallest size its quantization is
/// offered at.
pub open spec fn minimal_offers(es: Seq<HfTreeEntry>, os: Seq<ModelOption>, upto: int) -> bool {
    &&& forall|k: int| 0 <= k < os.len() ==> offers(es, (#[trigger] os[k]).quant@, os[k].bytes)
    &&& forall|k: int, j: int| 0 <= k < os.len() && 0 <= j < upto
        && (#[trigger] entry_candidate(es, j)) is Some && cand_quant(es, j) == (#[trigger] os[k]).quant@
        ==> os[k].bytes <= cand_size(es, j)
}

pub open spec fn quants_distinct(os: Seq<ModelOption>) -> bool {
    forall|a: int, b: int| 0 <= a < b < os.len() ==> (#[trigger] os[a]).quant@ != (#[trigger] os[b]).quant@
}

pub open spec fn lists_quant(os: Seq<ModelOption>, q: Seq<char>) -> bool {
    exists|k: int| 0 <= k < os.len() && (#[trigger] os[k]).quant@ == q
}

fn smallest_per_quant(entries: &[HfTreeEntry]) -> (r: Vec<ModelOption>)
    ensures
        minimal_offers(entries@, r@, entries@.len() as int),
        quants_distinct(r@),
        forall|i: int| 0 <= i < entries@.len() && (#[trigger] entry_candidate(entries@, i)) is Some
            ==> lists_quant(r@, cand_quant(entries@, i)),
{
    let mut options: Vec<ModelOption> = Vec::new();
    let mut i: usize = 0;
    while i < entries.len()
        invariant
            i <= entries@.len(),
            minimal_offers(entries@, options@, i as int),
            quants_distinct(options@),
            forall|j: int| 0 <= j < i && (#[trigger] entry_candidate(entries@, j)) is Some
                ==> lists_quant(options@, cand_quant(entries@, j)),
        decreases entries.len() - i,
    {
        let ghost before = options@;
        match candidate_of(entries, i) {
            Some((q, b)) => {
                assert(offers(entries@, q@, b)) by {
                    assert(entry_candidate(entries@, i as int) == Some((q@, b)));
                }
                match find_quant(&options, q.as_str()) {
                    Some(k) => {
                        if b < options[k].bytes {
                            options.set(k, ModelOption { quant: q, bytes: b });
                        }
                        assert forall|m: int| 0 <= m < options@.len() implies options@[m].quant@ == before[m].quant@ by {}
                        assert forall|m: int, j: int| 0 <= m < options@.len() && 0 <= j < i + 1
                            && (#[trigger] entry_candidate(entries@, j)) is Some && cand_quant(entries@, j) == (#[trigger] options@[m]).quant@
                            implies options@[m].bytes <= cand_size(entries@, j) by {
                            if m != k {
                                assert(options@[m] == before[m]);
                                if j == i {
                                    assert(before[m].quant@ != before[k as int].quant@);
                                }
                            }
                        }
                        assert forall|j: int| 0 <= j < i + 1 && (#[trigger] entry_candidate(entries@, j)) is Some
                            implies lists_quant(options@, cand_quant(entries@, j)) by {
                            if j < i {
                                let m = choose|m: int| 0 <= m < before.len() && (#[trigger] before[m]).quant@ == cand_quant(entries@, j);
                                assert(options@[m].quant@ == before[m].quant@);
                            } else {
                                assert(options@[k as int].quant@ == q@);
                            }
                        }
                    },
                    None => {
                        options.push(ModelOption { quant: q, bytes: b });
                        assert forall|m: int, j: int| 0 <= m < options@.len() && 0 <= j < i + 1
                            && (#[trigger] entry_candidate(entries@, j)) is Some && cand_quant(entries@, j) == (#[trigger] options@[m]).quant@
                            implies options@[m].bytes <= cand_size(entries@, j) by {
                            if m < before.len() {
                                assert(options@[m] == before[m]);
                            }
                        }
                        assert forall|j: int| 0 <= j < i + 1 && (#[trigger] entry_candidate(entries@, j)) is Some
                            implies lists_quant(options@, cand_quant(entries@, j)) by {
                            if j < i {
                                let m = choose|m: int| 0 <= m < before.len() && (#[trigger] before[m]).quant@ == cand_quant(entries@, j);
                                assert(options@[m] == before[m]);
                            } else {
                                assert(options@[before.len() as int].quant@ == q@);
                            }
                        }
                    },
                }
            },
            None => {},
        }
        i = i + 1;
    }
    options
}

proof fn lemma_option_before_transitive(x: (Seq<char>, u64), y: (Seq<char>, u64), z: (Seq<char>, u64))
    requires
        option_before(x, y),
        option_before(y, z),
    ensures
        option_before(x, z),
{
    if x.1 == y.1 && y.1 == z.1 {
        lemma_lex_transitive(x.0, y.0, z.0);
    }
}

proof fn lemma_option_before_total(x: (Seq<char>, u64), y: (Seq<char>, u64))
    requires
        x.0 != y.0,
        !option_before(x, y),
    ensures
        option_before(y, x),
{
    lemma_lex_total(x.0, y.0);
}

proof fn lemma_option_order(s: Seq<ModelOption>, pos: int, o: ModelOption, a: int, b: int)
    requires
        0 <= pos <= s.len(),
        forall|x: int, y: int| 0 <= x < y < s.len() ==> option_before(option_view(#[trigger] s[x]), option_view(#[trigger] s[y])),
        forall|m: int| 0 <= m < pos ==> option_before(option_view(#[trigger] s[m]), option_view(o)),
        pos < s.len() ==> !option_before(option_view(s[pos]), option_view(o)),
        forall|m: int| 0 <= m < s.len() ==> (#[trigger] s[m]).quant@ != o.quant@,
        0 <= a < b < s.len() + 1,
    ensures
        option_before(option_view(s.insert(pos, o)[a]), option_view(s.insert(pos, o)[b])),
{
    let t = s.insert(pos, o);
    if b < pos {
        assert(t[a] == s[a] && t[b] == s[b]);
    } else if b == pos {
        assert(t[a] == s[a] && t[b] == o);
    } else if a < pos {
        assert(t[a] == s[a] && t[b] == s[b - 1]);
    } else if a == pos {
        assert(t[a] == o && t[b] == s[b - 1]);
        assert(s[pos].quant@ != o.quant@);
        lemma_option_before_total(option_view(s[pos]), option_view(o));
        if b - 1 > pos {
            lemma_option_before_transitive(option_view(o), option_view(s[pos]), option_view(s[b - 1]));
        }
    } else {
        assert(t[a] == s[a - 1] && t[b] == s[b - 1]);
    }
}

/// The complete model options of a repository listing, each quantization
/// once at its smallest size, ordered by size and then name.
pub fn complete_model_options(entries: &[HfTreeEntry]) -> (r: Vec<ModelOption>)
    ensures
        minimal_offers(entries@, r@, entries@.len() as int),
        quants_distinct(r@),
        forall|i: int| 0 <= i < entries@.len() && (#[trigger] entry_candidate(entries@, i)) is Some
            ==> lists_quant(r@, cand_quant(entries@, i)),
        forall|a: int, b: int| 0 <= a < b < r@.len() ==> option_before(option_view(#[trigger] r@[a]), option_view(#[trigger] r@[b])),
{
    let mut options = smallest_per_quant(entries);
    let ghost n = entries@.len() as int;
    let mut sorted: Vec<ModelOption> = Vec::new();
    while options.len() > 0
        invariant
            n == entries@.len(),
            minimal_offers(entries@, sorted@, n),
            minimal_offers(entries@, options@, n),
            quants_distinct(sorted@),
            quants_distinct(options@),
            forall|a: int, b: int| 0 <= a < sorted@.len() && 0 <= b < options@.len()
                ==> (#[trigger] sorted@[a]).quant@ != (#[trigger] options@[b]).quant@,
            forall|j: int| 0 <= j < n && (#[trigger] entry_candidate(entries@, j)) is Some
                ==> lists_quant(sorted@, cand_quant(entries@, j)) || lists_quant(options@, cand_quant(entries@, j)),
            forall|a: int, b: int| 0 <= a < b < sorted@.len() ==> option_before(option_view(#[trigger] sorted@[a]), option_view(#[trigger] sorted@[b])),
        decreases options.len(),
    {
        let ghost opts_before = options@;
        let ghost sorted_before = sorted@;
        let o = options.pop().unwrap();
        assert(opts_before =~= options@.push(o));
        assert(forall|m: int| 0 <= m < sorted_before.len() ==> (#[trigger] sorted_before[m]).quant@ != o.quant@) by {
            assert forall|m: int| 0 <= m < sorted_before.len() implies (#[trigger] sorted_before[m]).quant@ != o.quant@ by {
                assert(opts_before[opts_before.len() - 1] == o);
            }
        }
        let mut pos: usize = 0;
        while pos < sorted.len() && option_less(&sorted[pos], &o)
            invariant
                pos <= sorted@.len(),
                sorted@ == sorted_before,
                forall|m: int| 0 <= m < pos ==> option_before(option_view(#[trigger] sorted@[m]), option_view(o)),
            decreases sorted.len() - pos,
        {
            pos = pos + 1;
        }
        sorted.insert(pos, o);
        proof {
            assert(sorted@ == sorted_before.insert(pos as int, o));
            assert forall|a: int, b: int| 0 <= a < b < sorted@.len() implies option_before(option_view(#[trigger] sorted@[a]), option_view(#[trigger] sorted@[b])) by {
                lemma_option_order(sorted_before, pos as int, o, a, b);
            }
            assert forall|k: int| 0 <= k < sorted@.len() implies
                (k < pos ==> sorted@[k] == sorted_before[k]) && (k == pos ==> sorted@[k] == o)
                && (k > pos ==> sorted@[k] == sorted_before[k - 1]) by {}
            assert forall|k: int| 0 <= k < options@.len() implies options@[k] == opts_before[k] by {}
            assert forall|j: int| 0 <= j < n && (#[trigger] entry_candidate(entries@, j)) is Some
                implies lists_quant(sorted@, cand_quant(entries@, j)) || lists_quant(options@, cand_quant(entries@, j)) by {
                let q = cand_quant(entries@, j);
                if lists_quant(sorted_before, q) {
                    let k = choose|k: int| 0 <= k < sorted_before.len() && (#[trigger] sorted_before[k]).quant@ == q;
                    if k < pos {
                        assert(sorted@[k] == sorted_before[k]);
                    } else {
                        assert(sorted@[k + 1] == sorted_before[k]);
                    }
                } else {
                    let k = choose|k: int| 0 <= k < opts_before.len() && (#[trigger] opts_before[k]).quant@ == q;
                    if k < options@.len() {
                        assert(options@[k] == opts_before[k]);
                    } else {
                        assert(sorted@[pos as int] == o);
                    }
                }
            }
        }
    }
    sorted
}

} // verus!

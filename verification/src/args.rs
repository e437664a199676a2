//! Reading and rewriting `--flag value` pairs in backend argument lists.
use vstd::prelude::*;
use crate::text::{decimal, fmt_decimal, lemma_parse_decimal, parse_decimal_str, parse_unsigned, str_eq, string_from_str};

verus! {

/// The character view of every argument.
pub open spec fn strs(v: Seq<String>) -> Seq<Seq<char>> {
    v.map_values(|s: String| s@)
}

/// `s` is one of the spellings in `flags`.
pub open spec fn one_of(flags: Seq<&str>, s: Seq<char>) -> bool {
    exists|k: int| 0 <= k < flags.len() && flags[k]@ == s
}

/// `i` is a position holding one of `flags` (followed by a value when
/// `need_value`).
pub open spec fn flag_at(args: Seq<Seq<char>>, flags: Seq<&str>, need_value: bool, i: int) -> bool {
    0 <= i < args.len() && one_of(flags, args[i]) && (!need_value || i + 1 < args.len())
}

/// First position at or after `i` that `flag_at` accepts.
pub open spec fn flag_position_from(args: Seq<Seq<char>>, flags: Seq<&str>, need_value: bool, i: int) -> Option<int>
    decreases args.len() - i,
{
    if i < 0 || i >= args.len() {
        None
    } else if flag_at(args, flags, need_value, i) {
        Some(i)
    } else {
        flag_position_from(args, flags, need_value, i + 1)
    }
}

/// First position that `flag_at` accepts.
pub open spec fn flag_position(args: Seq<Seq<char>>, flags: Seq<&str>, need_value: bool) -> Option<int> {
    flag_position_from(args, flags, need_value, 0)
}

/// The positive integer value that follows the first flag of `flags`.
pub open spec fn positive_flag_value(args: Seq<Seq<char>>, flags: Seq<&str>, need_value: bool) -> Option<nat> {
    match flag_position(args, flags, need_value) {
        Some(i) => if i + 1 < args.len() {
            match parse_unsigned(args[i + 1], u32::MAX as nat) {
                Some(v) => if v > 0 { Some(v) } else { None },
                None => None,
            }
        } else {
            None
        },
        None => None,
    }
}

/// Replace the value after the first matching flag (append the value when
/// that flag is the last argument), or append `flag value`.
pub open spec fn set_flag_value(
    args: Seq<Seq<char>>,
    flags: Seq<&str>,
    need_value: bool,
    flag: Seq<char>,
    value: Seq<char>,
) -> Seq<Seq<char>> {
    match flag_position(args, flags, need_value) {
        Some(i) => if i + 1 < args.len() { args.update(i + 1, value) } else { args.push(value) },
        None => args.push(flag).push(value),
    }
}

/// The argument that follows the first of `flags`, when there is one.
pub open spec fn value_after(args: Seq<Seq<char>>, flags: Seq<&str>, need_value: bool) -> Option<Seq<char>> {
    match flag_position(args, flags, need_value) {
        Some(i) => if i + 1 < args.len() { Some(args[i + 1]) } else { None },
        None => None,
    }
}

proof fn lemma_position_from_some(a: Seq<Seq<char>>, flags: Seq<&str>, need_value: bool, k: int, i: int)
    requires
        0 <= k,
        flag_position_from(a, flags, need_value, k) == Some(i),
    ensures
        k <= i,
        flag_at(a, flags, need_value, i),
        forall|j: int| k <= j < i ==> !flag_at(a, flags, need_value, j),
    decreases a.len() - k,
{
    if k < a.len() && !flag_at(a, flags, need_value, k) {
        lemma_position_from_some(a, flags, need_value, k + 1, i);
    }
}

proof fn lemma_position_from_none(a: Seq<Seq<char>>, flags: Seq<&str>, need_value: bool, k: int)
    requires
        0 <= k,
        flag_position_from(a, flags, need_value, k) is None,
    ensures
        forall|j: int| k <= j < a.len() ==> !flag_at(a, flags, need_value, j),
    decreases a.len() - k,
{
    if k < a.len() {
        lemma_position_from_none(a, flags, need_value, k + 1);
    }
}

proof fn lemma_position_from_first(a: Seq<Seq<char>>, flags: Seq<&str>, need_value: bool, k: int, i: int)
    requires
        0 <= k <= i,
        flag_at(a, flags, need_value, i),
        forall|j: int| k <= j < i ==> !flag_at(a, flags, need_value, j),
    ensures
        flag_position_from(a, flags, need_value, k) == Some(i),
    decreases i - k,
{
    if k < i {
        lemma_position_from_first(a, flags, need_value, k + 1, i);
    }
}

/// The value after the first spelling of a flag is what reading the flag
/// gives: when position `i` holds one of `flags`, no earlier position
/// does, and a positive number follows it.
pub proof fn lemma_first_flag_value(args: Seq<Seq<char>>, flags: Seq<&str>, need_value: bool, i: int, v: nat)
    requires
        0 <= i,
        i + 1 < args.len(),
        one_of(flags, args[i]),
        forall|j: int| 0 <= j < i ==> !one_of(flags, #[trigger] args[j]),
        parse_unsigned(args[i + 1], u32::MAX as nat) == Some(v),
        v > 0,
    ensures
        positive_flag_value(args, flags, need_value) == Some(v),
{
    assert(flag_at(args, flags, need_value, i));
    lemma_position_from_first(args, flags, need_value, 0, i);
}

/// The first position holding one of `flags` is where a flag is found.
pub proof fn lemma_first_position(args: Seq<Seq<char>>, flags: Seq<&str>, need_value: bool, i: int)
    requires
        0 <= i,
        i + 1 < args.len(),
        one_of(flags, args[i]),
        forall|j: int| 0 <= j < i ==> !one_of(flags, #[trigger] args[j]),
    ensures
        flag_position(args, flags, need_value) == Some(i),
{
    assert(flag_at(args, flags, need_value, i));
    lemma_position_from_first(args, flags, need_value, 0, i);
}

/// With no spelling of a flag anywhere, reading it gives nothing.
pub proof fn lemma_no_flag(args: Seq<Seq<char>>, flags: Seq<&str>, need_value: bool)
    requires
        forall|j: int| 0 <= j < args.len() ==> !one_of(flags, #[trigger] args[j]),
    ensures
        positive_flag_value(args, flags, need_value) is None,
{
    lemma_flag_position_valid(args, flags, need_value);
}

/// Writing a value and reading it back gives the value: after
/// `set_flag_value` with one of `flags`, the first of `flags` holds the
/// written number. When a value is needed after the flag, an argument list
/// whose only spelling of the flag is its last argument is left out: the
/// appended pair then follows a flag that now reads the appended flag as
/// its value.
pub proof fn lemma_flag_read_after_write(args: Seq<Seq<char>>, flags: Seq<&str>, need_value: bool, flag: Seq<char>, n: nat)
    requires
        one_of(flags, flag),
        0 < n <= u32::MAX,
        need_value ==> (flag_position(args, flags, true) is Some || !(args.len() > 0 && one_of(flags, args.last()))),
    ensures
        positive_flag_value(set_flag_value(args, flags, need_value, flag, decimal(n)), flags, need_value) == Some(n),
{
    let a2 = set_flag_value(args, flags, need_value, flag, decimal(n));
    lemma_parse_decimal(n, u32::MAX as nat);
    match flag_position(args, flags, need_value) {
        Some(i) => {
            lemma_position_from_some(args, flags, need_value, 0, i);
            assert forall|j: int| 0 <= j < i implies !flag_at(a2, flags, need_value, j) by {
                assert(a2[j] == args[j]);
                assert(!flag_at(args, flags, need_value, j));
            }
            assert(a2[i] == args[i]);
            assert(flag_at(a2, flags, need_value, i));
            lemma_position_from_first(a2, flags, need_value, 0, i);
            assert(a2[i + 1] == decimal(n));
        },
        None => {
            lemma_position_from_none(args, flags, need_value, 0);
            let l = args.len() as int;
            assert forall|j: int| 0 <= j < l implies !flag_at(a2, flags, need_value, j) by {
                assert(a2[j] == args[j]);
                assert(!flag_at(args, flags, need_value, j));
                if need_value && j == l - 1 {
                    assert(args.last() == args[j]);
                }
            }
            assert(a2[l] == flag);
            assert(flag_at(a2, flags, need_value, l));
            lemma_position_from_first(a2, flags, need_value, 0, l);
            assert(a2[l + 1] == decimal(n));
        },
    }
}

pub open spec fn ngl_flags() -> Seq<&'static str> {
    seq!["-ngl", "--n-gpu-layers", "--gpu-layers"]
}

pub proof fn lemma_flag_position_from_valid(args: Seq<Seq<char>>, flags: Seq<&str>, need_value: bool, i: int)
    requires
        0 <= i,
    ensures
        flag_position_from(args, flags, need_value, i) matches Some(k) ==> i <= k && flag_at(args, flags, need_value, k),
    decreases args.len() - i,
{
    if i < args.len() && !flag_at(args, flags, need_value, i) {
        lemma_flag_position_from_valid(args, flags, need_value, i + 1);
    }
}

pub proof fn lemma_flag_position_valid(args: Seq<Seq<char>>, flags: Seq<&str>, need_value: bool)
    ensures
        flag_position(args, flags, need_value) matches Some(i) ==> flag_at(args, flags, need_value, i),
{
    lemma_flag_position_from_valid(args, flags, need_value, 0);
}

pub fn is_one_of(flags: &[&str], s: &str) -> (r: bool)
    ensures
        r == one_of(flags@, s@),
{
    let mut k: usize = 0;
    while k < flags.len()
        invariant
            k <= flags.len(),
            forall|j: int| 0 <= j < k ==> flags@[j]@ != s@,
        decreases flags.len() - k,
    {
        if str_eq(flags[k], s) {
            return true;
        }
        k = k + 1;
    }
    false
}

/// First index of one of `flags` in `args` (with a following value when
/// `need_value`).
pub fn find_flag(args: &[String], flags: &[&str], need_value: bool) -> (r: Option<usize>)
    ensures
        match r {
            Some(i) => flag_position(strs(args@), flags@, need_value) == Some(i as int),
            None => flag_position(strs(args@), flags@, need_value) is None,
        },
        r matches Some(i) ==> i < args@.len() && (need_value ==> i + 1 < args@.len()),
{
    let ghost a = strs(args@);
    let mut idx: usize = 0;
    while idx < args.len()
        invariant
            a == strs(args@),
            a.len() == args@.len(),
            idx <= args.len(),
            flag_position(a, flags@, need_value) == flag_position_from(a, flags@, need_value, idx as int),
        decreases args.len() - idx,
    {
        let hit = is_one_of(flags, args[idx].as_str());
        assert(a[idx as int] == args@[idx as int]@);
        if hit && (!need_value || idx + 1 < args.len()) {
            return Some(idx);
        }
        idx = idx + 1;
    }
    None
}

/// The positive `u32` following the first of `flags`, if present.
pub fn positive_value_after(args: &[String], flags: &[&str], need_value: bool) -> (r: Option<u32>)
    ensures
        match r {
            Some(v) => positive_flag_value(strs(args@), flags@, need_value) == Some(v as nat),
            None => positive_flag_value(strs(args@), flags@, need_value) is None,
        },
{
    match find_flag(args, flags, need_value) {
        Some(i) => {
            if i < args.len() && args.len() - i > 1 {
                assert(strs(args@)[i + 1] == args@[i + 1]@);
                match parse_decimal_str(args[i + 1].as_str(), 0xffff_ffff) {
                    Some(v) => if v > 0 { Some(v as u32) } else { None },
                    None => None,
                }
            } else {
                None
            }
        },
        None => None,
    }
}

pub fn copy_args(args: &[String]) -> (r: Vec<String>)
    ensures
        strs(r@) == strs(args@),
        r@.len() == args@.len(),
{
    let mut r: Vec<String> = Vec::new();
    let mut i: usize = 0;
    while i < args.len()
        invariant
            i <= args.len(),
            r@.len() == i,
            strs(r@) == strs(args@.subrange(0, i as int)),
        decreases args.len() - i,
    {
        let c = args[i].clone();
        let ghost before = r@;
        r.push(c);
        assert(r@ == before.push(c));
        assert(strs(r@) =~= strs(before).push(args@[i as int]@));
        assert(args@.subrange(0, i + 1) =~= args@.subrange(0, i as int).push(args@[i as int]));
        assert(strs(args@.subrange(0, i + 1)) =~= strs(args@.subrange(0, i as int)).push(args@[i as int]@));
        i = i + 1;
    }
    assert(args@.subrange(0, i as int) =~= args@);
    r
}

/// Set the value after the first of `flags` (append it when that flag is
/// the last argument), or append `flag value`.
pub fn set_value_after(
    args: &[String],
    flags: &[&str],
    need_value: bool,
    flag: &str,
    value: String,
) -> (r: Vec<String>)
    ensures
        strs(r@) == set_flag_value(strs(args@), flags@, need_value, flag@, value@),
{
    proof { lemma_flag_position_valid(strs(args@), flags@, need_value); }
    let mut updated = copy_args(args);
    match find_flag(args, flags, need_value) {
        Some(i) => {
            let ghost before = strs(updated@);
            if i < args.len() - 1 {
                updated.set(i + 1, value);
                assert(strs(updated@) =~= before.update(i + 1, value@));
            } else {
                updated.push(value);
                assert(strs(updated@) =~= before.push(value@));
            }
        },
        None => {
            let ghost before = strs(updated@);
            updated.push(string_from_str(flag));
            updated.push(value);
            assert(strs(updated@) =~= before.push(flag@).push(value@));
        },
    }
    updated
}

// ── GPU layers (`-ngl`) ──────────────────────────────────────────────────────

/// Return a copy of `args` with the GPU-layer flag value set to `ngl`.
pub fn with_ngl(args: &[String], ngl: u32) -> (r: Vec<String>)
    ensures
        strs(r@) == set_flag_value(strs(args@), ngl_flags(), true, "-ngl"@, decimal(ngl as nat)),
{
    let flags = ["-ngl", "--n-gpu-layers", "--gpu-layers"];
    assert(flags@ =~= ngl_flags());
    set_value_after(args, &flags, true, "-ngl", fmt_decimal(ngl as u64))
}

// ── Generic `--flag value` pairs ─────────────────────────────────────────────

/// Set or append a `--flag value` pair in args.
pub fn with_flag(args: &[String], flag: &str, value: &str) -> (r: Vec<String>)
    ensures
        strs(r@) == set_flag_value(strs(args@), seq![flag], true, flag@, value@),
{
    let flags = [flag];
    assert(flags@ =~= seq![flag]);
    set_value_after(args, &flags, true, flag, string_from_str(value))
}

/// Read the value following `flag` in an args list, if present.
pub fn flag_value<'a>(args: &'a [String], flag: &str) -> (r: Option<&'a str>)
    ensures
        match r {
            Some(v) => value_after(strs(args@), seq![flag], false) == Some(v@),
            None => value_after(strs(args@), seq![flag], false) is None,
        },
{
    let flags = [flag];
    assert(flags@ =~= seq![flag]);
    match find_flag(args, &flags, false) {
        Some(i) => {
            if i < args.len() && args.len() - i > 1 {
                assert(strs(args@)[i + 1] == args@[i + 1]@);
                Some(args[i + 1].as_str())
            } else {
                None
            }
        },
        None => None,
    }
}

/// The `-m` / `--model` path in a llama-server argument list.
pub fn model_path_from_args<'a>(args: &'a [String]) -> (r: Option<&'a str>)
    ensures
        match r {
            Some(v) => value_after(strs(args@), seq!["-m", "--model"], true) == Some(v@),
            None => value_after(strs(args@), seq!["-m", "--model"], true) is None,
        },
{
    let flags = ["-m", "--model"];
    assert(flags@ =~= seq!["-m", "--model"]);
    match find_flag(args, &flags, true) {
        Some(i) => {
            assert(i + 1 < args.len());
            assert(strs(args@)[i + 1] == args@[i + 1]@);
            Some(args[i + 1].as_str())
        },
        None => None,
    }
}

/// The value after `flag` parsed as a `u32` (no positivity requirement).
pub open spec fn u32_after(args: Seq<Seq<char>>, flag: &str) -> Option<nat> {
    match value_after(args, seq![flag], false) {
        Some(v) => parse_unsigned(v, u32::MAX as nat),
        None => None,
    }
}

fn u32_flag(args: &[String], flag: &str) -> (r: Option<u32>)
    ensures
        match r {
            Some(v) => u32_after(strs(args@), flag) == Some(v as nat),
            None => u32_after(strs(args@), flag) is None,
        },
{
    match flag_value(args, flag) {
        Some(v) => match parse_decimal_str(v, 0xffff_ffff) {
            Some(n) => Some(n as u32),
            None => None,
        },
        None => None,
    }
}

/// Read `--max-model-len` from a vLLM args list.
pub fn vllm_max_model_len_from_args(args: &[String]) -> (r: Option<u32>)
    ensures
        match r {
            Some(v) => u32_after(strs(args@), "--max-model-len") == Some(v as nat),
            None => u32_after(strs(args@), "--max-model-len") is None,
        },
{
    u32_flag(args, "--max-model-len")
}

/// Read `--tensor-parallel-size` from a vLLM args list.
pub fn vllm_tensor_parallel_size_from_args(args: &[String]) -> (r: Option<u32>)
    ensures
        match r {
            Some(v) => u32_after(strs(args@), "--tensor-parallel-size") == Some(v as nat),
            None => u32_after(strs(args@), "--tensor-parallel-size") is None,
        },
{
    u32_flag(args, "--tensor-parallel-size")
}

} // verus!

//! Reading and adjusting llama-server context size (`-c`).
use vstd::prelude::*;
use crate::args::{lemma_first_flag_value, lemma_first_position, lemma_flag_read_after_write, lemma_no_flag, one_of, positive_flag_value, positive_value_after, set_flag_value, set_value_after, strs};
use crate::text::{decimal, fmt_decimal, parse_unsigned};

verus! {

pub open spec fn context_flags() -> Seq<&'static str> {
    seq!["-c", "--ctx-size", "--context-size"]
}

// ── Context size (`-c`) ──────────────────────────────────────────────────────

/// Read the configured context size from backend args, if present.
///
/// Only the first context flag counts; when it is the last argument there is
/// no value.
pub fn get_context_size(args: &[String]) -> (r: Option<u32>)
    ensures
        match r {
            Some(v) => positive_flag_value(strs(args@), context_flags(), false) == Some(v as nat),
            None => positive_flag_value(strs(args@), context_flags(), false) is None,
        },
{
    let flags = ["-c", "--ctx-size", "--context-size"];
    assert(flags@ =~= context_flags());
    positive_value_after(args, &flags, false)
}

/// Return a copy of `args` with the context flag value set to `size`; a
/// context flag that is the last argument gets the value appended, and
/// without any context flag `-c size` is appended.
pub fn with_context_size(args: &[String], size: u32) -> (r: Vec<String>)
    ensures
        strs(r@) == set_flag_value(strs(args@), context_flags(), false, "-c"@, decimal(size as nat)),
{
    let flags = ["-c", "--ctx-size", "--context-size"];
    assert(flags@ =~= context_flags());
    set_value_after(args, &flags, false, "-c", fmt_decimal(size as u64))
}

/// The spellings of the context flag.
pub open spec fn is_context_spelling(a: Seq<char>) -> bool {
    a == "-c"@ || a == "--ctx-size"@ || a == "--context-size"@
}

/// The context size read from arguments is the positive number after the
/// first of `-c`, `--ctx-size` or `--context-size`, whichever of the three
/// comes first; and an argument list that spells none of them has none.
pub proof fn lemma_context_flag_spellings(args: Seq<Seq<char>>, i: int, v: nat)
    ensures
        (0 <= i && i + 1 < args.len() && is_context_spelling(args[i])
            && (forall|j: int| 0 <= j < i ==> !is_context_spelling(#[trigger] args[j]))
            && parse_unsigned(args[i + 1], u32::MAX as nat) == Some(v) && v > 0)
            ==> positive_flag_value(args, context_flags(), false) == Some(v),
        (forall|j: int| 0 <= j < args.len() ==> !is_context_spelling(#[trigger] args[j]))
            ==> positive_flag_value(args, context_flags(), false) is None,
{
    reveal_strlit("-c");
    reveal_strlit("--ctx-size");
    reveal_strlit("--context-size");
    let fl = context_flags();
    assert(fl[0]@ == "-c"@ && fl[1]@ == "--ctx-size"@ && fl[2]@ == "--context-size"@);
    assert forall|a: Seq<char>| one_of(fl, a) <==> is_context_spelling(a) by {
        if one_of(fl, a) {
            let k = choose|k: int| 0 <= k < fl.len() && fl[k]@ == a;
        }
        if a == "-c"@ { assert(fl[0]@ == a); }
        if a == "--ctx-size"@ { assert(fl[1]@ == a); }
        if a == "--context-size"@ { assert(fl[2]@ == a); }
    }
    if 0 <= i && i + 1 < args.len() && is_context_spelling(args[i])
        && (forall|j: int| 0 <= j < i ==> !is_context_spelling(#[trigger] args[j]))
        && parse_unsigned(args[i + 1], u32::MAX as nat) == Some(v) && v > 0 {
        lemma_first_flag_value(args, fl, false, i, v);
    }
    if forall|j: int| 0 <= j < args.len() ==> !is_context_spelling(#[trigger] args[j]) {
        lemma_no_flag(args, fl, false);
    }
}

/// Setting the context size rewrites the value after the first context
/// flag in place when one is there with a value after it: the list keeps
/// its length and only that value changes.
pub proof fn lemma_context_rewrite_in_place(args: Seq<Seq<char>>, i: int, size: u32)
    requires
        0 <= i,
        i + 1 < args.len(),
        is_context_spelling(args[i]),
        forall|j: int| 0 <= j < i ==> !is_context_spelling(#[trigger] args[j]),
    ensures
        set_flag_value(args, context_flags(), false, "-c"@, decimal(size as nat)) == args.update(i + 1, decimal(size as nat)),
{
    reveal_strlit("-c");
    reveal_strlit("--ctx-size");
    reveal_strlit("--context-size");
    let fl = context_flags();
    assert(fl[0]@ == "-c"@ && fl[1]@ == "--ctx-size"@ && fl[2]@ == "--context-size"@);
    assert forall|a: Seq<char>| one_of(fl, a) <==> is_context_spelling(a) by {
        if one_of(fl, a) {
            let k = choose|k: int| 0 <= k < fl.len() && fl[k]@ == a;
        }
        if a == "-c"@ { assert(fl[0]@ == a); }
        if a == "--ctx-size"@ { assert(fl[1]@ == a); }
        if a == "--context-size"@ { assert(fl[2]@ == a); }
    }
    lemma_first_position(args, fl, false, i);
}

/// Setting a positive context size and reading it back gives that size,
/// whatever the argument list held before.
pub proof fn lemma_context_size_read_after_write(args: Seq<Seq<char>>, size: u32)
    requires
        size > 0,
    ensures
        positive_flag_value(set_flag_value(args, context_flags(), false, "-c"@, decimal(size as nat)), context_flags(), false)
            == Some(size as nat),
{
    reveal_strlit("-c");
    assert(context_flags()[0]@ == "-c"@);
    lemma_flag_read_after_write(args, context_flags(), false, "-c"@, size as nat);
}

/// Halve the context size for the next load attempt, stopping at `min`.
pub fn next_lower_context(current: u32, min: u32) -> (r: Option<u32>)
    ensures
        r == (if current <= min { None } else { Some(if current / 2 >= min { current / 2 } else { min }) }),
{
    if current <= min {
        return None;
    }
    let halved = current / 2;
    let next = if halved >= min { halved } else { min };
    if next >= current {
        return None;
    }
    Some(next)
}

} // verus!

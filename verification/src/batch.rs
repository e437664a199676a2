//! Reading and adjusting llama-server batch size (`-b`) and micro-batch size (`-ub`).
use vstd::prelude::*;
use crate::args::{flag_position, lemma_flag_read_after_write, one_of, positive_flag_value, positive_value_after, set_flag_value, set_value_after, strs};
use crate::text::{decimal, fmt_decimal};

verus! {

pub open spec fn batch_flags() -> Seq<&'static str> {
    seq!["-b", "--batch-size", "--batch"]
}

pub open spec fn ubatch_flags() -> Seq<&'static str> {
    seq!["-ub", "--ubatch-size", "--ubatch"]
}

// ── Batch and micro-batch size (`-b`, `-ub`) ─────────────────────────────────

/// The lowest logical/physical batch size an embedding model is served with.
pub const EMBEDDING_BATCH_FLOOR: u32 = 2048;

/// Read the configured batch size from backend args, if present.
pub fn get_batch_size(args: &[String]) -> (r: Option<u32>)
    ensures
        match r {
            Some(v) => positive_flag_value(strs(args@), batch_flags(), true) == Some(v as nat),
            None => positive_flag_value(strs(args@), batch_flags(), true) is None,
        },
{
    let flags = ["-b", "--batch-size", "--batch"];
    assert(flags@ =~= batch_flags());
    positive_value_after(args, &flags, true)
}


/// Return a copy of `args` with the batch size flag value set to `size`.
pub fn with_batch_size(args: &[String], size: u32) -> (r: Vec<String>)
    ensures
        strs(r@) == set_flag_value(strs(args@), batch_flags(), true, "-b"@, decimal(size as nat)),
{
    let flags = ["-b", "--batch-size", "--batch"];
    assert(flags@ =~= batch_flags());
    set_value_after(args, &flags, true, "-b", fmt_decimal(size as u64))
}

/// Read the configured micro-batch size from backend args, if present.
pub fn get_ubatch_size(args: &[String]) -> (r: Option<u32>)
    ensures
        match r {
            Some(v) => positive_flag_value(strs(args@), ubatch_flags(), true) == Some(v as nat),
            None => positive_flag_value(strs(args@), ubatch_flags(), true) is None,
        },
{
    let flags = ["-ub", "--ubatch-size", "--ubatch"];
    assert(flags@ =~= ubatch_flags());
    positive_value_after(args, &flags, true)
}

/// Return a copy of `args` with the micro-batch size flag value set to `size`.
pub fn with_ubatch_size(args: &[String], size: u32) -> (r: Vec<String>)
    ensures
        strs(r@) == set_flag_value(strs(args@), ubatch_flags(), true, "-ub"@, decimal(size as nat)),
{
    let flags = ["-ub", "--ubatch-size", "--ubatch"];
    assert(flags@ =~= ubatch_flags());
    set_value_after(args, &flags, true, "-ub", fmt_decimal(size as u64))
}

/// Setting a positive batch size and reading it back gives that size; an
/// argument list whose only batch flag is its last argument is left out
/// (that flag then takes the appended `-b` as its value).
pub proof fn lemma_batch_size_read_after_write(args: Seq<Seq<char>>, size: u32)
    requires
        size > 0,
        flag_position(args, batch_flags(), true) is Some || !(args.len() > 0 && one_of(batch_flags(), args.last())),
    ensures
        positive_flag_value(set_flag_value(args, batch_flags(), true, "-b"@, decimal(size as nat)), batch_flags(), true)
            == Some(size as nat),
{
    reveal_strlit("-b");
    assert(batch_flags()[0]@ == "-b"@);
    lemma_flag_read_after_write(args, batch_flags(), true, "-b"@, size as nat);
}

/// Setting a positive micro-batch size and reading it back gives that size;
/// an argument list whose only micro-batch flag is its last argument is
/// left out.
pub proof fn lemma_ubatch_size_read_after_write(args: Seq<Seq<char>>, size: u32)
    requires
        size > 0,
        flag_position(args, ubatch_flags(), true) is Some || !(args.len() > 0 && one_of(ubatch_flags(), args.last())),
    ensures
        positive_flag_value(set_flag_value(args, ubatch_flags(), true, "-ub"@, decimal(size as nat)), ubatch_flags(), true)
            == Some(size as nat),
{
    reveal_strlit("-ub");
    assert(ubatch_flags()[0]@ == "-ub"@);
    lemma_flag_read_after_write(args, ubatch_flags(), true, "-ub"@, size as nat);
}

/// Default `(batch_size, ubatch_size)` for embedding models.
pub fn embedding_batch_defaults() -> (r: (u32, u32))
    ensures
        r == (2048u32, 2048u32),
{
    (2048, 2048)
}

/// Check if the args already have batch/ubatch flags configured.
pub fn has_batch_flags(args: &[String]) -> (r: bool)
    ensures
        r == (positive_flag_value(strs(args@), batch_flags(), true) is Some
            || positive_flag_value(strs(args@), ubatch_flags(), true) is Some),
{
    get_batch_size(args).is_some() || get_ubatch_size(args).is_some()
}

} // verus!

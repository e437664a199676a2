//! Reading what the machine reports about itself: the total memory line of
//! `/proc/meminfo` and the GPU table `nvidia-smi` prints as CSV, and the
//! hardware summary built from them.
use vstd::prelude::*;
use crate::fit::{fallback_vram_mb, fingerprint_of, sum_free_mb, sum_total_mb, GpuDeviceInfo, HardwareSummary};
use crate::text::{
    chars_of, has_prefix, non_empty, parse_decimal, parse_decimal_str, parse_unsigned, split_chars, split_on, starts_with, string_from,
    trim, trim_range, vec_views,
};
use vstd::slice::slice_subrange;

verus! {

pub open spec fn line_seps() -> Seq<char> {
    seq!['\n']
}

pub open spec fn field_seps() -> Seq<char> {
    seq![' ', '\t']
}

/// The fields of a line separated by runs of spaces or tabs.
pub open spec fn fields_of(line: Seq<char>) -> Seq<Seq<char>> {
    non_empty(split_on(line, field_seps()))
}

/// The first line from index `i` on that begins with `MemTotal:`.
pub open spec fn first_memtotal(lines: Seq<Seq<char>>, i: int) -> Option<int>
    decreases lines.len() - i,
{
    if i < 0 || i >= lines.len() {
        None
    } else if has_prefix(lines[i], "MemTotal:"@) {
        Some(i)
    } else {
        first_memtotal(lines, i + 1)
    }
}

/// Total system RAM in MiB as a `/proc/meminfo` text states it: the
/// kibibytes in the second field of its first `MemTotal:` line, divided by
/// 1024; nothing when there is no such line or the field is not a number.
pub open spec fn meminfo_total_mb_of(text: Seq<char>) -> Option<nat> {
    let lines = split_on(text, line_seps());
    match first_memtotal(lines, 0) {
        Some(i) => {
            let fs = fields_of(lines[i]);
            if fs.len() >= 2 {
                match parse_unsigned(fs[1], u64::MAX as nat) {
                    Some(k) => Some(k / 1024),
                    None => None,
                }
            } else {
                None
            }
        },
        None => None,
    }
}

fn non_empty_parts(parts: Vec<Vec<char>>) -> (r: Vec<Vec<char>>)
    ensures
        vec_views(r@) == non_empty(vec_views(parts@)),
{
    let ghost ps = vec_views(parts@);
    let mut out: Vec<Vec<char>> = Vec::new();
    let mut i: usize = 0;
    while i < parts.len()
        invariant
            i <= parts@.len(),
            ps == vec_views(parts@),
            vec_views(out@) == non_empty(ps.subrange(0, i as int)),
        decreases parts.len() - i,
    {
        assert(ps.subrange(0, i + 1).drop_last() =~= ps.subrange(0, i as int));
        assert(ps.subrange(0, i + 1).last() == parts@[i as int]@);
        if parts[i].len() > 0 {
            let ghost before = vec_views(out@);
            out.push(parts[i].clone());
            assert(vec_views(out@) =~= before.push(parts@[i as int]@));
        }
        i = i + 1;
    }
    assert(ps.subrange(0, parts@.len() as int) =~= ps);
    out
}

/// Total system RAM in MiB from the text of `/proc/meminfo`.
pub fn meminfo_total_mb(text: &str) -> (r: Option<u64>)
    ensures
        match r {
            Some(v) => meminfo_total_mb_of(text@) == Some(v as nat),
            None => meminfo_total_mb_of(text@) is None,
        },
{
    let v = chars_of(text);
    let nl: Vec<char> = vec!['\n'];
    assert(nl@ =~= line_seps());
    let lines = split_chars(&v, &nl);
    let ghost ls = vec_views(lines@);
    let key = chars_of("MemTotal:");
    let mut i: usize = 0;
    while i < lines.len()
        invariant
            i <= lines@.len(),
            ls == vec_views(lines@),
            ls == split_on(text@, line_seps()),
            key@ == "MemTotal:"@,
            first_memtotal(ls, 0) == first_memtotal(ls, i as int),
        decreases lines.len() - i,
    {
        assert(ls[i as int] == lines@[i as int]@);
        if starts_with(&lines[i], &key) {
            let ws: Vec<char> = vec![' ', '\t'];
            assert(ws@ =~= field_seps());
            let fs = non_empty_parts(split_chars(&lines[i], &ws));
            if fs.len() >= 2 {
                assert(vec_views(fs@)[1] == fs@[1]@);
                return match parse_decimal(&fs[1], u64::MAX) {
                    Some(k) => Some(k / 1024),
                    None => None,
                };
            }
            return None;
        }
        i = i + 1;
    }
    None
}

/// A GPU as plain values: index, name, total, free and used MiB.
pub open spec fn gpu_view(g: GpuDeviceInfo) -> (u32, Seq<char>, u64, u64, u64) {
    (g.index, g.name@, g.total_mb, g.free_mb, g.used_mb)
}

/// The GPU a `nvidia-smi` CSV line (`index, name, memory.total,
/// memory.free, memory.used`) describes: its comma-separated fields,
/// trimmed, with the numbers read as integers; nothing when a field is
/// missing or a number does not read.
pub open spec fn gpu_of_line(line: Seq<char>) -> Option<(u32, Seq<char>, u64, u64, u64)> {
    let f = split_on(line, seq![',']).map_values(|p: Seq<char>| trim(p));
    if f.len() < 5 {
        None
    } else {
        match (parse_unsigned(f[0], u32::MAX as nat), parse_unsigned(f[2], u64::MAX as nat),
            parse_unsigned(f[3], u64::MAX as nat), parse_unsigned(f[4], u64::MAX as nat)) {
            (Some(i), Some(t), Some(fr), Some(u)) => Some((i as u32, f[1], t as u64, fr as u64, u as u64)),
            _ => None,
        }
    }
}

/// The GPUs of the lines, in order, skipping lines that describe none.
pub open spec fn gpus_of_lines(lines: Seq<Seq<char>>) -> Seq<(u32, Seq<char>, u64, u64, u64)>
    decreases lines.len(),
{
    if lines.len() == 0 {
        seq![]
    } else {
        gpus_of_lines(lines.drop_last()) + match gpu_of_line(lines.last()) {
            Some(g) => seq![g],
            None => seq![],
        }
    }
}

/// The GPUs a `nvidia-smi --format=csv,noheader,nounits` text lists.
pub open spec fn nvidia_smi_gpus_of(text: Seq<char>) -> Seq<(u32, Seq<char>, u64, u64, u64)> {
    gpus_of_lines(split_on(text, line_seps()))
}

fn trimmed(p: &Vec<char>) -> (r: String)
    ensures
        r@ == trim(p@),
{
    let (a, b) = trim_range(p.as_slice());
    string_from(slice_subrange(p.as_slice(), a, b))
}

fn gpu_from_line(line: &Vec<char>) -> (r: Option<GpuDeviceInfo>)
    ensures
        match r {
            Some(g) => gpu_of_line(line@) == Some(gpu_view(g)),
            None => gpu_of_line(line@) is None,
        },
{
    let comma: Vec<char> = vec![','];
    assert(comma@ =~= seq![',']);
    let parts = split_chars(line.as_slice(), &comma);
    let ghost f = split_on(line@, seq![',']).map_values(|p: Seq<char>| trim(p));
    if parts.len() < 5 {
        return None;
    }
    assert(vec_views(parts@)[0] == parts@[0]@ && vec_views(parts@)[1] == parts@[1]@);
    assert(vec_views(parts@)[2] == parts@[2]@ && vec_views(parts@)[3] == parts@[3]@);
    assert(vec_views(parts@)[4] == parts@[4]@);
    let f0 = trimmed(&parts[0]);
    let f1 = trimmed(&parts[1]);
    let f2 = trimmed(&parts[2]);
    let f3 = trimmed(&parts[3]);
    let f4 = trimmed(&parts[4]);
    assert(f[0] == f0@ && f[1] == f1@ && f[2] == f2@ && f[3] == f3@ && f[4] == f4@);
    let index = parse_decimal_str(f0.as_str(), 4294967295);
    let total = parse_decimal_str(f2.as_str(), u64::MAX);
    let free = parse_decimal_str(f3.as_str(), u64::MAX);
    let used = parse_decimal_str(f4.as_str(), u64::MAX);
    match (index, total, free, used) {
        (Some(i), Some(t), Some(fr), Some(u)) => {
            let g = GpuDeviceInfo { index: i as u32, name: f1, total_mb: t, free_mb: fr, used_mb: u };
            Some(g)
        },
        _ => None,
    }
}

/// The GPUs listed by `nvidia-smi --query-gpu=index,name,memory.total,
/// memory.free,memory.used --format=csv,noheader,nounits`.
pub fn parse_nvidia_smi(text: &str) -> (r: Vec<GpuDeviceInfo>)
    ensures
        r@.map_values(|g: GpuDeviceInfo| gpu_view(g)) == nvidia_smi_gpus_of(text@),
{
    let v = chars_of(text);
    let nl: Vec<char> = vec!['\n'];
    assert(nl@ =~= line_seps());
    let lines = split_chars(&v, &nl);
    let ghost ls = vec_views(lines@);
    let mut out: Vec<GpuDeviceInfo> = Vec::new();
    let mut i: usize = 0;
    while i < lines.len()
        invariant
            i <= lines@.len(),
            ls == vec_views(lines@),
            ls == split_on(text@, line_seps()),
            out@.map_values(|g: GpuDeviceInfo| gpu_view(g)) == gpus_of_lines(ls.subrange(0, i as int)),
        decreases lines.len() - i,
    {
        assert(ls.subrange(0, i + 1).drop_last() =~= ls.subrange(0, i as int));
        assert(ls.subrange(0, i + 1).last() == lines@[i as int]@);
        let ghost before = out@.map_values(|g: GpuDeviceInfo| gpu_view(g));
        match gpu_from_line(&lines[i]) {
            Some(g) => {
                out.push(g);
                assert(out@.map_values(|g: GpuDeviceInfo| gpu_view(g)) =~= before + seq![gpu_view(g)]);
            },
            None => {
                assert(before + Seq::<(u32, Seq<char>, u64, u64, u64)>::empty() =~= before);
            },
        }
        i = i + 1;
    }
    assert(ls.subrange(0, lines@.len() as int) =~= ls);
    out
}

/// A probe never reports more free VRAM than total VRAM when no GPU
/// reports more free memory than it has.
pub proof fn lemma_free_within_total(gpus: Seq<GpuDeviceInfo>, vram_gb: u32)
    requires
        forall|i: int| 0 <= i < gpus.len() ==> (#[trigger] gpus[i]).free_mb <= gpus[i].total_mb,
    ensures
        sum_free_mb(gpus) <= sum_total_mb(gpus),
        (if gpus.len() == 0 { fallback_vram_mb(vram_gb) } else { sum_free_mb(gpus) })
            <= (if gpus.len() == 0 { fallback_vram_mb(vram_gb) } else { sum_total_mb(gpus) }),
    decreases gpus.len(),
{
    if gpus.len() > 0 {
        let init = gpus.drop_last();
        assert forall|i: int| 0 <= i < init.len() implies (#[trigger] init[i]).free_mb <= init[i].total_mb by {
            assert(init[i] == gpus[i]);
        }
        lemma_free_within_total(init, vram_gb);
        assert(gpus.last() == gpus[gpus.len() - 1]);
    }
}

/// The hardware summary of a probe: the GPUs found (dropped, with the
/// fallback capacity used instead, when their total or free memory does
/// not fit in 64 bits), the fallback capacity in GB when none is found,
/// and the system RAM.
pub fn summarize_hardware(vram_gb: u32, gpus: Vec<GpuDeviceInfo>, system_ram_mb: u64) -> (h: HardwareSummary)
    ensures
        ({
            let kept = if sum_total_mb(gpus@) <= u64::MAX && sum_free_mb(gpus@) <= u64::MAX { gpus@ } else { seq![] };
            &&& h.gpus@ == kept
            &&& h.total_vram_mb == (if kept.len() == 0 { fallback_vram_mb(vram_gb) } else { sum_total_mb(kept) })
            &&& h.free_vram_mb == (if kept.len() == 0 { fallback_vram_mb(vram_gb) } else { sum_free_mb(kept) })
            &&& h.system_ram_mb == system_ram_mb
            &&& fingerprint_of(kept, h.total_vram_mb, h.hardware_fingerprint@)
        }),
{
    let mut total: u128 = 0;
    let mut free: u128 = 0;
    let mut i: usize = 0;
    let mut fits = true;
    while i < gpus.len()
        invariant
            i <= gpus@.len(),
            fits ==> total as nat == sum_total_mb(gpus@.subrange(0, i as int)),
            fits ==> free as nat == sum_free_mb(gpus@.subrange(0, i as int)),
            fits ==> total <= u64::MAX && free <= u64::MAX,
            !fits ==> !(sum_total_mb(gpus@) <= u64::MAX && sum_free_mb(gpus@) <= u64::MAX),
        decreases gpus.len() - i,
    {
        proof {
            crate::fit::lemma_sum_prefix(gpus@, i as int);
            crate::fit::lemma_sum_monotone(gpus@, i + 1);
        }
        if fits {
            total = total + gpus[i].total_mb as u128;
            free = free + gpus[i].free_mb as u128;
            if total > u64::MAX as u128 || free > u64::MAX as u128 {
                fits = false;
            }
        }
        i = i + 1;
    }
    assert(gpus@.subrange(0, gpus@.len() as int) =~= gpus@);
    if fits {
        HardwareSummary::probe(vram_gb, gpus, system_ram_mb)
    } else {
        let none: Vec<GpuDeviceInfo> = Vec::new();
        proof {
            assert(none@ =~= Seq::<GpuDeviceInfo>::empty());
        }
        HardwareSummary::probe(vram_gb, none, system_ram_mb)
    }
}

} // verus!

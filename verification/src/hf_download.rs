//! Hugging Face Hub file listings and downloads: the download URL, the
//! `aria2c` arguments, the checks a finished download must pass, and
//! human-readable byte sizes.
use vstd::prelude::*;
use crate::errors::RuntimeError;
use crate::fit::{extension_is, extension_of};
use crate::paths::{file_name, file_name_of};
use crate::text::{
    concat_str, decimal, digit_char, fmt_decimal, has_prefix, lower, push_char, seq_eq,
    string_from_str, strings_view, chars_of, lower_chars, str_eq, str_starts_with,
};
use vstd::slice::slice_subrange;

verus! {

pub const HF_MODELS_API: &'static str = "https://huggingface.co/api/models";
pub const HF_BASE_URL: &'static str = "https://huggingface.co";

/// A single file entry from the HF repo tree API.
#[derive(Debug, Clone)]
pub struct HfTreeEntry {
    /// `file` or `directory` (`type` in the API).
    pub entry_type: String,
    pub path: String,
    pub size: u64,
    pub lfs: Option<HfLfsMeta>,
}

#[derive(Debug, Clone)]
pub struct HfLfsMeta {
    pub oid: Option<String>,
    pub size: Option<u64>,
}

pub open spec fn download_url_of(repo: Seq<char>, filename: Seq<char>) -> Seq<char> {
    "https://huggingface.co/"@ + repo + "/resolve/main/"@ + filename
}

/// Where a file of a repository is downloaded from.
pub fn download_url(repo: &str, filename: &str) -> (r: String)
    ensures
        r@ == download_url_of(repo@, filename@),
{
    let a = concat_str("https://huggingface.co/", repo);
    let b = concat_str(a.as_str(), "/resolve/main/");
    concat_str(b.as_str(), filename)
}

/// `aria2c` arguments: resumable, `connections` parallel connections, the
/// destination, the expected SHA-256 when known, and the URL last.
/// `preallocate` adds `--file-allocation=falloc` (on Linux).
pub open spec fn aria2_args_of(url: Seq<char>, filename: Seq<char>, dest_dir: Seq<char>, connections: u16,
    checksum: Option<Seq<char>>, preallocate: bool) -> Seq<Seq<char>> {
    seq![
        "--continue=true"@,
        "--split="@ + decimal(connections as nat),
        "--max-connection-per-server="@ + decimal(connections as nat),
        "--min-split-size=64M"@,
        "--auto-file-renaming=false"@,
        "--dir="@ + dest_dir,
        "--out="@ + filename,
    ]
        + (if preallocate { seq!["--file-allocation=falloc"@] } else { seq![] })
        + (match checksum { Some(c) => seq!["--checksum=sha-256="@ + c], None => seq![] })
        + seq![url]
}

pub fn aria2_args(url: &str, filename: &str, dest_dir: &str, connections: u16, checksum: Option<&str>, preallocate: bool) -> (r: Vec<String>)
    ensures
        strings_view(r@) == aria2_args_of(url@, filename@, dest_dir@, connections, match checksum { Some(c) => Some(c@), None => None }, preallocate),
{
    let n = fmt_decimal(connections as u64);
    let mut args: Vec<String> = Vec::new();
    args.push(string_from_str("--continue=true"));
    args.push(concat_str("--split=", n.as_str()));
    args.push(concat_str("--max-connection-per-server=", n.as_str()));
    args.push(string_from_str("--min-split-size=64M"));
    args.push(string_from_str("--auto-file-renaming=false"));
    args.push(concat_str("--dir=", dest_dir));
    args.push(concat_str("--out=", filename));
    if preallocate {
        args.push(string_from_str("--file-allocation=falloc"));
    }
    if let Some(c) = checksum {
        args.push(concat_str("--checksum=sha-256=", c));
    }
    args.push(string_from_str(url));
    proof {
        let cs = match checksum { Some(c) => Some(c@), None => None };
        assert(strings_view(args@) =~= aria2_args_of(url@, filename@, dest_dir@, connections, cs, preallocate));
    }
    args
}

/// The expected SHA-256 of an entry: its LFS object id without a
/// `sha256:` prefix.
pub open spec fn expected_sha_of(entry: HfTreeEntry) -> Option<Seq<char>> {
    match entry.lfs {
        Some(l) => match l.oid {
            Some(oid) => Some(if has_prefix(oid@, "sha256:"@) { oid@.subrange(7, oid@.len() as int) } else { oid@ }),
            None => None,
        },
        None => None,
    }
}

/// Whenever an entry carries an LFS object id, a SHA-256 is expected: the
/// id itself, or the id with one leading `sha256:` removed (and only when
/// it has that prefix); without an object id none is expected.
pub proof fn lemma_expected_sha_from_oid(entry: HfTreeEntry)
    ensures
        (entry.lfs matches Some(l) && l.oid is Some) ==> ({
            let o = entry.lfs->0.oid->0@;
            &&& expected_sha_of(entry) is Some
            &&& expected_sha_of(entry)->0 == o || "sha256:"@ + expected_sha_of(entry)->0 == o
            &&& !(o.len() >= 7 && o.subrange(0, 7) == "sha256:"@) ==> expected_sha_of(entry)->0 == o
        }),
        !(entry.lfs matches Some(l) && l.oid is Some) ==> expected_sha_of(entry) is None,
{
    reveal_strlit("sha256:");
    if entry.lfs matches Some(l) && l.oid is Some {
        let o = entry.lfs->0.oid->0@;
        if has_prefix(o, "sha256:"@) {
            assert("sha256:"@ + o.subrange(7, o.len() as int) =~= o);
        }
    }
}

pub fn expected_sha256(entry: &HfTreeEntry) -> (r: Option<String>)
    ensures
        match r {
            Some(s) => expected_sha_of(*entry) == Some(s@),
            None => expected_sha_of(*entry) is None,
        },
{
    match &entry.lfs {
        Some(l) => match &l.oid {
            Some(oid) => {
                proof { reveal_strlit("sha256:"); }
                if str_starts_with(oid.as_str(), "sha256:") {
                    let v = chars_of(oid.as_str());
                    Some(crate::text::string_from(slice_subrange(v.as_slice(), 7, v.len())))
                } else {
                    Some(oid.clone())
                }
            },
            None => None,
        },
        None => None,
    }
}

/// What a finished download is checked against: its size, then (when
/// known) its SHA-256, compared without regard to ASCII case.
pub open spec fn download_check(actual_size: u64, expected_size: u64, expected_sha: Option<Seq<char>>, actual_sha: Seq<char>) -> Option<Seq<char>> {
    if actual_size != expected_size {
        Some("Downloaded file size mismatch: expected "@ + decimal(expected_size as nat) + " bytes, got "@ + decimal(actual_size as nat))
    } else {
        match expected_sha {
            Some(e) => if lower(actual_sha) != lower(e) {
                Some("Downloaded file SHA-256 mismatch: expected "@ + e + ", got "@ + actual_sha)
            } else {
                None
            },
            None => None,
        }
    }
}

/// Check a finished download: `actual_sha` is the hex SHA-256 of the file
/// (only looked at when a checksum is expected).
pub fn verify_download(actual_size: u64, expected_size: u64, expected_sha: Option<&str>, actual_sha: &str) -> (r: Result<(), RuntimeError>)
    ensures
        match download_check(actual_size, expected_size, match expected_sha { Some(e) => Some(e@), None => None }, actual_sha@) {
            None => r is Ok,
            Some(m) => r matches Err(RuntimeError::ConfigError(s)) && s@ == m,
        },
{
    if actual_size != expected_size {
        let a = concat_str("Downloaded file size mismatch: expected ", fmt_decimal(expected_size).as_str());
        let b = concat_str(a.as_str(), " bytes, got ");
        return Err(RuntimeError::ConfigError(concat_str(b.as_str(), fmt_decimal(actual_size).as_str())));
    }
    if let Some(expected) = expected_sha {
        let x = lower_chars(chars_of(actual_sha).as_slice());
        let y = lower_chars(chars_of(expected).as_slice());
        if !seq_eq(x.as_slice(), y.as_slice()) {
            let a = concat_str("Downloaded file SHA-256 mismatch: expected ", expected);
            let b = concat_str(a.as_str(), ", got ");
            return Err(RuntimeError::ConfigError(concat_str(b.as_str(), actual_sha)));
        }
    }
    Ok(())
}

// ── Sizes ───────────────────────────────────────────────────────────────────

/// `x / 2^k` to one decimal place, rounded half to even, as `{:.1}` prints
/// it: the integer part and the tenths digit.
pub open spec fn tenths_of(x: nat, unit: nat) -> nat {
    let scaled = x * 10;
    let q = scaled / unit;
    let r = scaled % unit;
    if r * 2 > unit || (r * 2 == unit && q % 2 == 1) { q + 1 } else { q }
}

pub open spec fn one_decimal(t: nat) -> Seq<char> {
    decimal(t / 10) + seq!['.', digit_char(t % 10)]
}

/// `x / unit` rendered with one decimal (rounded half to even) and a unit.
pub fn fmt_one_decimal(x: u64, unit: u64) -> (r: String)
    requires
        unit >= 1,
    ensures
        r@ == one_decimal(tenths_of(x as nat, unit as nat)),
{
    let scaled = (x as u128) * 10;
    let u = unit as u128;
    let q = scaled / u;
    let rem = scaled % u;
    let t = if rem * 2 > u || (rem * 2 == u && q % 2 == 1) { q + 1 } else { q };
    assert(q <= scaled) by (nonlinear_arith)
        requires
            q as int == scaled as int / (u as int),
            u >= 1,
    ;
    assert(t / 10 <= x as u128) by (nonlinear_arith)
        requires
            t <= q + 1,
            q <= scaled,
            scaled == (x as u128) * 10,
    ;
    let whole = (t / 10) as u64;
    let digit = (t % 10) as u8;
    let mut s = fmt_decimal(whole);
    push_char(&mut s, '.');
    let c = (digit + 48) as char;
    assert(c == digit_char((t % 10) as nat));
    push_char(&mut s, c);
    proof {
        assert(t as nat == tenths_of(x as nat, unit as nat));
        assert(s@ =~= one_decimal(t as nat));
    }
    s
}

pub const KIB: u64 = 1024;
pub const MIB: u64 = 1048576;
pub const GIB: u64 = 1073741824;
pub const TIB: u64 = 1099511627776;

/// A byte count in the largest binary unit it reaches (`5.4 GB`).
pub open spec fn bytes_text(bytes: u64) -> Seq<char> {
    if bytes >= TIB {
        one_decimal(tenths_of(bytes as nat, TIB as nat)) + " TB"@
    } else if bytes >= GIB {
        one_decimal(tenths_of(bytes as nat, GIB as nat)) + " GB"@
    } else if bytes >= MIB {
        one_decimal(tenths_of(bytes as nat, MIB as nat)) + " MB"@
    } else if bytes >= KIB {
        one_decimal(tenths_of(bytes as nat, KIB as nat)) + " KB"@
    } else {
        decimal(bytes as nat) + " B"@
    }
}

/// Format bytes as a human-readable string (e.g. "5.4 GB").
pub fn format_bytes(bytes: u64) -> (r: String)
    ensures
        r@ == bytes_text(bytes),
{
    if bytes >= TIB {
        concat_str(fmt_one_decimal(bytes, TIB).as_str(), " TB")
    } else if bytes >= GIB {
        concat_str(fmt_one_decimal(bytes, GIB).as_str(), " GB")
    } else if bytes >= MIB {
        concat_str(fmt_one_decimal(bytes, MIB).as_str(), " MB")
    } else if bytes >= KIB {
        concat_str(fmt_one_decimal(bytes, KIB).as_str(), " KB")
    } else {
        concat_str(fmt_decimal(bytes).as_str(), " B")
    }
}

/// A tree entry is a GGUF file: a file whose name has the extension
/// `gguf`, in any case.
pub open spec fn is_gguf_file_entry(e: HfTreeEntry) -> bool {
    e.entry_type@ == "file"@ && match file_name_of(e.path@) {
        Some(n) => match extension_of(n) { Some(x) => lower(x) == "gguf"@, None => false },
        None => false,
    }
}

pub open spec fn gguf_entries_of(es: Seq<HfTreeEntry>) -> Seq<HfTreeEntry>
    decreases es.len(),
{
    if es.len() == 0 {
        Seq::empty()
    } else {
        let rest = gguf_entries_of(es.drop_last());
        if is_gguf_file_entry(es.last()) { rest.push(es.last()) } else { rest }
    }
}

fn clone_tree_entry(e: &HfTreeEntry) -> (r: HfTreeEntry)
    ensures
        r == *e,
{
    HfTreeEntry {
        entry_type: e.entry_type.clone(),
        path: e.path.clone(),
        size: e.size,
        lfs: match &e.lfs {
            Some(l) => Some(HfLfsMeta { oid: l.oid.clone(), size: l.size }),
            None => None,
        },
    }
}

/// The GGUF files of a repository tree, in order.
pub fn gguf_tree_entries(entries: &[HfTreeEntry]) -> (r: Vec<HfTreeEntry>)
    ensures
        r@ == gguf_entries_of(entries@),
{
    let gguf: [char; 4] = ['g', 'g', 'u', 'f'];
    proof {
        reveal_strlit("gguf");
        assert(gguf@ =~= "gguf"@);
    }
    let mut out: Vec<HfTreeEntry> = Vec::new();
    let mut i: usize = 0;
    while i < entries.len()
        invariant
            i <= entries@.len(),
            gguf@ == "gguf"@,
            out@ == gguf_entries_of(entries@.subrange(0, i as int)),
        decreases entries.len() - i,
    {
        assert(entries@.subrange(0, i + 1).drop_last() =~= entries@.subrange(0, i as int));
        let e = &entries[i];
        let keep = str_eq(e.entry_type.as_str(), "file") && match file_name(e.path.as_str()) {
            Some(n) => extension_is(n.as_str(), &gguf),
            None => false,
        };
        if keep {
            out.push(clone_tree_entry(e));
        }
        i = i + 1;
    }
    assert(entries@.subrange(0, entries@.len() as int) =~= entries@);
    out
}

} // verus!

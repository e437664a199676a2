//! Cheap, prefix-only validation of GGUF model files: the header, the
//! architecture and file type, and the block count, read from the first
//! bytes of the file (at most [`MAX_METADATA_BYTES`]), never the weights.
use vstd::prelude::*;
use vstd::slice::slice_subrange;
use crate::gguf_integrity::{le, GGUF_MAGIC};
use crate::registry::{discoverable_name, is_discoverable_gguf_name};
use crate::text::{has_suffix, lower, str_ends_with, str_eq, string_from_str, to_lower};

verus! {

/// How much of a file the metadata is read from.
pub const MAX_METADATA_BYTES: u64 = 33554432;

/// Why a file is not a standalone model that llama.cpp can load.
#[derive(Debug, Clone, Copy, PartialEq, Eq, Structural)]
pub enum GgufSkipReason {
    BadName,
    BadMagic,
    BadVersion,
    NoTensors,
    BadArch,
    BadType,
    ZeroBlockCount,
    Unreadable,
}

impl GgufSkipReason {
    /// The text the reason displays as.
    pub fn message(&self) -> (r: &'static str)
        ensures
            r@ == skip_reason_text(*self),
    {
        match self {
            GgufSkipReason::BadName => "filename looks like a sidecar or adapter",
            GgufSkipReason::BadMagic => "missing GGUF magic",
            GgufSkipReason::BadVersion => "unsupported GGUF version (need 2 or 3)",
            GgufSkipReason::NoTensors => "tensor_count is 0",
            GgufSkipReason::BadArch => "architecture is not a standalone llama.cpp model",
            GgufSkipReason::BadType => "general.type is lora/vocab (not a full model)",
            GgufSkipReason::ZeroBlockCount => "architecture block_count is 0",
            GgufSkipReason::Unreadable => "could not read GGUF metadata prefix",
        }
    }
}

pub open spec fn skip_reason_text(r: GgufSkipReason) -> Seq<char> {
    match r {
        GgufSkipReason::BadName => "filename looks like a sidecar or adapter"@,
        GgufSkipReason::BadMagic => "missing GGUF magic"@,
        GgufSkipReason::BadVersion => "unsupported GGUF version (need 2 or 3)"@,
        GgufSkipReason::NoTensors => "tensor_count is 0"@,
        GgufSkipReason::BadArch => "architecture is not a standalone llama.cpp model"@,
        GgufSkipReason::BadType => "general.type is lora/vocab (not a full model)"@,
        GgufSkipReason::ZeroBlockCount => "architecture block_count is 0"@,
        GgufSkipReason::Unreadable => "could not read GGUF metadata prefix"@,
    }
}

/// What the header says of a model.
#[derive(Debug, Clone)]
pub struct GgufMetadata {
    pub version: u32,
    pub tensor_count: u64,
    pub architecture: Option<String>,
    pub file_type: Option<String>,
    pub block_count: Option<u64>,
}

/// The text a byte string decodes to as UTF-8 (`std::str::from_utf8`),
/// `None` when it is not valid UTF-8.
pub uninterp spec fn utf8_text(bytes: Seq<u8>) -> Option<Seq<char>>;

/// `std::str::from_utf8`: the text of valid UTF-8 bytes.
#[verifier::external_body]
fn decode_utf8(bytes: &[u8]) -> (r: Option<String>)
    ensures
        match r {
            Some(s) => utf8_text(bytes@) == Some(s@),
            None => utf8_text(bytes@) is None,
        },
{
    match std::str::from_utf8(bytes) {
        Ok(s) => Some(s.to_string()),
        Err(_) => None,
    }
}

// ── The header, as read ─────────────────────────────────────────────────────

/// A length-prefixed UTF-8 string at `pos`, and the position after it.
pub open spec fn rd_str(d: Seq<u8>, pos: int) -> Option<(Seq<char>, int)> {
    if pos + 8 > d.len() {
        None
    } else {
        let n = le(d, pos, 8);
        if pos + 8 + n > d.len() {
            None
        } else {
            match utf8_text(d.subrange(pos + 8, pos + 8 + n)) {
                Some(s) => Some((s, pos + 8 + n)),
                None => None,
            }
        }
    }
}

/// An integer value of type `uint32`/`int32` (4 bytes) or
/// `uint64`/`int64` (8 bytes).
pub open spec fn rd_int(d: Seq<u8>, pos: int, vt: u32) -> Option<(u64, int)> {
    if vt == 4 || vt == 5 {
        if pos + 4 > d.len() { None } else { Some((le(d, pos, 4) as u64, pos + 4)) }
    } else if vt == 10 || vt == 11 {
        if pos + 8 > d.len() { None } else { Some((le(d, pos, 8) as u64, pos + 8)) }
    } else {
        None
    }
}

/// Width of a fixed-size value type; such values are skipped without a
/// bounds check (a later read past the end fails instead).
pub open spec fn width_of(vt: u32) -> Option<nat> {
    if vt == 0 || vt == 1 || vt == 7 { Some(1) }
    else if vt == 2 || vt == 3 { Some(2) }
    else if 4 <= vt <= 6 { Some(4) }
    else if 10 <= vt <= 12 { Some(8) }
    else { None }
}

/// Skip a value of type `vt` at `pos`. `budget` bounds the array nesting;
/// every array header takes twelve bytes, so a budget of the data length
/// never runs out before the data does.
pub open spec fn skip_val(d: Seq<u8>, pos: int, vt: u32, budget: nat) -> Option<int>
    decreases budget, 1nat, 0nat,
{
    match width_of(vt) {
        Some(w) => Some(pos + w),
        None => if vt == 8 {
            match rd_str(d, pos) { Some((_, p)) => Some(p), None => None }
        } else if vt == 9 {
            if pos + 12 > d.len() {
                None
            } else {
                let et = le(d, pos, 4) as u32;
                let count = le(d, pos + 4, 8);
                skip_elems(d, pos + 12, et, budget, count)
            }
        } else {
            None
        },
    }
}

/// Skip `count` values of type `et` from `pos`.
pub open spec fn skip_elems(d: Seq<u8>, pos: int, et: u32, budget: nat, count: nat) -> Option<int>
    decreases budget, 0nat, count,
{
    if count == 0 {
        Some(pos)
    } else if budget == 0 {
        None
    } else {
        match skip_elems(d, pos, et, budget, (count - 1) as nat) {
            Some(p) => skip_val(d, p, et, (budget - 1) as nat),
            None => None,
        }
    }
}

/// What the key/value pairs read so far set, and where reading stands.
pub ghost struct MetaState {
    pub architecture: Option<Seq<char>>,
    pub file_type: Option<Seq<char>>,
    pub block_count: Option<u64>,
    pub pos: int,
}

pub open spec fn is_int_type(vt: u32) -> bool {
    vt == 4 || vt == 5 || vt == 10 || vt == 11
}

/// One key/value pair: `general.architecture` and `general.type` strings,
/// an integer `*.block_count`, anything else skipped.
pub open spec fn kv_step(d: Seq<u8>, st: MetaState) -> Option<MetaState> {
    match rd_str(d, st.pos) {
        None => None,
        Some((key, p)) => if p + 4 > d.len() {
            None
        } else {
            let vt = le(d, p, 4) as u32;
            if vt == 8 {
                match rd_str(d, p + 4) {
                    None => None,
                    Some((v, e)) => Some(
                        if key == "general.architecture"@ {
                            MetaState { architecture: Some(v), pos: e, ..st }
                        } else if key == "general.type"@ {
                            MetaState { file_type: Some(v), pos: e, ..st }
                        } else {
                            MetaState { pos: e, ..st }
                        },
                    ),
                }
            } else if has_suffix(key, ".block_count"@) && is_int_type(vt) {
                match rd_int(d, p + 4, vt) {
                    None => None,
                    Some((v, e)) => Some(MetaState { block_count: Some(v), pos: e, ..st }),
                }
            } else {
                match skip_val(d, p + 4, vt, d.len()) {
                    None => None,
                    Some(e) => Some(MetaState { pos: e, ..st }),
                }
            }
        },
    }
}

pub open spec fn kv_all(d: Seq<u8>, n: nat) -> Option<MetaState>
    decreases n,
{
    if n == 0 {
        Some(MetaState { architecture: None, file_type: None, block_count: None, pos: 24 })
    } else {
        match kv_all(d, (n - 1) as nat) {
            Some(st) => kv_step(d, st),
            None => None,
        }
    }
}

pub ghost struct MetadataView {
    pub version: u32,
    pub tensor_count: u64,
    pub architecture: Option<Seq<char>>,
    pub file_type: Option<Seq<char>>,
    pub block_count: Option<u64>,
}

impl View for GgufMetadata {
    type V = MetadataView;

    open spec fn view(&self) -> MetadataView {
        MetadataView {
            version: self.version,
            tensor_count: self.tensor_count,
            architecture: crate::text::opt_str(self.architecture),
            file_type: crate::text::opt_str(self.file_type),
            block_count: self.block_count,
        }
    }
}

/// The metadata in the first bytes `d` of a GGUF file.
pub open spec fn inspected(d: Seq<u8>) -> Result<MetadataView, GgufSkipReason> {
    if d.len() < 24 {
        Err(GgufSkipReason::Unreadable)
    } else if le(d, 0, 4) != GGUF_MAGIC {
        Err(GgufSkipReason::BadMagic)
    } else {
        match kv_all(d, le(d, 16, 8)) {
            None => Err(GgufSkipReason::Unreadable),
            Some(st) => Ok(MetadataView {
                version: le(d, 4, 4) as u32,
                tensor_count: le(d, 8, 8) as u64,
                architecture: st.architecture,
                file_type: st.file_type,
                block_count: st.block_count,
            }),
        }
    }
}

// ── Reading it ──────────────────────────────────────────────────────────────
//
// A skipped fixed-size value may leave the position past the end of the
// data; every later read then fails. The reader keeps such positions at
// `len + 1`, which reads exactly as any position past the end.

pub open spec fn clamp(p: int, len: int) -> int {
    if p > len { len + 1 } else { p }
}

pub open spec fn clamp_opt(o: Option<int>, len: int) -> Option<int> {
    match o {
        Some(p) => Some(clamp(p, len)),
        None => None,
    }
}

proof fn lemma_rd_str_clamp(d: Seq<u8>, p: int)
    requires
        p >= 0,
    ensures
        rd_str(d, clamp(p, d.len() as int)) == rd_str(d, p),
{
}

proof fn lemma_skip_val_clamp(d: Seq<u8>, p: int, vt: u32, b: nat)
    requires
        p >= 0,
    ensures
        clamp_opt(skip_val(d, clamp(p, d.len() as int), vt, b), d.len() as int) == clamp_opt(skip_val(d, p, vt, b), d.len() as int),
{
}

proof fn lemma_skip_elems_clamp(d: Seq<u8>, p: int, et: u32, b: nat, count: nat)
    requires
        p >= 0,
    ensures
        clamp_opt(skip_elems(d, clamp(p, d.len() as int), et, b, count), d.len() as int)
            == clamp_opt(skip_elems(d, p, et, b, count), d.len() as int),
    decreases count,
{
    if count > 0 && b > 0 {
        lemma_skip_elems_clamp(d, p, et, b, (count - 1) as nat);
        lemma_skip_elems_positions(d, p, et, b, (count - 1) as nat);
        lemma_skip_elems_positions(d, clamp(p, d.len() as int), et, b, (count - 1) as nat);
        match skip_elems(d, p, et, b, (count - 1) as nat) {
            Some(q) => {
                let q2 = skip_elems(d, clamp(p, d.len() as int), et, b, (count - 1) as nat)->0;
                lemma_skip_val_clamp(d, q, et, (b - 1) as nat);
                lemma_skip_val_clamp(d, q2, et, (b - 1) as nat);
            },
            None => {},
        }
    }
}

/// Positions never move backwards.
proof fn lemma_skip_val_positions(d: Seq<u8>, p: int, vt: u32, b: nat)
    requires
        p >= 0,
    ensures
        skip_val(d, p, vt, b) matches Some(q) ==> q >= p,
    decreases b, 1nat, 0nat,
{
    if width_of(vt) is None && vt == 9 && p + 12 <= d.len() {
        lemma_skip_elems_positions(d, p + 12, le(d, p, 4) as u32, b, le(d, p + 4, 8));
    }
}

proof fn lemma_skip_elems_positions(d: Seq<u8>, p: int, et: u32, b: nat, count: nat)
    requires
        p >= 0,
    ensures
        skip_elems(d, p, et, b, count) matches Some(q) ==> q >= p,
    decreases b, 0nat, count,
{
    if count > 0 && b > 0 {
        lemma_skip_elems_positions(d, p, et, b, (count - 1) as nat);
        match skip_elems(d, p, et, b, (count - 1) as nat) {
            Some(q) => lemma_skip_val_positions(d, q, et, (b - 1) as nat),
            None => {},
        }
    }
}

proof fn lemma_skip_elems_fixed(d: Seq<u8>, p: int, et: u32, b: nat, count: nat, w: nat)
    requires
        b >= 1,
        width_of(et) == Some(w),
    ensures
        skip_elems(d, p, et, b, count) == Some(p + count * w),
    decreases count,
{
    if count > 0 {
        lemma_skip_elems_fixed(d, p, et, b, (count - 1) as nat, w);
        let q = p + ((count - 1) as nat) * w;
        assert(skip_val(d, q, et, (b - 1) as nat) == Some(q + w));
        assert(q + w == p + count * w) by (nonlinear_arith)
            requires
                q == p + ((count - 1) as nat) * w,
                count > 0,
        ;
    } else {
        assert(count * w == 0);
    }
}

proof fn lemma_skip_elems_stops(d: Seq<u8>, p: int, et: u32, b: nat, i: nat, n: nat)
    requires
        i <= n,
        b >= 1,
        skip_elems(d, p, et, b, i) is None,
    ensures
        skip_elems(d, p, et, b, n) is None,
    decreases n - i,
{
    if i < n {
        lemma_skip_elems_stops(d, p, et, b, i, (n - 1) as nat);
    }
}

fn read_str_at(d: &[u8], pos: usize) -> (r: Option<(String, usize)>)
    requires
        pos <= d@.len() + 1,
        d@.len() <= MAX_METADATA_BYTES,
    ensures
        match r {
            Some((s, p)) => rd_str(d@, pos as int) == Some((s@, p as int)) && p <= d@.len(),
            None => rd_str(d@, pos as int) is None,
        },
{
    let len = d.len();
    if pos > len || len - pos < 8 {
        return None;
    }
    let n = crate::gguf_integrity::le_u64_at(d, pos);
    if ((len - pos - 8) as u64) < n {
        return None;
    }
    let start = pos + 8;
    let end = start + n as usize;
    match decode_utf8(slice_subrange(d, start, end)) {
        Some(s) => Some((s, end)),
        None => None,
    }
}

fn read_int_at(d: &[u8], pos: usize, vt: u32) -> (r: Option<(u64, usize)>)
    requires
        pos <= d@.len() + 1,
        d@.len() <= MAX_METADATA_BYTES,
    ensures
        match r {
            Some((v, p)) => rd_int(d@, pos as int, vt) == Some((v, p as int)) && p <= d@.len(),
            None => rd_int(d@, pos as int, vt) is None,
        },
{
    let len = d.len();
    if vt == 4 || vt == 5 {
        if pos > len || len - pos < 4 {
            return None;
        }
        Some((crate::gguf_integrity::le_u32_at(d, pos) as u64, pos + 4))
    } else if vt == 10 || vt == 11 {
        if pos > len || len - pos < 8 {
            return None;
        }
        Some((crate::gguf_integrity::le_u64_at(d, pos), pos + 8))
    } else {
        None
    }
}

fn width_exec(vt: u32) -> (r: Option<usize>)
    ensures
        match r {
            Some(w) => width_of(vt) == Some(w as nat) && w <= 8,
            None => width_of(vt) is None,
        },
{
    if vt == 0 || vt == 1 || vt == 7 { Some(1) }
    else if vt == 2 || vt == 3 { Some(2) }
    else if 4 <= vt && vt <= 6 { Some(4) }
    else if 10 <= vt && vt <= 12 { Some(8) }
    else { None }
}

fn clamp_exec(p: u128, len: usize) -> (r: usize)
    requires
        len < usize::MAX,
    ensures
        r as int == clamp(p as int, len as int),
{
    if p > len as u128 { len + 1 } else { p as usize }
}

/// Skip one value of type `vt`.
fn skip_value_at(d: &[u8], pos: usize, vt: u32, budget: usize) -> (r: Option<usize>)
    requires
        pos <= d@.len() + 1,
        d@.len() <= MAX_METADATA_BYTES,
    ensures
        match r {
            Some(p) => clamp_opt(skip_val(d@, pos as int, vt, budget as nat), d@.len() as int) == Some(p as int)
                && p <= d@.len() + 1,
            None => skip_val(d@, pos as int, vt, budget as nat) is None,
        },
    decreases budget, 1nat, 0nat,
{
    let len = d.len();
    match width_exec(vt) {
        Some(w) => Some(clamp_exec(pos as u128 + w as u128, len)),
        None => {
            if vt == 8 {
                match read_str_at(d, pos) {
                    Some((_, p)) => Some(p),
                    None => None,
                }
            } else if vt == 9 {
                if pos > len || len - pos < 12 {
                    return None;
                }
                let et = crate::gguf_integrity::le_u32_at(d, pos);
                let count = crate::gguf_integrity::le_u64_at(d, pos + 4);
                skip_elems_at(d, pos + 12, et, budget, count)
            } else {
                None
            }
        },
    }
}

/// Skip `count` values of type `et`.
fn skip_elems_at(d: &[u8], pos: usize, et: u32, budget: usize, count: u64) -> (r: Option<usize>)
    requires
        pos <= d@.len() + 1,
        d@.len() <= MAX_METADATA_BYTES,
    ensures
        match r {
            Some(p) => clamp_opt(skip_elems(d@, pos as int, et, budget as nat, count as nat), d@.len() as int) == Some(p as int)
                && p <= d@.len() + 1,
            None => skip_elems(d@, pos as int, et, budget as nat, count as nat) is None,
        },
    decreases budget, 0nat, count,
{
    let len = d.len();
    if count == 0 {
        return Some(pos);
    }
    if budget == 0 {
        return None;
    }
    if let Some(w) = width_exec(et) {
        proof { lemma_skip_elems_fixed(d@, pos as int, et, budget as nat, count as nat, w as nat); }
        assert((count as u128) * (w as u128) <= (u64::MAX as u128) * 8) by (nonlinear_arith)
            requires
                w <= 8,
        ;
        return Some(clamp_exec(pos as u128 + (count as u128) * (w as u128), len));
    }
    let mut p = pos;
    let mut i: u64 = 0;
    while i < count
        invariant
            i <= count,
            budget >= 1,
            p <= d@.len() + 1,
            d@.len() <= MAX_METADATA_BYTES,
            clamp_opt(skip_elems(d@, pos as int, et, budget as nat, i as nat), d@.len() as int) == Some(p as int),
        decreases count - i,
    {
        let ghost prev = skip_elems(d@, pos as int, et, budget as nat, i as nat);
        proof {
            lemma_skip_elems_positions(d@, pos as int, et, budget as nat, i as nat);
            let s = prev->0;
            lemma_skip_val_clamp(d@, s, et, (budget - 1) as nat);
        }
        match skip_value_at(d, p, et, budget - 1) {
            Some(q) => {
                p = q;
            },
            None => {
                proof {
                    let s = prev->0;
                    lemma_skip_val_clamp(d@, s, et, (budget - 1) as nat);
                    lemma_skip_elems_stops(d@, pos as int, et, budget as nat, (i + 1) as nat, count as nat);
                }
                return None;
            },
        }
        i = i + 1;
    }
    Some(p)
}

/// Read the metadata from the first bytes of a GGUF file (at most
/// [`MAX_METADATA_BYTES`] of them; the caller reads the prefix).
pub fn inspect_gguf_metadata(data: &[u8]) -> (r: Result<GgufMetadata, GgufSkipReason>)
    requires
        data@.len() <= MAX_METADATA_BYTES,
    ensures
        match r {
            Ok(m) => inspected(data@) == Ok::<MetadataView, GgufSkipReason>(m@),
            Err(e) => inspected(data@) == Err::<MetadataView, GgufSkipReason>(e),
        },
{
    let d = data;
    let len = d.len();
    if len < 24 {
        return Err(GgufSkipReason::Unreadable);
    }
    let magic = crate::gguf_integrity::le_u32_at(d, 0);
    if magic != GGUF_MAGIC {
        return Err(GgufSkipReason::BadMagic);
    }
    let version = crate::gguf_integrity::le_u32_at(d, 4);
    let tensor_count = crate::gguf_integrity::le_u64_at(d, 8);
    let kv_count = crate::gguf_integrity::le_u64_at(d, 16);
    let mut architecture: Option<String> = None;
    let mut file_type: Option<String> = None;
    let mut block_count: Option<u64> = None;
    let mut pos: usize = 24;
    let mut i: u64 = 0;
    while i < kv_count
        invariant
            i <= kv_count,
            d@ == data@,
            len == d@.len(),
            d@.len() >= 24,
            le(d@, 0, 4) == GGUF_MAGIC,
            kv_count as nat == le(d@, 16, 8),
            version as nat == le(d@, 4, 4),
            tensor_count as nat == le(d@, 8, 8),
            d@.len() <= MAX_METADATA_BYTES,
            pos <= d@.len() + 1,
            kv_all(d@, i as nat) matches Some(st) && st.pos >= 0 && clamp(st.pos, d@.len() as int) == pos
                && st.architecture == crate::text::opt_str(architecture)
                && st.file_type == crate::text::opt_str(file_type)
                && st.block_count == block_count,
        decreases kv_count - i,
    {
        let ghost st = kv_all(d@, i as nat)->0;
        proof { lemma_rd_str_clamp(d@, st.pos); }
        assert(kv_all(d@, (i + 1) as nat) == kv_step(d@, st));
        let (key, p) = match read_str_at(d, pos) {
            Some(x) => x,
            None => {
                proof { lemma_kv_stops(d@, (i + 1) as nat, kv_count as nat); }
                return Err(GgufSkipReason::Unreadable);
            },
        };
        if p > len || len - p < 4 {
            proof { lemma_kv_stops(d@, (i + 1) as nat, kv_count as nat); }
            return Err(GgufSkipReason::Unreadable);
        }
        let vt = crate::gguf_integrity::le_u32_at(d, p);
        if vt == 8 {
            let (v, e) = match read_str_at(d, p + 4) {
                Some(x) => x,
                None => {
                    proof { lemma_kv_stops(d@, (i + 1) as nat, kv_count as nat); }
                    return Err(GgufSkipReason::Unreadable);
                },
            };
            if str_eq(key.as_str(), "general.architecture") {
                architecture = Some(v);
            } else if str_eq(key.as_str(), "general.type") {
                file_type = Some(v);
            }
            pos = e;
        } else if str_ends_with(key.as_str(), ".block_count") && (vt == 4 || vt == 5 || vt == 10 || vt == 11) {
            let (v, e) = match read_int_at(d, p + 4, vt) {
                Some(x) => x,
                None => {
                    proof { lemma_kv_stops(d@, (i + 1) as nat, kv_count as nat); }
                    return Err(GgufSkipReason::Unreadable);
                },
            };
            block_count = Some(v);
            pos = e;
        } else {
            let e = match skip_value_at(d, p + 4, vt, len) {
                Some(e) => e,
                None => {
                    proof { lemma_kv_stops(d@, (i + 1) as nat, kv_count as nat); }
                    return Err(GgufSkipReason::Unreadable);
                },
            };
            proof {
                lemma_skip_val_positions(d@, (p + 4) as int, vt, d@.len());
            }
            pos = e;
        }
        i = i + 1;
    }
    Ok(GgufMetadata { version, tensor_count, architecture, file_type, block_count })
}

proof fn lemma_kv_stops(d: Seq<u8>, i: nat, n: nat)
    requires
        i <= n,
        kv_all(d, i) is None,
    ensures
        kv_all(d, n) is None,
    decreases n - i,
{
    if i < n {
        lemma_kv_stops(d, i, (n - 1) as nat);
    }
}

/// Architectures of encoders and projectors, which llama-server does not
/// serve as models.
pub open spec fn non_model_arch(a: Seq<char>) -> bool {
    a == "clip"@ || a == "siglip"@ || a == "vit"@ || a == "wav2vec2"@ || a == "whisper"@ || a == "encoder"@
}

/// Why metadata does not describe a loadable model, if it does not.
pub open spec fn skip_reason_of(m: MetadataView) -> Option<GgufSkipReason> {
    if !(m.version == 2 || m.version == 3) {
        Some(GgufSkipReason::BadVersion)
    } else if m.tensor_count == 0 {
        Some(GgufSkipReason::NoTensors)
    } else if m.architecture is None || m.architecture->0.len() == 0 {
        Some(GgufSkipReason::BadArch)
    } else if non_model_arch(lower(m.architecture->0)) {
        Some(GgufSkipReason::BadArch)
    } else if m.file_type matches Some(t) && (lower(t) == "lora"@ || lower(t) == "vocab"@) {
        Some(GgufSkipReason::BadType)
    } else if m.block_count == Some(0u64) {
        Some(GgufSkipReason::ZeroBlockCount)
    } else {
        None
    }
}

impl GgufMetadata {
    pub fn loadable_skip_reason(&self) -> (r: Option<GgufSkipReason>)
        ensures
            r == skip_reason_of(self@),
    {
        if !(self.version == 2 || self.version == 3) {
            return Some(GgufSkipReason::BadVersion);
        }
        if self.tensor_count == 0 {
            return Some(GgufSkipReason::NoTensors);
        }
        let arch = match &self.architecture {
            Some(a) => a,
            None => return Some(GgufSkipReason::BadArch),
        };
        if crate::text::str_is_empty(arch.as_str()) {
            return Some(GgufSkipReason::BadArch);
        }
        let a = to_lower(arch.as_str());
        let a = a.as_str();
        if str_eq(a, "clip") || str_eq(a, "siglip") || str_eq(a, "vit") || str_eq(a, "wav2vec2")
            || str_eq(a, "whisper") || str_eq(a, "encoder") {
            return Some(GgufSkipReason::BadArch);
        }
        if let Some(t) = &self.file_type {
            let t = to_lower(t.as_str());
            if str_eq(t.as_str(), "lora") || str_eq(t.as_str(), "vocab") {
                return Some(GgufSkipReason::BadType);
            }
        }
        if self.block_count == Some(0u64) {
            return Some(GgufSkipReason::ZeroBlockCount);
        }
        None
    }
}

/// What validating a file named `path` whose first bytes are `d` gives.
pub open spec fn validation_of(path: Seq<char>, d: Seq<u8>) -> Result<MetadataView, GgufSkipReason> {
    if !discoverable_name(path) {
        Err(GgufSkipReason::BadName)
    } else {
        match inspected(d) {
            Err(e) => Err(e),
            Ok(m) => match skip_reason_of(m) {
                Some(reason) => Err(reason),
                None => Ok(m),
            },
        }
    }
}

/// Prefix-only validation: file name, then header, then architecture and
/// type metadata.
pub fn validate_gguf_model(path: &str, data: &[u8]) -> (r: Result<GgufMetadata, GgufSkipReason>)
    requires
        data@.len() <= MAX_METADATA_BYTES,
    ensures
        match r {
            Ok(m) => validation_of(path@, data@) == Ok::<MetadataView, GgufSkipReason>(m@),
            Err(e) => validation_of(path@, data@) == Err::<MetadataView, GgufSkipReason>(e),
        },
{
    if !is_discoverable_gguf_name(path) {
        return Err(GgufSkipReason::BadName);
    }
    let metadata = inspect_gguf_metadata(data)?;
    if let Some(reason) = metadata.loadable_skip_reason() {
        return Err(reason);
    }
    Ok(metadata)
}

/// Whether the file looks like a standalone llama.cpp-loadable model.
pub fn is_llama_cpp_loadable_gguf(path: &str, data: &[u8]) -> (r: bool)
    requires
        data@.len() <= MAX_METADATA_BYTES,
    ensures
        r == validation_of(path@, data@) is Ok,
{
    validate_gguf_model(path, data).is_ok()
}

} // verus!

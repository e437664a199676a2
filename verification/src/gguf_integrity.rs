//! Detect truncated or damaged GGUF files before a backend is asked to load
//! them. The header and tensor table say exactly how many bytes the file
//! must hold; reading them costs a few kilobytes, not the weights.
//!
//! The check reads a prefix of the file. When the header runs past the end
//! of that prefix, the answer is [`IntegrityCheck::NeedMore`] and the caller
//! reads a longer prefix; once the prefix is the whole file the answer is
//! final.
use vstd::prelude::*;
use crate::text::{concat_str, decimal, fmt_decimal, string_from_str};

verus! {

pub const GGUF_MAGIC: u32 = 0x4655_4747;
pub const DEFAULT_ALIGNMENT: u64 = 32;
/// Sanity ceilings so a damaged header cannot drive a huge loop.
pub const MAX_TENSORS: u64 = 1_000_000;
pub const MAX_KV_PAIRS: u64 = 1_000_000;
pub const MAX_STRING_BYTES: u64 = 67108864;
pub const MAX_DIMS: u32 = 8;

/// Why a GGUF file failed the integrity check.
#[derive(Debug, Clone, PartialEq, Eq)]
pub enum GgufIntegrityError {
    Unreadable(String),
    NotGguf,
    /// The header or tensor table is cut off or internally inconsistent.
    HeaderDamaged(String),
    /// The tensor data extends past the end of the file.
    Truncated { file_bytes: u64, required_bytes: u64 },
}

/// The answer for one prefix of a file.
pub enum IntegrityCheck {
    /// The verdict on the whole file.
    Complete(Result<(), GgufIntegrityError>),
    /// The header continues past the prefix; read more of the file.
    NeedMore,
}

/// `(elements per block, bytes per block)` of a ggml tensor type.
pub open spec fn layout_of(t: u32) -> Option<(u64, u64)> {
    if t == 0 { Some((1, 4)) }
    else if t == 1 { Some((1, 2)) }
    else if t == 2 { Some((32, 18)) }
    else if t == 3 { Some((32, 20)) }
    else if t == 6 { Some((32, 22)) }
    else if t == 7 { Some((32, 24)) }
    else if t == 8 { Some((32, 34)) }
    else if t == 9 { Some((32, 36)) }
    else if t == 10 { Some((256, 84)) }
    else if t == 11 { Some((256, 110)) }
    else if t == 12 { Some((256, 144)) }
    else if t == 13 { Some((256, 176)) }
    else if t == 14 { Some((256, 210)) }
    else if t == 15 { Some((256, 292)) }
    else if t == 16 { Some((256, 66)) }
    else if t == 17 { Some((256, 74)) }
    else if t == 18 { Some((256, 98)) }
    else if t == 19 { Some((256, 50)) }
    else if t == 20 { Some((32, 18)) }
    else if t == 21 { Some((256, 110)) }
    else if t == 22 { Some((256, 82)) }
    else if t == 23 { Some((256, 136)) }
    else if t == 24 { Some((1, 1)) }
    else if t == 25 { Some((1, 2)) }
    else if t == 26 { Some((1, 4)) }
    else if t == 27 { Some((1, 8)) }
    else if t == 28 { Some((1, 8)) }
    else if t == 29 { Some((256, 56)) }
    else if t == 30 { Some((1, 2)) }
    else if t == 34 { Some((256, 54)) }
    else if t == 35 { Some((256, 66)) }
    else if t == 39 { Some((32, 17)) }
    else { None }
}

/// `(elements per block, bytes per block)` for a ggml tensor type, when known.
pub fn type_layout(ggml_type: u32) -> (r: Option<(u64, u64)>)
    ensures
        r == layout_of(ggml_type),
{
    match ggml_type {
        0 => Some((1, 4)),
        1 => Some((1, 2)),
        2 => Some((32, 18)),
        3 => Some((32, 20)),
        6 => Some((32, 22)),
        7 => Some((32, 24)),
        8 => Some((32, 34)),
        9 => Some((32, 36)),
        10 => Some((256, 84)),
        11 => Some((256, 110)),
        12 => Some((256, 144)),
        13 => Some((256, 176)),
        14 => Some((256, 210)),
        15 => Some((256, 292)),
        16 => Some((256, 66)),
        17 => Some((256, 74)),
        18 => Some((256, 98)),
        19 => Some((256, 50)),
        20 => Some((32, 18)),
        21 => Some((256, 110)),
        22 => Some((256, 82)),
        23 => Some((256, 136)),
        24 => Some((1, 1)),
        25 => Some((1, 2)),
        26 => Some((1, 4)),
        27 => Some((1, 8)),
        28 => Some((1, 8)),
        29 => Some((256, 56)),
        30 => Some((1, 2)),
        34 => Some((256, 54)),
        35 => Some((256, 66)),
        39 => Some((32, 17)),
        _ => None,
    }
}

// ── Reading little-endian fields ────────────────────────────────────────────

/// The `n` bytes at `pos` read as a little-endian number.
pub open spec fn le(d: Seq<u8>, pos: int, n: nat) -> nat
    decreases n,
{
    if n == 0 { 0 } else { d[pos] as nat + 256 * le(d, pos + 1, (n - 1) as nat) }
}

/// What reading a field gives: the value and the position after it; the
/// data ends inside the field (`what` names it); or the header is damaged.
pub ghost enum Step<T> {
    Done(T, int),
    Short(Seq<char>),
    Bad(Seq<char>),
}

pub open spec fn take_u32(d: Seq<u8>, pos: int, what: Seq<char>) -> Step<u32> {
    if pos + 4 <= d.len() { Step::Done(le(d, pos, 4) as u32, pos + 4) } else { Step::Short(what) }
}

pub open spec fn take_u64(d: Seq<u8>, pos: int, what: Seq<char>) -> Step<u64> {
    if pos + 8 <= d.len() { Step::Done(le(d, pos, 8) as u64, pos + 8) } else { Step::Short(what) }
}

pub open spec fn skip_bytes(d: Seq<u8>, pos: int, n: nat, what: Seq<char>) -> Step<()> {
    if pos + n <= d.len() { Step::Done((), pos + n) } else { Step::Short(what) }
}

/// A string length, at most [`MAX_STRING_BYTES`].
pub open spec fn take_string_len(d: Seq<u8>, pos: int, what: Seq<char>) -> Step<u64> {
    match take_u64(d, pos, what) {
        Step::Done(len, p) => if len > MAX_STRING_BYTES {
            Step::Bad("implausible string length in "@ + what)
        } else {
            Step::Done(len, p)
        },
        Step::Short(w) => Step::Short(w),
        Step::Bad(m) => Step::Bad(m),
    }
}

/// A length-prefixed string; its bytes.
pub open spec fn take_string(d: Seq<u8>, pos: int, what: Seq<char>) -> Step<Seq<u8>> {
    match take_string_len(d, pos, what) {
        Step::Done(len, p) => if p + len <= d.len() {
            Step::Done(d.subrange(p, p + len), p + len)
        } else {
            Step::Short(what)
        },
        Step::Short(w) => Step::Short(w),
        Step::Bad(m) => Step::Bad(m),
    }
}

pub open spec fn value_what() -> Seq<char> {
    "a metadata value"@
}

/// Byte width of an array element type that can be skipped in one read.
pub open spec fn fixed_width(t: u32) -> Option<u64> {
    if t == 0 || t == 1 || t == 7 { Some(1) }
    else if t == 2 || t == 3 { Some(2) }
    else if 4 <= t <= 6 { Some(4) }
    else if 10 <= t <= 12 { Some(8) }
    else { None }
}

/// One metadata value of type `vt`, skipped; a `uint32` is returned.
/// Arrays nest at most three levels.
pub open spec fn value(d: Seq<u8>, pos: int, vt: u32, depth: nat) -> Step<Option<u64>>
    decreases 3 - depth, 1nat, 0nat,
{
    let w = value_what();
    if vt == 0 || vt == 1 || vt == 7 {
        match skip_bytes(d, pos, 1, w) { Step::Done(_, p) => Step::Done(None, p), Step::Short(x) => Step::Short(x), Step::Bad(m) => Step::Bad(m) }
    } else if vt == 2 || vt == 3 {
        match skip_bytes(d, pos, 2, w) { Step::Done(_, p) => Step::Done(None, p), Step::Short(x) => Step::Short(x), Step::Bad(m) => Step::Bad(m) }
    } else if vt == 4 {
        match take_u32(d, pos, w) { Step::Done(v, p) => Step::Done(Some(v as u64), p), Step::Short(x) => Step::Short(x), Step::Bad(m) => Step::Bad(m) }
    } else if vt == 5 || vt == 6 {
        match skip_bytes(d, pos, 4, w) { Step::Done(_, p) => Step::Done(None, p), Step::Short(x) => Step::Short(x), Step::Bad(m) => Step::Bad(m) }
    } else if 10 <= vt <= 12 {
        match skip_bytes(d, pos, 8, w) { Step::Done(_, p) => Step::Done(None, p), Step::Short(x) => Step::Short(x), Step::Bad(m) => Step::Bad(m) }
    } else if vt == 8 {
        match take_string_len(d, pos, w) {
            Step::Done(len, p) => match skip_bytes(d, p, len as nat, w) {
                Step::Done(_, q) => Step::Done(None, q),
                Step::Short(x) => Step::Short(x),
                Step::Bad(m) => Step::Bad(m),
            },
            Step::Short(x) => Step::Short(x),
            Step::Bad(m) => Step::Bad(m),
        }
    } else if vt == 9 {
        if depth > 2 {
            Step::Bad("array nesting too deep"@)
        } else {
            match take_u32(d, pos, w) {
                Step::Done(et, p) => match take_u64(d, p, w) {
                    Step::Done(count, q) => match fixed_width(et) {
                        Some(width) => if count * width > u64::MAX {
                            Step::Bad("implausible array length"@)
                        } else {
                            match skip_bytes(d, q, (count * width) as nat, w) {
                                Step::Done(_, e) => Step::Done(None, e),
                                Step::Short(x) => Step::Short(x),
                                Step::Bad(m) => Step::Bad(m),
                            }
                        },
                        None => match elements(d, q, et, depth, count as nat) {
                            Step::Done(_, e) => Step::Done(None, e),
                            Step::Short(x) => Step::Short(x),
                            Step::Bad(m) => Step::Bad(m),
                        },
                    },
                    Step::Short(x) => Step::Short(x),
                    Step::Bad(m) => Step::Bad(m),
                },
                Step::Short(x) => Step::Short(x),
                Step::Bad(m) => Step::Bad(m),
            }
        }
    } else {
        Step::Bad("unknown metadata type "@ + decimal(vt as nat))
    }
}

/// `count` array elements of type `et` inside an array at nesting `depth`.
pub open spec fn elements(d: Seq<u8>, pos: int, et: u32, depth: nat, count: nat) -> Step<()>
    decreases 3 - depth, 0nat, count,
{
    if depth > 2 {
        Step::Bad("array nesting too deep"@)
    } else if count == 0 {
        Step::Done((), pos)
    } else {
        match elements(d, pos, et, depth, (count - 1) as nat) {
            Step::Done(_, p) => match value(d, p, et, depth + 1) {
                Step::Done(_, q) => Step::Done((), q),
                Step::Short(x) => Step::Short(x),
                Step::Bad(m) => Step::Bad(m),
            },
            Step::Short(x) => Step::Short(x),
            Step::Bad(m) => Step::Bad(m),
        }
    }
}

/// The bytes of `general.alignment`.
pub open spec fn alignment_key() -> Seq<u8> {
    seq![103u8, 101, 110, 101, 114, 97, 108, 46, 97, 108, 105, 103, 110, 109, 101, 110, 116]
}

/// One key/value pair; a positive `uint32` under `general.alignment`
/// replaces the alignment.
pub open spec fn kv_pair(d: Seq<u8>, pos: int, alignment: u64) -> Step<u64> {
    match take_string(d, pos, "a metadata key"@) {
        Step::Done(key, p) => match take_u32(d, p, "a metadata type"@) {
            Step::Done(vt, q) => match value(d, q, vt, 0) {
                Step::Done(v, e) => Step::Done(
                    match v {
                        Some(a) => if key == alignment_key() && a > 0 { a } else { alignment },
                        None => alignment,
                    },
                    e,
                ),
                Step::Short(x) => Step::Short(x),
                Step::Bad(m) => Step::Bad(m),
            },
            Step::Short(x) => Step::Short(x),
            Step::Bad(m) => Step::Bad(m),
        },
        Step::Short(x) => Step::Short(x),
        Step::Bad(m) => Step::Bad(m),
    }
}

/// `n` key/value pairs; the alignment they leave.
pub open spec fn metadata(d: Seq<u8>, pos: int, n: nat) -> Step<u64>
    decreases n,
{
    if n == 0 {
        Step::Done(DEFAULT_ALIGNMENT, pos)
    } else {
        match metadata(d, pos, (n - 1) as nat) {
            Step::Done(a, p) => kv_pair(d, p, a),
            Step::Short(x) => Step::Short(x),
            Step::Bad(m) => Step::Bad(m),
        }
    }
}

/// The product of `n` dimensions, which must fit in 64 bits.
pub open spec fn dims(d: Seq<u8>, pos: int, n: nat) -> Step<u64>
    decreases n,
{
    if n == 0 {
        Step::Done(1, pos)
    } else {
        match dims(d, pos, (n - 1) as nat) {
            Step::Done(e, p) => match take_u64(d, p, "a tensor shape"@) {
                Step::Done(dim, q) => if e * dim > u64::MAX {
                    Step::Bad("implausible tensor size"@)
                } else {
                    Step::Done((e * dim) as u64, q)
                },
                Step::Short(x) => Step::Short(x),
                Step::Bad(m) => Step::Bad(m),
            },
            Step::Short(x) => Step::Short(x),
            Step::Bad(m) => Step::Bad(m),
        }
    }
}

pub open spec fn sat(x: int) -> u64 {
    if x > u64::MAX { u64::MAX } else { x as u64 }
}

/// Bytes a tensor of `elems` elements of type `t` occupies; a type this
/// build does not know counts as one byte.
pub open spec fn tensor_bytes(elems: u64, t: u32) -> u64 {
    match layout_of(t) {
        Some((block, size)) => sat(((elems + block - 1) / block as int) * size),
        None => 1,
    }
}

/// The bytes a tensor of a listed ggml type needs: whole blocks of that
/// type's fixed layout (elements per block, bytes per block), as the GGUF
/// type table gives it; types outside the table count one byte.
pub proof fn lemma_ggml_tensor_bytes()
    ensures
        // F32: 1 element in 4 bytes
        forall|e: u64| #[trigger] tensor_bytes(e, 0) == sat(((e + 0) / 1) * 4),
        // F16: 1 element in 2 bytes
        forall|e: u64| #[trigger] tensor_bytes(e, 1) == sat(((e + 0) / 1) * 2),
        // Q4_0: 32 elements in 18 bytes
        forall|e: u64| #[trigger] tensor_bytes(e, 2) == sat(((e + 31) / 32) * 18),
        // Q4_1: 32 elements in 20 bytes
        forall|e: u64| #[trigger] tensor_bytes(e, 3) == sat(((e + 31) / 32) * 20),
        // Q5_0: 32 elements in 22 bytes
        forall|e: u64| #[trigger] tensor_bytes(e, 6) == sat(((e + 31) / 32) * 22),
        // Q5_1: 32 elements in 24 bytes
        forall|e: u64| #[trigger] tensor_bytes(e, 7) == sat(((e + 31) / 32) * 24),
        // Q8_0: 32 elements in 34 bytes
        forall|e: u64| #[trigger] tensor_bytes(e, 8) == sat(((e + 31) / 32) * 34),
        // Q8_1: 32 elements in 36 bytes
        forall|e: u64| #[trigger] tensor_bytes(e, 9) == sat(((e + 31) / 32) * 36),
        // Q2_K: 256 elements in 84 bytes
        forall|e: u64| #[trigger] tensor_bytes(e, 10) == sat(((e + 255) / 256) * 84),
        // Q3_K: 256 elements in 110 bytes
        forall|e: u64| #[trigger] tensor_bytes(e, 11) == sat(((e + 255) / 256) * 110),
        // Q4_K: 256 elements in 144 bytes
        forall|e: u64| #[trigger] tensor_bytes(e, 12) == sat(((e + 255) / 256) * 144),
        // Q5_K: 256 elements in 176 bytes
        forall|e: u64| #[trigger] tensor_bytes(e, 13) == sat(((e + 255) / 256) * 176),
        // Q6_K: 256 elements in 210 bytes
        forall|e: u64| #[trigger] tensor_bytes(e, 14) == sat(((e + 255) / 256) * 210),
        // Q8_K: 256 elements in 292 bytes
        forall|e: u64| #[trigger] tensor_bytes(e, 15) == sat(((e + 255) / 256) * 292),
        // IQ2_XXS: 256 elements in 66 bytes
        forall|e: u64| #[trigger] tensor_bytes(e, 16) == sat(((e + 255) / 256) * 66),
        // IQ2_XS: 256 elements in 74 bytes
        forall|e: u64| #[trigger] tensor_bytes(e, 17) == sat(((e + 255) / 256) * 74),
        // IQ3_XXS: 256 elements in 98 bytes
        forall|e: u64| #[trigger] tensor_bytes(e, 18) == sat(((e + 255) / 256) * 98),
        // IQ1_S: 256 elements in 50 bytes
        forall|e: u64| #[trigger] tensor_bytes(e, 19) == sat(((e + 255) / 256) * 50),
        // IQ4_NL: 32 elements in 18 bytes
        forall|e: u64| #[trigger] tensor_bytes(e, 20) == sat(((e + 31) / 32) * 18),
        // IQ3_S: 256 elements in 110 bytes
        forall|e: u64| #[trigger] tensor_bytes(e, 21) == sat(((e + 255) / 256) * 110),
        // IQ2_S: 256 elements in 82 bytes
        forall|e: u64| #[trigger] tensor_bytes(e, 22) == sat(((e + 255) / 256) * 82),
        // IQ4_XS: 256 elements in 136 bytes
        forall|e: u64| #[trigger] tensor_bytes(e, 23) == sat(((e + 255) / 256) * 136),
        // I8: 1 element in 1 byte
        forall|e: u64| #[trigger] tensor_bytes(e, 24) == sat(((e + 0) / 1) * 1),
        // I16: 1 element in 2 bytes
        forall|e: u64| #[trigger] tensor_bytes(e, 25) == sat(((e + 0) / 1) * 2),
        // I32: 1 element in 4 bytes
        forall|e: u64| #[trigger] tensor_bytes(e, 26) == sat(((e + 0) / 1) * 4),
        // I64: 1 element in 8 bytes
        forall|e: u64| #[trigger] tensor_bytes(e, 27) == sat(((e + 0) / 1) * 8),
        // F64: 1 element in 8 bytes
        forall|e: u64| #[trigger] tensor_bytes(e, 28) == sat(((e + 0) / 1) * 8),
        // IQ1_M: 256 elements in 56 bytes
        forall|e: u64| #[trigger] tensor_bytes(e, 29) == sat(((e + 255) / 256) * 56),
        // BF16: 1 element in 2 bytes
        forall|e: u64| #[trigger] tensor_bytes(e, 30) == sat(((e + 0) / 1) * 2),
        // TQ1_0: 256 elements in 54 bytes
        forall|e: u64| #[trigger] tensor_bytes(e, 34) == sat(((e + 255) / 256) * 54),
        // TQ2_0: 256 elements in 66 bytes
        forall|e: u64| #[trigger] tensor_bytes(e, 35) == sat(((e + 255) / 256) * 66),
        // MXFP4: 32 elements in 17 bytes
        forall|e: u64| #[trigger] tensor_bytes(e, 39) == sat(((e + 31) / 32) * 17),
        forall|e: u64, t: u32| (t == 4 || t == 5 || (31 <= t <= 33) || (36 <= t <= 38) || t >= 40)
            ==> #[trigger] tensor_bytes(e, t) == 1,
{
}

/// One tensor-table record; the furthest data byte reached so far.
pub open spec fn tensor(d: Seq<u8>, pos: int, furthest: u64) -> Step<u64> {
    match take_string_len(d, pos, "a tensor name"@) {
        Step::Done(nl, p) => match skip_bytes(d, p, nl as nat, "a tensor name"@) {
            Step::Done(_, p2) => match take_u32(d, p2, "a tensor shape"@) {
                Step::Done(nd, p3) => if nd > MAX_DIMS {
                    Step::Bad("implausible tensor rank"@)
                } else {
                    match dims(d, p3, nd as nat) {
                        Step::Done(elems, p4) => match take_u32(d, p4, "a tensor type"@) {
                            Step::Done(t, p5) => match take_u64(d, p5, "a tensor offset"@) {
                                Step::Done(off, p6) => {
                                    let reach = sat(off + tensor_bytes(elems, t));
                                    Step::Done(if reach > furthest { reach } else { furthest }, p6)
                                },
                                Step::Short(x) => Step::Short(x),
                                Step::Bad(m) => Step::Bad(m),
                            },
                            Step::Short(x) => Step::Short(x),
                            Step::Bad(m) => Step::Bad(m),
                        },
                        Step::Short(x) => Step::Short(x),
                        Step::Bad(m) => Step::Bad(m),
                    }
                },
                Step::Short(x) => Step::Short(x),
                Step::Bad(m) => Step::Bad(m),
            },
            Step::Short(x) => Step::Short(x),
            Step::Bad(m) => Step::Bad(m),
        },
        Step::Short(x) => Step::Short(x),
        Step::Bad(m) => Step::Bad(m),
    }
}

/// `n` tensor records; the furthest byte any of them reaches, relative to
/// the start of the data section.
pub open spec fn tensors(d: Seq<u8>, pos: int, n: nat) -> Step<u64>
    decreases n,
{
    if n == 0 {
        Step::Done(0, pos)
    } else {
        match tensors(d, pos, (n - 1) as nat) {
            Step::Done(f, p) => tensor(d, p, f),
            Step::Short(x) => Step::Short(x),
            Step::Bad(m) => Step::Bad(m),
        }
    }
}

/// The verdict on a prefix `d` of a file of `file_len` bytes.
pub ghost enum Verdict {
    Fine,
    NotGguf,
    Damaged(Seq<char>),
    Truncated(u64, u64),
    NeedMore,
}

pub open spec fn short_verdict(d: Seq<u8>, file_len: u64, what: Seq<char>) -> Verdict {
    if d.len() < file_len { Verdict::NeedMore } else { Verdict::Damaged("ends inside "@ + what) }
}

pub open spec fn step_verdict<T>(s: Step<T>, d: Seq<u8>, file_len: u64) -> Verdict {
    match s {
        Step::Short(w) => short_verdict(d, file_len, w),
        Step::Bad(m) => Verdict::Damaged(m),
        Step::Done(_, _) => Verdict::Fine,
    }
}

/// Where the data section starts: the end of the tensor table rounded up to
/// the alignment.
pub open spec fn data_start(table_end: int, alignment: u64) -> int {
    ((table_end + alignment - 1) / alignment as int) * alignment
}

/// What the integrity check says of a file of `file_len` bytes whose first
/// bytes are `d`.
pub open spec fn verdict(d: Seq<u8>, file_len: u64) -> Verdict {
    match take_u32(d, 0, "the magic"@) {
        Step::Done(magic, p1) => if magic != GGUF_MAGIC {
            Verdict::NotGguf
        } else {
            match take_u32(d, p1, "the version"@) {
                Step::Done(version, p2) => if !(2 <= version <= 3) {
                    Verdict::Damaged("unsupported version "@ + decimal(version as nat))
                } else {
                    match take_u64(d, p2, "the tensor count"@) {
                        Step::Done(tc, p3) => match take_u64(d, p3, "the metadata count"@) {
                            Step::Done(kc, p4) => if tc > MAX_TENSORS || kc > MAX_KV_PAIRS {
                                Verdict::Damaged("implausible tensor or metadata count"@)
                            } else {
                                match metadata(d, p4, kc as nat) {
                                    Step::Done(alignment, p5) => match tensors(d, p5, tc as nat) {
                                        Step::Done(furthest, p6) => {
                                            let required = sat(data_start(p6, alignment) + furthest);
                                            if (file_len as int) < required {
                                                Verdict::Truncated(file_len, required)
                                            } else {
                                                Verdict::Fine
                                            }
                                        },
                                        other => step_verdict(other, d, file_len),
                                    },
                                    other => step_verdict(other, d, file_len),
                                }
                            },
                            other => step_verdict(other, d, file_len),
                        },
                        other => step_verdict(other, d, file_len),
                    }
                },
                other => step_verdict(other, d, file_len),
            }
        },
        other => step_verdict(other, d, file_len),
    }
}

/// The length a file with header bytes `d` needs (the end of its data
/// section), when the header in `d` reads as a whole and is plausible.
pub open spec fn header_need(d: Seq<u8>) -> Option<u64> {
    match take_u32(d, 0, "the magic"@) {
        Step::Done(magic, p1) => if magic != GGUF_MAGIC {
            None
        } else {
            match take_u32(d, p1, "the version"@) {
                Step::Done(version, p2) => if !(2 <= version <= 3) {
                    None
                } else {
                    match take_u64(d, p2, "the tensor count"@) {
                        Step::Done(tc, p3) => match take_u64(d, p3, "the metadata count"@) {
                            Step::Done(kc, p4) => if tc > MAX_TENSORS || kc > MAX_KV_PAIRS {
                                None
                            } else {
                                match metadata(d, p4, kc as nat) {
                                    Step::Done(alignment, p5) => match tensors(d, p5, tc as nat) {
                                        Step::Done(furthest, p6) => Some(sat(data_start(p6, alignment) + furthest)),
                                        _ => None,
                                    },
                                    _ => None,
                                }
                            },
                            _ => None,
                        },
                        _ => None,
                    }
                },
                _ => None,
            }
        },
        _ => None,
    }
}

/// Truncation depends on the length alone: once the header reads as a
/// whole, a file is reported truncated exactly when it is shorter than the
/// length its header needs, and is fine otherwise; a truncated verdict
/// always names the file's own length and a larger need.
pub proof fn lemma_truncation_by_length(d: Seq<u8>, file_len: u64)
    ensures
        header_need(d) matches Some(q) ==> verdict(d, file_len) == (if file_len < q {
            Verdict::Truncated(file_len, q)
        } else {
            Verdict::Fine
        }),
        verdict(d, file_len) matches Verdict::Truncated(f, q) ==> f == file_len && f < q && header_need(d) == Some(q),
        verdict(d, file_len) is Fine ==> (header_need(d) matches Some(q) && q <= file_len),
{
}

/// The check's answer is the verdict.
pub open spec fn answers(r: IntegrityCheck, v: Verdict) -> bool {
    match v {
        Verdict::Fine => r matches IntegrityCheck::Complete(Ok(())),
        Verdict::NotGguf => r matches IntegrityCheck::Complete(Err(GgufIntegrityError::NotGguf)),
        Verdict::Damaged(m) => r matches IntegrityCheck::Complete(Err(GgufIntegrityError::HeaderDamaged(s))) && s@ == m,
        Verdict::Truncated(f, q) => r matches IntegrityCheck::Complete(Err(GgufIntegrityError::Truncated { file_bytes, required_bytes }))
            && file_bytes == f && required_bytes == q,
        Verdict::NeedMore => r is NeedMore,
    }
}

// ── The reader ──────────────────────────────────────────────────────────────

/// Why reading stopped: the data ended inside the named field, or the
/// header is damaged.
pub enum Fail {
    Short(&'static str),
    Bad(String),
}

pub open spec fn fails_as<T>(f: Fail, s: Step<T>) -> bool {
    match f {
        Fail::Short(w) => s == Step::<T>::Short(w@),
        Fail::Bad(m) => s == Step::<T>::Bad(m@),
    }
}

pub open spec fn read_as<T>(r: Result<(T, usize), Fail>, s: Step<T>) -> bool {
    match r {
        Ok((v, p)) => s == Step::Done(v, p as int),
        Err(f) => fails_as(f, s),
    }
}

pub(crate) fn le_u32_at(d: &[u8], pos: usize) -> (r: u32)
    requires
        pos + 4 <= d@.len(),
    ensures
        r as nat == le(d@, pos as int, 4),
{
    proof { reveal_with_fuel(le, 5); }
    let _n = d.len();
    let b0 = d[pos] as u32;
    let b1 = d[pos + 1] as u32;
    let b2 = d[pos + 2] as u32;
    let b3 = d[pos + 3] as u32;
    let v = b2 + 256 * b3;
    let v = b1 + 256 * v;
    b0 + 256 * v
}

pub(crate) fn le_u64_at(d: &[u8], pos: usize) -> (r: u64)
    requires
        pos + 8 <= d@.len(),
    ensures
        r as nat == le(d@, pos as int, 8),
{
    proof { reveal_with_fuel(le, 9); }
    let _n = d.len();
    let v = d[pos + 7] as u64;
    assert(v < 0x100);
    let v = d[pos + 6] as u64 + 256 * v;
    assert(v < 0x10000);
    let v = d[pos + 5] as u64 + 256 * v;
    assert(v < 0x1000000);
    let v = d[pos + 4] as u64 + 256 * v;
    assert(v < 0x100000000);
    let v = d[pos + 3] as u64 + 256 * v;
    assert(v < 0x10000000000);
    let v = d[pos + 2] as u64 + 256 * v;
    assert(v < 0x1000000000000);
    let v = d[pos + 1] as u64 + 256 * v;
    assert(v < 0x100000000000000);
    d[pos] as u64 + 256 * v
}

fn read_u32(d: &[u8], pos: usize, what: &'static str) -> (r: Result<(u32, usize), Fail>)
    requires
        pos <= d@.len(),
    ensures
        read_as(r, take_u32(d@, pos as int, what@)),
        r matches Ok((_, p)) ==> p <= d@.len(),
{
    if d.len() - pos < 4 {
        return Err(Fail::Short(what));
    }
    Ok((le_u32_at(d, pos), pos + 4))
}

fn read_u64(d: &[u8], pos: usize, what: &'static str) -> (r: Result<(u64, usize), Fail>)
    requires
        pos <= d@.len(),
    ensures
        read_as(r, take_u64(d@, pos as int, what@)),
        r matches Ok((_, p)) ==> p <= d@.len(),
{
    if d.len() - pos < 8 {
        return Err(Fail::Short(what));
    }
    Ok((le_u64_at(d, pos), pos + 8))
}

fn skip(d: &[u8], pos: usize, n: u64, what: &'static str) -> (r: Result<((), usize), Fail>)
    requires
        pos <= d@.len(),
    ensures
        read_as(r, skip_bytes(d@, pos as int, n as nat, what@)),
        r matches Ok((_, p)) ==> p <= d@.len(),
{
    let room = d.len() - pos;
    if (room as u64) < n {
        return Err(Fail::Short(what));
    }
    Ok(((), pos + n as usize))
}

fn read_string_len(d: &[u8], pos: usize, what: &'static str) -> (r: Result<(u64, usize), Fail>)
    requires
        pos <= d@.len(),
    ensures
        read_as(r, take_string_len(d@, pos as int, what@)),
        r matches Ok((_, p)) ==> p <= d@.len(),
{
    let (len, p) = read_u64(d, pos, what)?;
    if len > MAX_STRING_BYTES {
        return Err(Fail::Bad(concat_str("implausible string length in ", what)));
    }
    Ok((len, p))
}

/// A length-prefixed string: the range of its bytes.
fn read_string(d: &[u8], pos: usize, what: &'static str) -> (r: Result<((usize, usize), usize), Fail>)
    requires
        pos <= d@.len(),
    ensures
        match r {
            Ok(((a, b), p)) => a <= b == p <= d@.len()
                && take_string(d@, pos as int, what@) == Step::Done(d@.subrange(a as int, b as int), p as int),
            Err(f) => fails_as(f, take_string(d@, pos as int, what@)),
        },
{
    let (len, p) = read_string_len(d, pos, what)?;
    let room = d.len() - p;
    if (room as u64) < len {
        return Err(Fail::Short(what));
    }
    let end = p + len as usize;
    Ok(((p, end), end))
}

/// Skip one metadata value of type `vt`; a `uint32` is returned.
fn skip_value(d: &[u8], pos: usize, vt: u32, depth: u8) -> (r: Result<(Option<u64>, usize), Fail>)
    requires
        pos <= d@.len(),
        depth <= 3,
    ensures
        read_as(r, value(d@, pos as int, vt, depth as nat)),
        r matches Ok((_, p)) ==> p <= d@.len(),
    decreases 3 - depth, 1nat, 0nat,
{
    let w: &'static str = "a metadata value";
    if vt == 0 || vt == 1 || vt == 7 {
        let (_, p) = skip(d, pos, 1, w)?;
        Ok((None, p))
    } else if vt == 2 || vt == 3 {
        let (_, p) = skip(d, pos, 2, w)?;
        Ok((None, p))
    } else if vt == 4 {
        let (v, p) = read_u32(d, pos, w)?;
        Ok((Some(v as u64), p))
    } else if vt == 5 || vt == 6 {
        let (_, p) = skip(d, pos, 4, w)?;
        Ok((None, p))
    } else if 10 <= vt && vt <= 12 {
        let (_, p) = skip(d, pos, 8, w)?;
        Ok((None, p))
    } else if vt == 8 {
        let (len, p) = read_string_len(d, pos, w)?;
        let (_, q) = skip(d, p, len, w)?;
        Ok((None, q))
    } else if vt == 9 {
        if depth > 2 {
            return Err(Fail::Bad(string_from_str("array nesting too deep")));
        }
        let (et, p) = read_u32(d, pos, w)?;
        let (count, q) = read_u64(d, p, w)?;
        let fixed: Option<u64> = if et == 0 || et == 1 || et == 7 {
            Some(1)
        } else if et == 2 || et == 3 {
            Some(2)
        } else if 4 <= et && et <= 6 {
            Some(4)
        } else if 10 <= et && et <= 12 {
            Some(8)
        } else {
            None
        };
        assert(fixed == fixed_width(et));
        match fixed {
            Some(width) => {
                match count.checked_mul(width) {
                    Some(total) => {
                        let (_, e) = skip(d, q, total, w)?;
                        Ok((None, e))
                    },
                    None => Err(Fail::Bad(string_from_str("implausible array length"))),
                }
            },
            None => {
                let (_, e) = skip_elements(d, q, et, depth, count)?;
                Ok((None, e))
            },
        }
    } else {
        let n = fmt_decimal(vt as u64);
        Err(Fail::Bad(concat_str("unknown metadata type ", n.as_str())))
    }
}

/// Skip `count` elements of type `et` of an array at nesting `depth`.
fn skip_elements(d: &[u8], pos: usize, et: u32, depth: u8, count: u64) -> (r: Result<((), usize), Fail>)
    requires
        pos <= d@.len(),
        depth <= 2,
    ensures
        read_as(r, elements(d@, pos as int, et, depth as nat, count as nat)),
        r matches Ok((_, p)) ==> p <= d@.len(),
    decreases 3 - depth, 0nat, count,
{
    let mut p = pos;
    let mut i: u64 = 0;
    while i < count
        invariant
            i <= count,
            depth <= 2,
            p <= d@.len(),
            elements(d@, pos as int, et, depth as nat, i as nat) == Step::Done((), p as int),
        decreases count - i,
    {
        match skip_value(d, p, et, depth + 1) {
            Ok((_, q)) => {
                p = q;
            },
            Err(f) => {
                proof { lemma_elements_stops(d@, pos as int, et, depth as nat, (i + 1) as nat, count as nat); }
                return Err(f);
            },
        }
        i = i + 1;
    }
    Ok(((), p))
}

proof fn lemma_elements_stops(d: Seq<u8>, pos: int, et: u32, depth: nat, i: nat, n: nat)
    requires
        i <= n,
        !(elements(d, pos, et, depth, i) is Done),
    ensures
        elements(d, pos, et, depth, n) == elements(d, pos, et, depth, i),
    decreases n - i,
{
    if i < n {
        lemma_elements_stops(d, pos, et, depth, i, (n - 1) as nat);
    }
}

proof fn lemma_dims_stops(d: Seq<u8>, pos: int, i: nat, n: nat)
    requires
        i <= n,
        !(dims(d, pos, i) is Done),
    ensures
        dims(d, pos, n) == dims(d, pos, i),
    decreases n - i,
{
    if i < n {
        lemma_dims_stops(d, pos, i, (n - 1) as nat);
    }
}

pub fn alignment_key_bytes() -> (r: [u8; 17])
    ensures
        r@ == alignment_key(),
{
    let r: [u8; 17] = [103, 101, 110, 101, 114, 97, 108, 46, 97, 108, 105, 103, 110, 109, 101, 110, 116];
    assert(r@ =~= alignment_key());
    r
}

fn bytes_eq(d: &[u8], a: usize, b: usize, key: &[u8]) -> (r: bool)
    requires
        a <= b <= d@.len(),
    ensures
        r == (d@.subrange(a as int, b as int) == key@),
{
    if b - a != key.len() {
        return false;
    }
    let mut i: usize = 0;
    while i < key.len()
        invariant
            a <= b <= d@.len(),
            b - a == key@.len(),
            i <= key@.len(),
            forall|j: int| 0 <= j < i ==> d@[a + j] == key@[j],
        decreases key.len() - i,
    {
        if d[a + i] != key[i] {
            assert(d@.subrange(a as int, b as int)[i as int] != key@[i as int]);
            return false;
        }
        i = i + 1;
    }
    assert(d@.subrange(a as int, b as int) =~= key@);
    true
}

fn read_kv_pair(d: &[u8], pos: usize, alignment: u64) -> (r: Result<(u64, usize), Fail>)
    requires
        pos <= d@.len(),
        alignment > 0,
    ensures
        read_as(r, kv_pair(d@, pos as int, alignment)),
        r matches Ok((a, p)) ==> p <= d@.len() && a > 0,
{
    let ((ka, kb), p) = read_string(d, pos, "a metadata key")?;
    let (vt, q) = read_u32(d, p, "a metadata type")?;
    let (v, e) = skip_value(d, q, vt, 0)?;
    let key = alignment_key_bytes();
    let next = match v {
        Some(a) => if bytes_eq(d, ka, kb, &key) && a > 0 { a } else { alignment },
        None => alignment,
    };
    Ok((next, e))
}

fn read_dims(d: &[u8], pos: usize, n: u32) -> (r: Result<(u64, usize), Fail>)
    requires
        pos <= d@.len(),
    ensures
        read_as(r, dims(d@, pos as int, n as nat)),
        r matches Ok((_, p)) ==> p <= d@.len(),
{
    let mut elems: u64 = 1;
    let mut p = pos;
    let mut i: u32 = 0;
    while i < n
        invariant
            i <= n,
            p <= d@.len(),
            dims(d@, pos as int, i as nat) == Step::Done(elems, p as int),
        decreases n - i,
    {
        let (dim, q) = match read_u64(d, p, "a tensor shape") {
            Ok(x) => x,
            Err(f) => {
                proof { lemma_dims_stops(d@, pos as int, (i + 1) as nat, n as nat); }
                return Err(f);
            },
        };
        match elems.checked_mul(dim) {
            Some(e) => {
                elems = e;
                p = q;
            },
            None => {
                proof { lemma_dims_stops(d@, pos as int, (i + 1) as nat, n as nat); }
                return Err(Fail::Bad(string_from_str("implausible tensor size")));
            },
        }
        i = i + 1;
    }
    Ok((elems, p))
}

fn saturate(x: u128) -> (r: u64)
    ensures
        r == sat(x as int),
{
    if x > u64::MAX as u128 { u64::MAX } else { x as u64 }
}

fn bytes_of_tensor(elems: u64, t: u32) -> (r: u64)
    ensures
        r == tensor_bytes(elems, t),
{
    match type_layout(t) {
        Some((block, size)) => {
            let e = elems as u128;
            let b = block as u128;
            let q = (e + b - 1) / b;
            assert(q <= e) by (nonlinear_arith)
                requires
                    q as int == (e + b - 1) / (b as int),
                    b >= 1,
            ;
            assert(q * (size as u128) <= e * 292) by (nonlinear_arith)
                requires
                    q <= e,
                    size <= 292,
            ;
            saturate(q * size as u128)
        },
        None => 1,
    }
}

fn read_tensor(d: &[u8], pos: usize, furthest: u64) -> (r: Result<(u64, usize), Fail>)
    requires
        pos <= d@.len(),
    ensures
        read_as(r, tensor(d@, pos as int, furthest)),
        r matches Ok((_, p)) ==> p <= d@.len(),
{
    let (nl, p) = read_string_len(d, pos, "a tensor name")?;
    let (_, p2) = skip(d, p, nl, "a tensor name")?;
    let (nd, p3) = read_u32(d, p2, "a tensor shape")?;
    if nd > MAX_DIMS {
        return Err(Fail::Bad(string_from_str("implausible tensor rank")));
    }
    let (elems, p4) = read_dims(d, p3, nd)?;
    let (t, p5) = read_u32(d, p4, "a tensor type")?;
    let (off, p6) = read_u64(d, p5, "a tensor offset")?;
    let reach = saturate(off as u128 + bytes_of_tensor(elems, t) as u128);
    Ok((if reach > furthest { reach } else { furthest }, p6))
}

fn damaged_ends_inside(what: &'static str) -> (r: GgufIntegrityError)
    ensures
        r matches GgufIntegrityError::HeaderDamaged(m) && m@ == "ends inside "@ + what@,
{
    GgufIntegrityError::HeaderDamaged(concat_str("ends inside ", what))
}

/// Turn a stop of the reader into the check's answer.
fn stopped(f: Fail, d: &[u8], file_len: u64) -> (r: IntegrityCheck)
    ensures
        match f {
            Fail::Short(w) => answers(r, short_verdict(d@, file_len, w@)),
            Fail::Bad(m) => answers(r, Verdict::Damaged(m@)),
        },
{
    match f {
        Fail::Short(w) => {
            if (d.len() as u64) < file_len {
                IntegrityCheck::NeedMore
            } else {
                IntegrityCheck::Complete(Err(damaged_ends_inside(w)))
            }
        },
        Fail::Bad(m) => IntegrityCheck::Complete(Err(GgufIntegrityError::HeaderDamaged(m))),
    }
}

/// Check a GGUF file of `file_len` bytes whose first bytes are `data`: a
/// readable header and tensor table, and a file long enough for every
/// tensor the table describes. Tensor types this build does not know count
/// as one byte, so they can only make the check more lenient.
pub fn check_gguf_prefix(data: &[u8], file_len: u64) -> (r: IntegrityCheck)
    requires
        data@.len() <= file_len,
    ensures
        answers(r, verdict(data@, file_len)),
        data@.len() == file_len ==> r is Complete,
{
    let d = data;
    let (magic, p1) = match read_u32(d, 0, "the magic") {
        Ok(x) => x,
        Err(f) => return stopped(f, d, file_len),
    };
    if magic != GGUF_MAGIC {
        return IntegrityCheck::Complete(Err(GgufIntegrityError::NotGguf));
    }
    let (version, p2) = match read_u32(d, p1, "the version") {
        Ok(x) => x,
        Err(f) => return stopped(f, d, file_len),
    };
    if !(2 <= version && version <= 3) {
        let n = fmt_decimal(version as u64);
        return IntegrityCheck::Complete(Err(GgufIntegrityError::HeaderDamaged(concat_str("unsupported version ", n.as_str()))));
    }
    let (tc, p3) = match read_u64(d, p2, "the tensor count") {
        Ok(x) => x,
        Err(f) => return stopped(f, d, file_len),
    };
    let (kc, p4) = match read_u64(d, p3, "the metadata count") {
        Ok(x) => x,
        Err(f) => return stopped(f, d, file_len),
    };
    if tc > MAX_TENSORS || kc > MAX_KV_PAIRS {
        return IntegrityCheck::Complete(Err(GgufIntegrityError::HeaderDamaged(string_from_str("implausible tensor or metadata count"))));
    }
    let mut alignment: u64 = DEFAULT_ALIGNMENT;
    let mut pos = p4;
    let mut i: u64 = 0;
    assert(!(metadata(d@, p4 as int, kc as nat) is Done) ==> verdict(d@, file_len) == step_verdict(metadata(d@, p4 as int, kc as nat), d@, file_len));
    while i < kc
        invariant
            i <= kc,
            d@ == data@,
            d@.len() <= file_len,
            pos <= d@.len(),
            !(metadata(d@, p4 as int, kc as nat) is Done) ==> verdict(d@, file_len) == step_verdict(metadata(d@, p4 as int, kc as nat), d@, file_len),
            alignment > 0,
            metadata(d@, p4 as int, i as nat) == Step::Done(alignment, pos as int),
        decreases kc - i,
    {
        match read_kv_pair(d, pos, alignment) {
            Ok((a, p)) => {
                alignment = a;
                pos = p;
            },
            Err(f) => {
                assert(fails_as(f, metadata(d@, p4 as int, (i + 1) as nat)));
                assert(metadata(d@, p4 as int, kc as nat) == metadata(d@, p4 as int, (i + 1) as nat)) by {
                    lemma_metadata_stops(d@, p4 as int, (i + 1) as nat, kc as nat);
                }
                return stopped(f, d, file_len);
            },
        }
        i = i + 1;
    }
    let p5 = pos;
    let mut furthest: u64 = 0;
    let mut j: u64 = 0;
    assert(metadata(d@, p4 as int, kc as nat) == Step::Done(alignment, p5 as int));
    assert(!(tensors(d@, p5 as int, tc as nat) is Done) ==> verdict(d@, file_len) == step_verdict(tensors(d@, p5 as int, tc as nat), d@, file_len));
    while j < tc
        invariant
            j <= tc,
            d@ == data@,
            d@.len() <= file_len,
            pos <= d@.len(),
            !(tensors(d@, p5 as int, tc as nat) is Done) ==> verdict(d@, file_len) == step_verdict(tensors(d@, p5 as int, tc as nat), d@, file_len),
            tensors(d@, p5 as int, j as nat) == Step::Done(furthest, pos as int),
        decreases tc - j,
    {
        match read_tensor(d, pos, furthest) {
            Ok((f, p)) => {
                furthest = f;
                pos = p;
            },
            Err(f) => {
                assert(fails_as(f, tensors(d@, p5 as int, (j + 1) as nat)));
                assert(tensors(d@, p5 as int, tc as nat) == tensors(d@, p5 as int, (j + 1) as nat)) by {
                    lemma_tensors_stops(d@, p5 as int, (j + 1) as nat, tc as nat);
                }
                return stopped(f, d, file_len);
            },
        }
        j = j + 1;
    }
    let t = pos as u128;
    let a = alignment as u128;
    let q = (t + a - 1) / a;
    assert(q * a <= t + a - 1) by (nonlinear_arith)
        requires
            q as int == (t + a - 1) / (a as int),
            a >= 1,
    ;
    let start = q * a;
    assert(start as int == data_start(pos as int, alignment));
    let required = saturate(start + furthest as u128);
    if file_len < required {
        IntegrityCheck::Complete(Err(GgufIntegrityError::Truncated { file_bytes: file_len, required_bytes: required }))
    } else {
        IntegrityCheck::Complete(Ok(()))
    }
}

/// Once the key/value pairs stop with a failure, later counts stop with it.
proof fn lemma_metadata_stops(d: Seq<u8>, pos: int, i: nat, n: nat)
    requires
        i <= n,
        !(metadata(d, pos, i) is Done),
    ensures
        metadata(d, pos, n) == metadata(d, pos, i),
    decreases n - i,
{
    if i < n {
        lemma_metadata_stops(d, pos, i, (n - 1) as nat);
    }
}

proof fn lemma_tensors_stops(d: Seq<u8>, pos: int, i: nat, n: nat)
    requires
        i <= n,
        !(tensors(d, pos, i) is Done),
    ensures
        tensors(d, pos, n) == tensors(d, pos, i),
    decreases n - i,
{
    if i < n {
        lemma_tensors_stops(d, pos, i, (n - 1) as nat);
    }
}

} // verus!

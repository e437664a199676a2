//! Unix path components as `std::path::Path` reads them: the final
//! component (`file_name`), the name without its extension (`file_stem`)
//! and the extension itself, specified over `Seq<char>`.
use vstd::prelude::*;
use vstd::slice::slice_subrange;
use crate::text::{chars_of, last_index_of, lemma_last_index_of, rfind_char, string_from};

verus! {

/// Index just past the last `/` in `s`, or 0 when there is none.
pub open spec fn segment_start(s: Seq<char>) -> int {
    match last_index_of(s, '/') {
        Some(i) => i + 1,
        None => 0,
    }
}

/// The final component of a path: trailing separators and `.` components
/// are skipped; a path that ends in `..`, or that has no normal
/// component at its end, has none.
pub open spec fn file_name_of(s: Seq<char>) -> Option<Seq<char>>
    decreases s.len(),
{
    if s.len() == 0 {
        None
    } else if s.last() == '/' {
        file_name_of(s.drop_last())
    } else {
        let start = segment_start(s);
        let seg = s.subrange(start, s.len() as int);
        if is_dot(seg) {
            if 0 <= start < s.len() { file_name_of(s.subrange(0, start)) } else { None }
        } else if is_dot_dot(seg) {
            None
        } else {
            Some(seg)
        }
    }
}

pub open spec fn is_dot(seg: Seq<char>) -> bool {
    seg.len() == 1 && seg[0] == '.'
}

pub open spec fn is_dot_dot(seg: Seq<char>) -> bool {
    seg.len() == 2 && seg[0] == '.' && seg[1] == '.'
}

/// Splits a file name at its last `.`: `(stem, extension)`. A name whose
/// only dot is its first character (`.bashrc`), or `..`, has no extension.
pub open spec fn split_at_dot(name: Seq<char>) -> (Seq<char>, Option<Seq<char>>) {
    if is_dot_dot(name) {
        (name, None)
    } else {
        match last_index_of(name, '.') {
            Some(i) => if i == 0 {
                (name, None)
            } else {
                (name.subrange(0, i), Some(name.subrange(i + 1, name.len() as int)))
            },
            None => (name, None),
        }
    }
}

pub open spec fn file_stem_of(s: Seq<char>) -> Option<Seq<char>> {
    match file_name_of(s) {
        Some(n) => Some(split_at_dot(n).0),
        None => None,
    }
}

pub open spec fn extension_of(s: Seq<char>) -> Option<Seq<char>> {
    match file_name_of(s) {
        Some(n) => split_at_dot(n).1,
        None => None,
    }
}

proof fn lemma_segment_start(s: Seq<char>)
    ensures
        0 <= segment_start(s) <= s.len(),
        forall|j: int| segment_start(s) <= j < s.len() ==> s[j] != '/',
{
    lemma_last_index_of(s, '/');
}

fn segment_start_exec(s: &[char], end: usize) -> (r: usize)
    requires
        end <= s.len(),
    ensures
        r as int == segment_start(s@.subrange(0, end as int)),
{
    let prefix = slice_subrange(s, 0, end);
    proof { lemma_last_index_of(prefix@, '/'); }
    match rfind_char(prefix, '/') {
        Some(i) => i + 1,
        None => 0,
    }
}

/// `Path::file_name` on a slice of characters, as a range `start..end`.
fn file_name_range(s: &[char]) -> (r: Option<(usize, usize)>)
    ensures
        match r {
            Some((a, b)) => a <= b <= s.len() && file_name_of(s@) == Some(s@.subrange(a as int, b as int)),
            None => file_name_of(s@) is None,
        },
{
    let mut end: usize = s.len();
    assert(s@.subrange(0, end as int) =~= s@);
    loop
        invariant
            end <= s.len(),
            file_name_of(s@) == file_name_of(s@.subrange(0, end as int)),
        decreases end,
    {
        let ghost t = s@.subrange(0, end as int);
        if end == 0 {
            return None;
        }
        if s[end - 1] == '/' {
            assert(t.drop_last() =~= s@.subrange(0, end - 1));
            end = end - 1;
        } else {
            let start = segment_start_exec(s, end);
            proof { lemma_segment_start(t); }
            let ghost seg = t.subrange(start as int, t.len() as int);
            assert(seg =~= s@.subrange(start as int, end as int));
            let len = end - start;
            if len == 1 && s[start] == '.' {
                assert(t.subrange(0, start as int) =~= s@.subrange(0, start as int));
                end = start;
            } else if len == 2 && s[start] == '.' && s[start + 1] == '.' {
                return None;
            } else {
                return Some((start, end));
            }
        }
    }
}

/// `Path::new(path).file_name()`.
pub fn file_name(path: &str) -> (r: Option<String>)
    ensures
        match r {
            Some(n) => file_name_of(path@) == Some(n@),
            None => file_name_of(path@) is None,
        },
{
    let v = chars_of(path);
    match file_name_range(&v) {
        Some((a, b)) => Some(string_from(slice_subrange(v.as_slice(), a, b))),
        None => None,
    }
}

fn split_at_dot_exec(name: &[char]) -> (r: (usize, Option<usize>))
    ensures
        r.0 <= name.len(),
        split_at_dot(name@).0 == name@.subrange(0, r.0 as int),
        match r.1 {
            Some(k) => k <= name.len() && split_at_dot(name@).1 == Some(name@.subrange(k as int, name.len() as int)),
            None => split_at_dot(name@).1 is None,
        },
{
    assert(name@.subrange(0, name.len() as int) =~= name@);
    if name.len() == 2 && name[0] == '.' && name[1] == '.' {
        return (name.len(), None);
    }
    proof { lemma_last_index_of(name@, '.'); }
    match rfind_char(name, '.') {
        Some(i) => {
            if i == 0 {
                (name.len(), None)
            } else {
                (i, Some(i + 1))
            }
        },
        None => (name.len(), None),
    }
}

/// `Path::new(path).file_stem()`.
pub fn file_stem(path: &str) -> (r: Option<String>)
    ensures
        match r {
            Some(n) => file_stem_of(path@) == Some(n@),
            None => file_stem_of(path@) is None,
        },
{
    let v = chars_of(path);
    match file_name_range(&v) {
        Some((a, b)) => {
            let name = slice_subrange(v.as_slice(), a, b);
            let (stem_end, _) = split_at_dot_exec(name);
            Some(string_from(slice_subrange(name, 0, stem_end)))
        },
        None => None,
    }
}

/// `Path::new(path).extension()`.
pub fn extension(path: &str) -> (r: Option<String>)
    ensures
        match r {
            Some(n) => extension_of(path@) == Some(n@),
            None => extension_of(path@) is None,
        },
{
    let v = chars_of(path);
    match file_name_range(&v) {
        Some((a, b)) => {
            let name = slice_subrange(v.as_slice(), a, b);
            match split_at_dot_exec(name).1 {
                Some(k) => Some(string_from(slice_subrange(name, k, name.len()))),
                None => None,
            }
        },
        None => None,
    }
}

} // verus!

//! What the library reads of a JSON text: whether it parses, and, for an
//! object, its members, each with its string value when it is a string.
//! Parsing is `serde_json`'s.
use vstd::prelude::*;
use crate::text::{str_eq, opt_str, clone_opt_str};

verus! {

/// A parsed text as the library reads it: `None` when the text is not JSON,
/// `Some(None)` for a value that is not an object, and for an object its
/// members as `(key, Some(s))` where the value is the string `s`, or
/// `(key, None)` for any other value.
pub open spec fn members_view(r: Option<Option<Vec<(String, Option<String>)>>>) -> Option<Option<Seq<(Seq<char>, Option<Seq<char>>)>>> {
    match r {
        None => None,
        Some(None) => Some(None),
        Some(Some(ms)) => Some(Some(ms@.map_values(|m: (String, Option<String>)| member_view(m)))),
    }
}

pub open spec fn member_view(m: (String, Option<String>)) -> (Seq<char>, Option<Seq<char>>) {
    (m.0@, opt_str(m.1))
}

/// What `serde_json::from_str::<serde_json::Value>` makes of a text, read as
/// in `members_view`.
pub uninterp spec fn json_members(text: Seq<char>) -> Option<Option<Seq<(Seq<char>, Option<Seq<char>>)>>>;

/// Parses `text` with `serde_json::from_str::<serde_json::Value>` and, for an
/// object, lists its members (`serde_json::Map::iter`) with the string value
/// of each (`Value::as_str`). The contract names the result and claims
/// nothing more of it.
#[verifier::external_body]
pub(crate) fn parse_json_members(text: &str) -> (r: Option<Option<Vec<(String, Option<String>)>>>)
    ensures
        members_view(r) == json_members(text@),
{
    match serde_json::from_str::<serde_json::Value>(text) {
        Err(_) => None,
        Ok(serde_json::Value::Object(map)) => Some(Some(
            map.iter().map(|(k, v)| (k.clone(), v.as_str().map(|s| s.to_string()))).collect(),
        )),
        Ok(_) => Some(None),
    }
}

/// Whether `text` parses as JSON.
pub open spec fn is_json(text: Seq<char>) -> bool {
    json_members(text) is Some
}

/// The value kept for member `key`: the first member with that key.
pub open spec fn member(ms: Seq<(Seq<char>, Option<Seq<char>>)>, key: Seq<char>) -> Option<Option<Seq<char>>>
    decreases ms.len(),
{
    if ms.len() == 0 {
        None
    } else if ms[0].0 == key {
        Some(ms[0].1)
    } else {
        member(ms.drop_first(), key)
    }
}

/// The object's member `key` in a parse result: `None` when the text is not
/// an object or has no such member.
pub open spec fn object_member(parsed: Option<Option<Seq<(Seq<char>, Option<Seq<char>>)>>>, key: Seq<char>) -> Option<Option<Seq<char>>> {
    match parsed {
        Some(Some(ms)) => member(ms, key),
        _ => None,
    }
}

/// The value of member `key` among parsed members.
pub fn get_member<'a>(members: &'a Vec<(String, Option<String>)>, key: &str) -> (r: Option<&'a Option<String>>)
    ensures
        match r {
            Some(v) => member(members@.map_values(|m: (String, Option<String>)| member_view(m)), key@)
                == Some(opt_str(*v)),
            None => member(members@.map_values(|m: (String, Option<String>)| member_view(m)), key@) is None,
        },
{
    let ghost ms = members@.map_values(|m: (String, Option<String>)| member_view(m));
    let mut i: usize = 0;
    assert(ms.subrange(0, ms.len() as int) =~= ms);
    while i < members.len()
        invariant
            i <= members@.len(),
            ms.len() == members@.len(),
            ms == members@.map_values(|m: (String, Option<String>)| member_view(m)),
            member(ms, key@) == member(ms.subrange(i as int, ms.len() as int), key@),
        decreases members.len() - i,
    {
        let ghost rest = ms.subrange(i as int, ms.len() as int);
        assert(rest.drop_first() =~= ms.subrange(i + 1, ms.len() as int));
        assert(rest[0] == member_view(members@[i as int]));
        if str_eq(members[i].0.as_str(), key) {
            return Some(&members[i].1);
        }
        i = i + 1;
    }
    None
}

/// Reads member `key` of a parsed text as the library uses it.
pub fn object_member_of(parsed: &Option<Option<Vec<(String, Option<String>)>>>, key: &str) -> (r: Option<Option<String>>)
    ensures
        match r {
            None => object_member(members_view(*parsed), key@) is None,
            Some(v) => object_member(members_view(*parsed), key@) == Some(opt_str(v)),
        },
{
    match parsed {
        Some(Some(ms)) => match get_member(ms, key) {
            Some(v) => Some(clone_opt_str(v)),
            None => None,
        },
        _ => None,
    }
}

/// The kind of a JSON value, with the value of strings and of numbers that
/// are non-negative integers fitting 64 bits (`Value::as_u64`).
#[derive(Debug, Clone)]
pub enum JsonKind {
    Null,
    Bool(bool),
    Number(Option<u64>),
    Str(String),
    Array,
    Object,
}

pub ghost enum KindView {
    Null,
    Bool(bool),
    Number(Option<u64>),
    Str(Seq<char>),
    Array,
    Object,
}

pub open spec fn kind_view(k: JsonKind) -> KindView {
    match k {
        JsonKind::Null => KindView::Null,
        JsonKind::Bool(b) => KindView::Bool(b),
        JsonKind::Number(n) => KindView::Number(n),
        JsonKind::Str(s) => KindView::Str(s@),
        JsonKind::Array => KindView::Array,
        JsonKind::Object => KindView::Object,
    }
}

pub open spec fn lookup_view(r: Option<Option<JsonKind>>) -> Option<Option<KindView>> {
    match r {
        None => None,
        Some(None) => Some(None),
        Some(Some(k)) => Some(Some(kind_view(k))),
    }
}

/// What `serde_json::from_str::<serde_json::Value>` followed by
/// `Value::pointer` gives for a text and a JSON pointer: `None` when the
/// text is not JSON, `Some(None)` when nothing is at the pointer.
pub uninterp spec fn json_at(text: Seq<char>, pointer: Seq<char>) -> Option<Option<KindView>>;

/// Parses `text` (`serde_json::from_str::<serde_json::Value>`) and looks up
/// `pointer` in it (`Value::pointer`), reporting the kind of what is there.
/// The contract names the result and claims nothing more of it.
#[verifier::external_body]
pub(crate) fn json_lookup(text: &str, pointer: &str) -> (r: Option<Option<JsonKind>>)
    ensures
        lookup_view(r) == json_at(text@, pointer@),
{
    match serde_json::from_str::<serde_json::Value>(text) {
        Err(_) => None,
        Ok(v) => Some(v.pointer(pointer).map(|x| match x {
            serde_json::Value::Null => JsonKind::Null,
            serde_json::Value::Bool(b) => JsonKind::Bool(*b),
            serde_json::Value::Number(n) => JsonKind::Number(n.as_u64()),
            serde_json::Value::String(s) => JsonKind::Str(s.clone()),
            serde_json::Value::Array(_) => JsonKind::Array,
            serde_json::Value::Object(_) => JsonKind::Object,
        })),
    }
}

/// Something is at `pointer`.
pub open spec fn present_at(text: Seq<char>, pointer: Seq<char>) -> bool {
    json_at(text, pointer) matches Some(Some(_))
}

/// The string at `pointer`, if a string is there.
pub open spec fn str_at(text: Seq<char>, pointer: Seq<char>) -> Option<Seq<char>> {
    match json_at(text, pointer) {
        Some(Some(KindView::Str(s))) => Some(s),
        _ => None,
    }
}

/// The unsigned integer at `pointer`, if one is there.
pub open spec fn u64_at(text: Seq<char>, pointer: Seq<char>) -> Option<u64> {
    match json_at(text, pointer) {
        Some(Some(KindView::Number(Some(n)))) => Some(n),
        _ => None,
    }
}

pub fn present_at_exec(text: &str, pointer: &str) -> (r: bool)
    ensures
        r == present_at(text@, pointer@),
{
    match json_lookup(text, pointer) {
        Some(Some(_)) => true,
        _ => false,
    }
}

pub fn str_at_exec(text: &str, pointer: &str) -> (r: Option<String>)
    ensures
        opt_str(r) == str_at(text@, pointer@),
{
    match json_lookup(text, pointer) {
        Some(Some(JsonKind::Str(s))) => Some(s),
        _ => None,
    }
}

pub fn u64_at_exec(text: &str, pointer: &str) -> (r: Option<u64>)
    ensures
        r == u64_at(text@, pointer@),
{
    match json_lookup(text, pointer) {
        Some(Some(JsonKind::Number(Some(n)))) => Some(n),
        _ => None,
    }
}

} // verus!

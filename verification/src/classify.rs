//! Where a model actually put its tool call, if anywhere: in the structured
//! `tool_calls` field, as a tool-call-shaped JSON blob dumped into the plain
//! content, leaked into the reasoning text, or nowhere.
//!
//! The scan of free text looks at `<tool_call>...</tool_call>` tags, then at
//! fenced ```` ```json ```` blocks, then at balanced `{...}` spans, and takes
//! the first candidate that parses as a JSON object with a string `name` and
//! an `arguments` or `parameters` member.
use vstd::prelude::*;
use vstd::slice::slice_subrange;
use crate::chat::{ChatMessage, Content, ContentPart, ToolCall, calls_view, clone_tool_calls};
use crate::json::{is_json, json_members, members_view, object_member, object_member_of, parse_json_members};
use crate::text::{
    chars_of, concat_str, find, first_occurrence, join, join_strings, lemma_first_occurrence, opt_str,
    str_is_empty, string_from, string_from_str, strings_view, trim, trim_range,
};

verus! {

#[derive(Debug, Clone, Copy, PartialEq, Eq, Structural)]
pub enum ToolCallLocation {
    /// `message.tool_calls` is populated (well-formed or not; see `notes`).
    StructuredToolCalls,
    /// No structured call, but `content` holds a tool-call-shaped JSON blob.
    PlainTextJsonDump,
    /// No structured call, but `reasoning_content` holds one.
    LeakedIntoReasoning,
    /// Neither.
    NoToolCallDetected,
}

#[derive(Debug, Clone)]
pub struct ToolCallClassification {
    pub location: ToolCallLocation,
    /// Present only for `StructuredToolCalls`.
    pub structured_tool_calls: Option<Vec<ToolCall>>,
    /// The tool-call-shaped text found by the scan of content or reasoning.
    pub detected_json_snippet: Option<String>,
    pub content_present: bool,
    pub reasoning_present: bool,
    /// Diagnostic notes, such as arguments that are not JSON.
    pub notes: Vec<String>,
}

impl ToolCallClassification {
    /// The classification of a message that is not there at all.
    pub fn nothing() -> (r: ToolCallClassification)
        ensures
            r.location == ToolCallLocation::NoToolCallDetected,
            r.structured_tool_calls is None,
            r.detected_json_snippet is None,
            !r.content_present,
            !r.reasoning_present,
            r.notes@.len() == 0,
    {
        ToolCallClassification {
            location: ToolCallLocation::NoToolCallDetected,
            structured_tool_calls: None,
            detected_json_snippet: None,
            content_present: false,
            reasoning_present: false,
            notes: Vec::new(),
        }
    }
}

// ---------------------------------------------------------------- text of a message

/// The texts of the text parts, in order.
pub open spec fn part_texts(ps: Seq<ContentPart>) -> Seq<Seq<char>>
    decreases ps.len(),
{
    if ps.len() == 0 {
        seq![]
    } else {
        part_texts(ps.drop_last()) + match ps.last() {
            ContentPart::Text { text } => seq![text@],
            ContentPart::ImageUrl { .. } => seq![],
        }
    }
}

/// The text of a message's content: the text itself, or the text parts
/// joined by newlines (`None` when that is empty).
pub open spec fn content_text(c: Option<Content>) -> Option<Seq<char>> {
    match c {
        None => None,
        Some(Content::Text(s)) => Some(s@),
        Some(Content::Parts(ps)) => {
            let j = join(part_texts(ps@), "\n"@);
            if j.len() == 0 { None } else { Some(j) }
        },
    }
}

pub fn extract_text(content: &Option<Content>) -> (r: Option<String>)
    ensures
        opt_str(r) == content_text(*content),
{
    match content {
        None => None,
        Some(Content::Text(s)) => Some(s.clone()),
        Some(Content::Parts(parts)) => {
            let mut texts: Vec<String> = Vec::new();
            let mut i: usize = 0;
            while i < parts.len()
                invariant
                    i <= parts@.len(),
                    strings_view(texts@) == part_texts(parts@.subrange(0, i as int)),
                decreases parts.len() - i,
            {
                assert(parts@.subrange(0, i + 1).drop_last() =~= parts@.subrange(0, i as int));
                match &parts[i] {
                    ContentPart::Text { text } => {
                        texts.push(text.clone());
                    },
                    ContentPart::ImageUrl { .. } => {},
                }
                i = i + 1;
                assert(strings_view(texts@) =~= part_texts(parts@.subrange(0, i as int)));
            }
            assert(parts@.subrange(0, parts@.len() as int) =~= parts@);
            let joined = join_strings(texts.as_slice(), "\n");
            if str_is_empty(joined.as_str()) {
                None
            } else {
                Some(joined)
            }
        },
    }
}

// ---------------------------------------------------------------- candidates

/// The trimmed insides of `open ... close` pairs from position `pos` on,
/// each search starting after the previous close.
pub open spec fn tagged_from(s: Seq<char>, pos: int, open: Seq<char>, close: Seq<char>) -> Seq<Seq<char>>
    decreases s.len() - pos,
{
    if open.len() == 0 || pos < 0 || pos > s.len() {
        seq![]
    } else {
        let rest = s.subrange(pos, s.len() as int);
        match first_occurrence(rest, open) {
            None => seq![],
            Some(start) => {
                let a = pos + start + open.len();
                let after = s.subrange(a, s.len() as int);
                match first_occurrence(after, close) {
                    None => seq![],
                    Some(end) => {
                        proof {
                            lemma_first_occurrence(rest, open);
                            lemma_first_occurrence(after, close);
                        }
                        seq![trim(s.subrange(a, a + end))] + tagged_from(s, a + end + close.len(), open, close)
                    },
                }
            },
        }
    }
}

#[verifier::rlimit(60)]
fn tagged_candidates(s: &[char], open: &[char], close: &[char]) -> (r: Vec<String>)
    ensures
        strings_view(r@) == tagged_from(s@, 0, open@, close@),
{
    let mut out: Vec<String> = Vec::new();
    if open.len() == 0 {
        return out;
    }
    let mut pos: usize = 0;
    assert(strings_view(out@) + tagged_from(s@, 0, open@, close@) =~= tagged_from(s@, 0, open@, close@));
    loop
        invariant
            pos <= s.len(),
            open@.len() > 0,
            strings_view(out@) + tagged_from(s@, pos as int, open@, close@) == tagged_from(s@, 0, open@, close@),
        ensures
            strings_view(out@) == tagged_from(s@, 0, open@, close@),
        decreases s.len() - pos,
    {
        let ghost before = strings_view(out@);
        let rest = slice_subrange(s, pos, s.len());
        match find(rest, open) {
            None => {
                assert(before =~= before + Seq::<Seq<char>>::empty());
                break;
            },
            Some(start) => {
                proof { lemma_first_occurrence(rest@, open@); }
                let a = pos + start + open.len();
                let after = slice_subrange(s, a, s.len());
                match find(after, close) {
                    None => {
                        assert(before =~= before + Seq::<Seq<char>>::empty());
                        break;
                    },
                    Some(end) => {
                        proof { lemma_first_occurrence(after@, close@); }
                        let inner = slice_subrange(s, a, a + end);
                        let (x, y) = trim_range(inner);
                        let piece = string_from(slice_subrange(inner, x, y));
                        let ghost tail = tagged_from(s@, (a + end + close.len()) as int, open@, close@);
                        assert(tagged_from(s@, pos as int, open@, close@) == seq![piece@] + tail);
                        out.push(piece);
                        pos = a + end + close.len();
                        assert(strings_view(out@) =~= before + seq![piece@]);
                        assert(before + seq![piece@] + tail =~= before + (seq![piece@] + tail));
                    },
                }
            },
        }
    }
    out
}

/// The index of the `}` that closes the `{` at `i`'s enclosing scan, given
/// the nesting depth and string state so far; quoted text (with `\`
/// escapes) does not count.
pub open spec fn match_from(s: Seq<char>, i: int, depth: int, in_string: bool, escaped: bool) -> Option<int>
    decreases s.len() - i,
{
    if i < 0 || i >= s.len() {
        None
    } else {
        let c = s[i];
        if in_string {
            if escaped {
                match_from(s, i + 1, depth, true, false)
            } else if c == '\\' {
                match_from(s, i + 1, depth, true, true)
            } else if c == '"' {
                match_from(s, i + 1, depth, false, false)
            } else {
                match_from(s, i + 1, depth, true, false)
            }
        } else if c == '"' {
            match_from(s, i + 1, depth, true, escaped)
        } else if c == '{' {
            match_from(s, i + 1, depth + 1, false, escaped)
        } else if c == '}' {
            if depth - 1 == 0 {
                Some(i)
            } else {
                match_from(s, i + 1, depth - 1, false, escaped)
            }
        } else {
            match_from(s, i + 1, depth, false, escaped)
        }
    }
}

/// The index of the brace that closes the one at `open`.
pub open spec fn matching_brace(s: Seq<char>, open: int) -> Option<int> {
    match_from(s, open, 0, false, false)
}

pub proof fn lemma_match_from_range(s: Seq<char>, i: int, depth: int, in_string: bool, escaped: bool)
    ensures
        match_from(s, i, depth, in_string, escaped) matches Some(e) ==> i <= e < s.len(),
    decreases s.len() - i,
{
    if 0 <= i < s.len() {
        let c = s[i];
        if in_string {
            if escaped {
                lemma_match_from_range(s, i + 1, depth, true, false);
            } else if c == '\\' {
                lemma_match_from_range(s, i + 1, depth, true, true);
            } else if c == '"' {
                lemma_match_from_range(s, i + 1, depth, false, false);
            } else {
                lemma_match_from_range(s, i + 1, depth, true, false);
            }
        } else if c == '"' {
            lemma_match_from_range(s, i + 1, depth, true, escaped);
        } else if c == '{' {
            lemma_match_from_range(s, i + 1, depth + 1, false, escaped);
        } else if c == '}' {
            lemma_match_from_range(s, i + 1, depth - 1, false, escaped);
        } else {
            lemma_match_from_range(s, i + 1, depth, false, escaped);
        }
    }
}

fn find_matching_brace(s: &[char], open: usize) -> (r: Option<usize>)
    requires
        open < s.len(),
        s@[open as int] == '{',
    ensures
        match r {
            Some(e) => matching_brace(s@, open as int) == Some(e as int) && open <= e < s.len(),
            None => matching_brace(s@, open as int) is None,
        },
{
    let mut depth: usize = 0;
    let mut in_string = false;
    let mut escaped = false;
    let mut i: usize = open;
    while i < s.len()
        invariant
            open <= i <= s.len(),
            open < s.len(),
            s@[open as int] == '{',
            depth <= i - open,
            i > open ==> depth >= 1,
            i == open ==> (depth == 0 && !in_string && !escaped),
            matching_brace(s@, open as int) == match_from(s@, i as int, depth as int, in_string, escaped),
        decreases s.len() - i,
    {
        let c = s[i];
        if in_string {
            if escaped {
                escaped = false;
            } else if c == '\\' {
                escaped = true;
            } else if c == '"' {
                in_string = false;
            }
        } else if c == '"' {
            in_string = true;
        } else if c == '{' {
            depth = depth + 1;
        } else if c == '}' {
            if depth - 1 == 0 {
                proof { lemma_match_from_range(s@, open as int, 0, false, false); }
                return Some(i);
            }
            depth = depth - 1;
        }
        i = i + 1;
    }
    None
}

/// The balanced `{...}` spans from position `i` on, each scan resuming
/// after the previous span.
pub open spec fn brace_spans_from(s: Seq<char>, i: int) -> Seq<Seq<char>>
    decreases s.len() - i,
{
    if i < 0 || i >= s.len() {
        seq![]
    } else if s[i] == '{' && matching_brace(s, i) is Some {
        let end = matching_brace(s, i)->0;
        proof { lemma_match_from_range(s, i, 0, false, false); }
        seq![s.subrange(i, end + 1)] + brace_spans_from(s, end + 1)
    } else {
        brace_spans_from(s, i + 1)
    }
}

fn balanced_brace_spans(s: &[char]) -> (r: Vec<String>)
    ensures
        strings_view(r@) == brace_spans_from(s@, 0),
{
    let mut out: Vec<String> = Vec::new();
    let mut i: usize = 0;
    assert(strings_view(out@) + brace_spans_from(s@, 0) =~= brace_spans_from(s@, 0));
    while i < s.len()
        invariant
            i <= s.len(),
            strings_view(out@) + brace_spans_from(s@, i as int) == brace_spans_from(s@, 0),
        decreases s.len() - i,
    {
        let ghost before = strings_view(out@);
        if s[i] == '{' {
            match find_matching_brace(s, i) {
                Some(end) => {
                    let piece = string_from(slice_subrange(s, i, end + 1));
                    let ghost tail = brace_spans_from(s@, end + 1);
                    assert(brace_spans_from(s@, i as int) == seq![piece@] + tail);
                    out.push(piece);
                    i = end + 1;
                    assert(strings_view(out@) =~= before + seq![piece@]);
                    assert(before + seq![piece@] + tail =~= before + (seq![piece@] + tail));
                    continue;
                },
                None => {},
            }
        }
        i = i + 1;
    }
    assert(strings_view(out@) =~= strings_view(out@) + brace_spans_from(s@, i as int));
    out
}

// ---------------------------------------------------------------- tool-call shape

/// A parse result is tool-call-shaped: an object with a string `name` and an
/// `arguments` or `parameters` member.
pub open spec fn shaped(parsed: Option<Option<Seq<(Seq<char>, Option<Seq<char>>)>>>) -> bool {
    &&& object_member(parsed, "name"@) matches Some(Some(_))
    &&& (object_member(parsed, "arguments"@) is Some || object_member(parsed, "parameters"@) is Some)
}

pub open spec fn is_shaped_text(c: Seq<char>) -> bool {
    shaped(json_members(c))
}

/// Whether a parsed text is tool-call-shaped.
pub fn tool_call_shape(parsed: &Option<Option<Vec<(String, Option<String>)>>>) -> (r: bool)
    ensures
        r == shaped(members_view(*parsed)),
{
    let has_name = match object_member_of(parsed, "name") {
        Some(Some(_)) => true,
        _ => false,
    };
    let has_args = object_member_of(parsed, "arguments").is_some() || object_member_of(parsed, "parameters").is_some();
    has_name && has_args
}

/// Whether `candidate` parses as a tool-call-shaped JSON object.
pub fn is_tool_call_shaped(candidate: &str) -> (r: bool)
    ensures
        r == is_shaped_text(candidate@),
{
    let parsed = parse_json_members(candidate);
    tool_call_shape(&parsed)
}

/// The first tool-call-shaped candidate.
pub open spec fn first_shaped(cs: Seq<Seq<char>>) -> Option<Seq<char>>
    decreases cs.len(),
{
    if cs.len() == 0 {
        None
    } else if is_shaped_text(cs[0]) {
        Some(cs[0])
    } else {
        first_shaped(cs.drop_first())
    }
}

/// The candidates of a text, in the order they are tried.
pub open spec fn candidates(text: Seq<char>) -> Seq<Seq<char>> {
    tagged_from(text, 0, "<tool_call>"@, "</tool_call>"@) + tagged_from(text, 0, "```json"@, "```"@)
        + brace_spans_from(text, 0)
}

/// The tool-call-shaped snippet that the scan finds in a text, if any.
pub open spec fn tool_call_snippet(text: Seq<char>) -> Option<Seq<char>> {
    first_shaped(candidates(text))
}

proof fn lemma_first_shaped_append(a: Seq<Seq<char>>, b: Seq<Seq<char>>)
    ensures
        first_shaped(a + b) == (if first_shaped(a) is Some { first_shaped(a) } else { first_shaped(b) }),
    decreases a.len(),
{
    if a.len() == 0 {
        assert(a + b =~= b);
    } else {
        assert((a + b).drop_first() =~= a.drop_first() + b);
        lemma_first_shaped_append(a.drop_first(), b);
    }
}

fn first_shaped_in(cs: &Vec<String>) -> (r: Option<String>)
    ensures
        opt_str(r) == first_shaped(strings_view(cs@)),
{
    let ghost all = strings_view(cs@);
    let mut i: usize = 0;
    assert(all.subrange(0, all.len() as int) =~= all);
    while i < cs.len()
        invariant
            i <= cs@.len(),
            all == strings_view(cs@),
            all.len() == cs@.len(),
            first_shaped(all) == first_shaped(all.subrange(i as int, all.len() as int)),
        decreases cs.len() - i,
    {
        let ghost rest = all.subrange(i as int, all.len() as int);
        assert(rest.drop_first() =~= all.subrange(i + 1, all.len() as int));
        assert(rest[0] == cs@[i as int]@);
        if is_tool_call_shaped(cs[i].as_str()) {
            return Some(cs[i].clone());
        }
        i = i + 1;
    }
    None
}

/// Looks for a tool-call-shaped JSON blob in free text: first inside
/// `<tool_call>` tags and ```` ```json ```` fences, then among balanced brace
/// spans.
pub fn find_tool_call_shaped_json(text: &str) -> (r: Option<String>)
    ensures
        opt_str(r) == tool_call_snippet(text@),
{
    let v = chars_of(text);
    let tag_open = chars_of("<tool_call>");
    let tag_close = chars_of("</tool_call>");
    let fence_open = chars_of("```json");
    let fence_close = chars_of("```");
    let tagged = tagged_candidates(v.as_slice(), tag_open.as_slice(), tag_close.as_slice());
    let fenced = tagged_candidates(v.as_slice(), fence_open.as_slice(), fence_close.as_slice());
    let spans = balanced_brace_spans(v.as_slice());
    proof {
        lemma_first_shaped_append(strings_view(tagged@), strings_view(fenced@));
        lemma_first_shaped_append(strings_view(tagged@) + strings_view(fenced@), strings_view(spans@));
    }
    let a = first_shaped_in(&tagged);
    if a.is_some() {
        return a;
    }
    let b = first_shaped_in(&fenced);
    if b.is_some() {
        return b;
    }
    first_shaped_in(&spans)
}

// ---------------------------------------------------------------- classification

/// The structured calls of a message, when there is at least one.
pub open spec fn structured_calls(m: ChatMessage) -> Option<Seq<ToolCall>> {
    match m.tool_calls {
        Some(cs) => if cs@.len() > 0 { Some(cs@) } else { None },
        None => None,
    }
}

pub open spec fn arg_note(name: Seq<char>) -> Seq<char> {
    "tool call '"@ + name + "' has non-JSON arguments string"@
}

/// One note for each call whose arguments are not JSON, in order.
pub open spec fn arg_notes(calls: Seq<ToolCall>) -> Seq<Seq<char>>
    decreases calls.len(),
{
    if calls.len() == 0 {
        seq![]
    } else {
        arg_notes(calls.drop_last()) + if is_json(calls.last().function.arguments@) {
            Seq::<Seq<char>>::empty()
        } else {
            seq![arg_note(calls.last().function.name@)]
        }
    }
}

pub open spec fn plain_dump_note() -> Seq<char> {
    "model emitted a tool-call-shaped JSON blob as plain content instead of message.tool_calls; a tool-calling harness will not see this as a call"@
}

pub open spec fn reasoning_leak_note() -> Seq<char> {
    "tool-call-shaped JSON found inside reasoning_content; the model reasoned about calling a tool but never emitted a structured call"@
}

/// Where the message's tool call is: structured calls first, then the scan
/// of the content text, then the scan of the reasoning text.
pub open spec fn location_of(m: ChatMessage) -> ToolCallLocation {
    if structured_calls(m) is Some {
        ToolCallLocation::StructuredToolCalls
    } else if content_text(m.content) matches Some(t) && tool_call_snippet(t) is Some {
        ToolCallLocation::PlainTextJsonDump
    } else if opt_str(m.reasoning_content) matches Some(t) && tool_call_snippet(t) is Some {
        ToolCallLocation::LeakedIntoReasoning
    } else {
        ToolCallLocation::NoToolCallDetected
    }
}

pub open spec fn snippet_of(m: ChatMessage) -> Option<Seq<char>> {
    match location_of(m) {
        ToolCallLocation::PlainTextJsonDump => tool_call_snippet(content_text(m.content)->0),
        ToolCallLocation::LeakedIntoReasoning => tool_call_snippet(opt_str(m.reasoning_content)->0),
        _ => None,
    }
}

pub open spec fn notes_of(m: ChatMessage) -> Seq<Seq<char>> {
    match location_of(m) {
        ToolCallLocation::StructuredToolCalls => arg_notes(structured_calls(m)->0),
        ToolCallLocation::PlainTextJsonDump => seq![plain_dump_note()],
        ToolCallLocation::LeakedIntoReasoning => seq![reasoning_leak_note()],
        ToolCallLocation::NoToolCallDetected => seq![],
    }
}

pub open spec fn non_empty_text(t: Option<Seq<char>>) -> bool {
    t matches Some(s) && s.len() > 0
}

/// `c` is the classification of message `m`.
pub open spec fn classifies(c: ToolCallClassification, m: ChatMessage) -> bool {
    &&& c.location == location_of(m)
    &&& opt_str(c.detected_json_snippet) == snippet_of(m)
    &&& strings_view(c.notes@) == notes_of(m)
    &&& c.content_present == non_empty_text(content_text(m.content))
    &&& c.reasoning_present == non_empty_text(opt_str(m.reasoning_content))
    &&& match c.structured_tool_calls {
        Some(cs) => structured_calls(m) matches Some(orig) && calls_view(cs@) == calls_view(orig),
        None => structured_calls(m) is None,
    }
}

proof fn lemma_first_shaped_is_shaped(cs: Seq<Seq<char>>)
    ensures
        first_shaped(cs) matches Some(t) ==> is_shaped_text(t),
    decreases cs.len(),
{
    if cs.len() > 0 && !is_shaped_text(cs[0]) {
        lemma_first_shaped_is_shaped(cs.drop_first());
    }
}

/// A classification is consistent with itself: structured calls are kept
/// exactly when the call is structured; a snippet is reported exactly when
/// the call was found by the text scan, and it is tool-call-shaped JSON
/// from the text where it was found; a message with no call found carries
/// no notes, and a text dump or a reasoning leak carries one.
pub proof fn lemma_classification_consistent(c: ToolCallClassification, m: ChatMessage)
    requires
        classifies(c, m),
    ensures
        (c.structured_tool_calls is Some) <==> c.location == ToolCallLocation::StructuredToolCalls,
        (c.detected_json_snippet is Some) <==> (c.location == ToolCallLocation::PlainTextJsonDump
            || c.location == ToolCallLocation::LeakedIntoReasoning),
        c.detected_json_snippet matches Some(s) ==> is_shaped_text(s@),
        c.location == ToolCallLocation::PlainTextJsonDump
            ==> opt_str(c.detected_json_snippet) == tool_call_snippet(content_text(m.content)->0),
        c.location == ToolCallLocation::LeakedIntoReasoning
            ==> opt_str(c.detected_json_snippet) == tool_call_snippet(opt_str(m.reasoning_content)->0),
        c.location == ToolCallLocation::NoToolCallDetected ==> c.notes@.len() == 0,
        (c.location == ToolCallLocation::PlainTextJsonDump || c.location == ToolCallLocation::LeakedIntoReasoning)
            ==> c.notes@.len() == 1,
{
    let loc = location_of(m);
    assert(c.detected_json_snippet matches Some(x) ==> is_shaped_text(x@)) by {
        if loc == ToolCallLocation::PlainTextJsonDump {
            lemma_snippet_shaped(content_text(m.content)->0);
        } else if loc == ToolCallLocation::LeakedIntoReasoning {
            lemma_snippet_shaped(opt_str(m.reasoning_content)->0);
        }
    }
    assert(strings_view(c.notes@).len() == c.notes@.len());
}

proof fn lemma_snippet_shaped(t: Seq<char>)
    ensures
        tool_call_snippet(t) matches Some(x) ==> is_shaped_text(x),
{
    lemma_first_shaped_is_shaped(candidates(t));
}

fn arg_notes_of(calls: &Vec<ToolCall>) -> (r: Vec<String>)
    ensures
        strings_view(r@) == arg_notes(calls@),
{
    let mut notes: Vec<String> = Vec::new();
    let mut i: usize = 0;
    while i < calls.len()
        invariant
            i <= calls@.len(),
            strings_view(notes@) == arg_notes(calls@.subrange(0, i as int)),
        decreases calls.len() - i,
    {
        let ghost pre = calls@.subrange(0, i + 1);
        assert(pre.drop_last() =~= calls@.subrange(0, i as int));
        let parsed = parse_json_members(calls[i].function.arguments.as_str());
        if parsed.is_none() {
            let a = concat_str("tool call '", calls[i].function.name.as_str());
            let note = concat_str(a.as_str(), "' has non-JSON arguments string");
            notes.push(note);
        }
        i = i + 1;
        assert(strings_view(notes@) =~= arg_notes(calls@.subrange(0, i as int)));
    }
    assert(calls@.subrange(0, calls@.len() as int) =~= calls@);
    notes
}

/// Classifies one response message: structured `tool_calls` first (kept as
/// structured even when their arguments are not JSON, which is noted), then
/// the content text, then the reasoning text.
#[verifier::rlimit(60)]
pub fn classify_message(message: &ChatMessage) -> (r: ToolCallClassification)
    ensures
        classifies(r, *message),
{
    let content_text_v = extract_text(&message.content);
    let content_present = match &content_text_v {
        Some(s) => !str_is_empty(s.as_str()),
        None => false,
    };
    let reasoning_present = match &message.reasoning_content {
        Some(s) => !str_is_empty(s.as_str()),
        None => false,
    };

    match &message.tool_calls {
        Some(calls) => {
            if calls.len() > 0 {
                let notes = arg_notes_of(calls);
                return ToolCallClassification {
                    location: ToolCallLocation::StructuredToolCalls,
                    structured_tool_calls: Some(clone_tool_calls(calls)),
                    detected_json_snippet: None,
                    content_present,
                    reasoning_present,
                    notes,
                };
            }
        },
        None => {},
    }

    match &content_text_v {
        Some(text) => {
            match find_tool_call_shaped_json(text.as_str()) {
                Some(snippet) => {
                    let mut notes: Vec<String> = Vec::new();
                    notes.push(string_from_str(
                        "model emitted a tool-call-shaped JSON blob as plain content instead of message.tool_calls; a tool-calling harness will not see this as a call",
                    ));
                    assert(strings_view(notes@) =~= seq![plain_dump_note()]);
                    return ToolCallClassification {
                        location: ToolCallLocation::PlainTextJsonDump,
                        structured_tool_calls: None,
                        detected_json_snippet: Some(snippet),
                        content_present,
                        reasoning_present,
                        notes,
                    };
                },
                None => {},
            }
        },
        None => {},
    }

    match &message.reasoning_content {
        Some(text) => {
            match find_tool_call_shaped_json(text.as_str()) {
                Some(snippet) => {
                    let mut notes: Vec<String> = Vec::new();
                    notes.push(string_from_str(
                        "tool-call-shaped JSON found inside reasoning_content; the model reasoned about calling a tool but never emitted a structured call",
                    ));
                    assert(strings_view(notes@) =~= seq![reasoning_leak_note()]);
                    return ToolCallClassification {
                        location: ToolCallLocation::LeakedIntoReasoning,
                        structured_tool_calls: None,
                        detected_json_snippet: Some(snippet),
                        content_present,
                        reasoning_present,
                        notes,
                    };
                },
                None => {},
            }
        },
        None => {},
    }

    let notes: Vec<String> = Vec::new();
    assert(strings_view(notes@) =~= Seq::<Seq<char>>::empty());
    ToolCallClassification {
        location: ToolCallLocation::NoToolCallDetected,
        structured_tool_calls: None,
        detected_json_snippet: None,
        content_present,
        reasoning_present,
        notes,
    }
}

} // verus!

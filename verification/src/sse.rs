//! Reading a server-sent-event stream from a backend: bytes arrive in
//! arbitrary pieces, complete lines are taken off the front, and each
//! `data:` line yields its payload until `data: [DONE]`. Decoding a payload
//! as JSON is the caller's.
use vstd::prelude::*;
use crate::text::{has_prefix, str_eq, str_starts_with, string_from, chars_of, trim, trim_str};

verus! {

/// What `String::from_utf8_lossy` makes of a byte string: its UTF-8 text,
/// each invalid sequence replaced by U+FFFD.
pub uninterp spec fn utf8_lossy_text(bytes: Seq<u8>) -> Seq<char>;

/// `String::from_utf8_lossy`.
#[verifier::external_body]
fn decode_utf8_lossy(bytes: &[u8]) -> (r: String)
    ensures
        r@ == utf8_lossy_text(bytes@),
{
    String::from_utf8_lossy(bytes).into_owned()
}

/// The index of the first newline byte from index `i` on.
pub open spec fn first_newline(buf: Seq<u8>, i: int) -> Option<int>
    decreases buf.len() - i,
{
    if i < 0 || i >= buf.len() {
        None
    } else if buf[i] == 10 {
        Some(i)
    } else {
        first_newline(buf, i + 1)
    }
}

pub proof fn lemma_first_newline(buf: Seq<u8>, i: int)
    requires
        0 <= i,
    ensures
        match first_newline(buf, i) {
            Some(p) => i <= p < buf.len() && buf[p] == 10 && forall|k: int| i <= k < p ==> buf[k] != 10,
            None => forall|k: int| i <= k < buf.len() ==> buf[k] != 10,
        },
    decreases buf.len() - i,
{
    if i < buf.len() && buf[i] != 10 {
        lemma_first_newline(buf, i + 1);
    }
}

/// What one line of the stream means: `None` when it is skipped (blank,
/// no `data:` field, or an empty payload), `Some(None)` for the end marker
/// `data: [DONE]`, `Some(Some(p))` for a `data:` line with payload `p`.
pub open spec fn sse_line(line: Seq<char>) -> Option<Option<Seq<char>>> {
    let l = trim(line);
    if l.len() == 0 {
        None
    } else if l == "data: [DONE]"@ {
        Some(None)
    } else if has_prefix(l, "data:"@) {
        let p = trim(l.subrange(5, l.len() as int));
        if p.len() == 0 { None } else { Some(Some(p)) }
    } else {
        None
    }
}

/// One step of the reader on its buffer: the first complete line that is
/// not skipped decides what it yields (`None`: more bytes are needed), and
/// the bytes after that line are kept.
pub open spec fn sse_step(buf: Seq<u8>) -> (Option<Option<Seq<char>>>, Seq<u8>)
    decreases buf.len(),
{
    match first_newline(buf, 0) {
        None => (None, buf),
        Some(p) => {
            proof { lemma_first_newline(buf, 0); }
            let rest = buf.subrange(p + 1, buf.len() as int);
            match sse_line(utf8_lossy_text(buf.subrange(0, p + 1))) {
                None => sse_step(rest),
                Some(x) => (Some(x), rest),
            }
        },
    }
}

/// `u8::is_ascii_whitespace`: space, tab, line feed, form feed, carriage return.
pub open spec fn ascii_whitespace(b: u8) -> bool {
    b == 32 || b == 9 || b == 10 || b == 12 || b == 13
}

/// What the bytes left when the upstream ends still yield: nothing when
/// they are blank; else their trimmed text, without a `data: ` prefix,
/// unless that is empty or the end marker.
pub open spec fn sse_final(buf: Seq<u8>) -> Option<Seq<char>> {
    if forall|k: int| 0 <= k < buf.len() ==> ascii_whitespace(#[trigger] buf[k]) {
        None
    } else {
        let rem = trim(utf8_lossy_text(buf));
        let p = if has_prefix(rem, "data: "@) { trim(rem.subrange(6, rem.len() as int)) } else { rem };
        if rem.len() == 0 || p == "[DONE]"@ || p.len() == 0 { None } else { Some(p) }
    }
}

/// What the reader yields next.
#[derive(Debug, Clone, PartialEq, Eq)]
pub enum SseNext {
    /// The payload of a `data:` line.
    Payload(String),
    /// The stream's end marker.
    Done,
    /// No complete line is buffered.
    NeedMore,
}

/// The bytes of an event stream received and not yet read.
#[derive(Debug, Clone)]
pub struct SseLineParser {
    buffer: Vec<u8>,
}

impl View for SseLineParser {
    type V = Seq<u8>;

    closed spec fn view(&self) -> Seq<u8> {
        self.buffer@
    }
}

fn copy_range(v: &Vec<u8>, lo: usize, hi: usize) -> (r: Vec<u8>)
    requires
        lo <= hi <= v@.len(),
    ensures
        r@ == v@.subrange(lo as int, hi as int),
{
    let mut r: Vec<u8> = Vec::new();
    let mut i: usize = lo;
    while i < hi
        invariant
            lo <= i <= hi <= v@.len(),
            r@ == v@.subrange(lo as int, i as int),
        decreases hi - i,
    {
        r.push(v[i]);
        i = i + 1;
        assert(r@ =~= v@.subrange(lo as int, i as int));
    }
    r
}

fn classify_line(line: &str) -> (r: Option<Option<String>>)
    ensures
        match sse_line(line@) {
            None => r is None,
            Some(None) => r matches Some(None),
            Some(Some(p)) => r matches Some(Some(s)) && s@ == p,
        },
{
    let l = trim_str(line);
    if l.as_str().unicode_len() == 0 {
        return None;
    }
    if str_eq(l.as_str(), "data: [DONE]") {
        return Some(None);
    }
    if str_starts_with(l.as_str(), "data:") {
        let cs = chars_of(l.as_str());
        proof { reveal_strlit("data:"); }
        let mut rest: Vec<char> = Vec::new();
        let mut i: usize = 5;
        while i < cs.len()
            invariant
                5 <= i <= cs@.len(),
                rest@ == cs@.subrange(5, i as int),
            decreases cs.len() - i,
        {
            rest.push(cs[i]);
            i = i + 1;
            assert(rest@ =~= cs@.subrange(5, i as int));
        }
        let rest_s = string_from(&rest);
        let p = trim_str(rest_s.as_str());
        if p.as_str().unicode_len() == 0 {
            return None;
        }
        return Some(Some(p));
    }
    None
}

impl SseLineParser {
    pub fn new() -> (r: SseLineParser)
        ensures
            r@ == Seq::<u8>::empty(),
    {
        SseLineParser { buffer: Vec::new() }
    }

    /// Append bytes received from the upstream.
    pub fn push(&mut self, bytes: &[u8])
        ensures
            final(self)@ == old(self)@ + bytes@,
    {
        let mut i: usize = 0;
        while i < bytes.len()
            invariant
                i <= bytes@.len(),
                self.buffer@ == old(self)@ + bytes@.subrange(0, i as int),
            decreases bytes.len() - i,
        {
            self.buffer.push(bytes[i]);
            i = i + 1;
            assert(self.buffer@ =~= old(self)@ + bytes@.subrange(0, i as int));
        }
        assert(bytes@.subrange(0, bytes@.len() as int) =~= bytes@);
    }

    /// Take the next complete line that is not skipped off the buffer and
    /// say what it means; with no such line, say that more is needed.
    pub fn next_event(&mut self) -> (r: SseNext)
        ensures
            final(self)@ == sse_step(old(self)@).1,
            match sse_step(old(self)@).0 {
                None => r is NeedMore,
                Some(None) => r is Done,
                Some(Some(p)) => r matches SseNext::Payload(s) && s@ == p,
            },
        decreases old(self)@.len(),
    {
        let ghost start = self.buffer@;
        let mut pos: usize = 0;
        while pos < self.buffer.len() && self.buffer[pos] != 10
            invariant
                pos <= self.buffer@.len(),
                self.buffer@ == start,
                first_newline(start, 0) == first_newline(start, pos as int),
            decreases self.buffer.len() - pos,
        {
            pos = pos + 1;
        }
        if pos == self.buffer.len() {
            return SseNext::NeedMore;
        }
        proof { lemma_first_newline(start, 0); }
        let line_bytes = copy_range(&self.buffer, 0, pos + 1);
        let rest = copy_range(&self.buffer, pos + 1, self.buffer.len());
        self.buffer = rest;
        let line = decode_utf8_lossy(line_bytes.as_slice());
        match classify_line(line.as_str()) {
            None => self.next_event(),
            Some(None) => SseNext::Done,
            Some(Some(p)) => SseNext::Payload(p),
        }
    }

    /// The upstream ended: what the bytes left still yield, if anything.
    /// Unless they were blank, they are consumed.
    pub fn finish(&mut self) -> (r: Option<String>)
        ensures
            match sse_final(old(self)@) {
                Some(p) => r matches Some(s) && s@ == p,
                None => r is None,
            },
            final(self)@ == (if forall|k: int| 0 <= k < old(self)@.len() ==> ascii_whitespace(#[trigger] old(self)@[k]) {
                old(self)@
            } else {
                Seq::<u8>::empty()
            }),
    {
        let mut i: usize = 0;
        while i < self.buffer.len() && (self.buffer[i] == 32 || self.buffer[i] == 9 || self.buffer[i] == 10
            || self.buffer[i] == 12 || self.buffer[i] == 13)
            invariant
                i <= self.buffer@.len(),
                self.buffer@ == old(self)@,
                forall|k: int| 0 <= k < i ==> ascii_whitespace(#[trigger] self.buffer@[k]),
            decreases self.buffer.len() - i,
        {
            i = i + 1;
        }
        if i == self.buffer.len() {
            return None;
        }
        assert(!ascii_whitespace(old(self)@[i as int]));
        let text = decode_utf8_lossy(self.buffer.as_slice());
        self.buffer = Vec::new();
        let rem = trim_str(text.as_str());
        if rem.as_str().unicode_len() == 0 {
            return None;
        }
        let p = if str_starts_with(rem.as_str(), "data: ") {
            let cs = chars_of(rem.as_str());
            proof { reveal_strlit("data: "); }
            let mut rest: Vec<char> = Vec::new();
            let mut k: usize = 6;
            while k < cs.len()
                invariant
                    6 <= k <= cs@.len(),
                    rest@ == cs@.subrange(6, k as int),
                decreases cs.len() - k,
            {
                rest.push(cs[k]);
                k = k + 1;
                assert(rest@ =~= cs@.subrange(6, k as int));
            }
            let rest_s = string_from(&rest);
            trim_str(rest_s.as_str())
        } else {
            rem
        };
        if str_eq(p.as_str(), "[DONE]") || p.as_str().unicode_len() == 0 {
            return None;
        }
        Some(p)
    }
}

/// A line already complete is answered the same, and the same bytes are
/// kept, whatever arrives after it: how the upstream splits the stream into
/// pieces does not change what is read.
pub proof fn lemma_step_ignores_later_bytes(buf: Seq<u8>, more: Seq<u8>)
    requires
        sse_step(buf).0 is Some,
    ensures
        sse_step(buf + more) == (sse_step(buf).0, sse_step(buf).1 + more),
    decreases buf.len(),
{
    let whole = buf + more;
    lemma_first_newline(buf, 0);
    lemma_first_newline(whole, 0);
    let p = first_newline(buf, 0)->0;
    assert(whole[p] == 10);
    let q = first_newline(whole, 0)->0;
    if q < p {
        assert(whole[q] == buf[q]);
    }
    assert(q == p);
    assert(whole.subrange(0, p + 1) =~= buf.subrange(0, p + 1));
    let rest = buf.subrange(p + 1, buf.len() as int);
    assert(whole.subrange(p + 1, whole.len() as int) =~= rest + more);
    if sse_line(utf8_lossy_text(buf.subrange(0, p + 1))) is None {
        lemma_step_ignores_later_bytes(rest, more);
    }
}

} // verus!

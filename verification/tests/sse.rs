use gguf_switchboard::sse::{SseLineParser, SseNext};

#[test]
fn data_lines_yield_payloads_until_done() {
    let mut p = SseLineParser::new();
    p.push(b"data: {\"a\":1}\n\n: keep-alive\ndata:{\"b\":2}\r\ndata: [DONE]\ndata: {\"c\":3}\n");
    assert_eq!(p.next_event(), SseNext::Payload("{\"a\":1}".to_string()));
    assert_eq!(p.next_event(), SseNext::Payload("{\"b\":2}".to_string()));
    assert_eq!(p.next_event(), SseNext::Done);
}

#[test]
fn partial_lines_wait_for_more_bytes() {
    let mut p = SseLineParser::new();
    p.push(b"data: {\"a\"");
    assert_eq!(p.next_event(), SseNext::NeedMore);
    p.push(b":1}\ndata: ");
    assert_eq!(p.next_event(), SseNext::Payload("{\"a\":1}".to_string()));
    assert_eq!(p.next_event(), SseNext::NeedMore);
    p.push(b"\n");
    assert_eq!(p.next_event(), SseNext::NeedMore);
}

#[test]
fn leftover_bytes_at_the_end_still_count() {
    let mut p = SseLineParser::new();
    p.push(b"data: {\"last\":true}");
    assert_eq!(p.next_event(), SseNext::NeedMore);
    assert_eq!(p.finish(), Some("{\"last\":true}".to_string()));
    assert_eq!(p.finish(), None);

    let mut blank = SseLineParser::new();
    blank.push(b" \r\n\t");
    assert_eq!(blank.finish(), None);

    let mut done = SseLineParser::new();
    done.push(b"data: [DONE]");
    assert_eq!(done.finish(), None);

    let mut bare = SseLineParser::new();
    bare.push(b"{\"x\":1}  ");
    assert_eq!(bare.finish(), Some("{\"x\":1}".to_string()));
}

#[test]
fn how_the_stream_is_split_does_not_matter() {
    let stream: &[u8] = b"data: one\n\ndata: two\nevent: x\ndata: three\ndata: [DONE]\n";
    let mut whole = SseLineParser::new();
    whole.push(stream);
    let mut expected = Vec::new();
    loop {
        match whole.next_event() {
            SseNext::Payload(p) => expected.push(p),
            _ => break,
        }
    }
    assert_eq!(expected, vec!["one", "two", "three"]);
    for cut in 0..stream.len() {
        let mut p = SseLineParser::new();
        let mut got = Vec::new();
        p.push(&stream[..cut]);
        loop {
            match p.next_event() {
                SseNext::Payload(x) => got.push(x),
                _ => break,
            }
        }
        p.push(&stream[cut..]);
        loop {
            match p.next_event() {
                SseNext::Payload(x) => got.push(x),
                _ => break,
            }
        }
        assert_eq!(got, expected, "cut at {cut}");
    }
}

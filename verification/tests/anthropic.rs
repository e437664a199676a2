use gguf_switchboard::anthropic::{convert_chunk_to_anthropic_events, event_type_name, StreamEvent};
use gguf_switchboard::chat::{ChatCompletionChunk, ChunkChoice, ChunkDelta, Role, Usage};

fn chunk(role: bool, content: Option<&str>, finish: Option<&str>, usage: Option<Usage>) -> ChatCompletionChunk {
    ChatCompletionChunk {
        id: "chatcmpl-7".to_string(),
        object: "chat.completion.chunk".to_string(),
        created: 1,
        model: "backend-name".to_string(),
        choices: vec![ChunkChoice {
            index: 0,
            delta: ChunkDelta {
                role: if role { Some(Role::Assistant) } else { None },
                content: content.map(|c| c.to_string()),
                tool_calls: None,
                reasoning_content: None,
            },
            finish_reason: finish.map(|f| f.to_string()),
        }],
        usage,
    }
}

fn names(events: &[StreamEvent]) -> Vec<&'static str> {
    events.iter().map(event_type_name).collect()
}

#[test]
fn first_chunk_starts_the_message() {
    let events = convert_chunk_to_anthropic_events("qwen", &chunk(true, Some(""), None, None));
    assert_eq!(names(&events), vec!["message_start", "ping"]);
    let StreamEvent::MessageStart { message } = &events[0] else { panic!("expected a start") };
    assert_eq!(message.id, "chatcmpl-7");
    assert_eq!(message.model, "qwen");
}

#[test]
fn text_becomes_a_content_delta() {
    let events = convert_chunk_to_anthropic_events("qwen", &chunk(false, Some("Hel"), None, None));
    assert_eq!(names(&events), vec!["content_block_delta"]);
    let StreamEvent::ContentBlockDelta { index, text } = &events[0] else { panic!("expected a delta") };
    assert_eq!(*index, 0);
    assert_eq!(text, "Hel");
}

#[test]
fn finish_reasons_map_to_stop_reasons() {
    for (finish, stop) in [("stop", "end_turn"), ("length", "max_tokens"), ("tool_calls", "tool_use"), ("content_filter", "content_filter")] {
        let usage = Usage { prompt_tokens: 3, completion_tokens: 9, total_tokens: 12 };
        let events = convert_chunk_to_anthropic_events("qwen", &chunk(false, None, Some(finish), Some(usage)));
        assert_eq!(names(&events), vec!["message_delta", "message_stop"]);
        let StreamEvent::MessageDelta { stop_reason, output_tokens } = &events[0] else { panic!("expected a delta") };
        assert_eq!(stop_reason.as_deref(), Some(stop));
        assert_eq!(*output_tokens, 9);
    }
    let events = convert_chunk_to_anthropic_events("qwen", &chunk(false, None, Some("stop"), None));
    let StreamEvent::MessageDelta { output_tokens, .. } = &events[0] else { panic!("expected a delta") };
    assert_eq!(*output_tokens, 0);
}

#[test]
fn one_chunk_can_start_speak_and_stop() {
    let events = convert_chunk_to_anthropic_events("qwen", &chunk(true, Some("Hi"), Some("stop"), None));
    assert_eq!(names(&events), vec!["message_start", "ping", "content_block_delta", "message_delta", "message_stop"]);
}

//! The Anthropic Messages view of a streamed chat completion: the events
//! each OpenAI-style chunk becomes.
use vstd::prelude::*;
use crate::chat::{ChatCompletionChunk, ChunkChoice};
use crate::text::{str_eq, str_is_empty, string_from_str};

verus! {

/// The `message_start` body: an empty assistant message of the model,
/// under the chunk's id, with no stop reason and zero usage.
#[derive(Debug, Clone)]
pub struct MessageStart {
    pub id: String,
    pub model: String,
}

/// An Anthropic stream event, as far as chunks produce them.
#[derive(Debug, Clone)]
pub enum StreamEvent {
    MessageStart { message: MessageStart },
    /// A text delta of the content block at `index`.
    ContentBlockDelta { index: usize, text: String },
    /// The stop reason, with the chunk's completion tokens as output usage.
    MessageDelta { stop_reason: Option<String>, output_tokens: u32 },
    MessageStop,
    Ping,
}

pub ghost enum EventView {
    Start { id: Seq<char>, model: Seq<char> },
    Delta { index: nat, text: Seq<char> },
    Stop { stop_reason: Option<Seq<char>>, output_tokens: u32 },
    MessageStop,
    Ping,
}

pub open spec fn event_view(e: StreamEvent) -> EventView {
    match e {
        StreamEvent::MessageStart { message } => EventView::Start { id: message.id@, model: message.model@ },
        StreamEvent::ContentBlockDelta { index, text } => EventView::Delta { index: index as nat, text: text@ },
        StreamEvent::MessageDelta { stop_reason, output_tokens } => EventView::Stop {
            stop_reason: match stop_reason { Some(s) => Some(s@), None => None },
            output_tokens,
        },
        StreamEvent::MessageStop => EventView::MessageStop,
        StreamEvent::Ping => EventView::Ping,
    }
}

pub open spec fn events_view(es: Seq<StreamEvent>) -> Seq<EventView> {
    es.map_values(|e: StreamEvent| event_view(e))
}

/// An OpenAI finish reason as an Anthropic stop reason.
pub open spec fn stop_reason_of(f: Seq<char>) -> Seq<char> {
    if f == "stop"@ {
        "end_turn"@
    } else if f == "length"@ {
        "max_tokens"@
    } else if f == "tool_calls"@ {
        "tool_use"@
    } else {
        f
    }
}

/// The events of one choice: a role starts the message (then a ping);
/// non-empty text is a content delta; a finish reason is a message delta
/// and the message's end.
pub open spec fn choice_events(model: Seq<char>, chunk: ChatCompletionChunk, c: ChunkChoice) -> Seq<EventView> {
    let start = if c.delta.role is Some {
        seq![EventView::Start { id: chunk.id@, model }, EventView::Ping]
    } else {
        Seq::empty()
    };
    let text = match c.delta.content {
        Some(t) => if t@.len() > 0 { seq![EventView::Delta { index: c.index as nat, text: t@ }] } else { Seq::empty() },
        None => Seq::empty(),
    };
    let stop = match c.finish_reason {
        Some(f) => seq![
            EventView::Stop {
                stop_reason: Some(stop_reason_of(f@)),
                output_tokens: match chunk.usage { Some(u) => u.completion_tokens, None => 0 },
            },
            EventView::MessageStop,
        ],
        None => Seq::empty(),
    };
    start + text + stop
}

/// The events of the first `n` choices of a chunk, in order.
pub open spec fn chunk_events(model: Seq<char>, chunk: ChatCompletionChunk, n: int) -> Seq<EventView>
    decreases n,
{
    if n <= 0 {
        Seq::empty()
    } else {
        chunk_events(model, chunk, n - 1) + choice_events(model, chunk, chunk.choices@[n - 1])
    }
}

fn stop_reason(f: &str) -> (r: String)
    ensures
        r@ == stop_reason_of(f@),
{
    if str_eq(f, "stop") {
        string_from_str("end_turn")
    } else if str_eq(f, "length") {
        string_from_str("max_tokens")
    } else if str_eq(f, "tool_calls") {
        string_from_str("tool_use")
    } else {
        string_from_str(f)
    }
}

/// The Anthropic events an OpenAI stream chunk becomes.
pub fn convert_chunk_to_anthropic_events(model: &str, chunk: &ChatCompletionChunk) -> (r: Vec<StreamEvent>)
    ensures
        events_view(r@) == chunk_events(model@, *chunk, chunk.choices@.len() as int),
{
    let mut events: Vec<StreamEvent> = Vec::new();
    let mut i: usize = 0;
    while i < chunk.choices.len()
        invariant
            i <= chunk.choices@.len(),
            events_view(events@) == chunk_events(model@, *chunk, i as int),
        decreases chunk.choices.len() - i,
    {
        let c = &chunk.choices[i];
        let ghost before = events@;
        if c.delta.role.is_some() {
            events.push(StreamEvent::MessageStart {
                message: MessageStart { id: chunk.id.clone(), model: string_from_str(model) },
            });
            events.push(StreamEvent::Ping);
        }
        let ghost after_start = events@;
        match &c.delta.content {
            Some(t) => {
                if !str_is_empty(t.as_str()) {
                    events.push(StreamEvent::ContentBlockDelta { index: c.index as usize, text: t.clone() });
                }
            },
            None => {},
        }
        let ghost after_text = events@;
        match &c.finish_reason {
            Some(f) => {
                let output_tokens = match &chunk.usage {
                    Some(u) => u.completion_tokens,
                    None => 0,
                };
                events.push(StreamEvent::MessageDelta { stop_reason: Some(stop_reason(f.as_str())), output_tokens });
                events.push(StreamEvent::MessageStop);
            },
            None => {},
        }
        proof {
            let ce = choice_events(model@, *chunk, chunk.choices@[i as int]);
            assert(events_view(events@) =~= events_view(before) + ce);
        }
        i = i + 1;
    }
    events
}

/// The SSE event name of an event.
pub fn event_type_name(event: &StreamEvent) -> (r: &'static str)
    ensures
        r@ == match *event {
            StreamEvent::MessageStart { .. } => "message_start"@,
            StreamEvent::ContentBlockDelta { .. } => "content_block_delta"@,
            StreamEvent::MessageDelta { .. } => "message_delta"@,
            StreamEvent::MessageStop => "message_stop"@,
            StreamEvent::Ping => "ping"@,
        },
{
    match event {
        StreamEvent::MessageStart { .. } => "message_start",
        StreamEvent::ContentBlockDelta { .. } => "content_block_delta",
        StreamEvent::MessageDelta { .. } => "message_delta",
        StreamEvent::MessageStop => "message_stop",
        StreamEvent::Ping => "ping",
    }
}

} // verus!

//! Responses that come whole, and the way of events.
use std::sync::Arc;

use omp_headless::agent_event::AgentEvent;
use omp_headless::convert::{
    convert_response, convert_usage, emit_nonstream_events, error_to_message, map_stop_reason, RequestMeta,
};
use omp_headless::error::AiError;
use omp_headless::event::{AssistantMessageEvent, DoneReason, ErrorReason};
use omp_headless::json::JsonNumber;
use omp_headless::json_repair::parse_json_with_repair;
use omp_headless::message::{AssistantContent, AssistantMessage, StopReason};
use omp_headless::stream::{AgentEventSink, EventSink};
use omp_headless::wire::{
    CacheCreation, KnownStopReason, ResponseBlock, ResponseContentBlock, ResponseMessage, ServerToolUsage,
    WireStopReason, WireUsage,
};

fn meta() -> RequestMeta {
    RequestMeta {
        api: "anthropic-messages".into(),
        provider: "anthropic".into(),
        model: "model-5".into(),
        timestamp: 1_753_430_000_000,
        duration: Some(1234),
    }
}

fn no_usage() -> WireUsage {
    WireUsage {
        input_tokens: None,
        output_tokens: None,
        cache_read_input_tokens: None,
        cache_creation_input_tokens: None,
        cache_creation: None,
        server_tool_use: None,
        iterations: None,
    }
}

fn response(content: Vec<ResponseContentBlock>, stop: KnownStopReason) -> ResponseMessage {
    ResponseMessage {
        id: "msg_1".into(),
        message_type: Some("message".into()),
        role: Some("assistant".into()),
        model: Some("model-5".into()),
        content: content.into_iter().map(ResponseBlock::Known).collect(),
        stop_reason: Some(WireStopReason::Known(stop)),
        stop_sequence: None,
        usage: WireUsage {
            input_tokens: Some(12),
            output_tokens: Some(9),
            cache_read_input_tokens: Some(4),
            cache_creation_input_tokens: Some(8),
            cache_creation: Some(CacheCreation {
                ephemeral_5m_input_tokens: Some(8),
                ephemeral_1h_input_tokens: None,
            }),
            ..no_usage()
        },
    }
}

fn text_message() -> Arc<AssistantMessage> {
    let r = response(
        vec![ResponseContentBlock::Text { text: "Hello! How can I help you today?".into() }],
        KnownStopReason::EndTurn,
    );
    Arc::new(convert_response(&r, &meta()))
}

fn tool_message() -> Arc<AssistantMessage> {
    let r = response(
        vec![
            ResponseContentBlock::Text { text: "I'll check the weather.".into() },
            ResponseContentBlock::ToolUse {
                id: "toolu_01A09q90qw90lq917835lq9".into(),
                name: "get_weather".into(),
                input: Some(parse_json_with_repair(r#"{"location":"San Francisco, CA","unit":"celsius"}"#).unwrap()),
            },
        ],
        KnownStopReason::ToolUse,
    );
    Arc::new(convert_response(&r, &meta()))
}

fn kinds(events: &[AssistantMessageEvent]) -> Vec<&'static str> {
    events
        .iter()
        .map(|event| match event {
            AssistantMessageEvent::Start { .. } => "start",
            AssistantMessageEvent::TextStart { .. } => "text_start",
            AssistantMessageEvent::TextDelta { .. } => "text_delta",
            AssistantMessageEvent::TextEnd { .. } => "text_end",
            AssistantMessageEvent::ThinkingStart { .. } => "thinking_start",
            AssistantMessageEvent::ThinkingDelta { .. } => "thinking_delta",
            AssistantMessageEvent::ThinkingEnd { .. } => "thinking_end",
            AssistantMessageEvent::ImageEnd { .. } => "image_end",
            AssistantMessageEvent::ToolcallStart { .. } => "toolcall_start",
            AssistantMessageEvent::ToolcallDelta { .. } => "toolcall_delta",
            AssistantMessageEvent::ToolcallEnd { .. } => "toolcall_end",
            AssistantMessageEvent::Done { .. } => "done",
            AssistantMessageEvent::Error { .. } => "error",
        })
        .collect()
}

#[test]
fn text_sequence_matches_contract() {
    let message = text_message();
    let events = emit_nonstream_events(&message);
    assert_eq!(kinds(&events), ["start", "text_start", "text_delta", "text_end", "done"]);
    // start has empty content, partials accumulate, done carries the final.
    let AssistantMessageEvent::Start { partial } = &events[0] else { unreachable!() };
    assert!(partial.content.is_empty());
    let AssistantMessageEvent::TextDelta { delta, partial, .. } = &events[2] else { unreachable!() };
    assert_eq!(delta, "Hello! How can I help you today?");
    assert_eq!(partial.content.len(), 1);
    let AssistantMessageEvent::Done { reason, message: done } = &events[4] else { unreachable!() };
    assert_eq!(*reason, DoneReason::Stop);
    assert_eq!(done.as_ref(), message.as_ref());
    // Usage metadata is present on every partial.
    assert_eq!(partial.usage.total_tokens, message.usage.total_tokens);
    assert_eq!(partial.usage.cache_read, 4);
    assert_eq!(partial.usage.cttl.as_ref().unwrap().ephemeral_5m, Some(8));
    assert_eq!(message.response_id.as_deref(), Some("msg_1"));
    assert_eq!(message.duration, Some(1234));
}

#[test]
fn toolcall_sequence_matches_contract() {
    let message = tool_message();
    let events = emit_nonstream_events(&message);
    assert_eq!(
        kinds(&events),
        [
            "start",
            "text_start",
            "text_delta",
            "text_end",
            "toolcall_start",
            "toolcall_delta",
            "toolcall_end",
            "done"
        ]
    );
    let AssistantMessageEvent::ToolcallStart { content_index, partial } = &events[4] else { unreachable!() };
    assert_eq!(*content_index, 1);
    let AssistantContent::ToolCall(shell) = &partial.content[1] else { unreachable!() };
    assert_eq!(shell.name, "get_weather");
    assert_eq!(shell.arguments, parse_json_with_repair("{}").unwrap());
    let AssistantMessageEvent::ToolcallDelta { delta, .. } = &events[5] else { unreachable!() };
    let parsed: serde_json::Value = serde_json::from_str(delta).unwrap();
    assert_eq!(parsed["location"], "San Francisco, CA");
    let AssistantMessageEvent::ToolcallEnd { tool_call, .. } = &events[6] else { unreachable!() };
    assert_eq!(tool_call.id, "toolu_01A09q90qw90lq917835lq9");
    let AssistantMessageEvent::Done { reason, .. } = &events[7] else { unreachable!() };
    assert_eq!(*reason, DoneReason::ToolUse);
}

#[test]
fn partial_content_grows_monotonically() {
    let events = emit_nonstream_events(&tool_message());
    let mut last_len = 0usize;
    for event in &events {
        let partial = match event {
            AssistantMessageEvent::Done { message, .. } => message,
            AssistantMessageEvent::Error { error, .. } => error,
            AssistantMessageEvent::Start { partial }
            | AssistantMessageEvent::TextStart { partial, .. }
            | AssistantMessageEvent::TextDelta { partial, .. }
            | AssistantMessageEvent::TextEnd { partial, .. }
            | AssistantMessageEvent::ThinkingStart { partial, .. }
            | AssistantMessageEvent::ThinkingDelta { partial, .. }
            | AssistantMessageEvent::ThinkingEnd { partial, .. }
            | AssistantMessageEvent::ImageEnd { partial, .. }
            | AssistantMessageEvent::ToolcallStart { partial, .. }
            | AssistantMessageEvent::ToolcallDelta { partial, .. }
            | AssistantMessageEvent::ToolcallEnd { partial, .. } => partial,
        };
        assert!(partial.content.len() >= last_len, "content shrank");
        last_len = partial.content.len();
    }
}

#[test]
fn error_message_emits_single_error_event() {
    let error = AiError::Api { status: 429, message: "429 rate limited".into(), body: None, request_id: None };
    let message = Arc::new(error_to_message(&error, &meta()));
    assert_eq!(message.stop_reason, StopReason::Error);
    assert_eq!(message.error_status, Some(429));
    let events = emit_nonstream_events(&message);
    assert_eq!(kinds(&events), ["error"]);
    let AssistantMessageEvent::Error { reason, .. } = &events[0] else { unreachable!() };
    assert_eq!(*reason, ErrorReason::Error);
}

#[test]
fn errors_have_a_text() {
    let texts: Vec<String> = vec![
        AiError::Connection,
        AiError::ConnectionTimeout,
        AiError::Api { status: 500, message: "500 boom".into(), body: None, request_id: None },
        AiError::Aborted,
        AiError::Auth("no key".into()),
        AiError::Decode("bad".into()),
        AiError::StreamEnded,
    ]
    .iter()
    .map(AiError::to_text)
    .collect();
    for (i, a) in texts.iter().enumerate() {
        assert!(!a.is_empty());
        for b in &texts[i + 1..] {
            assert_ne!(a, b);
        }
    }
    assert_eq!(texts[6], "stream ended without a final result");
    let aborted = error_to_message(&AiError::Aborted, &meta());
    assert_eq!(aborted.stop_reason, StopReason::Aborted);
}

#[test]
fn map_stop_reason_full_table() {
    let cases = [
        (KnownStopReason::EndTurn, StopReason::Stop),
        (KnownStopReason::MaxTokens, StopReason::Length),
        (KnownStopReason::ModelContextWindowExceeded, StopReason::Length),
        (KnownStopReason::ToolUse, StopReason::ToolUse),
        (KnownStopReason::Refusal, StopReason::Error),
        (KnownStopReason::Sensitive, StopReason::Error),
        (KnownStopReason::PauseTurn, StopReason::Stop),
        (KnownStopReason::StopSequence, StopReason::Stop),
    ];
    for (wire, expected) in cases {
        assert_eq!(map_stop_reason(&WireStopReason::Known(wire)), expected);
    }
    assert_eq!(map_stop_reason(&WireStopReason::Other("grape".into())), StopReason::Stop);
}

#[test]
fn convert_usage_table() {
    let wire = WireUsage {
        input_tokens: Some(10),
        output_tokens: Some(20),
        cache_read_input_tokens: Some(30),
        cache_creation_input_tokens: Some(40),
        cache_creation: Some(CacheCreation {
            ephemeral_5m_input_tokens: Some(40),
            ephemeral_1h_input_tokens: Some(0),
        }),
        server_tool_use: Some(ServerToolUsage { web_search_requests: Some(2), web_fetch_requests: None }),
        iterations: None,
    };
    let usage = convert_usage(&wire);
    assert_eq!(
        (usage.input, usage.output, usage.cache_read, usage.cache_write, usage.total_tokens),
        (10, 20, 30, 40, 100)
    );
    let cttl = usage.cttl.unwrap();
    assert_eq!(cttl.ephemeral_5m, Some(40));
    assert_eq!(cttl.ephemeral_1h, None);
    assert_eq!(usage.server.unwrap().web_search, Some(2));
    assert_eq!(usage.cost.total, JsonNumber::PosInt(0));
    // All-zero extras collapse to None.
    let empty = convert_usage(&WireUsage {
        cache_creation: Some(CacheCreation { ephemeral_5m_input_tokens: None, ephemeral_1h_input_tokens: None }),
        ..no_usage()
    });
    assert!(empty.cttl.is_none() && empty.server.is_none());
}

/// Pushes events and returns those that are delivered.
fn deliver(sink: &mut EventSink, events: Vec<AssistantMessageEvent>) -> Vec<AssistantMessageEvent> {
    let mut seen = Vec::new();
    for event in events {
        if sink.push(&event) {
            seen.push(event);
        }
    }
    seen
}

#[test]
fn stream_delivers_terminal_and_result() {
    let message = text_message();
    let mut sink = EventSink::new();
    let mut events = emit_nonstream_events(&message);
    let expected = events.len();
    // Push after terminal is a no-op.
    events.push(AssistantMessageEvent::Start { partial: Arc::clone(&message) });
    let seen = deliver(&mut sink, events);
    assert_eq!(seen.len(), expected);
    assert!(seen.last().unwrap().is_terminal());
}

#[test]
fn stream_result_without_iteration() {
    let message = text_message();
    let mut sink = EventSink::new();
    deliver(&mut sink, emit_nonstream_events(&message));
    let result = sink.result().unwrap();
    assert_eq!(result.as_ref(), message.as_ref());
}

#[test]
fn stream_without_terminal_errors() {
    let message = text_message();
    let mut sink = EventSink::new();
    sink.push(&AssistantMessageEvent::Start { partial: Arc::clone(&message) });
    assert!(matches!(sink.result(), Err(AiError::StreamEnded)));
}

#[test]
fn run_is_settled_by_its_first_end() {
    let mut sink = AgentEventSink::new();
    assert!(sink.result().is_empty());
    assert!(sink.push(&AgentEvent::AgentStart));
    assert!(sink.push(&AgentEvent::AgentEnd { messages: Vec::new() }));
    assert!(!sink.push(&AgentEvent::TurnStart));
    assert_eq!(sink.messages, Some(Vec::new()));
}

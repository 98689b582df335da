//! A response from the bytes of its stream to its message.
use std::collections::VecDeque;
use std::sync::Arc;

use omp_headless::builder::{
    error_stop_message, merge_delta_usage, truncate_for_error, unwrap_thinking_envelope, StreamingBuilder,
};
use omp_headless::convert::RequestMeta;
use omp_headless::error::AiError;
use omp_headless::event::{AssistantMessageEvent, DoneReason, ErrorReason};
use omp_headless::json::Json;
use omp_headless::json_repair::parse_json_with_repair;
use omp_headless::message::{AssistantContent, AssistantMessage, StopReason, Usage};
use omp_headless::sse::{parse_message_event, stream_error_message, SseFrame, SseParser};
use omp_headless::stream_runner::{
    env_first, resolve_timeout, AttemptEnd, EndStep, FrameStep, StreamDriver, TimeoutSetting, WatchdogConfig,
    DEFAULT_FIRST_EVENT_TIMEOUT_MS, DEFAULT_IDLE_TIMEOUT_MS, FIRST_EVENT_TIMEOUT_MSG, IDLE_TIMEOUT_MSG,
};
use omp_headless::wire::{
    ApiErrorBody, ContentBlockDelta, ErrorEnvelope, KnownStopReason, MessageDelta, RawMessageStreamEvent,
    ResponseBlock, ResponseContentBlock, ResponseMessage, StopDetails, WireStopReason, WireUsage,
};

// decoding

fn text_at(v: &serde_json::Value, key: &str) -> Option<String> {
    v.get(key).and_then(|x| x.as_str()).map(str::to_string)
}

fn usage(v: Option<&serde_json::Value>) -> WireUsage {
    let count = |key: &str| v.and_then(|u| u.get(key)).and_then(|n| n.as_u64());
    WireUsage {
        input_tokens: count("input_tokens"),
        output_tokens: count("output_tokens"),
        cache_read_input_tokens: count("cache_read_input_tokens"),
        cache_creation_input_tokens: count("cache_creation_input_tokens"),
        cache_creation: None,
        server_tool_use: None,
        iterations: None,
    }
}

fn stop_reason(v: &serde_json::Value) -> Option<WireStopReason> {
    let name = text_at(v, "stop_reason")?;
    let known = match name.as_str() {
        "end_turn" => KnownStopReason::EndTurn,
        "max_tokens" => KnownStopReason::MaxTokens,
        "tool_use" => KnownStopReason::ToolUse,
        "refusal" => KnownStopReason::Refusal,
        "sensitive" => KnownStopReason::Sensitive,
        _ => return Some(WireStopReason::Other(name)),
    };
    Some(WireStopReason::Known(known))
}

fn block(v: &serde_json::Value) -> ResponseBlock {
    ResponseBlock::Known(match v["type"].as_str().unwrap() {
        "text" => ResponseContentBlock::Text { text: text_at(v, "text").unwrap() },
        "thinking" => ResponseContentBlock::Thinking {
            thinking: text_at(v, "thinking").unwrap(),
            signature: text_at(v, "signature"),
        },
        "tool_use" => ResponseContentBlock::ToolUse {
            id: text_at(v, "id").unwrap(),
            name: text_at(v, "name").unwrap(),
            input: v.get("input").map(|i| parse_json_with_repair(&i.to_string()).unwrap()),
        },
        _ => return ResponseBlock::Unknown(parse_json_with_repair(&v.to_string()).unwrap()),
    })
}

fn decode(v: &serde_json::Value) -> Option<RawMessageStreamEvent> {
    let index = v["index"].as_u64();
    Some(match v["type"].as_str()? {
        "message_start" => {
            let m = &v["message"];
            RawMessageStreamEvent::MessageStart {
                message: ResponseMessage {
                    id: text_at(m, "id")?,
                    message_type: None,
                    role: None,
                    model: text_at(m, "model"),
                    content: Vec::new(),
                    stop_reason: None,
                    stop_sequence: None,
                    usage: usage(m.get("usage")),
                },
            }
        }
        "content_block_start" => {
            RawMessageStreamEvent::ContentBlockStart { index: index?, content_block: block(&v["content_block"]) }
        }
        "content_block_delta" => {
            let d = &v["delta"];
            RawMessageStreamEvent::ContentBlockDelta {
                index: index?,
                delta: match d["type"].as_str()? {
                    "text_delta" => ContentBlockDelta::TextDelta { text: text_at(d, "text")? },
                    "input_json_delta" => ContentBlockDelta::InputJsonDelta { partial_json: text_at(d, "partial_json")? },
                    "thinking_delta" => ContentBlockDelta::ThinkingDelta { thinking: text_at(d, "thinking")? },
                    "signature_delta" => ContentBlockDelta::SignatureDelta { signature: text_at(d, "signature")? },
                    _ => return None,
                },
            }
        }
        "content_block_stop" => RawMessageStreamEvent::ContentBlockStop { index: index? },
        "message_delta" => {
            let d = &v["delta"];
            RawMessageStreamEvent::MessageDelta {
                delta: MessageDelta {
                    stop_reason: stop_reason(d),
                    stop_sequence: None,
                    stop_details: d.get("stop_details").map(|s| StopDetails {
                        detail_type: text_at(s, "type").unwrap(),
                        category: text_at(s, "category"),
                        explanation: text_at(s, "explanation"),
                    }),
                },
                usage: usage(v.get("usage")),
            }
        }
        "message_stop" => RawMessageStreamEvent::MessageStop,
        _ => return None,
    })
}

fn wire(json: &str) -> RawMessageStreamEvent {
    decode(&serde_json::from_str(json).unwrap()).unwrap_or_else(|| panic!("parse wire event {json}"))
}

/// The event of a frame, if it is one.
fn event_of(frame: &SseFrame) -> Option<RawMessageStreamEvent> {
    parse_message_event(frame)?;
    decode(&serde_json::from_str(&frame.data).unwrap())
}

fn envelope(data: &str) -> Option<ErrorEnvelope> {
    let v: serde_json::Value = serde_json::from_str(data).ok()?;
    let e = v.get("error")?;
    Some(ErrorEnvelope { error: ApiErrorBody { error_type: text_at(e, "type")?, message: text_at(e, "message")? } })
}

fn json(text: &str) -> Json {
    parse_json_with_repair(text).unwrap()
}

fn meta() -> RequestMeta {
    RequestMeta {
        api: "anthropic-messages".into(),
        provider: "deepseek".into(),
        model: "deepseek-v4-flash".into(),
        timestamp: 1_753_500_000_000,
        duration: None,
    }
}

const MESSAGE_START: &str = r#"{"type":"message_start","message":{"id":"msg-x","usage":{"input_tokens":1,"output_tokens":0}}}"#;

// the builder

#[test]
fn unwrap_strips_single_envelope() {
    assert_eq!(unwrap_thinking_envelope("<thinking>hi</thinking>"), Some("hi".to_string()));
}

#[test]
fn unwrap_strips_nested_envelopes_and_trims() {
    assert_eq!(
        unwrap_thinking_envelope("<thinking> <thinking> deep </thinking> </thinking>"),
        Some("deep".to_string())
    );
}

#[test]
fn unwrap_returns_none_without_envelope() {
    assert_eq!(unwrap_thinking_envelope("plain reasoning"), None);
    // A lone open tag is not a wrapped envelope.
    assert_eq!(unwrap_thinking_envelope("<thinking>unterminated"), None);
}

#[test]
fn thinking_end_unwraps_and_clears_signature() {
    let mut builder = StreamingBuilder::new(&meta());
    builder.on_event(wire(MESSAGE_START));
    builder.on_event(wire(
        r#"{"type":"content_block_start","index":0,"content_block":{"type":"thinking","thinking":"<thinking>real</thinking>","signature":"sig-abc"}}"#,
    ));
    let events = builder.on_event(wire(r#"{"type":"content_block_stop","index":0}"#));
    let end = events
        .iter()
        .find(|event| matches!(event, AssistantMessageEvent::ThinkingEnd { .. }))
        .expect("thinking_end emitted");
    let AssistantMessageEvent::ThinkingEnd { content, .. } = end else { unreachable!() };
    assert_eq!(content, "real", "envelope stripped from thinking_end content");

    let (message, _) = builder.finish();
    match &message.content[0] {
        AssistantContent::Thinking(block) => {
            assert_eq!(block.thinking, "real");
            assert!(block.thinking_signature.is_none(), "stale signature cleared");
        }
        other => panic!("expected thinking block, got {other:?}"),
    }
}

fn drive_toolcall(partial_json: &str) -> Json {
    let mut builder = StreamingBuilder::new(&meta());
    builder.on_event(wire(MESSAGE_START));
    builder.on_event(wire(
        r#"{"type":"content_block_start","index":0,"content_block":{"type":"tool_use","id":"call-1","name":"do_thing"}}"#,
    ));
    builder.on_event(RawMessageStreamEvent::ContentBlockDelta {
        index: 0,
        delta: ContentBlockDelta::InputJsonDelta { partial_json: partial_json.to_string() },
    });
    let events = builder.on_event(wire(r#"{"type":"content_block_stop","index":0}"#));
    events
        .iter()
        .find_map(|event| match event {
            AssistantMessageEvent::ToolcallEnd { tool_call, .. } => Some(tool_call.arguments.clone()),
            _ => None,
        })
        .expect("toolcall_end emitted")
}

#[test]
fn toolcall_end_repairs_malformed_json() {
    // Trailing comma and single quotes: the strict reading fails, the repair succeeds.
    let args = drive_toolcall("{'path': 'a.rs',}");
    assert_eq!(args, json(r#"{"path":"a.rs"}"#));
}

#[test]
fn toolcall_end_clean_json_needs_no_repair() {
    let args = drive_toolcall(r#"{"path":"a.rs","n":3}"#);
    assert_eq!(args, json(r#"{"path":"a.rs","n":3}"#));
}

#[test]
fn toolcall_end_unrepairable_json_falls_back() {
    // Truncated buffer: neither reading recovers it.
    let args = drive_toolcall(r#"{"path": "untermin"#);
    assert!(args.get("__parseError").is_some(), "got {args:?}");
    assert_eq!(args.get("__rawJson").unwrap().as_str(), Some(r#"{"path": "untermin"#));
}

#[test]
fn stop_texts_name_the_reason() {
    let delta = |reason: KnownStopReason, details: Option<StopDetails>| MessageDelta {
        stop_reason: Some(WireStopReason::Known(reason)),
        stop_sequence: None,
        stop_details: details,
    };
    let details = StopDetails {
        detail_type: "refusal".into(),
        category: Some("safety".into()),
        explanation: Some("nope".into()),
    };
    assert_eq!(error_stop_message(&delta(KnownStopReason::Refusal, Some(details))), "Refusal (safety): nope");
    assert_eq!(error_stop_message(&delta(KnownStopReason::Sensitive, None)), "Content flagged by safety filters");
    assert_eq!(error_stop_message(&delta(KnownStopReason::Refusal, None)), "Refusal (no details provided)");
    assert_eq!(
        error_stop_message(&delta(KnownStopReason::EndTurn, None)),
        "Anthropic stream ended with stop_reason: Some(Known(EndTurn))"
    );
    let other = MessageDelta {
        stop_reason: Some(WireStopReason::Other("a \"b\"".into())),
        stop_sequence: None,
        stop_details: None,
    };
    assert_eq!(
        error_stop_message(&other),
        format!("Anthropic stream ended with stop_reason: {:?}", other.stop_reason)
    );
}

#[test]
fn long_text_is_cut_for_an_error() {
    assert_eq!(truncate_for_error("short"), "short");
    let cut = truncate_for_error(&"x".repeat(5000));
    assert!(cut.len() < 5000 && cut.starts_with("xxx"));
}

#[test]
fn later_counts_overwrite_and_the_total_is_their_sum() {
    let mut counts = Usage { input: 10, output: 1, cache_read: 2, cache_write: 3, total_tokens: 16, ..Usage::default() };
    merge_delta_usage(&mut counts, &usage(Some(&serde_json::from_str(r#"{"output_tokens":30}"#).unwrap())));
    assert_eq!((counts.input, counts.output, counts.cache_read, counts.cache_write), (10, 30, 2, 3));
    assert_eq!(counts.total_tokens, 45);
}

// from frames to events

/// Feeds a transcript through the parser in awkward chunk sizes, runs the builder,
/// and returns all events and the message.
fn replay(transcript: &str, chunk: usize) -> (Vec<AssistantMessageEvent>, Arc<AssistantMessage>) {
    let mut parser = SseParser::new();
    let mut builder = StreamingBuilder::new(&meta());
    let mut events = vec![AssistantMessageEvent::Start { partial: builder.snapshot() }];
    for piece in transcript.as_bytes().chunks(chunk) {
        for frame in parser.push(piece) {
            assert_ne!(frame.event.as_deref(), Some("error"), "unexpected error frame");
            let Some(raw) = event_of(&frame) else { continue };
            assert!(builder.accepts(&raw));
            events.extend(builder.on_event(raw));
        }
    }
    let (message, terminal) = builder.finish();
    events.extend(terminal);
    (events, message)
}

fn kind(event: &AssistantMessageEvent) -> &'static str {
    match event {
        AssistantMessageEvent::Start { .. } => "start",
        AssistantMessageEvent::TextStart { .. } => "text_start",
        AssistantMessageEvent::TextDelta { .. } => "text_delta",
        AssistantMessageEvent::TextEnd { .. } => "text_end",
        AssistantMessageEvent::ThinkingStart { .. } => "thinking_start",
        AssistantMessageEvent::ThinkingDelta { .. } => "thinking_delta",
        AssistantMessageEvent::ThinkingEnd { .. } => "thinking_end",
        AssistantMessageEvent::ImageEnd { .. } => "image_end",
        AssistantMessageEvent::ToolcallStart { .. } => "toolcall_start",
        AssistantMessageEvent::ToolcallDelta { .. } => "toolcall_delta",
        AssistantMessageEvent::ToolcallEnd { .. } => "toolcall_end",
        AssistantMessageEvent::Done { .. } => "done",
        AssistantMessageEvent::Error { .. } => "error",
    }
}

fn kinds_of(events: &[AssistantMessageEvent]) -> Vec<&'static str> {
    events.iter().map(kind).collect()
}

fn frames(lines: &[(&str, &str)]) -> String {
    let mut out = String::new();
    for (event, data) in lines {
        out.push_str(&format!("event: {event}\ndata: {data}\n\n"));
    }
    out
}

/// A transcript with a signed thought in 27 pieces and the text "pong" in two.
fn thinking_transcript() -> String {
    let thought = "The user asks for pong, so I say just it..".replace(' ', "_");
    let pieces: Vec<String> = (0..27)
        .map(|i| thought.chars().skip(i * 2).take(if i == 26 { 100 } else { 2 }).collect::<String>())
        .collect();
    let mut lines: Vec<(&str, String)> = vec![
        (
            "message_start",
            r#"{"type":"message_start","message":{"id":"m1","model":"deepseek-v4-flash","usage":{"input_tokens":10,"output_tokens":0}}}"#.to_string(),
        ),
        (
            "content_block_start",
            r#"{"type":"content_block_start","index":0,"content_block":{"type":"thinking","thinking":"","signature":""}}"#.to_string(),
        ),
        ("ping", r#"{"type":"ping"}"#.to_string()),
    ];
    for p in &pieces {
        lines.push((
            "content_block_delta",
            format!(r#"{{"type":"content_block_delta","index":0,"delta":{{"type":"thinking_delta","thinking":"{p}"}}}}"#),
        ));
    }
    lines.push((
        "content_block_delta",
        r#"{"type":"content_block_delta","index":0,"delta":{"type":"signature_delta","signature":"sig"}}"#.to_string(),
    ));
    lines.push(("content_block_stop", r#"{"type":"content_block_stop","index":0}"#.to_string()));
    lines.push((
        "content_block_start",
        r#"{"type":"content_block_start","index":1,"content_block":{"type":"text","text":""}}"#.to_string(),
    ));
    for p in ["po", "ng"] {
        lines.push((
            "content_block_delta",
            format!(r#"{{"type":"content_block_delta","index":1,"delta":{{"type":"text_delta","text":"{p}"}}}}"#),
        ));
    }
    lines.push(("content_block_stop", r#"{"type":"content_block_stop","index":1}"#.to_string()));
    lines.push((
        "message_delta",
        r#"{"type":"message_delta","delta":{"stop_reason":"end_turn"},"usage":{"output_tokens":30}}"#.to_string(),
    ));
    lines.push(("message_stop", r#"{"type":"message_stop"}"#.to_string()));
    let borrowed: Vec<(&str, &str)> = lines.iter().map(|(e, d)| (*e, d.as_str())).collect();
    frames(&borrowed)
}

#[test]
fn deepseek_transcript_replays_to_contract_sequence() {
    let transcript = thinking_transcript();
    for chunk in [1, 7, 4096] {
        let (events, message) = replay(&transcript, chunk);
        let kinds = kinds_of(&events);
        assert_eq!(kinds[0], "start");
        assert_eq!(kinds[1], "thinking_start");
        assert_eq!(kinds[kinds.len() - 1], "done");
        assert_eq!(kinds.iter().filter(|k| **k == "thinking_delta").count(), 27);
        assert_eq!(kinds.iter().filter(|k| **k == "text_delta").count(), 2);
        assert!(kinds.contains(&"thinking_end") && kinds.contains(&"text_end"));
        // Final message shape.
        assert_eq!(message.stop_reason, StopReason::Stop);
        let AssistantContent::Thinking(thinking) = &message.content[0] else {
            panic!("expected thinking block");
        };
        assert!(thinking.thinking.contains("pong"));
        assert!(thinking.thinking_signature.is_some(), "signature_delta must accumulate");
        let AssistantContent::Text(text) = &message.content[1] else { panic!("expected text") };
        assert_eq!(text.text, "pong");
        assert_eq!(message.usage.output, 30, "message_delta usage must overwrite");
        assert_eq!(message.usage.total_tokens, 40);
        assert!(message.response_id.is_some());
        // partial snapshots accumulate monotonically
        let mut last = 0usize;
        for event in &events {
            if let AssistantMessageEvent::TextDelta { partial, .. }
            | AssistantMessageEvent::ThinkingDelta { partial, .. } = event
            {
                assert!(partial.content.len() >= last);
                last = partial.content.len();
            }
        }
    }
}

#[test]
fn tool_use_arguments_accumulate_and_parse() {
    let transcript = frames(&[
        (
            "message_start",
            r#"{"type":"message_start","message":{"id":"m1","usage":{"input_tokens":5,"output_tokens":0}}}"#,
        ),
        (
            "content_block_start",
            r#"{"type":"content_block_start","index":0,"content_block":{"type":"tool_use","id":"t1","name":"get_weather","input":{}}}"#,
        ),
        (
            "content_block_delta",
            r#"{"type":"content_block_delta","index":0,"delta":{"type":"input_json_delta","partial_json":"{\"location\":"}}"#,
        ),
        (
            "content_block_delta",
            r#"{"type":"content_block_delta","index":0,"delta":{"type":"input_json_delta","partial_json":"\"Paris\"}"}}"#,
        ),
        ("content_block_stop", r#"{"type":"content_block_stop","index":0}"#),
        (
            "message_delta",
            r#"{"type":"message_delta","delta":{"stop_reason":"tool_use"},"usage":{"output_tokens":9}}"#,
        ),
        ("message_stop", r#"{"type":"message_stop"}"#),
    ]);
    let (events, message) = replay(&transcript, 11);
    assert_eq!(
        kinds_of(&events),
        ["start", "toolcall_start", "toolcall_delta", "toolcall_delta", "toolcall_end", "done"]
    );
    let AssistantMessageEvent::Done { reason, .. } = events.last().unwrap() else { unreachable!() };
    assert_eq!(*reason, DoneReason::ToolUse);
    let AssistantContent::ToolCall(call) = &message.content[0] else { panic!() };
    assert_eq!(call.arguments, json(r#"{"location": "Paris"}"#));
    // toolcall_end carries the parsed arguments too.
    let AssistantMessageEvent::ToolcallEnd { tool_call, .. } = &events[4] else { unreachable!() };
    assert_eq!(tool_call.arguments.get("location").unwrap().as_str(), Some("Paris"));
}

#[test]
fn malformed_and_unknown_frames_are_skipped() {
    let transcript = frames(&[
        ("message_start", r#"{"type":"message_start","message":{"id":"m1","usage":{}}}"#),
        ("content_block_delta", "{not json"),
        ("bogus_event", r#"{"type":"bogus_event"}"#),
        (
            "content_block_start",
            r#"{"type":"content_block_start","index":0,"content_block":{"type":"banana","x":1}}"#,
        ),
        (
            "content_block_delta",
            r#"{"type":"content_block_delta","index":0,"delta":{"type":"text_delta","text":"ignored"}}"#,
        ),
        ("content_block_stop", r#"{"type":"content_block_stop","index":0}"#),
        (
            "content_block_start",
            r#"{"type":"content_block_start","index":1,"content_block":{"type":"text","text":""}}"#,
        ),
        (
            "content_block_delta",
            r#"{"type":"content_block_delta","index":1,"delta":{"type":"text_delta","text":"ok"}}"#,
        ),
        ("content_block_stop", r#"{"type":"content_block_stop","index":1}"#),
        ("message_stop", r#"{"type":"message_stop"}"#),
    ]);
    let (events, message) = replay(&transcript, 4096);
    assert_eq!(kinds_of(&events), ["start", "text_start", "text_delta", "text_end", "done"]);
    assert_eq!(message.content.len(), 1, "unknown block must not enter content");
}

#[test]
fn refusal_stop_reason_becomes_error_turn() {
    let transcript = frames(&[
        ("message_start", r#"{"type":"message_start","message":{"id":"m1","usage":{}}}"#),
        (
            "message_delta",
            r#"{"type":"message_delta","delta":{"stop_reason":"refusal","stop_details":{"type":"refusal","category":"safety","explanation":"nope"}},"usage":{}}"#,
        ),
        ("message_stop", r#"{"type":"message_stop"}"#),
    ]);
    let (events, message) = replay(&transcript, 4096);
    let AssistantMessageEvent::Error { reason, error } = events.last().unwrap() else {
        panic!("expected error terminal, got {:?}", events.last());
    };
    assert_eq!(*reason, ErrorReason::Error);
    assert_eq!(error.error_message.as_deref(), Some("Refusal (safety): nope"));
    assert_eq!(message.stop_reason, StopReason::Error);
    assert!(message.stop_details.is_some());
}

#[test]
fn truncated_stream_finalizes_dangling_block() {
    let transcript = frames(&[
        ("message_start", r#"{"type":"message_start","message":{"id":"m1","usage":{}}}"#),
        (
            "content_block_start",
            r#"{"type":"content_block_start","index":0,"content_block":{"type":"text","text":""}}"#,
        ),
        (
            "content_block_delta",
            r#"{"type":"content_block_delta","index":0,"delta":{"type":"text_delta","text":"partial"}}"#,
        ),
        // stream drops here: no content_block_stop / message_delta / message_stop
    ]);
    let (events, message) = replay(&transcript, 4096);
    assert_eq!(kinds_of(&events), ["start", "text_start", "text_delta", "text_end", "done"]);
    let AssistantContent::Text(text) = &message.content[0] else { panic!() };
    assert_eq!(text.text, "partial");
}

#[test]
fn stream_without_message_start_is_error() {
    let mut builder = StreamingBuilder::new(&meta());
    let _ = builder.on_event(RawMessageStreamEvent::MessageStop);
    let (message, terminal) = builder.finish();
    assert_eq!(message.stop_reason, StopReason::Error);
    assert!(matches!(
        terminal.last(),
        Some(AssistantMessageEvent::Error { reason: ErrorReason::Error, .. })
    ));
    assert_eq!(message.error_message.as_deref(), Some("stream ended before message_start"));
}

#[test]
fn invalid_tool_json_falls_back_to_error_shape() {
    let transcript = frames(&[
        ("message_start", r#"{"type":"message_start","message":{"id":"m1","usage":{}}}"#),
        (
            "content_block_start",
            r#"{"type":"content_block_start","index":0,"content_block":{"type":"tool_use","id":"t1","name":"f","input":{}}}"#,
        ),
        (
            "content_block_delta",
            r#"{"type":"content_block_delta","index":0,"delta":{"type":"input_json_delta","partial_json":"{\"broken\": "}}"#,
        ),
        ("content_block_stop", r#"{"type":"content_block_stop","index":0}"#),
        ("message_stop", r#"{"type":"message_stop"}"#),
    ]);
    let (_, message) = replay(&transcript, 4096);
    let AssistantContent::ToolCall(call) = &message.content[0] else { panic!() };
    assert!(call.arguments.get("__parseError").unwrap().as_str().is_some());
    assert_eq!(call.arguments.get("__rawJson").unwrap().as_str(), Some("{\"broken\": "));
}

#[test]
fn builder_fail_aborted_keeps_partial_content() {
    let mut builder = StreamingBuilder::new(&meta());
    let _ = builder.on_event(wire(
        r#"{"type":"message_start","message":{"id":"m1","usage":{"input_tokens":3}}}"#,
    ));
    let _ = builder.on_event(wire(
        r#"{"type":"content_block_start","index":0,"content_block":{"type":"text","text":"hi"}}"#,
    ));
    let (message, events) = builder.fail(StopReason::Aborted, "Request was aborted.".into());
    assert!(matches!(
        events.last(),
        Some(AssistantMessageEvent::Error { reason: ErrorReason::Aborted, .. })
    ));
    assert_eq!(message.stop_reason, StopReason::Aborted);
    assert_eq!(message.content.len(), 1, "accumulated content survives abort");
}

#[test]
fn stream_error_message_formats_envelope() {
    let data = r#"{"type":"error","error":{"type":"overloaded_error","message":"Overloaded"}}"#;
    assert_eq!(
        stream_error_message(data, &envelope(data)),
        "Anthropic stream error (overloaded_error): Overloaded"
    );
    assert_eq!(stream_error_message("plain junk", &envelope("plain junk")), "plain junk");
}

#[test]
fn replayed_block_is_dropped() {
    let mut builder = StreamingBuilder::new(&meta());
    builder.on_event(wire(MESSAGE_START));
    let start = r#"{"type":"content_block_start","index":0,"content_block":{"type":"text","text":"hi"}}"#;
    builder.on_event(wire(start));
    builder.on_event(wire(r#"{"type":"content_block_stop","index":0}"#));
    assert!(builder.on_event(wire(MESSAGE_START)).is_empty());
    assert!(builder.on_event(wire(start)).is_empty());
    assert_eq!(builder.snapshot().content.len(), 1);
    let delta = r#"{"type":"content_block_delta","index":0,"delta":{"type":"text_delta","text":" again"}}"#;
    assert!(builder.on_event(wire(delta)).is_empty());
    assert!(builder.on_event(wire(r#"{"type":"content_block_stop","index":0}"#)).is_empty());
    match &builder.snapshot().content[..] {
        [AssistantContent::Text(block)] => assert_eq!(block.text, "hi"),
        other => panic!("{other:?}"),
    }
    assert!(builder.saw_message_start());
}

#[test]
fn clock_marks_are_set() {
    let mut builder = StreamingBuilder::new(&meta());
    builder.set_ttft_once(5);
    builder.set_ttft_once(9);
    builder.set_duration(12);
    assert_eq!(builder.snapshot().ttft, Some(5));
    assert_eq!(builder.snapshot().duration, Some(12));
}

#[test]
fn counts_that_do_not_fit_are_not_accepted() {
    let builder = StreamingBuilder::new(&meta());
    let big = RawMessageStreamEvent::MessageStart {
        message: ResponseMessage {
            id: "m".into(),
            message_type: None,
            role: None,
            model: None,
            content: Vec::new(),
            stop_reason: None,
            stop_sequence: None,
            usage: WireUsage {
                input_tokens: Some(u64::MAX),
                output_tokens: Some(1),
                cache_read_input_tokens: None,
                cache_creation_input_tokens: None,
                cache_creation: None,
                server_tool_use: None,
                iterations: None,
            },
        },
    };
    assert!(!builder.accepts(&big));
}

// the driver of a stream, on a scripted connection

enum Step {
    Bytes(Vec<u8>),
    /// Nothing comes for longer than any deadline.
    Stall,
    Fail(String),
    End,
}

enum Attempt {
    Stream(Vec<Step>),
    OpenFail(AiError),
}

/// Runs the driver to its end and collects every event. `cancel_at` is the kind of
/// event after which the request is cancelled.
fn drive(
    attempts: Vec<Attempt>,
    watchdog: WatchdogConfig,
    max_retries: u32,
    cancel_at: Option<&str>,
) -> Vec<AssistantMessageEvent> {
    let mut attempts = VecDeque::from(attempts);
    let (mut driver, first) = StreamDriver::start(meta(), watchdog, max_retries);
    let mut events = vec![first];
    loop {
        let next = attempts.pop_front().expect("opened more often than scripted (unexpected retry)");
        let mut steps = match next {
            Attempt::OpenFail(error) => {
                events.extend(driver.open_failed(&error));
                return events;
            }
            Attempt::Stream(steps) => VecDeque::from(steps),
        };
        let mut end: Option<AttemptEnd> = None;
        while end.is_none() {
            match steps.pop_front() {
                Some(Step::Bytes(bytes)) => {
                    for frame in driver.on_chunk(&bytes) {
                        let event = event_of(&frame);
                        match driver.on_frame(&frame, event, &envelope(&frame.data), 3) {
                            FrameStep::Events(new) => {
                                let cancelled = new.iter().any(|e| Some(kind(e)) == cancel_at);
                                events.extend(new);
                                if cancelled {
                                    end = Some(AttemptEnd::Cancelled);
                                }
                            }
                            FrameStep::Ended(e) => end = Some(e),
                        }
                        if end.is_some() {
                            break;
                        }
                    }
                }
                Some(Step::Stall) => {
                    if driver.deadline().is_some() {
                        end = Some(driver.timed_out());
                    }
                }
                Some(Step::Fail(message)) => end = Some(AttemptEnd::Transport(message)),
                Some(Step::End) | None => end = Some(AttemptEnd::Closed),
            }
        }
        let (again, step) = driver.on_end(end.unwrap(), 9);
        match step {
            EndStep::Retry(_) => driver = again,
            EndStep::Finish(last) => {
                events.extend(last);
                return events;
            }
        }
    }
}

fn single(steps: Vec<Step>) -> Vec<Attempt> {
    vec![Attempt::Stream(steps)]
}

fn one_chunk(transcript: &str) -> Vec<Step> {
    vec![Step::Bytes(transcript.as_bytes().to_vec()), Step::End]
}

fn watchdog_off() -> WatchdogConfig {
    WatchdogConfig::new(None, None)
}

fn terminal(events: &[AssistantMessageEvent]) -> &AssistantMessage {
    events.last().and_then(AssistantMessageEvent::terminal_message).expect("last event must be terminal")
}

fn text_of(message: &AssistantMessage, index: usize) -> &str {
    match &message.content[index] {
        AssistantContent::Text(block) => &block.text,
        other => panic!("content[{index}] is not text: {other:?}"),
    }
}

fn start_frame(id: &str) -> String {
    frames(&[(
        "message_start",
        &format!(r#"{{"type":"message_start","message":{{"id":"{id}","usage":{{"input_tokens":3,"output_tokens":0}}}}}}"#),
    )])
}

fn text_block_frames(pieces: &[&str]) -> String {
    let mut out = frames(&[(
        "content_block_start",
        r#"{"type":"content_block_start","index":0,"content_block":{"type":"text","text":""}}"#,
    )]);
    for p in pieces {
        out.push_str(&frames(&[(
            "content_block_delta",
            &format!(r#"{{"type":"content_block_delta","index":0,"delta":{{"type":"text_delta","text":"{p}"}}}}"#),
        )]));
    }
    out.push_str(&frames(&[("content_block_stop", r#"{"type":"content_block_stop","index":0}"#)]));
    out
}

fn delta_frame(output: u64) -> String {
    frames(&[(
        "message_delta",
        &format!(r#"{{"type":"message_delta","delta":{{"stop_reason":"end_turn"}},"usage":{{"output_tokens":{output}}}}}"#),
    )])
}

fn stop_frame() -> String {
    frames(&[("message_stop", r#"{"type":"message_stop"}"#)])
}

fn good_transcript() -> String {
    start_frame("retry-ok") + &text_block_frames(&["pong"]) + &delta_frame(5) + &stop_frame()
}

/// Ends before the envelope of a message.
fn no_message_start() -> String {
    frames(&[("ping", r#"{"type":"ping"}"#)])
}

/// A thought that has begun.
fn idle_gap() -> String {
    start_frame("idle")
        + &frames(&[
            (
                "content_block_start",
                r#"{"type":"content_block_start","index":0,"content_block":{"type":"thinking","thinking":""}}"#,
            ),
            (
                "content_block_delta",
                r#"{"type":"content_block_delta","index":0,"delta":{"type":"thinking_delta","thinking":"hmm"}}"#,
            ),
        ])
}

#[test]
fn spliced_message_start_replay_is_deduped() {
    let transcript = start_frame("chaos-splice-first")
        + &text_block_frames(&["pong"])
        + &start_frame("chaos-splice-second")
        + &text_block_frames(&["pong"])
        + &delta_frame(5)
        + &stop_frame();
    let events = drive(single(one_chunk(&transcript)), watchdog_off(), 0, None);
    let kinds = kinds_of(&events);
    // Exactly one text block round: the spliced replay of index 0 is dropped.
    assert_eq!(kinds.iter().filter(|k| **k == "text_start").count(), 1, "{kinds:?}");
    assert_eq!(kinds.iter().filter(|k| **k == "text_end").count(), 1, "{kinds:?}");
    assert_eq!(kinds.last().copied(), Some("done"));
    let message = terminal(&events);
    assert_eq!(message.content.len(), 1, "replayed block must not duplicate content");
    assert_eq!(text_of(message, 0), "pong");
    // The original envelope's response id is retained, not the spliced one.
    assert_eq!(message.response_id.as_deref(), Some("chaos-splice-first"));
}

#[test]
fn malformed_frame_is_skipped_and_stream_recovers() {
    let transcript = start_frame("m")
        + &frames(&[("content_block_start", "{garbage")])
        + &text_block_frames(&["ok"])
        + &delta_frame(2)
        + &stop_frame();
    let events = drive(single(one_chunk(&transcript)), watchdog_off(), 0, None);
    let message = terminal(&events);
    assert_eq!(message.stop_reason, StopReason::Stop);
    assert_eq!(message.content.len(), 1, "garbage frame must not create a block");
    assert_eq!(text_of(message, 0), "ok");
}

#[test]
fn drop_before_message_stop_finalizes_gracefully() {
    let transcript = start_frame("d") + &text_block_frames(&["pong"]) + &delta_frame(7);
    let events = drive(single(one_chunk(&transcript)), watchdog_off(), 0, None);
    let message = terminal(&events);
    // message_delta already carried the stop reason, so the missing message_stop
    // degrades to a clean `done`.
    assert_eq!(kind(events.last().unwrap()), "done");
    assert_eq!(message.stop_reason, StopReason::Stop);
    assert_eq!(text_of(message, 0), "pong");
    assert_eq!(message.usage.output, 7);
}

#[test]
fn torn_chunk_boundaries_reassemble() {
    let transcript = start_frame("h")
        + &text_block_frames(&["the quick brown fox ", "jumps over ", "the lazy dog"])
        + &delta_frame(9)
        + &stop_frame();
    // One byte per chunk: every frame and line is torn.
    let steps: Vec<Step> = transcript.bytes().map(|b| Step::Bytes(vec![b])).collect();
    let events = drive(single(steps), watchdog_off(), 0, None);
    let message = terminal(&events);
    assert_eq!(message.stop_reason, StopReason::Stop);
    assert_eq!(text_of(message, 0), "the quick brown fox jumps over the lazy dog");
}

#[test]
fn stream_ended_before_message_start_errors_without_retry_budget() {
    let events = drive(single(one_chunk(&no_message_start())), watchdog_off(), 0, None);
    let message = terminal(&events);
    assert_eq!(kind(events.last().unwrap()), "error");
    assert_eq!(message.stop_reason, StopReason::Error);
    assert_eq!(message.error_message.as_deref(), Some("stream ended before message_start"));
}

#[test]
fn retry_recovers_after_pre_content_close() {
    // The first attempt ends before message_start (retriable); the second succeeds.
    let attempts = vec![
        Attempt::Stream(one_chunk(&no_message_start())),
        Attempt::Stream(one_chunk(&good_transcript())),
    ];
    let events = drive(attempts, watchdog_off(), 3, None);
    let kinds = kinds_of(&events);
    assert_eq!(kinds.iter().filter(|k| **k == "start").count(), 1, "start pushed once across retries");
    assert_eq!(kinds.last().copied(), Some("done"));
    assert_eq!(text_of(terminal(&events), 0), "pong");
}

#[test]
fn retry_recovers_after_transport_error_before_content() {
    // message_start arrived but no content block opened: still replay-safe.
    let attempts = vec![
        Attempt::Stream(vec![
            Step::Bytes(start_frame("partial").into_bytes()),
            Step::Fail("connection reset".into()),
        ]),
        Attempt::Stream(one_chunk(&good_transcript())),
    ];
    let events = drive(attempts, watchdog_off(), 3, None);
    assert_eq!(kind(events.last().unwrap()), "done");
    assert_eq!(text_of(terminal(&events), 0), "pong");
}

#[test]
fn transport_error_after_first_content_is_terminal_not_retried() {
    // A single scripted attempt: a retry would panic.
    let transcript = start_frame("mid")
        + &frames(&[
            (
                "content_block_start",
                r#"{"type":"content_block_start","index":0,"content_block":{"type":"text","text":""}}"#,
            ),
            (
                "content_block_delta",
                r#"{"type":"content_block_delta","index":0,"delta":{"type":"text_delta","text":"par"}}"#,
            ),
        ]);
    let steps = vec![Step::Bytes(transcript.into_bytes()), Step::Fail("connection reset".into())];
    let events = drive(single(steps), watchdog_off(), 5, None);
    let message = terminal(&events);
    assert_eq!(kind(events.last().unwrap()), "error");
    assert_eq!(message.stop_reason, StopReason::Error);
    assert!(
        message.error_message.as_deref().unwrap().starts_with("Connection error while streaming"),
        "got {:?}",
        message.error_message
    );
    // Accumulated content survives the terminal error.
    assert_eq!(text_of(message, 0), "par");
}

#[test]
fn head_open_failure_is_a_standard_error_turn_without_retry() {
    let attempts = vec![Attempt::OpenFail(AiError::ConnectionTimeout)];
    let events = drive(attempts, watchdog_off(), 5, None);
    let message = terminal(&events);
    assert_eq!(kind(events.last().unwrap()), "error");
    assert_eq!(message.stop_reason, StopReason::Error);
    assert!(message.error_message.is_some());
}

const HOUR: u64 = 3_600_000;

#[test]
fn first_event_timeout_is_retriable() {
    // The first attempt stalls before the first frame; the retry wins.
    let attempts = vec![Attempt::Stream(vec![Step::Stall]), Attempt::Stream(one_chunk(&good_transcript()))];
    let events = drive(attempts, WatchdogConfig::new(Some(20), Some(HOUR)), 2, None);
    assert_eq!(kind(events.last().unwrap()), "done");
    assert_eq!(text_of(terminal(&events), 0), "pong");
}

#[test]
fn first_event_timeout_terminal_when_budget_exhausted() {
    let events = drive(single(vec![Step::Stall]), WatchdogConfig::new(Some(20), Some(HOUR)), 0, None);
    let message = terminal(&events);
    assert_eq!(kind(events.last().unwrap()), "error");
    assert_eq!(message.error_message.as_deref(), Some(FIRST_EVENT_TIMEOUT_MSG));
}

#[test]
fn idle_timeout_is_terminal_and_never_retried() {
    // Frames arrive, then the connection stalls. A single scripted attempt plus a
    // generous retry budget shows that the idle watchdog does not retry.
    let steps = vec![Step::Bytes(idle_gap().into_bytes()), Step::Stall];
    let events = drive(single(steps), WatchdogConfig::new(Some(HOUR), Some(20)), 5, None);
    let message = terminal(&events);
    assert_eq!(kind(events.last().unwrap()), "error");
    assert_eq!(message.error_message.as_deref(), Some(IDLE_TIMEOUT_MSG));
    // Partial thinking content accumulated before the stall survives.
    match &message.content[0] {
        AssistantContent::Thinking(block) => assert_eq!(block.thinking, "hmm"),
        other => panic!("expected thinking block, got {other:?}"),
    }
}

#[test]
fn cancel_mid_stream_under_watchdog_emits_aborted() {
    let steps = vec![Step::Bytes(idle_gap().into_bytes()), Step::Stall];
    let events =
        drive(single(steps), WatchdogConfig::new(Some(30_000), Some(30_000)), 3, Some("thinking_delta"));
    assert!(kinds_of(&events).contains(&"thinking_delta"));
    match events.last().unwrap() {
        AssistantMessageEvent::Error { reason, error } => {
            assert_eq!(*reason, ErrorReason::Aborted);
            assert_eq!(error.stop_reason, StopReason::Aborted);
            // Accumulated thinking content is preserved on the aborted turn.
            match &error.content[0] {
                AssistantContent::Thinking(block) => assert_eq!(block.thinking, "hmm"),
                other => panic!("expected thinking block, got {other:?}"),
            }
        }
        other => panic!("{other:?}"),
    }
}

#[test]
fn error_frame_ends_the_turn() {
    let transcript = start_frame("e")
        + &text_block_frames(&["par"])
        + &frames(&[("error", r#"{"type":"error","error":{"type":"overloaded_error","message":"Overloaded"}}"#)]);
    let events = drive(single(one_chunk(&transcript)), watchdog_off(), 5, None);
    let message = terminal(&events);
    assert_eq!(message.error_message.as_deref(), Some("Anthropic stream error (overloaded_error): Overloaded"));
    assert_eq!(text_of(message, 0), "par");
    assert_eq!(events.iter().filter(|e| e.is_terminal()).count(), 1);
}

#[test]
fn stream_with_content_is_not_opened_anew_when_it_closes() {
    let events = drive(single(one_chunk(&text_block_frames(&["shown"]))), watchdog_off(), 5, None);
    let message = terminal(&events);
    assert_eq!(message.error_message.as_deref(), Some("stream ended before message_start"));
    assert_eq!(events.iter().filter(|e| e.is_terminal()).count(), 1);
    assert_eq!(events.iter().filter(|e| kind(e) == "text_start").count(), 1);
}

#[test]
fn retry_waits_longer_each_time() {
    let mut waits: Vec<u64> = Vec::new();
    let (mut driver, _) = StreamDriver::start(meta(), watchdog_off(), 4);
    loop {
        let (again, step) = driver.on_end(AttemptEnd::Closed, 0);
        match step {
            EndStep::Retry(wait) => waits.push(wait),
            EndStep::Finish(events) => {
                assert_eq!(events.len(), 1);
                break;
            }
        }
        driver = again;
    }
    assert_eq!(waits.len(), 4);
    assert!(waits.windows(2).all(|w| w[0] <= w[1]));
}

#[test]
fn watchdog_settings_have_defaults() {
    assert_eq!(resolve_timeout(TimeoutSetting::Unset, 7), Some(7));
    assert_eq!(resolve_timeout(TimeoutSetting::Disabled, 7), None);
    assert_eq!(resolve_timeout(TimeoutSetting::Millis(3), 7), Some(3));
    let config = WatchdogConfig::from_env(TimeoutSetting::Unset, TimeoutSetting::Unset);
    assert_eq!(config.idle, Some(DEFAULT_IDLE_TIMEOUT_MS));
    assert_eq!(config.first_event, Some(DEFAULT_IDLE_TIMEOUT_MS));
    assert_eq!(config.deadline(false), Some(DEFAULT_IDLE_TIMEOUT_MS));
    let short = WatchdogConfig::from_env(TimeoutSetting::Millis(5), TimeoutSetting::Unset);
    assert_eq!(short.deadline(false), Some(DEFAULT_FIRST_EVENT_TIMEOUT_MS));
    assert_eq!(short.deadline(true), Some(5));
    assert_eq!(config.deadline(true), Some(DEFAULT_IDLE_TIMEOUT_MS));
    assert_eq!(env_first(&vec![None, Some("a".into()), Some("b".into())]).as_deref(), Some("a"));
    assert_eq!(env_first(&vec![None]), None);
}

//! Updates of a session, and the end of its turns.
use std::sync::Arc;

use omp_headless::agent_event::AgentEvent;
use omp_headless::event::AssistantMessageEvent;
use omp_headless::json::Json;
use omp_headless::json_repair::parse_json_with_repair;
use omp_headless::mapping::{
    map_event, map_tool_kind, resolve_stop_reason, stop_reason_given, AcpStopReason, SessionUpdate, ToolCallStatus,
    ToolKind,
};
use omp_headless::message::{AssistantMessage, Message, StopReason, Usage};

fn json(text: &str) -> Json {
    parse_json_with_repair(text).unwrap()
}

fn assistant(stop_reason: StopReason, error_message: Option<&str>) -> AssistantMessage {
    AssistantMessage {
        content: Vec::new(),
        api: String::new(),
        provider: String::new(),
        model: "test".to_owned(),
        context_snapshot: None,
        retry_recovery: None,
        response_id: None,
        upstream_provider: None,
        usage: Usage::default(),
        stop_reason,
        stop_details: None,
        error_message: error_message.map(ToOwned::to_owned),
        tool_call_abort_messages: None,
        error_status: None,
        error_id: None,
        disabled_features: None,
        provider_payload: None,
        timestamp: 0,
        duration: None,
        ttft: None,
    }
}

fn text_delta(delta: &str) -> AgentEvent {
    let partial = Arc::new(assistant(StopReason::Stop, None));
    AgentEvent::MessageUpdate {
        message: Message::Assistant(Box::new(assistant(StopReason::Stop, None))),
        assistant_message_event: AssistantMessageEvent::TextDelta {
            content_index: 0,
            delta: delta.to_owned(),
            partial,
        },
    }
}

fn thinking_delta(delta: &str) -> AgentEvent {
    let partial = Arc::new(assistant(StopReason::Stop, None));
    AgentEvent::MessageUpdate {
        message: Message::Assistant(Box::new(assistant(StopReason::Stop, None))),
        assistant_message_event: AssistantMessageEvent::ThinkingDelta {
            content_index: 0,
            delta: delta.to_owned(),
            partial,
        },
    }
}

/// The name of an update's variant.
fn variant(update: &SessionUpdate) -> &'static str {
    match update {
        SessionUpdate::AgentMessageChunk(_) => "agent_message_chunk",
        SessionUpdate::AgentThoughtChunk(_) => "agent_thought_chunk",
        SessionUpdate::ToolCall { .. } => "tool_call",
        SessionUpdate::ToolCallUpdate { .. } => "tool_call_update",
    }
}

#[test]
fn text_delta_maps_to_agent_message_chunk() {
    let updates = map_event(&text_delta("hello"));
    assert_eq!(updates.len(), 1);
    match &updates[0] {
        SessionUpdate::AgentMessageChunk(text) => assert_eq!(text, "hello"),
        other => panic!("expected agent_message_chunk, got {other:?}"),
    }
}

#[test]
fn thinking_delta_maps_to_agent_thought_chunk() {
    let updates = map_event(&thinking_delta("pondering"));
    assert_eq!(updates.len(), 1);
    assert_eq!(variant(&updates[0]), "agent_thought_chunk");
}

#[test]
fn empty_delta_produces_no_update() {
    assert!(map_event(&text_delta("")).is_empty());
    assert!(map_event(&thinking_delta("")).is_empty());
}

#[test]
fn tool_execution_start_maps_to_tool_call_with_kind_and_title() {
    let event = AgentEvent::ToolExecutionStart {
        tool_call_id: "call-1".to_owned(),
        tool_name: "write".to_owned(),
        args: json(r#"{ "path": "hello.txt", "content": "x" }"#),
        intent: None,
    };
    let updates = map_event(&event);
    assert_eq!(updates.len(), 1);
    match &updates[0] {
        SessionUpdate::ToolCall { tool_call_id, title, kind, status, raw_input } => {
            assert_eq!(tool_call_id, "call-1");
            assert_eq!(title, "write: hello.txt");
            assert_eq!(*kind, ToolKind::Edit);
            assert_eq!(*status, ToolCallStatus::Pending);
            assert_eq!(raw_input.get("path"), Some(&json(r#""hello.txt""#)));
        },
        other => panic!("expected tool_call, got {other:?}"),
    }
}

#[test]
fn tool_execution_start_intent_overrides_title() {
    let event = AgentEvent::ToolExecutionStart {
        tool_call_id: "c".to_owned(),
        tool_name: "grep".to_owned(),
        args: json(r#"{ "pattern": "foo" }"#),
        intent: Some("  search for foo  ".to_owned()),
    };
    match &map_event(&event)[0] {
        SessionUpdate::ToolCall { title, kind, .. } => {
            assert_eq!(title, "search for foo");
            assert_eq!(*kind, ToolKind::Search);
        },
        other => panic!("expected tool_call, got {other:?}"),
    }
}

#[test]
fn tool_execution_end_success_maps_to_completed_update() {
    let event = AgentEvent::ToolExecutionEnd {
        tool_call_id: "call-1".to_owned(),
        tool_name: "read".to_owned(),
        result: json(r#"{ "content": "file body" }"#),
        is_error: Some(false),
    };
    match &map_event(&event)[0] {
        SessionUpdate::ToolCallUpdate { tool_call_id, status, content, .. } => {
            assert_eq!(tool_call_id, "call-1");
            assert_eq!(*status, ToolCallStatus::Completed);
            assert_eq!(content.as_deref(), Some("file body"));
        },
        other => panic!("expected tool_call_update, got {other:?}"),
    }
}

#[test]
fn tool_execution_end_error_maps_to_failed_update() {
    let event = AgentEvent::ToolExecutionEnd {
        tool_call_id: "call-2".to_owned(),
        tool_name: "bash".to_owned(),
        result: json(r#""boom""#),
        is_error: Some(true),
    };
    match &map_event(&event)[0] {
        SessionUpdate::ToolCallUpdate { status, .. } => {
            assert_eq!(*status, ToolCallStatus::Failed);
        },
        other => panic!("expected tool_call_update, got {other:?}"),
    }
}

#[test]
fn lifecycle_events_are_not_mapped() {
    assert!(map_event(&AgentEvent::AgentStart).is_empty());
    assert!(map_event(&AgentEvent::TurnStart).is_empty());
    assert!(
        map_event(&AgentEvent::MessageStart {
            message: Message::Assistant(Box::new(assistant(StopReason::Stop, None))),
        })
        .is_empty()
    );
    assert!(map_event(&AgentEvent::AgentEnd { messages: Vec::new() }).is_empty());
}

#[test]
fn map_tool_kind_table() {
    assert_eq!(map_tool_kind("read"), ToolKind::Read);
    assert_eq!(map_tool_kind("edit"), ToolKind::Edit);
    assert_eq!(map_tool_kind("glob"), ToolKind::Search);
    assert_eq!(map_tool_kind("web_search"), ToolKind::Fetch);
    assert_eq!(map_tool_kind("todo"), ToolKind::Think);
    assert_eq!(map_tool_kind("unknown_tool"), ToolKind::Other);
}

#[test]
fn stop_reason_normal_end_turn() {
    let messages = vec![Message::Assistant(Box::new(assistant(StopReason::Stop, None)))];
    assert_eq!(resolve_stop_reason(&messages, false), AcpStopReason::EndTurn);
}

#[test]
fn stop_reason_cancel_requested_wins() {
    let messages = vec![Message::Assistant(Box::new(assistant(StopReason::Stop, None)))];
    assert_eq!(resolve_stop_reason(&messages, true), AcpStopReason::Cancelled);
}

#[test]
fn stop_reason_aborted_maps_to_cancelled() {
    let messages = vec![Message::Assistant(Box::new(assistant(StopReason::Aborted, None)))];
    assert_eq!(resolve_stop_reason(&messages, false), AcpStopReason::Cancelled);
}

#[test]
fn stop_reason_length_maps_to_max_tokens() {
    let messages = vec![Message::Assistant(Box::new(assistant(StopReason::Length, None)))];
    assert_eq!(resolve_stop_reason(&messages, false), AcpStopReason::MaxTokens);
}

#[test]
fn stop_reason_error_refusal_vs_end_turn() {
    let refusal = vec![Message::Assistant(Box::new(assistant(
        StopReason::Error,
        Some("request triggered content_filter"),
    )))];
    assert_eq!(resolve_stop_reason(&refusal, false), AcpStopReason::Refusal);

    let plain = vec![Message::Assistant(Box::new(assistant(
        StopReason::Error,
        Some("stream read error"),
    )))];
    assert_eq!(resolve_stop_reason(&plain, false), AcpStopReason::EndTurn);
}

#[test]
fn stop_reason_empty_defaults_end_turn() {
    assert_eq!(resolve_stop_reason(&vec![], false), AcpStopReason::EndTurn);
}

/// A sequence of events and the updates it comes to.
#[test]
fn full_event_sequence_maps_to_expected_update_stream() {
    let events = [
        AgentEvent::AgentStart,
        AgentEvent::TurnStart,
        text_delta("hel"),
        text_delta("lo"),
        AgentEvent::ToolExecutionStart {
            tool_call_id: "c1".to_owned(),
            tool_name: "write".to_owned(),
            args: json(r#"{ "path": "hello.txt" }"#),
            intent: None,
        },
        AgentEvent::ToolExecutionEnd {
            tool_call_id: "c1".to_owned(),
            tool_name: "write".to_owned(),
            result: json(r#"{ "content": "ok" }"#),
            is_error: Some(false),
        },
        text_delta("done"),
        AgentEvent::AgentEnd { messages: Vec::new() },
    ];
    let variants: Vec<&str> = events
        .iter()
        .flat_map(map_event)
        .map(|update| variant(&update))
        .collect();
    assert_eq!(variants, [
        "agent_message_chunk",
        "agent_message_chunk",
        "tool_call",
        "tool_call_update",
        "agent_message_chunk",
    ]);
}

#[test]
fn result_text_is_looked_for_in_order() {
    let shown = |result: &str| {
        let event = AgentEvent::ToolExecutionEnd {
            tool_call_id: "c".to_owned(),
            tool_name: "t".to_owned(),
            result: json(result),
            is_error: None,
        };
        match map_event(&event).remove(0) {
            SessionUpdate::ToolCallUpdate { content, status, raw_output, .. } => {
                assert_eq!(status, ToolCallStatus::Completed);
                assert_eq!(raw_output, json(result));
                content
            }
            other => panic!("{other:?}"),
        }
    };
    assert_eq!(shown(r#""plain""#).as_deref(), Some("plain"));
    assert_eq!(shown(r#"{"message":"m","text":"t","output":"o"}"#).as_deref(), Some("o"));
    assert_eq!(shown(r#"{"content":[1],"llmContent":"l"}"#).as_deref(), Some("l"));
    assert_eq!(shown("[1]"), None);
}

#[test]
fn title_falls_back_to_the_name() {
    let event = AgentEvent::ToolExecutionStart {
        tool_call_id: "c".to_owned(),
        tool_name: "odd".to_owned(),
        args: json(r#"{"path":1}"#),
        intent: Some("   ".to_owned()),
    };
    match map_event(&event).remove(0) {
        SessionUpdate::ToolCall { title, kind, .. } => {
            assert_eq!(title, "odd");
            assert_eq!(kind, ToolKind::Other);
        }
        other => panic!("{other:?}"),
    }
}

#[test]
fn refusal_is_only_reported_of_a_failed_response() {
    let stopped = vec![Message::Assistant(Box::new(assistant(StopReason::Stop, Some("Refused"))))];
    assert_eq!(resolve_stop_reason(&stopped, false), AcpStopReason::EndTurn);
    let failed = vec![Message::Assistant(Box::new(assistant(StopReason::Error, Some("REFUSAL"))))];
    assert_eq!(resolve_stop_reason(&failed, false), AcpStopReason::Refusal);
    assert_eq!(stop_reason_given(&failed, false, false), AcpStopReason::EndTurn);
    assert_eq!(stop_reason_given(&failed, false, true), AcpStopReason::Refusal);
    assert_eq!(resolve_stop_reason(&failed, true), AcpStopReason::Cancelled);
}

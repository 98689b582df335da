//! Frames of an event stream.
use omp_headless::json::Json;
use omp_headless::sse::{parse_message_event, stream_error_message, SseFrame, SseParser};
use omp_headless::wire::{ApiErrorBody, ErrorEnvelope};

#[test]
fn parses_frames_split_across_chunks() {
    let mut parser = SseParser::new();
    assert!(parser.push(b"event: message_st").is_empty());
    assert!(parser.push(b"art\ndata: {\"a\"").is_empty());
    let frames = parser.push(b":1}\n\nevent: ping\ndata: {}\n\n");
    assert_eq!(frames.len(), 2);
    assert_eq!(frames[0].event.as_deref(), Some("message_start"));
    assert_eq!(frames[0].data, "{\"a\":1}");
    assert_eq!(frames[1].event.as_deref(), Some("ping"));
}

#[test]
fn joins_multiple_data_lines_and_handles_crlf() {
    let mut parser = SseParser::new();
    let frames = parser.push(b"data: line1\r\ndata: line2\r\n\r\n");
    assert_eq!(frames.len(), 1);
    assert_eq!(frames[0].event, None);
    assert_eq!(frames[0].data, "line1\nline2");
}

#[test]
fn ignores_comments_and_unknown_fields() {
    let mut parser = SseParser::new();
    let frames = parser.push(b": keepalive\nid: 7\nretry: 100\n\n");
    assert!(frames.is_empty(), "comment/unknown-only block must not yield a frame");
    let frames = parser.push(b": note\ndata: x\n\n");
    assert_eq!(frames.len(), 1);
    assert_eq!(frames[0].data, "x");
}

#[test]
fn utf8_split_across_chunks_survives() {
    let mut parser = SseParser::new();
    let bytes = "data: héllo\n\n".as_bytes();
    let (a, b) = bytes.split_at(8); // splits inside the two-byte é
    assert!(parser.push(a).is_empty());
    let frames = parser.push(b);
    assert_eq!(frames[0].data, "héllo");
}

#[test]
fn bytes_that_are_no_text_are_replaced() {
    let mut parser = SseParser::new();
    let frames = parser.push(b"data: a\xffb\n\n");
    assert_eq!(frames[0].data, "a\u{fffd}b");
}

#[test]
fn trailing_unterminated_frame_is_discarded() {
    let mut parser = SseParser::new();
    let frames = parser.push(b"event: message_stop\ndata: {}");
    assert!(frames.is_empty());
    drop(parser);
}

#[test]
fn chunks_do_not_matter() {
    let bytes = "event: a\ndata: {\"x\": \"\u{e9}\"}\n\n: note\ndata: 1\r\ndata: 2\r\n\r\nevent: b\ndata: 3\n\ndata: 4".as_bytes();
    let mut whole = SseParser::new();
    let all = whole.push(bytes);
    assert_eq!(all.len(), 3);
    for size in 1..bytes.len() {
        let mut parser = SseParser::new();
        let mut frames: Vec<SseFrame> = Vec::new();
        for chunk in bytes.chunks(size) {
            frames.extend(parser.push(chunk));
        }
        assert_eq!(frames, all);
    }
}

#[test]
fn broken_bytes_become_replacement_characters() {
    let mut parser = SseParser::new();
    let frames = parser.push(b"data: a\xffb\n\n");
    assert_eq!(frames[0].data, "a\u{fffd}b");
}

fn frame(event: Option<&str>, data: &str) -> SseFrame {
    SseFrame { event: event.map(str::to_string), data: data.to_string() }
}

#[test]
fn only_message_events_are_taken_up() {
    let stop = frame(Some("message_stop"), r#"{"type":"message_stop"}"#);
    assert_eq!(parse_message_event(&stop).unwrap().get("type"), Some(&Json::String("message_stop".to_string())));
    assert_eq!(parse_message_event(&frame(Some("ping"), r#"{"type":"ping"}"#)), None);
    assert_eq!(parse_message_event(&frame(Some("message_stop"), "{not json")), None);
    assert_eq!(parse_message_event(&frame(Some("future"), r#"{"type":"future"}"#)), None);
}

#[test]
fn error_text_comes_from_the_envelope() {
    let envelope = ErrorEnvelope {
        error: ApiErrorBody { error_type: "overloaded_error".to_string(), message: "Overloaded".to_string() },
    };
    assert_eq!(
        stream_error_message("{}", &Some(envelope)),
        "Anthropic stream error (overloaded_error): Overloaded"
    );
}

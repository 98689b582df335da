//! Journals of sessions: written, listed, loaded and taken up again.
use omp_headless::context::{
    build_session_context, strip_dangling_tool_calls, CompactionSummaryMessage, ContextMessage,
};
use omp_headless::entries::{
    find_entry, message_role, walk_branch, BranchSummaryEntry, CompactionEntry, KnownEntry, MessageEntry,
    MessageRole, ModelChangeEntry, SessionEntry,
};
use omp_headless::json::{Json, JsonNumber};
use omp_headless::json_repair::parse_json_with_repair;
use omp_headless::loader::{
    blob_hash, elide_superseded_compaction_entries, fill_blobs, open_session, parse_session_content, Blob,
    LoadError, SessionReader, STREAM_LOAD_THRESHOLD_BYTES,
};
use omp_headless::message::{
    AssistantContent, AssistantMessage, ImageContent, Message, MessageAttribution, StopReason, TextContent, ToolCall,
    Usage, UserContent, UserContentBlock, UserMessage,
};
use omp_headless::server::{
    extract_prompt_text, find_session_file, list_dir, list_sessions, load_prior_messages, merge_tools,
    prompt_message, read_session_head, session_dir, CancelState, SessionMeta,
};
use omp_headless::time::unix_ms_to_iso;
use omp_headless::title_slot::serialize_title_slot;
use omp_headless::writer::{entry_line, file_safe_timestamp, mint_session_id, SessionWriter};

const HEADER: &str = r#"{"type":"session","version":3,"id":"s1","timestamp":"2026-01-01T00:00:00.000Z","cwd":"/tmp"}"#;
const STAMP: &str = "2026-01-01T00:00:00.000Z";

fn json(text: &str) -> Json {
    parse_json_with_repair(text).unwrap()
}

fn user(text: &str) -> Message {
    Message::User(UserMessage {
        content: UserContent::Text(text.to_string()),
        synthetic: None,
        steering: None,
        attribution: None,
        provider_payload: None,
        timestamp: 1,
    })
}

fn assistant_with(content: Vec<AssistantContent>) -> AssistantMessage {
    AssistantMessage {
        content,
        api: "x".into(),
        provider: "p".into(),
        model: "m".into(),
        context_snapshot: None,
        retry_recovery: None,
        response_id: None,
        upstream_provider: None,
        usage: Usage::default(),
        stop_reason: StopReason::Stop,
        stop_details: None,
        error_message: None,
        tool_call_abort_messages: None,
        error_status: None,
        error_id: None,
        disabled_features: None,
        provider_payload: None,
        timestamp: 1,
        duration: None,
        ttft: None,
    }
}

fn text_content(text: &str) -> AssistantContent {
    AssistantContent::Text(TextContent { text: text.to_string(), text_signature: None })
}

fn assistant(text: &str) -> Message {
    Message::Assistant(Box::new(assistant_with(vec![text_content(text)])))
}

fn entry(id: &str, parent: Option<&str>, message: Message) -> SessionEntry {
    SessionEntry::Known(KnownEntry::Message(MessageEntry {
        id: id.to_string(),
        parent_id: parent.map(str::to_string),
        timestamp: STAMP.to_string(),
        message,
    }))
}

/// A message entry as it stands in a journal.
fn entry_json(e: &KnownEntry) -> Json {
    let KnownEntry::Message(m) = e else { panic!("{e:?}") };
    let quoted = |s: &str| serde_json::Value::String(s.to_string()).to_string();
    let parent = m.parent_id.as_deref().map_or("null".to_string(), quoted);
    let message = match &m.message {
        Message::User(u) => match &u.content {
            UserContent::Text(t) => format!(r#"{{"role":"user","content":{},"timestamp":{}}}"#, quoted(t), u.timestamp),
            other => panic!("{other:?}"),
        },
        Message::Assistant(a) => match &a.content[0] {
            AssistantContent::Text(t) => {
                format!(r#"{{"role":"assistant","content":[{{"type":"text","text":{}}}]}}"#, quoted(&t.text))
            }
            other => panic!("{other:?}"),
        },
        other => panic!("{other:?}"),
    };
    json(&format!(
        r#"{{"type":"message","id":{},"parentId":{parent},"timestamp":{},"message":{message}}}"#,
        quoted(&m.id),
        quoted(&m.timestamp)
    ))
}

/// The entry that a line of a journal holds.
fn entry_of(v: &Json) -> SessionEntry {
    let text = |key: &str| v.get(key).and_then(|x| x.as_str()).map(str::to_string);
    let m = v.get("message").unwrap();
    let message = match m.get("role").unwrap().as_str().unwrap() {
        "user" => user(m.get("content").unwrap().as_str().unwrap()),
        "assistant" => match m.get("content").unwrap() {
            Json::Array(b) => assistant(b[0].get("text").unwrap().as_str().unwrap()),
            other => panic!("{other:?}"),
        },
        other => panic!("{other}"),
    };
    SessionEntry::Known(KnownEntry::Message(MessageEntry {
        id: text("id").unwrap(),
        parent_id: text("parentId"),
        timestamp: text("timestamp").unwrap(),
        message,
    }))
}

fn entries_of(content: &str) -> Vec<SessionEntry> {
    parse_session_content(content).unwrap().entries.iter().map(entry_of).collect()
}

/// Adds a message to a journal.
fn append(writer: &mut SessionWriter, content: &mut String, message: Message) {
    let e = writer.append_message(message, STAMP.to_string());
    content.push_str(&entry_line(&entry_json(&e)));
    writer.record(&e);
}

fn head(content: &str) -> omp_headless::server::SessionHead {
    let mut lines = content.split('\n');
    read_session_head(lines.next().unwrap(), lines.next().unwrap()).unwrap()
}

#[test]
fn load_resume_list_find_roundtrip() {
    let cwd = "/tmp/proj";

    // A fresh session, one user and one assistant message.
    let new = SessionWriter::create(cwd, 1_767_225_600_000);
    let mut w = new.writer;
    let mut content = new.body;
    append(&mut w, &mut content, user("remember codeword BANANA"));
    append(&mut w, &mut content, assistant("noted: BANANA"));
    let session_id = w.session_id().to_string();

    // Prior messages are built again from the journal.
    let prior = load_prior_messages(&build_session_context(&entries_of(&content), None).messages);
    assert_eq!(prior.len(), 2, "turn 1 messages load back");

    // List and find by id.
    let h = head(&content);
    let metas = vec![SessionMeta { id: h.id, cwd: h.cwd, title: h.title, path: new.file_name.clone(), updated_ms: 5 }];
    let infos = list_sessions(metas);
    assert_eq!(infos.len(), 1);
    assert_eq!(infos[0].id, session_id);
    assert_eq!(infos[0].cwd, cwd);
    assert_eq!(find_session_file(&infos, &session_id).as_deref(), Some(new.file_name.as_str()));
    assert!(find_session_file(&infos, "no-such-id").is_none());

    // Take up the same journal and add the second turn.
    let leaf_before = w.leaf_id().map(str::to_string);
    let mut w = SessionWriter::resume(session_id.clone(), &entries_of(&content));
    assert_eq!(w.leaf_id().map(str::to_string), leaf_before, "resume picks up prior leaf");
    append(&mut w, &mut content, user("what is the codeword?"));
    append(&mut w, &mut content, assistant("BANANA"));

    // All four messages are present, in order, in one journal.
    let entries = entries_of(&content);
    let after = load_prior_messages(&build_session_context(&entries, None).messages);
    assert_eq!(after.len(), 4, "turn 1 + turn 2 both in the same journal");

    // The chain from the leaf to the root is continuous.
    let branch = walk_branch(&entries, Some(entries.len() - 1));
    assert_eq!(branch.len(), 4, "single continuous leaf to root chain over all 4 entries");
}

#[test]
fn read_session_meta_fresh_session_has_no_title() {
    let new = SessionWriter::create("/tmp/x", 1_767_225_600_000);
    let mut w = new.writer;
    let mut content = new.body;
    append(&mut w, &mut content, user("hi"));
    let meta = head(&content);
    assert_eq!(meta.id, w.session_id());
    assert_eq!(meta.cwd, "/tmp/x");
    assert!(meta.title.is_none(), "fresh session writes an empty title slot");
}

#[test]
fn list_dir_prefers_env_then_cwd() {
    assert_eq!(list_dir(None, Some("/tmp/proj")).as_deref(), Some("/tmp/proj/.omp-headless/sessions"));
    assert_eq!(list_dir(None, None), None, "no env + no cwd, nothing to list");
    assert_eq!(list_dir(Some("/env"), Some("/tmp/proj")).as_deref(), Some("/env"));
    assert_eq!(list_dir(Some("/env"), None).as_deref(), Some("/env"));
    assert_eq!(session_dir(None, "/"), "/.omp-headless/sessions");
    assert_eq!(session_dir(None, ""), ".omp-headless/sessions");
}

#[test]
fn head_is_read_with_and_without_a_slot() {
    let named = serialize_title_slot("Named", Some("user"), STAMP);
    assert_eq!(read_session_head(&named, HEADER).unwrap().title.as_deref(), Some("Named"));
    let own = HEADER.replace("\"cwd\"", "\"title\":\"Own\",\"cwd\"");
    assert_eq!(read_session_head(&own, "").unwrap().title.as_deref(), Some("Own"));
    let empty = serialize_title_slot("", None, STAMP);
    assert_eq!(read_session_head(&empty, &own).unwrap().title.as_deref(), Some("Own"));
    assert!(read_session_head("not json", HEADER).is_none());
    assert!(read_session_head(r#"{"type":"message","id":"x"}"#, HEADER).is_none());
    assert!(read_session_head(r#"{"type":"session"}"#, HEADER).is_none());
}

#[test]
fn sessions_are_listed_latest_first() {
    let meta = |id: &str, updated_ms: i64| SessionMeta {
        id: id.to_string(),
        cwd: String::new(),
        title: None,
        path: id.to_string(),
        updated_ms,
    };
    let listed = list_sessions(vec![meta("a", 3), meta("b", 7), meta("c", 3), meta("d", 9)]);
    let ids: Vec<&str> = listed.iter().map(|m| m.id.as_str()).collect();
    assert_eq!(ids, vec!["d", "b", "a", "c"]);
}

#[test]
fn builtin_tools_beat_added_ones() {
    let builtin = vec!["read".to_string(), "bash".to_string()];
    let added = vec!["card".to_string(), "bash".to_string(), "note".to_string()];
    assert_eq!(merge_tools(&builtin, &added), vec![0, 2]);
}

#[test]
fn prompt_is_the_text_of_its_blocks() {
    let text = extract_prompt_text(&vec![Some("a".to_string()), None, Some("b".to_string())]);
    assert_eq!(text, "ab");
    match prompt_message(text, 9) {
        Message::User(u) => {
            assert_eq!(u.content, UserContent::Text("ab".into()));
            assert_eq!(u.attribution, Some(MessageAttribution::User));
            assert_eq!(u.timestamp, 9);
        }
        other => panic!("{other:?}"),
    }
}

#[test]
fn cancellation_holds_for_one_turn() {
    let mut state = CancelState::new();
    assert!(!state.request_cancel());
    assert!(state.was_cancel_requested());
    state.arm_cancel();
    assert!(!state.was_cancel_requested());
    assert!(state.request_cancel());
    state.disarm_cancel();
    assert!(state.was_cancel_requested());
    assert!(!state.request_cancel());
}

// values kept outside the journal

fn image_entry(reference: &str) -> Json {
    json(&format!(
        r#"{{"type":"message","id":"a","parentId":null,"timestamp":"{STAMP}","message":{{"role":"user","timestamp":1,"content":[{{"type":"image","data":"{reference}","mimeType":"image/png"}}]}}}}"#
    ))
}

fn first_image_data(v: &Json) -> String {
    match v.get("message").unwrap().get("content").unwrap() {
        Json::Array(b) => b[0].get("data").unwrap().as_str().unwrap().to_string(),
        other => panic!("{other:?}"),
    }
}

#[test]
fn b5_blob_ref_in_image_block_resolves_to_inline_base64() {
    let bytes = b"\x89PNG\r\n\x1a\nfake-image-bytes";
    let blobs = vec![Blob { hash: "hash01".to_string(), bytes: bytes.to_vec() }];
    let filled = fill_blobs(&image_entry("blob:sha256:hash01"), &blobs);
    let data = first_image_data(&filled);
    assert_eq!(data, base64::Engine::encode(&base64::engine::general_purpose::STANDARD, bytes));
    assert_eq!(data, "iVBORw0KGgpmYWtlLWltYWdlLWJ5dGVz");
}

#[test]
fn b5_missing_blob_keeps_ref_verbatim() {
    let filled = fill_blobs(&image_entry("blob:sha256:absent"), &vec![]);
    assert_eq!(first_image_data(&filled), "blob:sha256:absent");
    assert_eq!(filled, image_entry("blob:sha256:absent"));
    assert_eq!(blob_hash("blob:sha256:h").as_deref(), Some("h"));
    assert_eq!(blob_hash("sha256:h"), None);
}

#[test]
fn b6_streaming_loads_all_entries_of_a_large_file() {
    let count = 12_000usize;
    // Title slot, header and messages, each padded so that the journal is read line
    // by line.
    let mut body = serialize_title_slot("streamed", None, STAMP);
    body.push_str(HEADER);
    body.push('\n');
    let pad = "x".repeat(700);
    for i in 0..count {
        let parent = if i == 0 { "null".to_string() } else { format!("\"m{}\"", i - 1) };
        body.push_str(&format!(
            r#"{{"type":"message","id":"m{i}","parentId":{parent},"timestamp":"{STAMP}","message":{{"role":"user","timestamp":1,"content":"msg-{i}-{pad}"}}}}"#
        ));
        body.push('\n');
    }
    // A malformed line is skipped.
    body.push_str("not-json-garbage\n");
    assert!(body.len() as u64 >= STREAM_LOAD_THRESHOLD_BYTES);

    let mut reader = SessionReader::new();
    for line in body.split('\n') {
        reader.push_line(line);
    }
    let loaded = open_session(reader).unwrap();
    assert_eq!(loaded.entries.len(), count, "every entry parsed via streaming");
    assert_eq!(loaded.title_slot.as_ref().map(|s| s.title.as_str()), Some("streamed"));
    let text = |v: &Json| v.get("message").unwrap().get("content").unwrap().as_str().unwrap().to_string();
    assert!(text(&loaded.entries[0]).starts_with("msg-0-"));
    assert!(text(&loaded.entries[count - 1]).starts_with(&format!("msg-{}-", count - 1)));
}

// context

fn branch_summary(id: &str, parent: &str, summary: &str) -> SessionEntry {
    SessionEntry::Known(KnownEntry::BranchSummary(BranchSummaryEntry {
        id: id.to_string(),
        parent_id: Some(parent.to_string()),
        timestamp: STAMP.to_string(),
        from_id: "x9".to_string(),
        summary: summary.to_string(),
    }))
}

#[test]
fn b7_branch_summary_entry_synthesizes_a_branch_summary_message() {
    let entries = vec![
        entry("a1", None, user("hi")),
        entry("a2", Some("a1"), Message::Assistant(Box::new(assistant_with(vec![])))),
        branch_summary("b1", "a2", "forked-here"),
    ];
    let ctx = build_session_context(&entries, None);
    assert_eq!(ctx.messages.len(), 3, "user + assistant + branchSummary");
    match &ctx.messages[2] {
        ContextMessage::BranchSummary(b) => {
            assert_eq!(b.summary, "forked-here");
            assert_eq!(b.from_id, "x9");
            assert_eq!(b.timestamp, 1_767_225_600_000);
        }
        other => panic!("expected branchSummary, got {other:?}"),
    }
}

#[test]
fn b7_empty_summary_branch_summary_emits_nothing() {
    let entries = vec![entry("a1", None, user("hi")), branch_summary("b1", "a1", "")];
    let ctx = build_session_context(&entries, None);
    assert_eq!(ctx.messages.len(), 1, "empty-summary branch_summary is skipped");
}

#[test]
fn b7_recovered_assistant_turn_is_skipped() {
    let mut recovered = assistant_with(vec![text_content("lost")]);
    recovered.retry_recovery = Some(json(r#"{"status":"recovered"}"#));
    let entries = vec![
        entry("a1", None, user("hi")),
        entry("a2", Some("a1"), Message::Assistant(Box::new(recovered))),
        entry("a3", Some("a2"), assistant("kept")),
    ];
    let ctx = build_session_context(&entries, None);
    assert_eq!(ctx.messages.len(), 2, "recovered assistant turn dropped");
    let texts: Vec<String> = ctx
        .messages
        .iter()
        .filter_map(|m| match m {
            ContextMessage::Standard(Message::Assistant(a)) => match &a.content[0] {
                AssistantContent::Text(t) => Some(t.text.clone()),
                _ => None,
            },
            _ => None,
        })
        .collect();
    assert_eq!(texts, vec!["kept".to_string()]);
}

#[test]
fn only_the_branch_of_the_leaf_counts() {
    let entries = vec![
        entry("a", None, user("root")),
        entry("b", Some("a"), user("left")),
        entry("c", Some("a"), user("right")),
    ];
    assert_eq!(walk_branch(&entries, Some(2)), vec![2, 0]);
    assert_eq!(find_entry(&entries, "b"), Some(1));
    assert_eq!(find_entry(&entries, "z"), None);
    assert_eq!(build_session_context(&entries, None).messages.len(), 2);
    let left = build_session_context(&entries, Some("b"));
    assert!(matches!(&left.messages[1], ContextMessage::Standard(Message::User(u)) if u.content == UserContent::Text("left".into())));
}

fn compaction(id: &str, parent: Option<&str>, summary: &str, kept: &str) -> SessionEntry {
    SessionEntry::Known(KnownEntry::Compaction(CompactionEntry {
        id: id.to_string(),
        parent_id: parent.map(str::to_string),
        timestamp: STAMP.to_string(),
        summary: summary.to_string(),
        short_summary: Some("short".to_string()),
        first_kept_entry_id: kept.to_string(),
        tokens_before: 10,
        details: None,
        preserve_data: Some(json(r#"{"a":1}"#)),
        from_extension: None,
        warning: None,
    }))
}

#[test]
fn context_begins_with_the_newest_compaction() {
    let entries = vec![
        entry("a", None, user("old")),
        entry("b", Some("a"), user("kept")),
        compaction("c", Some("b"), "summary", "b"),
        entry("d", Some("c"), user("new")),
    ];
    let ctx = build_session_context(&entries, None);
    assert_eq!(ctx.messages.len(), 3);
    match &ctx.messages[0] {
        ContextMessage::CompactionSummary(c) => {
            assert_eq!(c.summary, "summary");
            assert_eq!(c.tokens_before, 10);
        }
        other => panic!("{other:?}"),
    }
}

#[test]
fn superseded_compactions_are_elided() {
    let mut entries = vec![
        entry("a", None, user("x")),
        compaction("c1", Some("a"), "first", "a"),
        compaction("off", Some("a"), "other branch", "a"),
        compaction("c2", Some("c1"), "second", "a"),
    ];
    elide_superseded_compaction_entries(&mut entries);
    let summary = |e: &SessionEntry| match e {
        SessionEntry::Known(KnownEntry::Compaction(c)) => (c.summary.clone(), c.preserve_data.is_some()),
        other => panic!("{other:?}"),
    };
    assert_eq!(
        summary(&entries[1]),
        ("[Superseded compaction summary elided during session load]".to_string(), false)
    );
    assert_eq!(summary(&entries[2]), ("other branch".to_string(), true));
    assert_eq!(summary(&entries[3]), ("second".to_string(), true));
}

#[test]
fn settings_follow_the_branch() {
    let entries = vec![
        SessionEntry::Known(KnownEntry::ModelChange(ModelChangeEntry {
            id: "a".into(),
            parent_id: None,
            timestamp: STAMP.into(),
            model: "big".into(),
            role: None,
        })),
        SessionEntry::Unknown(json(r#"{"type":"future","id":"b","parentId":"a"}"#)),
        entry("c", Some("b"), user("hi")),
    ];
    let ctx = build_session_context(&entries, None);
    assert_eq!(ctx.models, vec![("default".to_string(), "big".to_string())]);
    assert_eq!(ctx.messages.len(), 1);
}

#[test]
fn calls_without_an_answer_are_stripped() {
    let call = AssistantContent::ToolCall(ToolCall {
        id: "c1".into(),
        name: "t".into(),
        arguments: json("{}"),
        thought_signature: None,
        intent: None,
        raw_block: None,
        custom_wire_name: None,
    });
    let messages = vec![ContextMessage::Standard(Message::Assistant(Box::new(assistant_with(vec![
        text_content("x"),
        call,
    ]))))];
    let stripped = strip_dangling_tool_calls(messages);
    match &stripped[0] {
        ContextMessage::Standard(Message::Assistant(a)) => assert_eq!(a.content, vec![text_content("x")]),
        other => panic!("{other:?}"),
    }
}

#[test]
fn summaries_keep_what_they_carry() {
    let summary = || {
        ContextMessage::CompactionSummary(CompactionSummaryMessage {
            summary: "s".into(),
            short_summary: None,
            tokens_before: 7,
            provider_payload: Some(json(r#"{"a":1}"#)),
            blocks: Some(vec![json(r#"{"b":2}"#)]),
            images: Some(vec![json(r#"{"c":3}"#), json("null")]),
            warning: Some("w".into()),
            timestamp: 9,
        })
    };
    assert_eq!(strip_dangling_tool_calls(vec![summary()]), vec![summary()]);
}

// loading

#[test]
fn journals_that_cannot_be_loaded_say_why() {
    assert_eq!(parse_session_content(""), Err(LoadError::NoEntries));
    assert_eq!(parse_session_content("garbage\n\n"), Err(LoadError::NoEntries));
    assert_eq!(
        parse_session_content(r#"{"type":"message","id":"a","timestamp":"t","cwd":"/"}"#),
        Err(LoadError::NotAHeader("message".to_string()))
    );
    for bad in [
        r#"["session"]"#,
        r#"{"id":"s","timestamp":"t","cwd":"/"}"#,
        r#"{"type":"session","timestamp":"t","cwd":"/"}"#,
        r#"{"type":"session","id":7,"timestamp":"t","cwd":"/"}"#,
        r#"{"type":"session","id":"s","cwd":"/"}"#,
        r#"{"type":"session","id":"s","timestamp":"t","cwd":null}"#,
        r#"{"type":"session","version":"three","id":"s","timestamp":"t","cwd":"/"}"#,
        r#"{"type":"session","version":4294967296,"id":"s","timestamp":"t","cwd":"/"}"#,
        r#"{"type":"session","version":-1,"id":"s","timestamp":"t","cwd":"/"}"#,
        r#"{"type":"session","version":3,"id":"s","timestamp":"t","cwd":"/","title":5}"#,
        r#"{"type":"message","id":"a"}"#,
    ] {
        assert_eq!(parse_session_content(bad), Err(LoadError::BadHeader), "{bad}");
    }
    for good in [
        r#"{"type":"session","version":4294967295,"id":"s","timestamp":"t","cwd":"/"}"#,
        r#"{"type":"session","version":3,"id":"s","timestamp":"t","cwd":"/","title":null,"titleSource":"auto","more":1}"#,
    ] {
        assert_eq!(parse_session_content(good).unwrap().header, json(good));
    }
}

#[test]
fn old_journals_are_brought_to_the_current_version() {
    let content = [
        r#"{"type":"session","id":"s","timestamp":"2026-01-01T00:00:00.000Z","cwd":"/"}"#,
        r#"{"type":"message","timestamp":"2026-01-01T00:00:00.000Z","message":{"role":"user","content":"a","timestamp":1}}"#,
        r#"{"type":"message","timestamp":"2026-01-01T00:00:00.000Z","message":{"role":"user","content":"b","timestamp":1}}"#,
        r#"{"type":"compaction","timestamp":"2026-01-01T00:00:00.000Z","summary":"s","firstKeptEntryIndex":2,"tokensBefore":5}"#,
    ]
    .join("\n");
    let loaded = parse_session_content(&content).unwrap();
    assert_eq!(loaded.header.get("version"), Some(&Json::Number(JsonNumber::PosInt(3))));
    assert_eq!(loaded.entries.len(), 3);
    let ids: Vec<&str> = loaded.entries.iter().map(|e| e.get("id").unwrap().as_str().unwrap()).collect();
    assert_eq!(ids, vec!["00000000", "00000001", "00000002"]);
    assert_eq!(loaded.entries[0].get("parentId"), Some(&Json::Null));
    assert_eq!(loaded.entries[1].get("parentId").unwrap().as_str(), Some("00000000"));
    assert_eq!(loaded.entries[2].get("parentId").unwrap().as_str(), Some("00000001"));
    assert_eq!(loaded.entries[2].get("firstKeptEntryId").unwrap().as_str(), Some("00000001"));
    assert_eq!(loaded.entries[2].get("firstKeptEntryIndex"), None);
}

#[test]
fn current_journals_are_loaded_as_they_are() {
    let content = format!("{HEADER}\n{{\"type\":\"future\",\"x\":1}}\n");
    let loaded = parse_session_content(&content).unwrap();
    assert_eq!(loaded.header, json(HEADER));
    assert_eq!(loaded.entries, vec![json(r#"{"type":"future","x":1}"#)]);
    assert_eq!(loaded.title_slot, None);
}

// roles

#[test]
fn tool_result_role_dispatches_to_tool_result() {
    let message = json(r#"{"role":"toolResult","toolCallId":"c1","toolName":"bash","content":[{"type":"text","text":"hi"}],"isError":false,"timestamp":1}"#);
    assert_eq!(message_role(&message), Some(MessageRole::ToolResult));
}

#[test]
fn four_roles_round_trip_to_matching_variants() {
    let cases = [
        (r#"{"role":"user","content":"hi","timestamp":1}"#, MessageRole::User),
        (r#"{"role":"developer","content":"hi","timestamp":1}"#, MessageRole::Developer),
        (
            r#"{"role":"assistant","content":[],"api":"anthropic-messages","provider":"anthropic","model":"m","stopReason":"stop","timestamp":1}"#,
            MessageRole::Assistant,
        ),
        (
            r#"{"role":"toolResult","toolCallId":"c","toolName":"t","content":[],"isError":false,"timestamp":1}"#,
            MessageRole::ToolResult,
        ),
    ];
    for (text, role) in cases {
        assert_eq!(message_role(&json(text)), Some(role), "{text}");
    }
}

#[test]
fn unknown_role_is_an_error() {
    assert_eq!(message_role(&json(r#"{"role":"bashExecution","content":"x","timestamp":1}"#)), None);
}

#[test]
fn missing_role_is_an_error() {
    assert_eq!(message_role(&json(r#"{"content":"x","timestamp":1}"#)), None);
}

// writing

#[test]
fn new_journal_is_loaded_as_it_was_begun() {
    let new = SessionWriter::create("/a \"b\"\n", 1_767_225_600_123);
    assert_eq!(new.file_name, format!("2026-01-01T00-00-00-123Z_{}.jsonl", new.writer.session_id()));
    assert_eq!(new.writer.session_id(), mint_session_id(1_767_225_600_123));
    let loaded = parse_session_content(&new.body).unwrap();
    assert_eq!(loaded.header.get("id").unwrap().as_str(), Some(new.writer.session_id()));
    assert_eq!(loaded.header.get("cwd").unwrap().as_str(), Some("/a \"b\"\n"));
    assert_eq!(loaded.header.get("timestamp").unwrap().as_str(), Some(unix_ms_to_iso(1_767_225_600_123).as_str()));
    assert_eq!(loaded.title_slot.unwrap().title, "");
    assert!(loaded.entries.is_empty());
}

#[test]
fn identifiers_have_the_shape_of_a_time_ordered_id() {
    assert_eq!(mint_session_id(0x0123_4567_89ab), "01234567-89ab-7000-8000-0123456789ab");
    assert_eq!(file_safe_timestamp("a:b.c"), "a-b-c");
}

#[test]
fn written_lines_are_read_back() {
    let new = SessionWriter::create("/", 0);
    let values = [
        json(r#"{"type":"x","text":"line\nfeed","n":-5,"list":[1,{"a":null}]}"#),
        json(r#"{"type":"y","s":"\u0000   é"}"#),
        json(r#"{"type":"z","$serde_json::private::RawValue":"[1]"}"#),
        json(r#"{"type":"message","message":{"role":"assistant","usage":{"cost":{"input":0.25,"total":1.5}}}}"#),
    ];
    let mut content = new.body;
    for v in &values {
        let line = entry_line(v);
        assert_eq!(line.matches('\n').count(), 1);
        content.push_str(&line);
    }
    assert_eq!(parse_session_content(&content).unwrap().entries, values.to_vec());
}

#[test]
fn additions_form_a_chain() {
    let mut w = SessionWriter::create("/", 0).writer;
    let a = w.append_message(user("a"), STAMP.into());
    w.record(&a);
    let lost = w.append_message(user("never written"), STAMP.into());
    let b = w.append_model_change("big", Some("default"), STAMP.into());
    w.record(&b);
    let c = w.append_compaction("s", None, a.base().id, 3, STAMP.into());
    w.record(&c);
    assert_eq!(a.base().parent_id, &None);
    assert_eq!(lost.base().parent_id, &Some(a.base().id.clone()));
    assert_eq!(b.base().parent_id, &Some(a.base().id.clone()));
    assert_eq!(c.base().parent_id, &Some(b.base().id.clone()));
    assert_eq!(w.leaf_id(), Some(c.base().id.as_str()));
    assert_eq!((a.entry_type(), b.entry_type(), c.entry_type()), ("message", "model_change", "compaction"));
}

#[test]
fn taken_identifiers_are_passed_over() {
    let entries = vec![entry("00000000", None, user("a")), entry("00000001", Some("00000000"), user("b"))];
    let mut w = SessionWriter::resume("s".into(), &entries);
    let e = w.append_message(user("c"), STAMP.into());
    assert_eq!(e.base().id, "00000002");
    assert_eq!(e.base().parent_id.as_deref(), Some("00000001"));
}

#[test]
fn images_of_a_user_are_kept() {
    let blocks = vec![UserContentBlock::Image(ImageContent {
        data: "d".into(),
        mime_type: "image/png".into(),
        detail: None,
    })];
    let message = Message::User(UserMessage {
        content: UserContent::Blocks(blocks),
        synthetic: None,
        steering: None,
        attribution: None,
        provider_payload: None,
        timestamp: 1,
    });
    let ctx = build_session_context(&vec![entry("a", None, message.clone())], None);
    assert_eq!(ctx.messages, vec![ContextMessage::Standard(message)]);
}

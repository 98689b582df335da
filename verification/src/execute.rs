//! Tool calls: how a turn's calls are scheduled, what a call comes to, and how
//! that is reported.
//!
//! Calls of shared tools run beside each other; the call of an exclusive tool
//! waits for those before it, runs alone, and holds up those behind it.
use vstd::prelude::*;
use crate::agent_event::{AgentEvent, AgentEventView};
use crate::json::{
    array_view, copy_json, empty_object, field_of, json_view, lemma_array_view, lemma_member_pos_is,
    lemma_object_view, member, members_view, new_object, text_in, Json, JsonView, Members,
};
use crate::message::{
    copy_opt_json, copy_text, copy_user_blocks, AssistantContent, AssistantMessage, ContentView, Message,
    MessageView, Text, TextContent, TextView, ToolCall, ToolCallView, ToolResultMessage, ToolResultView,
    UserBlockView, UserContentBlock,
};
use crate::provider::is_blank;
use crate::text::{joined, owned, starts_with_text, trim_text, trimmed};

verus! {

/// How a tool's calls may run beside others.
#[derive(Debug, Clone, Copy, PartialEq, Eq, Structural)]
pub enum Concurrency {
    Shared,
    Exclusive,
}

/// What a tool gives back.
#[derive(Debug, PartialEq, Eq)]
pub struct ToolResult {
    pub content: Vec<UserContentBlock>,
    pub details: Option<Json>,
    pub is_error: bool,
    pub useless: bool,
}

#[verifier::ext_equal]
pub struct OutcomeView {
    pub content: Seq<UserBlockView>,
    pub details: Option<JsonView>,
    pub is_error: bool,
    pub useless: bool,
}

impl DeepView for ToolResult {
    type V = OutcomeView;

    open spec fn deep_view(&self) -> OutcomeView {
        OutcomeView {
            content: self.content.deep_view(),
            details: self.details.deep_view(),
            is_error: self.is_error,
            useless: self.useless,
        }
    }
}

/// Why a call got a result without being run.
#[derive(Debug, Clone, Copy, PartialEq, Eq, Structural)]
pub enum SyntheticReason {
    Aborted,
    Error,
    Skipped,
    Length,
}

pub open spec fn source_text(r: SyntheticReason) -> Text {
    match r {
        SyntheticReason::Aborted => "assistant_stop_aborted"@,
        SyntheticReason::Error => "assistant_stop_error"@,
        SyntheticReason::Length => "assistant_stop_length"@,
        SyntheticReason::Skipped => "assistant_stop_skipped"@,
    }
}

pub open spec fn reason_text(r: SyntheticReason) -> Text {
    match r {
        SyntheticReason::Aborted => "Tool execution was aborted"@,
        SyntheticReason::Length =>
            "Tool call was not executed because the assistant hit its output token limit (stop_reason: length) before the arguments could complete; the recorded arguments are truncated and unsafe to run. Do NOT retry by re-emitting the same large payload — split the work into several smaller tool calls"@,
        SyntheticReason::Skipped => "Tool call was not executed because the assistant ended its turn"@,
        SyntheticReason::Error =>
            "Tool call was not executed because the provider stream ended with an error before the tool could run"@,
    }
}

impl SyntheticReason {
    pub fn source(self) -> (r: &'static str)
        ensures
            r@ == source_text(self),
    {
        match self {
            SyntheticReason::Aborted => "assistant_stop_aborted",
            SyntheticReason::Error => "assistant_stop_error",
            SyntheticReason::Length => "assistant_stop_length",
            SyntheticReason::Skipped => "assistant_stop_skipped",
        }
    }

    pub fn message(self) -> (r: &'static str)
        ensures
            r@ == reason_text(self),
    {
        match self {
            SyntheticReason::Aborted => "Tool execution was aborted",
            SyntheticReason::Length =>
                "Tool call was not executed because the assistant hit its output token limit (stop_reason: length) before the arguments could complete; the recorded arguments are truncated and unsafe to run. Do NOT retry by re-emitting the same large payload — split the work into several smaller tool calls",
            SyntheticReason::Skipped => "Tool call was not executed because the assistant ended its turn",
            SyntheticReason::Error =>
                "Tool call was not executed because the provider stream ended with an error before the tool could run",
        }
    }
}

/// The tool calls of a message, in order.
pub open spec fn calls_in(content: Seq<ContentView>) -> Seq<ToolCallView>
    decreases content.len(),
{
    if content.len() == 0 {
        Seq::empty()
    } else {
        match content.last() {
            ContentView::ToolCall(c) => calls_in(content.drop_last()).push(c),
            _ => calls_in(content.drop_last()),
        }
    }
}

/// The tool calls of a message, in order.
pub fn tool_calls_of(message: &AssistantMessage) -> (r: Vec<ToolCall>)
    ensures
        r.deep_view() == calls_in(message.content.deep_view()),
{
    let ghost c = message.content.deep_view();
    let mut out: Vec<ToolCall> = Vec::new();
    let mut i: usize = 0;
    assert(c.take(0) =~= Seq::empty());
    assert(out.deep_view() =~= Seq::empty());
    while i < message.content.len()
        invariant
            c == message.content.deep_view(),
            i <= message.content.len(),
            out.deep_view() == calls_in(c.take(i as int)),
        decreases message.content.len() - i,
    {
        assert(c.take(i + 1).drop_last() =~= c.take(i as int));
        assert(c.take(i + 1).last() == message.content@[i as int].deep_view());
        if let AssistantContent::ToolCall(call) = &message.content[i] {
            let ghost before = out.deep_view();
            let copy = call.clone();
            let ghost view = copy.deep_view();
            out.push(copy);
            assert(out.deep_view() =~= before.push(view));
        }
        i = i + 1;
    }
    assert(c.take(message.content.len() as int) =~= c);
    out
}

/// Whether content holds an image or text that is not blank.
pub open spec fn substantive(content: Seq<UserBlockView>) -> bool {
    exists|i: int|
        0 <= i < content.len() && ((#[trigger] content[i]) is Image || !is_blank(content[i]->Text_0.text))
}

pub fn has_substantive_content(content: &Vec<UserContentBlock>) -> (r: bool)
    ensures
        r == substantive(content.deep_view()),
{
    let ghost c = content.deep_view();
    let mut i: usize = 0;
    while i < content.len()
        invariant
            c == content.deep_view(),
            i <= content.len(),
            forall|k: int| 0 <= k < i ==> !((#[trigger] c[k]) is Image || !is_blank(c[k]->Text_0.text)),
        decreases content.len() - i,
    {
        assert(c[i as int] == content@[i as int].deep_view());
        match &content[i] {
            UserContentBlock::Image(_) => {
                return true;
            },
            UserContentBlock::Text(t) => {
                let s = trim_text(t.text.as_str());
                if !s.as_str().is_empty() {
                    return true;
                }
            },
        }
        i = i + 1;
    }
    false
}

pub open spec fn text_block(t: Text) -> UserBlockView {
    UserBlockView::Text(TextView { text: t, text_signature: None })
}

/// A result as it is passed on: an error says something, and is never useless.
pub open spec fn coerced(r: OutcomeView) -> OutcomeView {
    OutcomeView {
        content: if r.is_error && !substantive(r.content) {
            seq![text_block("Tool failed with no output."@)]
        } else {
            r.content
        },
        useless: r.useless && !r.is_error,
        ..r
    }
}

fn one_text(text: String) -> (r: Vec<UserContentBlock>)
    ensures
        r.deep_view() == seq![text_block(text@)],
{
    let mut v: Vec<UserContentBlock> = Vec::new();
    v.push(UserContentBlock::Text(TextContent { text, text_signature: None }));
    assert(v.deep_view() =~= seq![text_block(text@)]);
    v
}

pub fn coerce_tool_result(result: ToolResult) -> (r: ToolResult)
    ensures
        r.deep_view() == coerced(result.deep_view()),
{
    let mut result = result;
    if result.is_error && !has_substantive_content(&result.content) {
        result.content = one_text(owned("Tool failed with no output."));
    }
    if result.is_error {
        result.useless = false;
    }
    result
}

// ---- results as JSON ------------------------------------------------------------

pub open spec fn with_text_member(o: Members, key: Text, value: Option<Text>) -> Members {
    match value {
        Some(t) => o.push((key, JsonView::String(t))),
        None => o,
    }
}

/// A block of content as JSON.
pub open spec fn block_json(b: UserBlockView) -> JsonView {
    match b {
        UserBlockView::Text(t) => JsonView::Object(
            with_text_member(
                seq![("type"@, JsonView::String("text"@)), ("text"@, JsonView::String(t.text))],
                "textSignature"@,
                t.text_signature,
            ),
        ),
        UserBlockView::Image(i) => JsonView::Object(
            with_text_member(
                seq![
                    ("type"@, JsonView::String("image"@)),
                    ("data"@, JsonView::String(i.data)),
                    ("mimeType"@, JsonView::String(i.mime_type)),
                ],
                "detail"@,
                i.detail,
            ),
        ),
    }
}

pub open spec fn blocks_json(content: Seq<UserBlockView>) -> JsonView {
    JsonView::Array(Seq::new(content.len(), |i: int| block_json(content[i])))
}

/// A result as JSON: its content and details, and a flag where it is an error or
/// useless.
pub open spec fn result_json(r: OutcomeView) -> JsonView {
    let base: Members = seq![
        ("content"@, blocks_json(r.content)),
        ("details"@, match r.details {
            Some(d) => d,
            None => empty_object(),
        }),
    ];
    JsonView::Object(
        if r.is_error {
            base.push(("isError"@, JsonView::Bool(true)))
        } else if r.useless {
            base.push(("useless"@, JsonView::Bool(true)))
        } else {
            base
        },
    )
}

fn add_text_member(o: &mut Vec<(String, Json)>, key: &str, value: &Option<String>)
    ensures
        members_view(final(o)@) == with_text_member(members_view(old(o)@), key@, value.deep_view()),
{
    if let Some(t) = value {
        let ghost before = members_view(o@);
        o.push((owned(key), Json::String(t.clone())));
        assert(members_view(o@) =~= before.push((key@, JsonView::String(t@))));
    }
}

fn block_to_json(b: &UserContentBlock) -> (r: Json)
    ensures
        json_view(r) == block_json(b.deep_view()),
{
    let mut o: Vec<(String, Json)> = Vec::new();
    match b {
        UserContentBlock::Text(t) => {
            o.push((owned("type"), Json::String(owned("text"))));
            o.push((owned("text"), Json::String(t.text.clone())));
            assert(members_view(o@) =~= seq![
                ("type"@, JsonView::String("text"@)),
                ("text"@, JsonView::String(t.text@)),
            ]);
            add_text_member(&mut o, "textSignature", &t.text_signature);
        },
        UserContentBlock::Image(i) => {
            o.push((owned("type"), Json::String(owned("image"))));
            o.push((owned("data"), Json::String(i.data.clone())));
            o.push((owned("mimeType"), Json::String(i.mime_type.clone())));
            assert(members_view(o@) =~= seq![
                ("type"@, JsonView::String("image"@)),
                ("data"@, JsonView::String(i.data@)),
                ("mimeType"@, JsonView::String(i.mime_type@)),
            ]);
            add_text_member(&mut o, "detail", &i.detail);
        },
    }
    proof {
        lemma_object_view(o);
    }
    Json::Object(o)
}

fn blocks_to_json(content: &Vec<UserContentBlock>) -> (r: Json)
    ensures
        json_view(r) == blocks_json(content.deep_view()),
{
    let ghost c = content.deep_view();
    let mut out: Vec<Json> = Vec::new();
    let mut i: usize = 0;
    while i < content.len()
        invariant
            c == content.deep_view(),
            i <= content.len(),
            out.len() == i,
            forall|k: int| 0 <= k < i ==> json_view(#[trigger] out@[k]) == block_json(c[k]),
        decreases content.len() - i,
    {
        out.push(block_to_json(&content[i]));
        i = i + 1;
    }
    proof {
        lemma_array_view(out);
        assert(array_view(out@) =~= blocks_json(c)->Array_0);
    }
    Json::Array(out)
}

/// A result as JSON.
pub fn tool_result_to_value(result: &ToolResult) -> (r: Json)
    ensures
        json_view(r) == result_json(result.deep_view()),
{
    let mut o: Vec<(String, Json)> = Vec::new();
    let content = blocks_to_json(&result.content);
    let details = match &result.details {
        Some(d) => copy_json(d),
        None => new_object(),
    };
    let ghost cv = json_view(content);
    let ghost dv = json_view(details);
    o.push((owned("content"), content));
    o.push((owned("details"), details));
    let ghost rv = result.deep_view();
    let ghost base: Members = seq![
        ("content"@, blocks_json(rv.content)),
        ("details"@, match rv.details {
            Some(d) => d,
            None => empty_object(),
        }),
    ];
    assert(dv == match rv.details {
        Some(d) => d,
        None => empty_object(),
    });
    assert(members_view(o@) =~= base);
    if result.is_error {
        o.push((owned("isError"), Json::Bool(true)));
        assert(members_view(o@) =~= base.push(("isError"@, JsonView::Bool(true))));
    } else if result.useless {
        o.push((owned("useless"), Json::Bool(true)));
        assert(members_view(o@) =~= base.push(("useless"@, JsonView::Bool(true))));
    }
    proof {
        lemma_object_view(o);
    }
    Json::Object(o)
}

// ---- reports ------------------------------------------------------------------------

/// The message that a call's result becomes.
pub open spec fn result_message(c: ToolCallView, r: OutcomeView, is_error: bool, timestamp: i64) -> ToolResultView {
    ToolResultView {
        tool_call_id: c.id,
        tool_name: c.name,
        content: r.content,
        details: r.details,
        is_error,
        attribution: None,
        pruned_at: None,
        useless: if r.useless && !is_error {
            Some(true)
        } else {
            None
        },
        timestamp,
    }
}

fn tool_result_message(call: &ToolCall, result: &ToolResult, is_error: bool, timestamp: i64) -> (r: ToolResultMessage)
    ensures
        r.deep_view() == result_message(call.deep_view(), result.deep_view(), is_error, timestamp),
{
    ToolResultMessage {
        tool_call_id: call.id.clone(),
        tool_name: call.name.clone(),
        content: copy_user_blocks(&result.content),
        details: copy_opt_json(&result.details),
        is_error,
        attribution: None,
        pruned_at: None,
        useless: if result.useless && !is_error {
            Some(true)
        } else {
            None
        },
        timestamp,
    }
}

pub open spec fn start_event(c: ToolCallView) -> AgentEventView {
    AgentEventView::ToolExecutionStart {
        tool_call_id: c.id,
        tool_name: c.name,
        args: c.arguments,
        intent: c.intent,
    }
}

/// The events that report the end of a call.
pub open spec fn end_events(c: ToolCallView, r: OutcomeView, is_error: bool, timestamp: i64) -> Seq<
    AgentEventView,
> {
    let m = MessageView::ToolResult(result_message(c, r, is_error, timestamp));
    seq![
        AgentEventView::ToolExecutionEnd {
            tool_call_id: c.id,
            tool_name: c.name,
            result: result_json(r),
            is_error: Some(is_error),
        },
        AgentEventView::MessageStart { message: m },
        AgentEventView::MessageEnd { message: m },
    ]
}

/// The events that report a call that was not run, from start to end.
pub open spec fn whole_events(c: ToolCallView, r: OutcomeView, timestamp: i64) -> Seq<AgentEventView> {
    seq![start_event(c)] + end_events(c, r, true, timestamp)
}

/// Reports the start of a call.
pub fn emit_tool_start(call: &ToolCall) -> (r: AgentEvent)
    ensures
        r.deep_view() == start_event(call.deep_view()),
{
    AgentEvent::ToolExecutionStart {
        tool_call_id: call.id.clone(),
        tool_name: call.name.clone(),
        args: copy_json(&call.arguments),
        intent: copy_text(&call.intent),
    }
}

/// Reports the end of a call, and gives its message.
pub fn emit_tool_end(call: &ToolCall, result: &ToolResult, is_error: bool, timestamp: i64) -> (r: (
    Vec<AgentEvent>,
    ToolResultMessage,
))
    ensures
        r.0.deep_view() == end_events(call.deep_view(), result.deep_view(), is_error, timestamp),
        r.1.deep_view() == result_message(call.deep_view(), result.deep_view(), is_error, timestamp),
{
    let message = tool_result_message(call, result, is_error, timestamp);
    let mut events: Vec<AgentEvent> = Vec::new();
    events.push(
        AgentEvent::ToolExecutionEnd {
            tool_call_id: call.id.clone(),
            tool_name: call.name.clone(),
            result: tool_result_to_value(result),
            is_error: Some(is_error),
        },
    );
    events.push(AgentEvent::MessageStart { message: Message::ToolResult(message.clone()) });
    events.push(AgentEvent::MessageEnd { message: Message::ToolResult(message.clone()) });
    assert(events.deep_view() =~= end_events(call.deep_view(), result.deep_view(), is_error, timestamp));
    (events, message)
}

/// Reports a call that was not run, and gives its message.
fn emit_unrun(call: &ToolCall, result: &ToolResult, timestamp: i64) -> (r: (Vec<AgentEvent>, ToolResultMessage))
    ensures
        r.0.deep_view() == whole_events(call.deep_view(), result.deep_view(), timestamp),
        r.1.deep_view() == result_message(call.deep_view(), result.deep_view(), true, timestamp),
{
    let mut events: Vec<AgentEvent> = Vec::new();
    events.push(emit_tool_start(call));
    assert(events.deep_view() =~= seq![start_event(call.deep_view())]);
    let (mut more, message) = emit_tool_end(call, result, true, timestamp);
    let ghost before = events.deep_view();
    let ghost added = more.deep_view();
    events.append(&mut more);
    assert(events.deep_view() =~= before + added);
    (events, message)
}

// ---- calls that are not run ------------------------------------------------------------

pub open spec fn synthetic_details(reason: SyntheticReason, error: Option<Text>) -> JsonView {
    let base: Members = seq![
        ("__synthetic"@, JsonView::Bool(true)),
        ("source"@, JsonView::String(source_text(reason))),
        ("executed"@, JsonView::Bool(false)),
    ];
    JsonView::Object(
        if reason == SyntheticReason::Error && error is Some {
            base.push(("upstreamError"@, JsonView::String(error->0)))
        } else {
            base
        },
    )
}

pub open spec fn synthetic_outcome(reason: SyntheticReason, error: Option<Text>) -> OutcomeView {
    OutcomeView {
        content: seq![
            text_block(
                match error {
                    Some(e) => reason_text(reason) + ": "@ + e,
                    None => reason_text(reason) + "."@,
                },
            ),
        ],
        details: Some(synthetic_details(reason, error)),
        is_error: true,
        useless: false,
    }
}

/// The result of a call that the assistant made and that was never run.
pub open spec fn synthetic_message(c: ToolCallView, reason: SyntheticReason, error: Option<Text>, timestamp: i64) -> ToolResultView {
    result_message(c, synthetic_outcome(reason, error), true, timestamp)
}

fn synthetic_result(reason: SyntheticReason, error_message: &Option<String>) -> (r: ToolResult)
    ensures
        r.deep_view() == synthetic_outcome(reason, error_message.deep_view()),
{
    let text = match error_message {
        Some(e) => {
            let a = joined(reason.message(), ": ");
            joined(a.as_str(), e.as_str())
        },
        None => joined(reason.message(), "."),
    };
    let mut o: Vec<(String, Json)> = Vec::new();
    o.push((owned("__synthetic"), Json::Bool(true)));
    o.push((owned("source"), Json::String(owned(reason.source()))));
    o.push((owned("executed"), Json::Bool(false)));
    let ghost base: Members = seq![
        ("__synthetic"@, JsonView::Bool(true)),
        ("source"@, JsonView::String(source_text(reason))),
        ("executed"@, JsonView::Bool(false)),
    ];
    assert(members_view(o@) =~= base);
    if reason == SyntheticReason::Error {
        if let Some(e) = error_message {
            o.push((owned("upstreamError"), Json::String(e.clone())));
            assert(members_view(o@) =~= base.push(("upstreamError"@, JsonView::String(e@))));
        }
    }
    proof {
        lemma_object_view(o);
    }
    ToolResult { content: one_text(text), details: Some(Json::Object(o)), is_error: true, useless: false }
}

pub fn create_synthetic_tool_result_message(
    call: &ToolCall,
    reason: SyntheticReason,
    error_message: &Option<String>,
    timestamp: i64,
) -> (r: ToolResultMessage)
    ensures
        r.deep_view() == synthetic_message(
            call.deep_view(),
            reason,
            error_message.deep_view(),
            timestamp,
        ),
{
    let result = synthetic_result(reason, error_message);
    tool_result_message(call, &result, true, timestamp)
}

/// A call that was never run, reported from start to end, with its message.
pub fn create_aborted_tool_result(
    call: &ToolCall,
    reason: SyntheticReason,
    error_message: &Option<String>,
    timestamp: i64,
) -> (r: (Vec<AgentEvent>, ToolResultMessage))
    ensures
        r.0.deep_view() == whole_events(
            call.deep_view(),
            synthetic_outcome(reason, error_message.deep_view()),
            timestamp,
        ),
        r.1.deep_view() == synthetic_message(
            call.deep_view(),
            reason,
            error_message.deep_view(),
            timestamp,
        ),
{
    let result = synthetic_result(reason, error_message);
    emit_unrun(call, &result, timestamp)
}

pub open spec fn error_outcome(text: Text) -> OutcomeView {
    OutcomeView { content: seq![text_block(text)], details: None, is_error: true, useless: false }
}

fn error_result(text: String) -> (r: ToolResult)
    ensures
        r.deep_view() == error_outcome(text@),
{
    ToolResult { content: one_text(text), details: None, is_error: true, useless: false }
}

pub open spec fn aborted_text() -> Text {
    "Tool was not executed because the run was aborted."@
}

pub open spec fn skipped_text() -> Text {
    "Skipped due to queued user message. Do not count this skipped result as completed work or verification. After the queued message is handled on the next step, retry the skipped tool if it is still needed."@
}

/// A call skipped for a queued message, reported from start to end, with its
/// message.
pub fn create_skipped_tool_result(call: &ToolCall, timestamp: i64) -> (r: (Vec<AgentEvent>, ToolResultMessage))
    ensures
        r.0.deep_view() == whole_events(
            call.deep_view(),
            coerced(error_outcome(skipped_text())),
            timestamp,
        ),
        r.1.deep_view() == result_message(
            call.deep_view(),
            coerced(error_outcome(skipped_text())),
            true,
            timestamp,
        ),
{
    let result = coerce_tool_result(
        error_result(
            owned(
                "Skipped due to queued user message. Do not count this skipped result as completed work or verification. After the queued message is handled on the next step, retry the skipped tool if it is still needed.",
            ),
        ),
    );
    emit_unrun(call, &result, timestamp)
}

// ---- one call -----------------------------------------------------------------------------

/// The names of a list that are no member of `args`, separated by commas.
pub open spec fn missing_names(required: Seq<JsonView>, args: JsonView) -> Seq<Text>
    decreases required.len(),
{
    if required.len() == 0 {
        Seq::empty()
    } else {
        let before = missing_names(required.drop_last(), args);
        match required.last() {
            JsonView::String(k) => if field_of(args, k) is Some {
                before
            } else {
                before.push(k)
            },
            _ => before,
        }
    }
}

pub open spec fn comma_list(names: Seq<Text>) -> Text
    decreases names.len(),
{
    if names.len() == 0 {
        Seq::empty()
    } else if names.len() == 1 {
        names[0]
    } else {
        comma_list(names.drop_last()) + ", "@ + names.last()
    }
}

/// What is wrong with the arguments of a call: the fields that the schema
/// requires and that are missing.
pub open spec fn argument_error(schema: JsonView, args: JsonView) -> Option<Text> {
    match field_of(schema, "required"@) {
        Some(JsonView::Array(required)) => {
            let missing = missing_names(required, args);
            if missing.len() == 0 {
                None
            } else {
                Some("Invalid arguments: missing required field(s): "@ + comma_list(missing))
            }
        },
        _ => None,
    }
}

fn join_names(names: &Vec<String>) -> (r: String)
    ensures
        r@ == comma_list(names.deep_view()),
{
    let ghost all = names.deep_view();
    let mut out = String::new();
    let mut i: usize = 0;
    assert(all.take(0) =~= Seq::empty());
    while i < names.len()
        invariant
            all == names.deep_view(),
            i <= names.len(),
            out@ == comma_list(all.take(i as int)),
        decreases names.len() - i,
    {
        assert(all.take(i + 1).drop_last() =~= all.take(i as int));
        assert(all.take(i + 1).last() == names@[i as int]@);
        if i > 0 {
            let a = joined(out.as_str(), ", ");
            out = joined(a.as_str(), names[i].as_str());
        } else {
            out = names[i].clone();
        }
        i = i + 1;
    }
    assert(all.take(names.len() as int) =~= all);
    out
}

pub fn validate_args(schema: &Json, args: &Json) -> (r: Result<(), String>)
    ensures
        match argument_error(json_view(*schema), json_view(*args)) {
            Some(e) => r is Err && r->Err_0@ == e,
            None => r is Ok,
        },
{
    match schema.get("required") {
        Some(Json::Array(required)) => {
            let ghost req = array_view(required@);
            let ghost av = json_view(*args);
            proof {
                lemma_array_view(*required);
            }
            let mut missing: Vec<String> = Vec::new();
            let mut i: usize = 0;
            assert(req.take(0) =~= Seq::empty());
            assert(missing.deep_view() =~= Seq::empty());
            while i < required.len()
                invariant
                    req == array_view(required@),
                    av == json_view(*args),
                    i <= required.len(),
                    missing.deep_view() == missing_names(req.take(i as int), av),
                decreases required.len() - i,
            {
                let ghost before = missing.deep_view();
                assert(req.take(i + 1).drop_last() =~= req.take(i as int));
                assert(req.take(i + 1).last() == json_view(required@[i as int]));
                if let Json::String(key) = &required[i] {
                    if args.get(key.as_str()).is_none() {
                        missing.push(key.clone());
                        assert(missing.deep_view() =~= before.push(key@));
                    }
                }
                i = i + 1;
            }
            assert(req.take(required.len() as int) =~= req);
            assert(missing.deep_view().len() == missing.len());
            if missing.len() == 0 {
                Ok(())
            } else {
                let list = join_names(&missing);
                Err(joined("Invalid arguments: missing required field(s): ", list.as_str()))
            }
        },
        _ => Ok(()),
    }
}

/// The result of a call that is not run: its tool is unknown, its arguments are
/// incomplete, or the run was aborted. None where the call is to be run.
pub open spec fn refusal(tool: Option<JsonView>, c: ToolCallView, aborted: bool) -> Option<OutcomeView> {
    match tool {
        None => Some(coerced(error_outcome("Tool "@ + c.name + " not found"@))),
        Some(schema) => match argument_error(schema, c.arguments) {
            Some(e) => Some(coerced(error_outcome(e))),
            None => if aborted {
                Some(coerced(error_outcome(aborted_text())))
            } else {
                None
            },
        },
    }
}

/// Whether a call is refused, given its tool's schema, where the tool is known.
pub fn refuse_call(tool: Option<&Json>, call: &ToolCall, aborted: bool) -> (r: Option<ToolResult>)
    ensures
        r.deep_view() == refusal(
            match tool {
                Some(s) => Some(json_view(*s)),
                None => None,
            },
            call.deep_view(),
            aborted,
        ),
{
    match tool {
        None => {
            let a = joined("Tool ", call.name.as_str());
            Some(coerce_tool_result(error_result(joined(a.as_str(), " not found"))))
        },
        Some(schema) => match validate_args(schema, &call.arguments) {
            Err(e) => Some(coerce_tool_result(error_result(e))),
            Ok(()) => if aborted {
                Some(
                    coerce_tool_result(
                        error_result(owned("Tool was not executed because the run was aborted.")),
                    ),
                )
            } else {
                None
            },
        },
    }
}

/// How the run of a tool ended.
#[derive(Debug, PartialEq, Eq)]
pub enum ToolOutcome {
    /// It gave a result.
    Returned(ToolResult),
    /// It gave an error.
    Failed(String),
    /// It panicked, with this message.
    Panicked(String),
}

/// The result of a call that was run. One that was cut off by an abort says so;
/// one that had finished keeps its result.
pub open spec fn settled(outcome: ToolOutcome, aborted: bool) -> OutcomeView {
    match outcome {
        ToolOutcome::Returned(r) => coerced(r.deep_view()),
        ToolOutcome::Failed(e) => if aborted {
            coerced(error_outcome(aborted_text()))
        } else {
            coerced(error_outcome(e@))
        },
        ToolOutcome::Panicked(e) => if aborted {
            coerced(error_outcome(aborted_text()))
        } else {
            coerced(error_outcome("Tool panicked: "@ + e@))
        },
    }
}

pub fn settle_call(outcome: ToolOutcome, aborted: bool) -> (r: ToolResult)
    ensures
        r.deep_view() == settled(outcome, aborted),
{
    match outcome {
        ToolOutcome::Returned(raw) => coerce_tool_result(raw),
        ToolOutcome::Failed(e) => if aborted {
            coerce_tool_result(error_result(owned("Tool was not executed because the run was aborted.")))
        } else {
            coerce_tool_result(error_result(e))
        },
        ToolOutcome::Panicked(e) => if aborted {
            coerce_tool_result(error_result(owned("Tool was not executed because the run was aborted.")))
        } else {
            coerce_tool_result(error_result(joined("Tool panicked: ", e.as_str())))
        },
    }
}

/// What to do about a call.
#[derive(Debug, PartialEq, Eq)]
pub enum CallStep {
    /// Report this start and run the tool.
    Run(AgentEvent),
    /// The call is not run: report these events; this is its message.
    Refused(Vec<AgentEvent>, ToolResultMessage),
}

/// Begins a call.
pub fn begin_call(tool: Option<&Json>, call: &ToolCall, aborted: bool, timestamp: i64) -> (r: CallStep)
    ensures
        match refusal(
            match tool {
                Some(s) => Some(json_view(*s)),
                None => None,
            },
            call.deep_view(),
            aborted,
        ) {
            Some(o) => r is Refused && r->Refused_0.deep_view() == whole_events(call.deep_view(), o, timestamp)
                && r->Refused_1.deep_view() == result_message(call.deep_view(), o, true, timestamp),
            None => r is Run && r->Run_0.deep_view() == start_event(call.deep_view()),
        },
{
    match refuse_call(tool, call, aborted) {
        Some(result) => {
            let (events, message) = emit_unrun(call, &result, timestamp);
            CallStep::Refused(events, message)
        },
        None => CallStep::Run(emit_tool_start(call)),
    }
}

/// Ends a call that was run.
pub fn end_call(call: &ToolCall, outcome: ToolOutcome, aborted: bool, timestamp: i64) -> (r: (
    Vec<AgentEvent>,
    ToolResultMessage,
))
    ensures
        r.0.deep_view() == end_events(
            call.deep_view(),
            settled(outcome, aborted),
            settled(outcome, aborted).is_error,
            timestamp,
        ),
        r.1.deep_view() == result_message(
            call.deep_view(),
            settled(outcome, aborted),
            settled(outcome, aborted).is_error,
            timestamp,
        ),
{
    let result = settle_call(outcome, aborted);
    emit_tool_end(call, &result, result.is_error, timestamp)
}

// ---- the batch of a turn ---------------------------------------------------------------------

/// A step through a turn's calls.
#[derive(Debug, Clone, Copy, PartialEq, Eq, Structural)]
pub enum BatchStep {
    /// Run the calls `from..to` beside each other.
    Shared { from: usize, to: usize },
    /// Look whether a message is queued.
    Steering { at: usize },
    /// Run this call alone.
    Exclusive { at: usize },
    /// The first `ran` calls were run; the others are skipped.
    Done { ran: usize },
}

/// The position of the next exclusive call from `i` on, or the number of calls.
pub open spec fn next_exclusive(classes: Seq<Concurrency>, i: int) -> int
    decreases classes.len() - i,
{
    if i < 0 || i >= classes.len() {
        classes.len() as int
    } else if classes[i] == Concurrency::Exclusive {
        i
    } else {
        next_exclusive(classes, i + 1)
    }
}

/// The step that comes first.
pub open spec fn first_step(classes: Seq<Concurrency>) -> BatchStep {
    BatchStep::Shared { from: 0, to: next_exclusive(classes, 0) as usize }
}

/// The step that follows another; `queued` says what the look for a message
/// showed.
pub open spec fn step_after(classes: Seq<Concurrency>, step: BatchStep, queued: bool) -> BatchStep {
    match step {
        BatchStep::Shared { from: _, to } => if to >= classes.len() {
            BatchStep::Done { ran: to }
        } else {
            BatchStep::Steering { at: to }
        },
        BatchStep::Steering { at } => if queued {
            BatchStep::Done { ran: at }
        } else {
            BatchStep::Exclusive { at }
        },
        BatchStep::Exclusive { at } => BatchStep::Shared {
            from: (at + 1) as usize,
            to: next_exclusive(classes, at + 1) as usize,
        },
        BatchStep::Done { ran } => BatchStep::Done { ran },
    }
}

/// What holds of every step that is reached.
pub open spec fn step_ok(classes: Seq<Concurrency>, step: BatchStep) -> bool {
    match step {
        BatchStep::Shared { from, to } => from <= to <= classes.len() && to == next_exclusive(
            classes,
            from as int,
        ),
        BatchStep::Steering { at } => at < classes.len() && classes[at as int] == Concurrency::Exclusive,
        BatchStep::Exclusive { at } => at < classes.len() && classes[at as int] == Concurrency::Exclusive,
        BatchStep::Done { ran } => ran <= classes.len(),
    }
}

proof fn lemma_next_exclusive(classes: Seq<Concurrency>, i: int)
    requires
        0 <= i <= classes.len(),
    ensures
        i <= next_exclusive(classes, i) <= classes.len(),
        next_exclusive(classes, i) < classes.len() ==> classes[next_exclusive(classes, i)]
            == Concurrency::Exclusive,
        forall|k: int| i <= k < next_exclusive(classes, i) ==> classes[k] == Concurrency::Shared,
    decreases classes.len() - i,
{
    if i < classes.len() && classes[i] != Concurrency::Exclusive {
        lemma_next_exclusive(classes, i + 1);
    }
}

fn find_exclusive(classes: &Vec<Concurrency>, from: usize) -> (r: usize)
    requires
        from <= classes.len(),
    ensures
        r == next_exclusive(classes@, from as int),
        from <= r <= classes.len(),
{
    let mut i: usize = from;
    while i < classes.len() && classes[i] == Concurrency::Shared
        invariant
            from <= i <= classes.len(),
            next_exclusive(classes@, from as int) == next_exclusive(classes@, i as int),
        decreases classes.len() - i,
    {
        i = i + 1;
    }
    i
}

/// The schedule of a turn's calls begins.
pub fn first_batch_step(classes: &Vec<Concurrency>) -> (r: BatchStep)
    ensures
        r == first_step(classes@),
        step_ok(classes@, r),
{
    BatchStep::Shared { from: 0, to: find_exclusive(classes, 0) }
}

/// The schedule of a turn's calls goes on after a step.
pub fn next_batch_step(classes: &Vec<Concurrency>, step: BatchStep, queued: bool) -> (r: BatchStep)
    requires
        step_ok(classes@, step),
    ensures
        r == step_after(classes@, step, queued),
        step_ok(classes@, r),
{
    match step {
        BatchStep::Shared { from, to } => {
            proof {
                lemma_next_exclusive(classes@, from as int);
            }
            if to >= classes.len() {
                BatchStep::Done { ran: to }
            } else {
                BatchStep::Steering { at: to }
            }
        },
        BatchStep::Steering { at } => if queued {
            BatchStep::Done { ran: at }
        } else {
            BatchStep::Exclusive { at }
        },
        BatchStep::Exclusive { at } => {
            assert(at < classes.len());
            BatchStep::Shared { from: at + 1, to: find_exclusive(classes, at + 1) }
        },
        BatchStep::Done { ran } => BatchStep::Done { ran },
    }
}

pub open spec fn skipped_messages(calls: Seq<ToolCallView>, from: int, timestamp: i64) -> Seq<ToolResultView> {
    Seq::new(
        (calls.len() - from) as nat,
        |i: int| result_message(calls[from + i], coerced(error_outcome(skipped_text())), true, timestamp),
    )
}

/// The events of skipping the calls from `from` up to `to`.
pub open spec fn skipped_events(calls: Seq<ToolCallView>, from: int, to: int, timestamp: i64) -> Seq<
    AgentEventView,
>
    decreases to - from,
{
    if to <= from {
        Seq::empty()
    } else {
        skipped_events(calls, from, to - 1, timestamp) + whole_events(
            calls[to - 1],
            coerced(error_outcome(skipped_text())),
            timestamp,
        )
    }
}

/// Gives every call that was not run a result, so that each call has one.
pub fn sweep_skipped(calls: &Vec<ToolCall>, ran: usize, timestamp: i64) -> (r: (
    Vec<AgentEvent>,
    Vec<ToolResultMessage>,
))
    requires
        ran <= calls.len(),
    ensures
        r.0.deep_view() == skipped_events(calls.deep_view(), ran as int, calls.len() as int, timestamp),
        r.1.deep_view() == skipped_messages(calls.deep_view(), ran as int, timestamp),
{
    let ghost c = calls.deep_view();
    let mut events: Vec<AgentEvent> = Vec::new();
    let mut results: Vec<ToolResultMessage> = Vec::new();
    let mut i: usize = ran;
    assert(events.deep_view() =~= Seq::empty());
    while i < calls.len()
        invariant
            c == calls.deep_view(),
            ran <= i <= calls.len(),
            events.deep_view() == skipped_events(c, ran as int, i as int, timestamp),
            results.len() == i - ran,
            forall|k: int|
                0 <= k < i - ran ==> (#[trigger] results@[k]).deep_view() == result_message(
                    c[ran + k],
                    coerced(error_outcome(skipped_text())),
                    true,
                    timestamp,
                ),
        decreases calls.len() - i,
    {
        let ghost before = events.deep_view();
        assert(c[i as int] == calls@[i as int].deep_view());
        let (mut more, message) = create_skipped_tool_result(&calls[i], timestamp);
        let ghost added = more.deep_view();
        events.append(&mut more);
        assert(events.deep_view() =~= before + added);
        results.push(message);
        i = i + 1;
    }
    assert(results.deep_view() =~= skipped_messages(c, ran as int, timestamp));
    (events, results)
}

// ---- what holds of every batch --------------------------------------------------------------

/// How many calls were run before a step.
pub open spec fn run_before(step: BatchStep) -> int {
    match step {
        BatchStep::Shared { from, to: _ } => from as int,
        BatchStep::Steering { at } => at as int,
        BatchStep::Exclusive { at } => at as int,
        BatchStep::Done { ran } => ran as int,
    }
}

/// How many calls a step runs.
pub open spec fn run_by(step: BatchStep) -> int {
    match step {
        BatchStep::Shared { from, to } => to - from,
        BatchStep::Exclusive { .. } => 1,
        _ => 0,
    }
}

/// The steps run the calls in order, each once: what is run before a step is
/// what was run before the step before it and by that step.
pub proof fn law_calls_run_once_in_order(classes: Seq<Concurrency>, step: BatchStep, queued: bool)
    requires
        step_ok(classes, step),
        classes.len() <= usize::MAX,
    ensures
        step_ok(classes, step_after(classes, step, queued)),
        run_before(step_after(classes, step, queued)) == run_before(step) + run_by(step),
{
    match step {
        BatchStep::Shared { from, to: _ } => {
            lemma_next_exclusive(classes, from as int);
        },
        BatchStep::Exclusive { at } => {
            lemma_next_exclusive(classes, at + 1);
        },
        _ => {},
    }
}

/// A group that runs together holds shared calls only; an exclusive call runs by
/// itself.
pub proof fn law_exclusive_runs_alone(classes: Seq<Concurrency>, step: BatchStep, k: int)
    requires
        step_ok(classes, step),
        run_before(step) <= k < run_before(step) + run_by(step),
    ensures
        classes[k] == Concurrency::Exclusive ==> run_by(step) == 1 && step is Exclusive,
        classes[k] == Concurrency::Shared ==> step is Shared,
{
    match step {
        BatchStep::Shared { from, to: _ } => {
            lemma_next_exclusive(classes, from as int);
        },
        _ => {},
    }
}

/// Without a queued message every call is run; a queued message stops the batch
/// only before an exclusive call.
pub proof fn law_batch_stops_only_before_exclusive(classes: Seq<Concurrency>, step: BatchStep, queued: bool)
    requires
        step_ok(classes, step),
        !(step is Done),
        step_after(classes, step, queued) is Done,
    ensures
        ({
            let ran = step_after(classes, step, queued)->ran;
            ran == classes.len() || (queued && classes[ran as int] == Concurrency::Exclusive)
        }),
{
    match step {
        BatchStep::Shared { from, to: _ } => {
            lemma_next_exclusive(classes, from as int);
        },
        _ => {},
    }
}

/// The calls that were run and those that were skipped are all the calls, and
/// every skipped one gets the result of its own identifier.
pub proof fn law_every_call_gets_a_result(calls: Seq<ToolCallView>, ran: int, timestamp: i64, k: int)
    requires
        0 <= ran <= k < calls.len(),
    ensures
        ran + skipped_messages(calls, ran, timestamp).len() == calls.len(),
        skipped_messages(calls, ran, timestamp)[k - ran].tool_call_id == calls[k].id,
{
}

/// The result of a call carries the call's identifier and name, whichever way it
/// went.
pub proof fn law_result_answers_its_call(c: ToolCallView, r: OutcomeView, is_error: bool, timestamp: i64)
    ensures
        result_message(c, r, is_error, timestamp).tool_call_id == c.id,
        result_message(c, r, is_error, timestamp).tool_name == c.name,
{
}

/// An error that is passed on always says something, and is never useless.
pub proof fn law_errors_say_something(r: OutcomeView)
    requires
        r.is_error,
    ensures
        substantive(coerced(r).content),
        !coerced(r).useless,
{
    if !substantive(r.content) {
        reveal_strlit("Tool failed with no output.");
        let t = "Tool failed with no output."@;
        assert(t[0] == 'T');
        assert(t.last() == '.');
        assert(crate::text::trimmed(t) == t);
        let c = coerced(r).content;
        assert(c[0] == text_block(t));
    }
}

/// A call that had finished keeps its result though the run was aborted.
pub proof fn law_finished_call_keeps_result(r: ToolResult, aborted: bool)
    ensures
        settled(ToolOutcome::Returned(r), aborted) == coerced(r.deep_view()),
{
}

/// What a call reports, and the result it gets, whether it is refused or run.
pub open spec fn call_reports(tool: Option<JsonView>, c: ToolCallView, refused: bool, outcome: ToolOutcome, aborted: bool, timestamp: i64) -> (
    Seq<AgentEventView>,
    ToolResultView,
) {
    match refusal(tool, c, refused) {
        Some(o) => (whole_events(c, o, timestamp), result_message(c, o, true, timestamp)),
        None => {
            let o = settled(outcome, aborted);
            (seq![start_event(c)] + end_events(c, o, o.is_error, timestamp), result_message(c, o, o.is_error, timestamp))
        },
    }
}

/// A call is reported from its start to its end, once each, under its identifier,
/// whether it is refused or run and however it ends.
pub proof fn law_call_is_reported_whole(
    tool: Option<JsonView>,
    c: ToolCallView,
    refused: bool,
    outcome: ToolOutcome,
    aborted: bool,
    timestamp: i64,
)
    ensures
        ({
            let (events, result) = call_reports(tool, c, refused, outcome, aborted, timestamp);
            &&& events.len() == 4
            &&& events[0] is ToolExecutionStart && events[0]->ToolExecutionStart_tool_call_id == c.id
            &&& events[1] is ToolExecutionEnd && events[1]->ToolExecutionEnd_tool_call_id == c.id
            &&& events[1]->is_error == Some(result.is_error)
            &&& events[2] == (AgentEventView::MessageStart { message: MessageView::ToolResult(result) })
            &&& events[3] == (AgentEventView::MessageEnd { message: MessageView::ToolResult(result) })
            &&& result.tool_call_id == c.id
        }),
{
}

// ---- what becomes of a call ------------------------------------------------------------------

/// The calls of a turn are its tool calls, all of them and in order.
pub proof fn law_calls_are_taken_in_order(a: Seq<ContentView>, b: Seq<ContentView>)
    ensures
        calls_in(a + b) == calls_in(a) + calls_in(b),
        a.len() == 1 && a[0] is ToolCall ==> calls_in(a) == seq![a[0]->ToolCall_0],
        a.len() == 1 && !(a[0] is ToolCall) ==> calls_in(a).len() == 0,
    decreases b.len(),
{
    if b.len() == 0 {
        assert(a + b =~= a);
        assert(calls_in(a) + calls_in(b) =~= calls_in(a));
    } else {
        law_calls_are_taken_in_order(a, b.drop_last());
        assert((a + b).drop_last() =~= a + b.drop_last());
        assert(calls_in(a + b) =~= calls_in(a) + calls_in(b));
    }
    if a.len() == 1 {
        assert(a.drop_last() =~= Seq::empty());
        assert(calls_in(a.drop_last()) =~= Seq::empty());
        if a[0] is ToolCall {
            assert(calls_in(a) =~= seq![a[0]->ToolCall_0]);
        }
    }
}

/// What a tool returned is kept as it is; only an error without an image or a text
/// gets a text, and an error is never useless.
pub proof fn law_returned_result_is_kept(r: OutcomeView)
    ensures
        ({
            let says = exists|i: int|
                0 <= i < r.content.len() && ((#[trigger] r.content[i]) is Image || trimmed(
                    r.content[i]->Text_0.text,
                ).len() > 0);
            &&& coerced(r).is_error == r.is_error
            &&& coerced(r).details == r.details
            &&& !r.is_error || says ==> coerced(r).content == r.content
            &&& r.is_error && !says ==> coerced(r).content == seq![
                UserBlockView::Text(TextView { text: "Tool failed with no output."@, text_signature: None }),
            ]
            &&& !r.is_error ==> coerced(r) == r
            &&& r.is_error ==> !coerced(r).useless
        }),
{
}

/// The message of a result answers its call with what the result holds.
pub proof fn law_result_message_holds_the_result(c: ToolCallView, r: OutcomeView, is_error: bool, timestamp: i64)
    ensures
        ({
            let m = result_message(c, r, is_error, timestamp);
            &&& m.tool_call_id == c.id && m.tool_name == c.name
            &&& m.content == r.content && m.details == r.details
            &&& m.is_error == is_error && m.timestamp == timestamp
            &&& r.useless && !is_error ==> m.useless == Some(true)
            &&& !r.useless || is_error ==> m.useless is None
        }),
{
}

/// A call is run unless there is no such tool, the run was aborted, or a name that the
/// tool requires is missing among the arguments; it is refused with an error that says
/// which.
pub proof fn law_call_is_refused_for_a_reason(schema: JsonView, c: ToolCallView, aborted: bool, required: Seq<JsonView>)
    requires
        field_of(schema, "required"@) == Some(JsonView::Array(required)),
    ensures
        ({
            let complete = forall|i: int|
                0 <= i < required.len() && (#[trigger] required[i]) is String ==> field_of(
                    c.arguments,
                    required[i]->String_0,
                ) is Some;
            &&& refusal(Some(schema), c, aborted) is None == (complete && !aborted)
            &&& refusal(Some(schema), c, aborted) is Some ==> refusal(Some(schema), c, aborted)->0.is_error
            &&& complete && aborted ==> refusal(Some(schema), c, aborted)->0.content == seq![
                UserBlockView::Text(
                    TextView {
                        text: "Tool was not executed because the run was aborted."@,
                        text_signature: None,
                    },
                ),
            ]
        }),
{
    lemma_missing(required, c.arguments);
    reveal_strlit("Tool was not executed because the run was aborted.");
    let t = "Tool was not executed because the run was aborted."@;
    assert(t[0] == 'T' && t.last() == '.');
    assert(trimmed(t) == t);
    let o = error_outcome(aborted_text());
    assert(o.content[0] == text_block(t));
    assert(substantive(o.content));
}

proof fn lemma_missing(required: Seq<JsonView>, args: JsonView)
    ensures
        missing_names(required, args).len() == 0 <==> (forall|i: int|
            0 <= i < required.len() && (#[trigger] required[i]) is String ==> field_of(args, required[i]->String_0) is Some),
    decreases required.len(),
{
    if required.len() > 0 {
        let d = required.drop_last();
        lemma_missing(d, args);
        let last = required.last();
        let m = missing_names(required, args);
        if m.len() == 0 {
            assert forall|i: int| 0 <= i < required.len() && (#[trigger] required[i]) is String implies field_of(
                args,
                required[i]->String_0,
            ) is Some by {
                if i < d.len() {
                    assert(d[i] == required[i]);
                }
            }
        }
        if forall|i: int|
            0 <= i < required.len() && (#[trigger] required[i]) is String ==> field_of(args, required[i]->String_0) is Some {
            assert forall|i: int| 0 <= i < d.len() && (#[trigger] d[i]) is String implies field_of(
                args,
                d[i]->String_0,
            ) is Some by {
                assert(d[i] == required[i]);
            }
            assert(required[required.len() - 1] == last);
        }
    }
}

/// A schema that requires nothing refuses no arguments, and a tool that is not there
/// refuses every call, by its name.
pub proof fn law_unknown_tool_refuses(schema: JsonView, c: ToolCallView, aborted: bool)
    ensures
        refusal(None, c, aborted) is Some,
        refusal(None, c, aborted)->0.is_error,
        refusal(None, c, aborted)->0.content == seq![
            UserBlockView::Text(TextView { text: "Tool "@ + c.name + " not found"@, text_signature: None }),
        ],
        !(field_of(schema, "required"@) is Some && field_of(schema, "required"@)->0 is Array) ==> refusal(
            Some(schema),
            c,
            aborted,
        ) is None == !aborted,
{
    reveal_strlit("Tool ");
    reveal_strlit(" not found");
    let t = "Tool "@ + c.name + " not found"@;
    assert(t[0] == 'T' && t.last() == 'd');
    assert(trimmed(t) == t);
    let o = error_outcome(t);
    assert(o.content[0] == text_block(t));
    assert(substantive(o.content));
}

/// The names that are missing are those of the required ones that the arguments lack,
/// in order; they are told with a comma between them.
pub proof fn law_missing_names_are_told(required: Seq<JsonView>, last: JsonView, args: JsonView, names: Seq<Text>, name: Text)
    ensures
        last is String && field_of(args, last->String_0) is None ==> missing_names(required.push(last), args)
            == missing_names(required, args).push(last->String_0),
        !(last is String && field_of(args, last->String_0) is None) ==> missing_names(required.push(last), args)
            == missing_names(required, args),
        names.len() == 0 ==> comma_list(names.push(name)) == name,
        names.len() > 0 ==> comma_list(names.push(name)) == comma_list(names) + ", "@ + name,
{
    assert(required.push(last).drop_last() =~= required);
    assert(names.push(name).drop_last() =~= names);
}

/// A tool that returned gives its result; one that failed gives its error, as it is
/// told, and one that panicked says so; where the run was aborted, those two say that
/// the call was not executed.
pub proof fn law_outcome_is_told(r: ToolResult, e: String)
    ensures
        settled(ToolOutcome::Returned(r), true) == settled(ToolOutcome::Returned(r), false),
        !r.is_error ==> settled(ToolOutcome::Returned(r), false) == r.deep_view(),
        settled(ToolOutcome::Failed(e), false).is_error,
        settled(ToolOutcome::Failed(e), true).is_error,
        settled(ToolOutcome::Panicked(e), false).is_error,
        settled(ToolOutcome::Panicked(e), true) == settled(ToolOutcome::Failed(e), true),
        trimmed(e@).len() > 0 ==> settled(ToolOutcome::Failed(e), false).content == seq![
            UserBlockView::Text(TextView { text: e@, text_signature: None }),
        ],
{
    let o = error_outcome(e@);
    if trimmed(e@).len() > 0 {
        assert(o.content[0] == text_block(e@));
        assert(substantive(o.content));
    }
}

/// A call that is not run says why, with the error of the turn where there is one, and
/// that it was not executed.
pub proof fn law_unrun_call_says_why(c: ToolCallView, reason: SyntheticReason, error: Option<Text>, timestamp: i64)
    ensures
        ({
            let m = synthetic_message(c, reason, error, timestamp);
            let text = m.content[0]->Text_0.text;
            let why = match reason {
                SyntheticReason::Aborted => "Tool execution was aborted"@,
                SyntheticReason::Skipped => "Tool call was not executed because the assistant ended its turn"@,
                SyntheticReason::Error =>
                    "Tool call was not executed because the provider stream ended with an error before the tool could run"@,
                SyntheticReason::Length => reason_text(SyntheticReason::Length),
            };
            &&& m.tool_call_id == c.id && m.tool_name == c.name && m.is_error && m.timestamp == timestamp
            &&& m.content.len() == 1 && m.content[0] is Text
            &&& error is Some ==> text == why + ": "@ + error->0
            &&& error is None ==> text == why + "."@
            &&& m.details is Some
            &&& field_of(m.details->0, "executed"@) == Some(JsonView::Bool(false))
            &&& field_of(m.details->0, "__synthetic"@) == Some(JsonView::Bool(true))
            &&& reason == SyntheticReason::Error && error is Some ==> field_of(m.details->0, "upstreamError"@) == Some(
                JsonView::String(error->0),
            )
        }),
{
    reveal_strlit("__synthetic");
    reveal_strlit("source");
    reveal_strlit("executed");
    reveal_strlit("upstreamError");
    assert("__synthetic"@.len() == 11 && "source"@.len() == 6 && "executed"@.len() == 8 && "upstreamError"@.len() == 13);
    let o = synthetic_details(reason, error)->Object_0;
    lemma_member_pos_is(o, "__synthetic"@, 0);
    lemma_member_pos_is(o, "executed"@, 2);
    if reason == SyntheticReason::Error && error is Some {
        lemma_member_pos_is(o, "upstreamError"@, 3);
    }
}

/// From a call on, all calls up to the next exclusive one run together, and that is the
/// next exclusive one.
pub proof fn law_shared_calls_run_together(classes: Seq<Concurrency>, i: int)
    requires
        0 <= i <= classes.len(),
    ensures
        i <= next_exclusive(classes, i) <= classes.len(),
        next_exclusive(classes, i) < classes.len() ==> classes[next_exclusive(classes, i)] == Concurrency::Exclusive,
        forall|k: int| i <= k < next_exclusive(classes, i) ==> (#[trigger] classes[k]) == Concurrency::Shared,
    decreases classes.len() - i,
{
    if i < classes.len() && classes[i] == Concurrency::Shared {
        law_shared_calls_run_together(classes, i + 1);
    }
}

/// A batch begins with its shared calls. A queued message stops it before an exclusive
/// call, and only there; without one the exclusive call runs, alone, and then the
/// shared calls behind it.
pub proof fn law_batch_goes_on(classes: Seq<Concurrency>, from: usize, to: usize, at: usize, queued: bool)
    requires
        classes.len() <= usize::MAX,
        at < classes.len(),
    ensures
        first_step(classes) is Shared && first_step(classes)->from == 0,
        to >= classes.len() ==> step_after(classes, BatchStep::Shared { from, to }, queued) == (BatchStep::Done {
            ran: to,
        }),
        to < classes.len() ==> step_after(classes, BatchStep::Shared { from, to }, queued) == (BatchStep::Steering {
            at: to,
        }),
        step_after(classes, BatchStep::Steering { at }, true) == (BatchStep::Done { ran: at }),
        step_after(classes, BatchStep::Steering { at }, false) == (BatchStep::Exclusive { at }),
        step_after(classes, BatchStep::Exclusive { at }, queued) is Shared,
        step_after(classes, BatchStep::Exclusive { at }, queued)->from == at + 1,
        step_after(classes, BatchStep::Exclusive { at }, queued)->to == next_exclusive(classes, at + 1),
{
    law_shared_calls_run_together(classes, at + 1);
}

/// The calls that a queued message skipped are answered one by one, in order, each by
/// an error that says so and asks to try again.
pub proof fn law_skipped_calls_are_answered(calls: Seq<ToolCallView>, from: int, timestamp: i64, i: int)
    requires
        0 <= from,
        0 <= i,
        from + i < calls.len(),
    ensures
        ({
            let all = skipped_messages(calls, from, timestamp);
            &&& all.len() == calls.len() - from
            &&& all[i].tool_call_id == calls[from + i].id && all[i].tool_name == calls[from + i].name
            &&& all[i].is_error && all[i].timestamp == timestamp
            &&& all[i].content.len() == 1 && all[i].content[0] is Text
            &&& starts_with_text(all[i].content[0]->Text_0.text, "Skipped due to queued user message."@)
        }),
{
    reveal_strlit(
        "Skipped due to queued user message. Do not count this skipped result as completed work or verification. After the queued message is handled on the next step, retry the skipped tool if it is still needed.",
    );
    reveal_strlit("Skipped due to queued user message.");
    let t = skipped_text();
    let p = "Skipped due to queued user message."@;
    assert(p.len() == 35);
    assert(t.subrange(0, 35) =~= p);
    assert(t[0] == 'S' && t.last() == '.');
    assert(trimmed(t) == t);
    let o = error_outcome(t);
    assert(o.content[0] == text_block(t));
    assert(substantive(o.content));
}

/// The start of a call is reported with its arguments, its end with the result.
pub proof fn law_call_events_hold_call_and_result(c: ToolCallView, r: OutcomeView, is_error: bool, timestamp: i64)
    ensures
        start_event(c)->ToolExecutionStart_args == c.arguments,
        start_event(c)->ToolExecutionStart_tool_name == c.name,
        start_event(c)->intent == c.intent,
        end_events(c, r, is_error, timestamp)[0]->ToolExecutionEnd_tool_name == c.name,
        end_events(c, r, is_error, timestamp)[0]->result is Object,
        field_of(end_events(c, r, is_error, timestamp)[0]->result, "content"@) == Some(blocks_json(r.content)),
        r.details is Some ==> field_of(end_events(c, r, is_error, timestamp)[0]->result, "details"@) == r.details,
        r.is_error ==> field_of(end_events(c, r, is_error, timestamp)[0]->result, "isError"@) == Some(
            JsonView::Bool(true),
        ),
        !r.is_error ==> field_of(end_events(c, r, is_error, timestamp)[0]->result, "isError"@) is None,
{
    reveal_strlit("content");
    reveal_strlit("details");
    reveal_strlit("isError");
    reveal_strlit("useless");
    assert("content"@.len() == 7 && "details"@.len() == 7 && "isError"@.len() == 7 && "useless"@.len() == 7);
    assert("content"@[0] == 'c' && "details"@[0] == 'd' && "isError"@[0] == 'i' && "useless"@[0] == 'u');
    let o = result_json(r)->Object_0;
    lemma_member_pos_is(o, "content"@, 0);
    lemma_member_pos_is(o, "details"@, 1);
    if r.is_error {
        lemma_member_pos_is(o, "isError"@, 2);
    } else {
        lemma_member_pos_is(o, "isError"@, o.len() as int);
    }
}

/// The blocks of a result are written one by one, a text with its text, an image with
/// its data and type.
pub proof fn law_result_blocks_are_written(content: Seq<UserBlockView>, i: int)
    requires
        0 <= i < content.len(),
    ensures
        ({
            let j = blocks_json(content)->Array_0;
            &&& blocks_json(content) is Array && j.len() == content.len()
            &&& content[i] is Text ==> text_in(field_of(j[i], "type"@)) == Some("text"@) && text_in(
                field_of(j[i], "text"@),
            ) == Some(content[i]->Text_0.text)
            &&& content[i] is Image ==> text_in(field_of(j[i], "type"@)) == Some("image"@) && text_in(
                field_of(j[i], "data"@),
            ) == Some(content[i]->Image_0.data) && text_in(field_of(j[i], "mimeType"@)) == Some(
                content[i]->Image_0.mime_type,
            )
        }),
{
    reveal_strlit("type");
    reveal_strlit("text");
    reveal_strlit("data");
    reveal_strlit("mimeType");
    assert("type"@.len() == 4 && "text"@.len() == 4 && "data"@.len() == 4 && "mimeType"@.len() == 8);
    assert("type"@[1] == 'y' && "text"@[1] == 'e' && "data"@[1] == 'a');
    let o = block_json(content[i])->Object_0;
    lemma_member_pos_is(o, "type"@, 0);
    if content[i] is Text {
        lemma_member_pos_is(o, "text"@, 1);
    } else {
        lemma_member_pos_is(o, "data"@, 1);
        lemma_member_pos_is(o, "mimeType"@, 2);
    }
}

/// Where an answer that was not run comes from is told in its details.
pub proof fn law_unrun_call_says_where_from(error: Option<Text>)
    ensures
        text_in(field_of(synthetic_details(SyntheticReason::Aborted, error), "source"@)) == Some(
            "assistant_stop_aborted"@,
        ),
        text_in(field_of(synthetic_details(SyntheticReason::Error, error), "source"@)) == Some("assistant_stop_error"@),
        text_in(field_of(synthetic_details(SyntheticReason::Length, error), "source"@)) == Some("assistant_stop_length"@),
        text_in(field_of(synthetic_details(SyntheticReason::Skipped, error), "source"@)) == Some(
            "assistant_stop_skipped"@,
        ),
{
    reveal_strlit("__synthetic");
    reveal_strlit("source");
    assert("__synthetic"@.len() == 11 && "source"@.len() == 6);
    lemma_member_pos_is(synthetic_details(SyntheticReason::Aborted, error)->Object_0, "source"@, 1);
    lemma_member_pos_is(synthetic_details(SyntheticReason::Error, error)->Object_0, "source"@, 1);
    lemma_member_pos_is(synthetic_details(SyntheticReason::Length, error)->Object_0, "source"@, 1);
    lemma_member_pos_is(synthetic_details(SyntheticReason::Skipped, error)->Object_0, "source"@, 1);
}

/// The calls that a queued message skipped are reported one after the other, each from
/// its start to its end, with the answer that it gets.
pub proof fn law_skipped_calls_are_reported(calls: Seq<ToolCallView>, from: int, to: int, timestamp: i64)
    requires
        0 <= from <= to < calls.len(),
    ensures
        ({
            let before = skipped_events(calls, from, to, timestamp);
            let now = skipped_events(calls, from, to + 1, timestamp);
            let answer = skipped_messages(calls, from, timestamp)[to - from];
            let at = before.len() as int;
            &&& skipped_events(calls, from, from, timestamp).len() == 0
            &&& now.len() == at + 4 && now.take(at) == before
            &&& now[at] is ToolExecutionStart && now[at]->ToolExecutionStart_tool_call_id == calls[to].id
            &&& now[at + 1] is ToolExecutionEnd && now[at + 1]->ToolExecutionEnd_tool_call_id == calls[to].id
            &&& now[at + 2] == (AgentEventView::MessageStart { message: MessageView::ToolResult(answer) })
            &&& now[at + 3] == (AgentEventView::MessageEnd { message: MessageView::ToolResult(answer) })
        }),
{
    let before = skipped_events(calls, from, to, timestamp);
    let now = skipped_events(calls, from, to + 1, timestamp);
    assert(now.take(before.len() as int) =~= before);
}

/// Arguments that lack what is required are refused by naming what they lack.
pub proof fn law_missing_arguments_are_named(schema: JsonView, args: JsonView, required: Seq<JsonView>)
    requires
        field_of(schema, "required"@) == Some(JsonView::Array(required)),
        missing_names(required, args).len() > 0,
    ensures
        argument_error(schema, args) == Some(
            "Invalid arguments: missing required field(s): "@ + comma_list(missing_names(required, args)),
        ),
{
}

} // verus!

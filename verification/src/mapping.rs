//! From the events of a run to the updates that a client of a session gets.
use vstd::prelude::*;
use crate::agent_event::{AgentEvent, AgentEventView};
use crate::event::{AssistantMessageEvent, EventView};
use crate::json::{copy_json, field_of, json_view, lemma_object_view, text_in, Json, JsonView};
use crate::message::{AssistantView, Message, MessageView, StopReason, Text};
use crate::pattern::{regex_search, search};
use crate::text::{joined, owned, same_text, trim_text, trimmed};

verus! {

/// What kind of thing a tool does.
#[derive(Debug, Clone, Copy, PartialEq, Eq, Structural)]
pub enum ToolKind {
    Read,
    Edit,
    Delete,
    Move,
    Search,
    Execute,
    Think,
    Fetch,
    Other,
}

#[derive(Debug, Clone, Copy, PartialEq, Eq, Structural)]
pub enum ToolCallStatus {
    Pending,
    Completed,
    Failed,
}

/// Why a prompt's turn ended.
#[derive(Debug, Clone, Copy, PartialEq, Eq, Structural)]
pub enum AcpStopReason {
    EndTurn,
    MaxTokens,
    Refusal,
    Cancelled,
}

/// An update of a session.
#[derive(Debug, PartialEq, Eq)]
pub enum SessionUpdate {
    AgentMessageChunk(String),
    AgentThoughtChunk(String),
    ToolCall { tool_call_id: String, title: String, kind: ToolKind, status: ToolCallStatus, raw_input: Json },
    ToolCallUpdate {
        tool_call_id: String,
        status: ToolCallStatus,
        raw_output: Json,
        content: Option<String>,
    },
}

#[allow(inconsistent_fields)]
#[verifier::ext_equal]
pub enum UpdateView {
    AgentMessageChunk(Text),
    AgentThoughtChunk(Text),
    ToolCall { tool_call_id: Text, title: Text, kind: ToolKind, status: ToolCallStatus, raw_input: JsonView },
    ToolCallUpdate {
        tool_call_id: Text,
        status: ToolCallStatus,
        raw_output: JsonView,
        content: Option<Text>,
    },
}

impl DeepView for SessionUpdate {
    type V = UpdateView;

    open spec fn deep_view(&self) -> UpdateView {
        match self {
            SessionUpdate::AgentMessageChunk(t) => UpdateView::AgentMessageChunk(t@),
            SessionUpdate::AgentThoughtChunk(t) => UpdateView::AgentThoughtChunk(t@),
            SessionUpdate::ToolCall { tool_call_id, title, kind, status, raw_input } => UpdateView::ToolCall {
                tool_call_id: tool_call_id@,
                title: title@,
                kind: *kind,
                status: *status,
                raw_input: json_view(*raw_input),
            },
            SessionUpdate::ToolCallUpdate { tool_call_id, status, raw_output, content } =>
                UpdateView::ToolCallUpdate {
                    tool_call_id: tool_call_id@,
                    status: *status,
                    raw_output: json_view(*raw_output),
                    content: content.deep_view(),
                },
        }
    }
}

pub open spec fn kind_of_tool(name: Text) -> ToolKind {
    if name == "read"@ {
        ToolKind::Read
    } else if name == "write"@ || name == "edit"@ {
        ToolKind::Edit
    } else if name == "delete"@ {
        ToolKind::Delete
    } else if name == "move"@ {
        ToolKind::Move
    } else if name == "bash"@ || name == "shell"@ || name == "exec"@ || name == "eval"@ {
        ToolKind::Execute
    } else if name == "grep"@ || name == "glob"@ || name == "ast_grep"@ {
        ToolKind::Search
    } else if name == "web_search"@ {
        ToolKind::Fetch
    } else if name == "todo"@ {
        ToolKind::Think
    } else {
        ToolKind::Other
    }
}

pub fn map_tool_kind(tool_name: &str) -> (r: ToolKind)
    ensures
        r == kind_of_tool(tool_name@),
{
    let n = tool_name;
    if same_text(n, "read") {
        ToolKind::Read
    } else if same_text(n, "write") || same_text(n, "edit") {
        ToolKind::Edit
    } else if same_text(n, "delete") {
        ToolKind::Delete
    } else if same_text(n, "move") {
        ToolKind::Move
    } else if same_text(n, "bash") || same_text(n, "shell") || same_text(n, "exec") || same_text(n, "eval") {
        ToolKind::Execute
    } else if same_text(n, "grep") || same_text(n, "glob") || same_text(n, "ast_grep") {
        ToolKind::Search
    } else if same_text(n, "web_search") {
        ToolKind::Fetch
    } else if same_text(n, "todo") {
        ToolKind::Think
    } else {
        ToolKind::Other
    }
}

/// What the arguments of a call are about, in the order in which they are asked.
pub open spec fn subject_of(args: JsonView) -> Option<Text> {
    if text_in(field_of(args, "path"@)) is Some {
        text_in(field_of(args, "path"@))
    } else if text_in(field_of(args, "command"@)) is Some {
        text_in(field_of(args, "command"@))
    } else if text_in(field_of(args, "pattern"@)) is Some {
        text_in(field_of(args, "pattern"@))
    } else {
        text_in(field_of(args, "query"@))
    }
}

/// The title of a call: its intent, where it states one, else its tool and what
/// it is about.
pub open spec fn title_of(name: Text, args: JsonView, intent: Option<Text>) -> Text {
    if intent is Some && trimmed(intent->0).len() > 0 {
        trimmed(intent->0)
    } else {
        match subject_of(args) {
            Some(s) => name + ": "@ + s,
            None => name,
        }
    }
}

fn text_at(v: &Json, key: &str) -> (r: Option<String>)
    ensures
        r.deep_view() == text_in(field_of(json_view(*v), key@)),
{
    match v.get(key) {
        Some(Json::String(s)) => Some(s.clone()),
        _ => None,
    }
}

fn tool_title(tool_name: &str, args: &Json, intent: &Option<String>) -> (r: String)
    ensures
        r@ == title_of(tool_name@, json_view(*args), intent.deep_view()),
{
    if let Some(text) = intent {
        let t = trim_text(text.as_str());
        if !t.as_str().is_empty() {
            return t;
        }
    }
    let mut subject = text_at(args, "path");
    if subject.is_none() {
        subject = text_at(args, "command");
    }
    if subject.is_none() {
        subject = text_at(args, "pattern");
    }
    if subject.is_none() {
        subject = text_at(args, "query");
    }
    match subject {
        Some(s) => {
            let a = joined(tool_name, ": ");
            joined(a.as_str(), s.as_str())
        },
        None => owned(tool_name),
    }
}

/// The text to show of a result.
pub open spec fn shown_text(result: JsonView) -> Option<Text> {
    match result {
        JsonView::String(s) => Some(s),
        JsonView::Object(_) => if text_in(field_of(result, "content"@)) is Some {
            text_in(field_of(result, "content"@))
        } else if text_in(field_of(result, "output"@)) is Some {
            text_in(field_of(result, "output"@))
        } else if text_in(field_of(result, "text"@)) is Some {
            text_in(field_of(result, "text"@))
        } else if text_in(field_of(result, "llmContent"@)) is Some {
            text_in(field_of(result, "llmContent"@))
        } else {
            text_in(field_of(result, "message"@))
        },
        _ => None,
    }
}

fn result_text(result: &Json) -> (r: Option<String>)
    ensures
        r.deep_view() == shown_text(json_view(*result)),
{
    match result {
        Json::String(s) => Some(s.clone()),
        Json::Object(o) => {
            proof {
                lemma_object_view(*o);
            }
            let mut t = text_at(result, "content");
            if t.is_none() {
                t = text_at(result, "output");
            }
            if t.is_none() {
                t = text_at(result, "text");
            }
            if t.is_none() {
                t = text_at(result, "llmContent");
            }
            if t.is_none() {
                t = text_at(result, "message");
            }
            t
        },
        _ => None,
    }
}

/// The update that an event of a response amounts to, if any.
pub open spec fn update_of_message(e: EventView) -> Option<UpdateView> {
    match e {
        EventView::TextDelta { content_index: _, delta, partial: _ } => if delta.len() > 0 {
            Some(UpdateView::AgentMessageChunk(delta))
        } else {
            None
        },
        EventView::ThinkingDelta { content_index: _, delta, partial: _ } => if delta.len() > 0 {
            Some(UpdateView::AgentThoughtChunk(delta))
        } else {
            None
        },
        _ => None,
    }
}

/// The update that an event of a run amounts to, if any.
pub open spec fn update_of(e: AgentEventView) -> Option<UpdateView> {
    match e {
        AgentEventView::MessageUpdate { message: _, assistant_message_event } => update_of_message(
            assistant_message_event,
        ),
        AgentEventView::ToolExecutionStart { tool_call_id, tool_name, args, intent } => Some(
            UpdateView::ToolCall {
                tool_call_id,
                title: title_of(tool_name, args, intent),
                kind: kind_of_tool(tool_name),
                status: ToolCallStatus::Pending,
                raw_input: args,
            },
        ),
        AgentEventView::ToolExecutionEnd { tool_call_id, tool_name: _, result, is_error } => Some(
            UpdateView::ToolCallUpdate {
                tool_call_id,
                status: if is_error == Some(true) {
                    ToolCallStatus::Failed
                } else {
                    ToolCallStatus::Completed
                },
                raw_output: result,
                content: shown_text(result),
            },
        ),
        _ => None,
    }
}

fn map_message_update(event: &AssistantMessageEvent) -> (r: Option<SessionUpdate>)
    ensures
        r.deep_view() == update_of_message(event.deep_view()),
{
    match event {
        AssistantMessageEvent::TextDelta { content_index: _, delta, partial: _ } => if delta.as_str().is_empty() {
            None
        } else {
            Some(SessionUpdate::AgentMessageChunk(delta.clone()))
        },
        AssistantMessageEvent::ThinkingDelta { content_index: _, delta, partial: _ } => if delta.as_str().is_empty() {
            None
        } else {
            Some(SessionUpdate::AgentThoughtChunk(delta.clone()))
        },
        _ => None,
    }
}

/// The updates that an event of a run amounts to: one, or none.
pub fn map_event(event: &AgentEvent) -> (r: Vec<SessionUpdate>)
    ensures
        r.deep_view() == (match update_of(event.deep_view()) {
            Some(u) => seq![u],
            None => Seq::<UpdateView>::empty(),
        }),
{
    let update = match event {
        AgentEvent::MessageUpdate { message: _, assistant_message_event } => map_message_update(
            assistant_message_event,
        ),
        AgentEvent::ToolExecutionStart { tool_call_id, tool_name, args, intent } => Some(
            SessionUpdate::ToolCall {
                tool_call_id: tool_call_id.clone(),
                title: tool_title(tool_name.as_str(), args, intent),
                kind: map_tool_kind(tool_name.as_str()),
                status: ToolCallStatus::Pending,
                raw_input: copy_json(args),
            },
        ),
        AgentEvent::ToolExecutionEnd { tool_call_id, tool_name: _, result, is_error } => {
            let failed = match is_error {
                Some(b) => *b,
                None => false,
            };
            Some(
                SessionUpdate::ToolCallUpdate {
                    tool_call_id: tool_call_id.clone(),
                    status: if failed {
                        ToolCallStatus::Failed
                    } else {
                        ToolCallStatus::Completed
                    },
                    raw_output: copy_json(result),
                    content: result_text(result),
                },
            )
        },
        _ => None,
    };
    let mut out: Vec<SessionUpdate> = Vec::new();
    match update {
        Some(u) => {
            let ghost view = u.deep_view();
            out.push(u);
            assert(out.deep_view() =~= seq![view]);
        },
        None => {
            assert(out.deep_view() =~= Seq::empty());
        },
    }
    out
}

/// The last response among messages.
pub open spec fn last_response(messages: Seq<MessageView>) -> Option<AssistantView>
    decreases messages.len(),
{
    if messages.len() == 0 {
        None
    } else {
        match messages.last() {
            MessageView::Assistant(a) => Some(a),
            _ => last_response(messages.drop_last()),
        }
    }
}

pub open spec fn refusal_pattern() -> Text {
    "(?i)content[_ ]?filter|refus(al|ed)"@
}

/// Why a turn ended, given whether the error of a failed response is a refusal.
pub open spec fn stop_given(messages: Seq<MessageView>, cancelled: bool, refusal: bool) -> AcpStopReason {
    if cancelled {
        AcpStopReason::Cancelled
    } else {
        match last_response(messages) {
            None => AcpStopReason::EndTurn,
            Some(a) => match a.stop_reason {
                StopReason::Aborted => AcpStopReason::Cancelled,
                StopReason::Length => AcpStopReason::MaxTokens,
                StopReason::Error => if refusal {
                    AcpStopReason::Refusal
                } else {
                    AcpStopReason::EndTurn
                },
                _ => AcpStopReason::EndTurn,
            },
        }
    }
}

pub open spec fn last_error(messages: Seq<MessageView>) -> Text {
    match last_response(messages) {
        Some(a) => match a.error_message {
            Some(e) => e,
            None => Seq::empty(),
        },
        None => Seq::empty(),
    }
}

/// Why a turn ended. There is no reason that says error: a failed response ends
/// the turn as any other does, unless its error is a refusal.
pub open spec fn stop_reason_of(messages: Seq<MessageView>, cancelled: bool) -> AcpStopReason {
    stop_given(messages, cancelled, regex_search(refusal_pattern(), last_error(messages)) == Some(true))
}

fn find_last_response(messages: &Vec<Message>) -> (r: Option<usize>)
    ensures
        match r {
            Some(i) => i < messages.len() && messages.deep_view()[i as int] is Assistant && last_response(
                messages.deep_view(),
            ) == Some(messages.deep_view()[i as int]->Assistant_0),
            None => last_response(messages.deep_view()) is None,
        },
{
    let ghost m = messages.deep_view();
    let mut n: usize = messages.len();
    assert(m.take(n as int) =~= m);
    while n > 0
        invariant
            m == messages.deep_view(),
            n <= messages.len(),
            last_response(m) == last_response(m.take(n as int)),
        decreases n,
    {
        assert(m.take(n as int).last() == messages@[n - 1].deep_view());
        assert(m.take(n as int).drop_last() =~= m.take(n - 1));
        if let Message::Assistant(_) = &messages[n - 1] {
            assert(m[n - 1] == messages@[n - 1].deep_view());
            return Some(n - 1);
        }
        n = n - 1;
    }
    None
}

/// Why a turn ended, given whether the error of a failed response is a refusal.
pub fn stop_reason_given(messages: &Vec<Message>, cancel_requested: bool, refusal: bool) -> (r: AcpStopReason)
    ensures
        r == stop_given(messages.deep_view(), cancel_requested, refusal),
{
    if cancel_requested {
        return AcpStopReason::Cancelled;
    }
    match find_last_response(messages) {
        None => AcpStopReason::EndTurn,
        Some(i) => {
            assert(messages.deep_view()[i as int] == messages@[i as int].deep_view());
            if let Message::Assistant(a) = &messages[i] {
                match a.stop_reason {
                    StopReason::Aborted => AcpStopReason::Cancelled,
                    StopReason::Length => AcpStopReason::MaxTokens,
                    StopReason::Error => if refusal {
                        AcpStopReason::Refusal
                    } else {
                        AcpStopReason::EndTurn
                    },
                    _ => AcpStopReason::EndTurn,
                }
            } else {
                AcpStopReason::EndTurn
            }
        },
    }
}

fn is_refusal(text: &str) -> (r: bool)
    ensures
        r == (regex_search(refusal_pattern(), text@) == Some(true)),
{
    match search("(?i)content[_ ]?filter|refus(al|ed)", text) {
        Some(found) => found,
        None => false,
    }
}

/// Why a turn ended.
pub fn resolve_stop_reason(messages: &Vec<Message>, cancel_requested: bool) -> (r: AcpStopReason)
    ensures
        r == stop_reason_of(messages.deep_view(), cancel_requested),
{
    let ghost m = messages.deep_view();
    let error = match find_last_response(messages) {
        Some(i) => {
            assert(m[i as int] == messages@[i as int].deep_view());
            if let Message::Assistant(a) = &messages[i] {
                match &a.error_message {
                    Some(e) => e.clone(),
                    None => String::new(),
                }
            } else {
                String::new()
            }
        },
        None => String::new(),
    };
    assert(error@ =~= last_error(m));
    stop_reason_given(messages, cancel_requested, is_refusal(error.as_str()))
}

/// A cancelled turn is reported as cancelled, however it ended.
pub proof fn law_cancel_wins(messages: Seq<MessageView>)
    ensures
        stop_reason_of(messages, true) == AcpStopReason::Cancelled,
{
}

/// A refusal is only reported of a response that failed.
pub proof fn law_refusal_needs_error(messages: Seq<MessageView>, cancelled: bool)
    requires
        stop_reason_of(messages, cancelled) == AcpStopReason::Refusal,
    ensures
        !cancelled,
        last_response(messages) is Some,
        last_response(messages)->0.stop_reason == StopReason::Error,
{
}

/// The beginning and the end of a run, a turn or a message are no updates.
pub proof fn law_lifecycle_is_silent(e: AgentEventView)
    requires
        e is AgentStart || e is AgentEnd || e is TurnStart || e is TurnEnd || e is MessageStart || e is MessageEnd
            || e is ToolExecutionUpdate,
    ensures
        update_of(e) is None,
{
}

/// Text and reasoning of the model are passed on as they come, unless nothing came.
pub proof fn law_text_is_passed_on(message: MessageView, i: int, t: Text, partial: AssistantView)
    ensures
        ({
            let text = AgentEventView::MessageUpdate {
                message,
                assistant_message_event: EventView::TextDelta { content_index: i, delta: t, partial },
            };
            let thought = AgentEventView::MessageUpdate {
                message,
                assistant_message_event: EventView::ThinkingDelta { content_index: i, delta: t, partial },
            };
            &&& t.len() > 0 ==> update_of(text) == Some(UpdateView::AgentMessageChunk(t))
            &&& t.len() > 0 ==> update_of(thought) == Some(UpdateView::AgentThoughtChunk(t))
            &&& t.len() == 0 ==> update_of(text) is None && update_of(thought) is None
        }),
{
}

/// Of a message that grows only its text and its reasoning are passed on.
pub proof fn law_other_growth_is_silent(message: MessageView, e: EventView)
    requires
        !(e is TextDelta) && !(e is ThinkingDelta),
    ensures
        update_of(AgentEventView::MessageUpdate { message, assistant_message_event: e }) is None,
{
}

/// A call is told when it starts, with its arguments, as pending; and when it ends, with
/// its result, as completed or failed.
pub proof fn law_calls_are_told(id: Text, name: Text, args: JsonView, intent: Option<Text>, result: JsonView, error: Option<bool>)
    ensures
        ({
            let start = update_of(
                AgentEventView::ToolExecutionStart { tool_call_id: id, tool_name: name, args, intent },
            );
            let end = update_of(
                AgentEventView::ToolExecutionEnd { tool_call_id: id, tool_name: name, result, is_error: error },
            );
            &&& start is Some && start->0 is ToolCall
            &&& start->0->ToolCall_tool_call_id == id && start->0->raw_input == args
            &&& start->0->ToolCall_status == ToolCallStatus::Pending
            &&& end is Some && end->0 is ToolCallUpdate
            &&& end->0->ToolCallUpdate_tool_call_id == id && end->0->raw_output == result
            &&& error == Some(true) ==> end->0->ToolCallUpdate_status == ToolCallStatus::Failed
            &&& error != Some(true) ==> end->0->ToolCallUpdate_status == ToolCallStatus::Completed
            &&& result is String ==> end->0->content == Some(result->String_0)
            &&& result is Object && text_in(field_of(result, "content"@)) is Some ==> end->0->content == text_in(
                field_of(result, "content"@),
            )
            &&& !(result is String) && !(result is Object) ==> end->0->content is None
        }),
{
}

/// The text that is shown of a result is the first of its members that holds one.
pub proof fn law_result_shows_its_text(result: JsonView)
    requires
        result is Object,
        text_in(field_of(result, "content"@)) is None,
    ensures
        text_in(field_of(result, "output"@)) is Some ==> shown_text(result) == text_in(field_of(result, "output"@)),
        text_in(field_of(result, "output"@)) is None && text_in(field_of(result, "text"@)) is Some ==> shown_text(result)
            == text_in(field_of(result, "text"@)),
        text_in(field_of(result, "output"@)) is None && text_in(field_of(result, "text"@)) is None && text_in(
            field_of(result, "llmContent"@),
        ) is Some ==> shown_text(result) == text_in(field_of(result, "llmContent"@)),
        text_in(field_of(result, "output"@)) is None && text_in(field_of(result, "text"@)) is None && text_in(
            field_of(result, "llmContent"@),
        ) is None ==> shown_text(result) == text_in(field_of(result, "message"@)),
{
}

/// The title of a call is what it is meant to do, where that is said; else the tool's
/// name, and behind it what it is about: a path, a command, a pattern or a query.
pub proof fn law_title_says_what_it_is_about(name: Text, args: JsonView, intent: Option<Text>)
    ensures
        ({
            let path = text_in(field_of(args, "path"@));
            let command = text_in(field_of(args, "command"@));
            let pattern = text_in(field_of(args, "pattern"@));
            let query = text_in(field_of(args, "query"@));
            let said = intent is Some && trimmed(intent->0).len() > 0;
            let title = title_of(name, args, intent);
            &&& said ==> title == trimmed(intent->0)
            &&& !said && path is Some ==> title == name + ": "@ + path->0
            &&& !said && path is None && command is Some ==> title == name + ": "@ + command->0
            &&& !said && path is None && command is None && pattern is Some ==> title == name + ": "@ + pattern->0
            &&& !said && path is None && command is None && pattern is None && query is Some ==> title == name + ": "@
                + query->0
            &&& !said && path is None && command is None && pattern is None && query is None ==> title == name
        }),
{
}

/// The kinds of the tools that have one; any other tool is of no kind.
pub proof fn law_kinds_of_tools()
    ensures
        kind_of_tool("read"@) == ToolKind::Read,
        kind_of_tool("write"@) == ToolKind::Edit,
        kind_of_tool("edit"@) == ToolKind::Edit,
        kind_of_tool("delete"@) == ToolKind::Delete,
        kind_of_tool("move"@) == ToolKind::Move,
        kind_of_tool("bash"@) == ToolKind::Execute,
        kind_of_tool("shell"@) == ToolKind::Execute,
        kind_of_tool("exec"@) == ToolKind::Execute,
        kind_of_tool("eval"@) == ToolKind::Execute,
        kind_of_tool("grep"@) == ToolKind::Search,
        kind_of_tool("glob"@) == ToolKind::Search,
        kind_of_tool("ast_grep"@) == ToolKind::Search,
        kind_of_tool("web_search"@) == ToolKind::Fetch,
        kind_of_tool("todo"@) == ToolKind::Think,
{
    reveal_strlit("read");
    reveal_strlit("write");
    reveal_strlit("edit");
    reveal_strlit("delete");
    reveal_strlit("move");
    reveal_strlit("bash");
    reveal_strlit("shell");
    reveal_strlit("exec");
    reveal_strlit("eval");
    reveal_strlit("grep");
    reveal_strlit("glob");
    reveal_strlit("ast_grep");
    reveal_strlit("web_search");
    reveal_strlit("todo");
    assert("read"@.len() == 4 && "edit"@.len() == 4 && "move"@.len() == 4 && "bash"@.len() == 4 && "exec"@.len() == 4
        && "eval"@.len() == 4 && "grep"@.len() == 4 && "glob"@.len() == 4 && "todo"@.len() == 4);
    assert("write"@.len() == 5 && "shell"@.len() == 5 && "delete"@.len() == 6 && "ast_grep"@.len() == 8
        && "web_search"@.len() == 10);
    assert("read"@[0] == 'r' && "edit"@[0] == 'e' && "move"@[0] == 'm' && "bash"@[0] == 'b' && "exec"@[0] == 'e'
        && "eval"@[0] == 'e' && "grep"@[0] == 'g' && "glob"@[0] == 'g' && "todo"@[0] == 't');
    assert("edit"@[1] == 'd' && "exec"@[1] == 'x' && "eval"@[1] == 'v' && "grep"@[1] == 'r' && "glob"@[1] == 'l');
    assert("write"@[0] == 'w' && "shell"@[0] == 's');
}

/// A turn stops for the reason of the last response, unless it was cancelled.
pub proof fn law_stop_is_that_of_the_last_response(messages: Seq<MessageView>, a: AssistantView, behind: Seq<MessageView>, refusal: bool)
    requires
        forall|i: int| 0 <= i < behind.len() ==> !((#[trigger] behind[i]) is Assistant),
    ensures
        ({
            let all = messages.push(MessageView::Assistant(a)) + behind;
            &&& last_response(all) == Some(a)
            &&& stop_given(all, true, refusal) == AcpStopReason::Cancelled
            &&& a.stop_reason == StopReason::Aborted ==> stop_given(all, false, refusal) == AcpStopReason::Cancelled
            &&& a.stop_reason == StopReason::Length ==> stop_given(all, false, refusal) == AcpStopReason::MaxTokens
            &&& a.stop_reason == StopReason::Stop || a.stop_reason == StopReason::ToolUse ==> stop_given(
                all,
                false,
                refusal,
            ) == AcpStopReason::EndTurn
            &&& a.stop_reason == StopReason::Error && refusal ==> stop_given(all, false, refusal) == AcpStopReason::Refusal
            &&& a.stop_reason == StopReason::Error && !refusal ==> stop_given(all, false, refusal)
                == AcpStopReason::EndTurn
        }),
    decreases behind.len(),
{
    let base = messages.push(MessageView::Assistant(a));
    let all = base + behind;
    if behind.len() == 0 {
        assert(all =~= base);
    } else {
        let d = behind.drop_last();
        assert forall|i: int| 0 <= i < d.len() implies !((#[trigger] d[i]) is Assistant) by {
            assert(d[i] == behind[i]);
        }
        law_stop_is_that_of_the_last_response(messages, a, d, refusal);
        assert(!(behind[behind.len() - 1] is Assistant));
        assert(all.drop_last() =~= base + d);
    }
}

/// An error is a refusal where its message says so.
pub proof fn law_refusals_are_known_by_their_words(messages: Seq<MessageView>, a: AssistantView)
    requires
        last_response(messages) == Some(a),
        a.stop_reason == StopReason::Error,
    ensures
        a.error_message is Some ==> (stop_reason_of(messages, false) == AcpStopReason::Refusal) == (regex_search(
            "(?i)content[_ ]?filter|refus(al|ed)"@,
            a.error_message->0,
        ) == Some(true)),
{
}

} // verus!

//! A run of the agent: turn after turn, a response of the model is taken in, its
//! tool calls are answered, and messages that the user queued are put in, until
//! nothing is left to do.
//!
//! The model, the tools and the queue are outside: they are asked as the run
//! says, and what they give is handed back.
use vstd::prelude::*;
use crate::agent_event::{AgentEvent, AgentEventView};
use crate::event::{ends_turn, message_in, AssistantMessageEvent, EventView};
use crate::execute::{
    calls_in, create_aborted_tool_result, synthetic_message, synthetic_outcome, tool_calls_of,
    whole_events, SyntheticReason,
};
use crate::json::{json_view, Json, JsonNumber};
use crate::message::{
    copy_messages, copy_text, copy_texts, zero_usage, AssistantContent, AssistantMessage, AssistantView,
    ContentView, Message, MessageView, StopDetails, StopDetailsView, StopReason, Text, ToolCall, ToolCallView,
    ToolResultMessage, ToolResultView, Usage,
};
use crate::pattern::{regex_search, search};
use crate::provider::{LlmContext, WireTool};
use crate::schema::{normal_node, normalize_anthropic_tool_schema};
use crate::text::{holds_text, joined, owned, same_text};

verus! {

/// How many turns a run may have unless configured otherwise.
pub const DEFAULT_MAX_STEPS: usize = 64;

pub const STREAM_INTERRUPTED_AFTER_CONTENT: &'static str = "stream_interrupted_after_content";

/// The configuration of a run.
#[derive(Debug, PartialEq, Eq)]
pub struct AgentConfig {
    pub model: String,
    pub max_tokens: u64,
    pub temperature: Option<JsonNumber>,
    pub max_steps: usize,
}

impl AgentConfig {
    pub fn new(model: String, max_tokens: u64) -> (r: Self)
        ensures
            r == (AgentConfig { model, max_tokens, temperature: None, max_steps: DEFAULT_MAX_STEPS }),
    {
        AgentConfig { model, max_tokens, temperature: None, max_steps: DEFAULT_MAX_STEPS }
    }
}

// ---- what the model is asked -------------------------------------------------------

/// A tool as it describes itself.
#[derive(Debug, PartialEq, Eq)]
pub struct ToolSpec {
    pub name: String,
    pub description: String,
    pub input_schema: Json,
}

/// What a model call is about: the conversation so far, and the tools with their
/// schemas normalized.
pub fn build_llm_context(system_prompt: &Vec<String>, messages: &Vec<Message>, tools: &Vec<ToolSpec>) -> (r: LlmContext)
    ensures
        r.system_prompt.deep_view() == system_prompt.deep_view(),
        r.messages.deep_view() == messages.deep_view(),
        r.tools@.len() == tools@.len(),
        forall|i: int|
            0 <= i < tools@.len() ==> (#[trigger] r.tools@[i]).name@ == tools@[i].name@ && r.tools@[i].description@
                == tools@[i].description@ && json_view(r.tools@[i].input_schema) == normal_node(
                json_view(tools@[i].input_schema),
                true,
            ),
{
    let mut wire: Vec<WireTool> = Vec::new();
    let mut i: usize = 0;
    while i < tools.len()
        invariant
            i <= tools.len(),
            wire.len() == i,
            forall|k: int|
                0 <= k < i ==> (#[trigger] wire@[k]).name@ == tools@[k].name@ && wire@[k].description@
                    == tools@[k].description@ && json_view(wire@[k].input_schema) == normal_node(
                    json_view(tools@[k].input_schema),
                    true,
                ),
        decreases tools.len() - i,
    {
        let tool = &tools[i];
        wire.push(
            WireTool {
                name: tool.name.clone(),
                description: tool.description.clone(),
                input_schema: normalize_anthropic_tool_schema(&tool.input_schema),
            },
        );
        i = i + 1;
    }
    LlmContext {
        system_prompt: copy_texts(system_prompt),
        messages: copy_messages(messages),
        tools: wire,
    }
}

// ---- the end of a response ------------------------------------------------------------

pub open spec fn is_failed(stop: StopReason) -> bool {
    stop == StopReason::Error || stop == StopReason::Aborted
}

/// A block stays unless it is a tool call that was not completed.
pub open spec fn stays(b: ContentView, completed: Seq<Text>) -> bool {
    match b {
        ContentView::ToolCall(c) => completed.contains(c.id),
        _ => true,
    }
}

pub open spec fn stays_filter(completed: Seq<Text>) -> spec_fn(ContentView) -> bool {
    |b: ContentView| stays(b, completed)
}

/// The note that a stream broke off behind content.
pub open spec fn interrupted_details(existing: Option<StopDetailsView>, error: Option<Text>) -> StopDetailsView {
    if existing is Some && existing->0.detail_type == STREAM_INTERRUPTED_AFTER_CONTENT@ {
        existing->0
    } else {
        StopDetailsView {
            detail_type: STREAM_INTERRUPTED_AFTER_CONTENT@,
            category: match existing {
                Some(d) => Some(d.detail_type),
                None => None,
            },
            explanation: match existing {
                Some(d) => match d.explanation {
                    Some(e) => Some(e),
                    None => error,
                },
                None => error,
            },
        }
    }
}

/// A failed turn without the tool calls that were not completed; where there were
/// any, the turn says that it was interrupted.
pub open spec fn retained(m: AssistantView, completed: Seq<Text>) -> AssistantView {
    let kept = m.content.filter(stays_filter(completed));
    if !is_failed(m.stop_reason) {
        m
    } else if kept.len() == m.content.len() {
        m
    } else {
        AssistantView {
            content: kept,
            stop_details: Some(interrupted_details(m.stop_details, m.error_message)),
            ..m
        }
    }
}

fn note_interruption(existing: &Option<StopDetails>, error_message: &Option<String>) -> (r: StopDetails)
    ensures
        r.deep_view() == interrupted_details(existing.deep_view(), error_message.deep_view()),
{
    match existing {
        Some(d) => {
            if same_text(d.detail_type.as_str(), STREAM_INTERRUPTED_AFTER_CONTENT) {
                return d.clone();
            }
            StopDetails {
                detail_type: owned(STREAM_INTERRUPTED_AFTER_CONTENT),
                category: Some(d.detail_type.clone()),
                explanation: match &d.explanation {
                    Some(e) => Some(e.clone()),
                    None => copy_text(error_message),
                },
            }
        },
        None => StopDetails {
            detail_type: owned(STREAM_INTERRUPTED_AFTER_CONTENT),
            category: None,
            explanation: copy_text(error_message),
        },
    }
}

proof fn lemma_filter_len(c: Seq<ContentView>, f: spec_fn(ContentView) -> bool)
    ensures
        c.filter(f).len() <= c.len(),
        c.filter(f).len() == c.len() ==> c.filter(f) == c,
    decreases c.len(),
{
    reveal(Seq::filter);
    if c.len() > 0 {
        lemma_filter_len(c.drop_last(), f);
        assert(c.drop_last().push(c.last()) =~= c);
    } else {
        assert(c.filter(f) =~= c);
    }
}

/// A failed turn without the tool calls that were not completed.
pub fn retain_completed_tool_calls(message: AssistantMessage, completed_tool_call_ids: &Vec<String>) -> (r: AssistantMessage)
    ensures
        r.deep_view() == retained(message.deep_view(), completed_tool_call_ids.deep_view()),
{
    let ghost m = message.deep_view();
    let ghost done = completed_tool_call_ids.deep_view();
    let ghost f = stays_filter(done);
    let mut message = message;
    if !(message.stop_reason == StopReason::Error || message.stop_reason == StopReason::Aborted) {
        return message;
    }
    let mut kept: Vec<AssistantContent> = Vec::new();
    let mut i: usize = 0;
    proof {
        reveal(Seq::filter);
        assert(m.content.take(0) =~= Seq::empty());
        assert(kept.deep_view() =~= m.content.take(0).filter(f));
    }
    while i < message.content.len()
        invariant
            m == message.deep_view(),
            done == completed_tool_call_ids.deep_view(),
            f == stays_filter(done),
            i <= message.content.len(),
            kept.deep_view() == m.content.take(i as int).filter(f),
        decreases message.content.len() - i,
    {
        let ghost before = kept.deep_view();
        proof {
            reveal(Seq::filter);
            assert(m.content.take(i + 1).drop_last() =~= m.content.take(i as int));
            assert(m.content.take(i + 1).last() == message.content@[i as int].deep_view());
        }
        let keep = match &message.content[i] {
            AssistantContent::ToolCall(call) => holds_text(completed_tool_call_ids, call.id.as_str()),
            _ => true,
        };
        if keep {
            let copy = message.content[i].clone();
            let ghost view = copy.deep_view();
            kept.push(copy);
            assert(kept.deep_view() =~= before.push(view));
        }
        i = i + 1;
    }
    proof {
        assert(m.content.take(message.content.len() as int) =~= m.content);
        assert(kept.deep_view().len() == kept.len());
        assert(m.content.len() == message.content.len());
    }
    if kept.len() == message.content.len() {
        return message;
    }
    message.content = kept;
    let details = note_interruption(&message.stop_details, &message.error_message);
    message.stop_details = Some(details);
    message
}

pub open spec fn read_error_pattern() -> Text {
    "(?i)stream[_ -]?read[_ -]?error"@
}

pub open spec fn parse_error_pattern() -> Text {
    "(?i)(?:json parse error:\\s*(?:unterminated string|unexpected end of json input|unexpected end of data|unexpected eof|end of file|eof while parsing|truncated)|json\\.parse:\\s*(?:unterminated string|unexpected end of data)|unexpected end of json input|unexpected eof|eof while parsing)"@
}

fn is_stream_read_error(text: &str) -> (r: bool)
    ensures
        r == (regex_search(read_error_pattern(), text@) == Some(true)),
{
    match search("(?i)stream[_ -]?read[_ -]?error", text) {
        Some(found) => found,
        None => false,
    }
}

fn is_transient_stream_parse_error(text: &str) -> (r: bool)
    ensures
        r == (regex_search(parse_error_pattern(), text@) == Some(true)),
{
    match search(
        "(?i)(?:json parse error:\\s*(?:unterminated string|unexpected end of json input|unexpected end of data|unexpected eof|end of file|eof while parsing|truncated)|json\\.parse:\\s*(?:unterminated string|unexpected end of data)|unexpected end of json input|unexpected eof|eof while parsing)",
        text,
    ) {
        Some(found) => found,
        None => false,
    }
}

pub open spec fn text_or_empty(o: Option<Text>) -> Text {
    match o {
        Some(t) => t,
        None => Seq::empty(),
    }
}

pub open spec fn explanation_of(m: AssistantView) -> Text {
    match m.stop_details {
        Some(d) => text_or_empty(d.explanation),
        None => Seq::empty(),
    }
}

/// Whether what a failed turn says of its failure is that the stream broke off.
pub open spec fn sounds_transient(m: AssistantView) -> bool {
    let error = text_or_empty(m.error_message);
    let explanation = explanation_of(m);
    ||| regex_search(read_error_pattern(), error + seq!['\n'] + explanation) == Some(true)
    ||| regex_search(parse_error_pattern(), error) == Some(true)
    ||| regex_search(parse_error_pattern(), explanation) == Some(true)
}

/// Whether a turn was refused.
pub open spec fn was_refused(m: AssistantView) -> bool {
    match m.stop_details {
        Some(d) => d.detail_type == "refusal"@ || d.detail_type == "sensitive"@ || d.category == Some("refusal"@)
            || d.category == Some("sensitive"@),
        None => false,
    }
}

pub open spec fn all_named(calls: Seq<ToolCallView>, names: Seq<Text>) -> bool {
    forall|i: int| 0 <= i < calls.len() ==> names.contains((#[trigger] calls[i]).name)
}

/// Whether a turn failed in a way that leaves its tool calls fit to be run, if
/// the failure was transient.
pub open spec fn recoverable(m: AssistantView, names: Seq<Text>) -> bool {
    let calls = calls_in(m.content);
    m.stop_reason == StopReason::Error && calls.len() > 0 && !was_refused(m) && all_named(calls, names)
}

/// A turn taken up again: its tool calls are run.
pub open spec fn taken_up(m: AssistantView) -> AssistantView {
    AssistantView {
        stop_reason: StopReason::ToolUse,
        stop_details: Some(interrupted_details(m.stop_details, m.error_message)),
        error_message: None,
        error_id: None,
        error_status: None,
        ..m
    }
}

/// A turn that failed, with the failure transient or not.
pub open spec fn recovered_if(m: AssistantView, names: Seq<Text>, transient: bool) -> AssistantView {
    if recoverable(m, names) && transient {
        taken_up(m)
    } else {
        m
    }
}

pub open spec fn recovered(m: AssistantView, names: Seq<Text>) -> AssistantView {
    recovered_if(m, names, sounds_transient(m))
}

fn refused(d: &Option<StopDetails>) -> (r: bool)
    ensures
        r == match d.deep_view() {
            Some(v) => v.detail_type == "refusal"@ || v.detail_type == "sensitive"@ || v.category == Some(
                "refusal"@,
            ) || v.category == Some("sensitive"@),
            None => false,
        },
{
    match d {
        Some(v) => {
            let t = v.detail_type.as_str();
            if same_text(t, "refusal") || same_text(t, "sensitive") {
                return true;
            }
            match &v.category {
                Some(c) => same_text(c.as_str(), "refusal") || same_text(c.as_str(), "sensitive"),
                None => false,
            }
        },
        None => false,
    }
}

fn all_known(calls: &Vec<ToolCall>, names: &Vec<String>) -> (r: bool)
    ensures
        r == all_named(calls.deep_view(), names.deep_view()),
{
    let ghost c = calls.deep_view();
    let mut i: usize = 0;
    while i < calls.len()
        invariant
            c == calls.deep_view(),
            i <= calls.len(),
            forall|k: int| 0 <= k < i ==> names.deep_view().contains((#[trigger] c[k]).name),
        decreases calls.len() - i,
    {
        assert(c[i as int] == calls@[i as int].deep_view());
        if !holds_text(names, calls[i].name.as_str()) {
            return false;
        }
        i = i + 1;
    }
    true
}

/// A failed turn whose tool calls all name known tools is taken up again where
/// the failure was transient.
pub fn recover_turn_if(message: AssistantMessage, tool_names: &Vec<String>, transient: bool) -> (r: AssistantMessage)
    ensures
        r.deep_view() == recovered_if(message.deep_view(), tool_names.deep_view(), transient),
{
    let mut message = message;
    if message.stop_reason != StopReason::Error {
        return message;
    }
    let calls = tool_calls_of(&message);
    assert(calls.deep_view().len() == calls.len());
    if calls.len() == 0 {
        return message;
    }
    if refused(&message.stop_details) {
        return message;
    }
    if !all_known(&calls, tool_names) {
        return message;
    }
    if !transient {
        return message;
    }
    let details = note_interruption(&message.stop_details, &message.error_message);
    message.stop_reason = StopReason::ToolUse;
    message.stop_details = Some(details);
    message.error_message = None;
    message.error_id = None;
    message.error_status = None;
    message
}

/// A failed turn whose tool calls all name known tools is taken up again where
/// its error says that the stream broke off.
pub fn recover_transient_error_tool_turn(message: AssistantMessage, tool_names: &Vec<String>) -> (r: AssistantMessage)
    ensures
        r.deep_view() == recovered(message.deep_view(), tool_names.deep_view()),
{
    let error = match &message.error_message {
        Some(e) => e.clone(),
        None => String::new(),
    };
    let explanation = match &message.stop_details {
        Some(d) => match &d.explanation {
            Some(e) => e.clone(),
            None => String::new(),
        },
        None => String::new(),
    };
    proof {
        assert(error@ =~= text_or_empty(message.deep_view().error_message));
        assert(explanation@ =~= explanation_of(message.deep_view()));
    }
    let mut head = error.clone();
    head.push('\n');
    assert(head@ =~= error@ + seq!['\n']);
    let combined = joined(head.as_str(), explanation.as_str());
    let transient = is_stream_read_error(combined.as_str()) || is_transient_stream_parse_error(error.as_str())
        || is_transient_stream_parse_error(explanation.as_str());
    recover_turn_if(message, tool_names, transient)
}

/// The message of a turn that ended before the model said anything.
pub open spec fn bare_failure(model: Text, stop: StopReason, error: Text, timestamp: i64) -> AssistantView {
    AssistantView {
        content: Seq::empty(),
        api: Seq::empty(),
        provider: Seq::empty(),
        model,
        context_snapshot: None,
        retry_recovery: None,
        response_id: None,
        upstream_provider: None,
        usage: zero_usage(),
        stop_reason: stop,
        stop_details: None,
        error_message: Some(error),
        tool_call_abort_messages: None,
        error_status: None,
        error_id: None,
        disabled_features: None,
        provider_payload: None,
        timestamp,
        duration: None,
        ttft: None,
    }
}

/// The message of a turn for which there is nothing to ask the model through.
pub open spec fn unconfigured_message(model: Text, timestamp: i64) -> AssistantView {
    bare_failure(model, StopReason::Error, "no stream_fn configured on AgentConfig"@, timestamp)
}

pub fn error_assistant_message(model: &str, stop_reason: StopReason, error_message: &str, timestamp: i64) -> (r: AssistantMessage)
    ensures
        r.deep_view() == bare_failure(model@, stop_reason, error_message@, timestamp),
{
    let r = AssistantMessage {
        content: Vec::new(),
        api: String::new(),
        provider: String::new(),
        model: owned(model),
        context_snapshot: None,
        retry_recovery: None,
        response_id: None,
        upstream_provider: None,
        usage: Usage::default(),
        stop_reason,
        stop_details: None,
        error_message: Some(owned(error_message)),
        tool_call_abort_messages: None,
        error_status: None,
        error_id: None,
        disabled_features: None,
        provider_payload: None,
        timestamp,
        duration: None,
        ttft: None,
    };
    assert(r.content.deep_view() =~= Seq::empty());
    r
}

// ---- a response -------------------------------------------------------------------------

/// A response that is being received.
#[verifier::ext_equal]
pub struct ResponseView {
    pub partial: Option<AssistantView>,
    /// Whether the message stands in the conversation.
    pub added: bool,
    /// The tool calls that were completed.
    pub completed: Seq<Text>,
}

pub open spec fn no_response() -> ResponseView {
    ResponseView { partial: None, added: false, completed: Seq::empty() }
}

/// The conversation with the message of the response in its place.
pub open spec fn placed(messages: Seq<MessageView>, added: bool, m: AssistantView) -> Seq<MessageView> {
    if !added {
        messages.push(MessageView::Assistant(m))
    } else if messages.len() > 0 {
        messages.update(messages.len() - 1, MessageView::Assistant(m))
    } else {
        messages
    }
}

/// The events that end a response with its final message.
pub open spec fn final_events(added: bool, m: AssistantView) -> Seq<AgentEventView> {
    let end = AgentEventView::MessageEnd { message: MessageView::Assistant(m) };
    if added {
        seq![end]
    } else {
        seq![AgentEventView::MessageStart { message: MessageView::Assistant(m) }, end]
    }
}

/// The state of a run.
#[verifier::ext_equal]
pub struct RunView {
    /// The conversation.
    pub messages: Seq<MessageView>,
    /// What this run added to it.
    pub new_messages: Seq<MessageView>,
    pub response: ResponseView,
    pub steps: nat,
    pub max_steps: nat,
    pub first_turn: bool,
    /// Whether the model is to be asked again.
    pub has_more: bool,
    /// Whether the run ended with a failed turn.
    pub over: bool,
}

/// What an event of the response comes to: the events to report, and the final
/// message where the response is over.
pub open spec fn after_response_event(r: RunView, e: EventView, names: Seq<Text>) -> (
    RunView,
    Seq<AgentEventView>,
    Option<AssistantView>,
) {
    let s = r.response;
    let m = message_in(e);
    if ends_turn(e) {
        let last = recovered(retained(m, s.completed), names);
        (
            RunView { messages: placed(r.messages, s.added, last), ..r },
            final_events(s.added, last),
            Some(last),
        )
    } else {
        let update = AgentEventView::MessageUpdate {
            message: MessageView::Assistant(m),
            assistant_message_event: e,
        };
        match e {
            EventView::Start { partial: _ } => if s.added {
                (
                    RunView {
                        messages: placed(r.messages, true, m),
                        response: ResponseView { partial: Some(m), added: true, completed: Seq::empty() },
                        ..r
                    },
                    seq![update],
                    None,
                )
            } else {
                (
                    RunView {
                        messages: placed(r.messages, false, m),
                        response: ResponseView { partial: Some(m), added: true, ..s },
                        ..r
                    },
                    seq![AgentEventView::MessageStart { message: MessageView::Assistant(m) }],
                    None,
                )
            },
            _ => (
                RunView {
                    messages: if s.added {
                        placed(r.messages, true, m)
                    } else {
                        r.messages
                    },
                    response: ResponseView {
                        partial: Some(m),
                        completed: match e {
                            EventView::ToolcallEnd { tool_call, .. } => s.completed.push(tool_call.id),
                            _ => s.completed,
                        },
                        ..s
                    },
                    ..r
                },
                seq![update],
                None,
            ),
        }
    }
}

/// The final message of a response that was aborted.
pub open spec fn aborted_message(r: RunView, model: Text, timestamp: i64) -> AssistantView {
    let base = match r.response.partial {
        None => bare_failure(model, StopReason::Aborted, "Request was aborted"@, timestamp),
        Some(p) => AssistantView {
            stop_reason: StopReason::Aborted,
            error_message: Some("Request was aborted"@),
            ..p
        },
    };
    retained(base, r.response.completed)
}

/// The final message of a response that stopped without one.
pub open spec fn unended_message(r: RunView, model: Text, timestamp: i64) -> AssistantView {
    match r.response.partial {
        Some(p) => p,
        None => bare_failure(model, StopReason::Error, "stream ended without a final result"@, timestamp),
    }
}

/// What is to be done about the tool calls of a turn.
pub enum PlanView {
    /// Run them.
    Execute,
    /// Answer them without running them; the run goes on or ends.
    Answer { reason: SyntheticReason, goes_on: bool, over: bool },
}

pub open spec fn plan_of(m: AssistantView) -> PlanView {
    let calls = calls_in(m.content);
    match m.stop_reason {
        StopReason::Aborted => PlanView::Answer {
            reason: SyntheticReason::Aborted,
            goes_on: false,
            over: true,
        },
        StopReason::Error => PlanView::Answer {
            reason: SyntheticReason::Error,
            goes_on: false,
            over: true,
        },
        StopReason::Length => PlanView::Answer {
            reason: SyntheticReason::Length,
            goes_on: calls.len() > 0,
            over: false,
        },
        _ => if calls.len() > 0 {
            PlanView::Execute
        } else {
            PlanView::Answer { reason: SyntheticReason::Skipped, goes_on: false, over: false }
        },
    }
}

pub open spec fn as_messages(results: Seq<ToolResultView>) -> Seq<MessageView> {
    Seq::new(results.len(), |i: int| MessageView::ToolResult(results[i]))
}

/// The results that a turn's calls get without being run.
pub open spec fn answers(calls: Seq<ToolCallView>, reason: SyntheticReason, error: Option<Text>, timestamp: i64) -> Seq<
    ToolResultView,
> {
    Seq::new(calls.len(), |i: int| synthetic_message(calls[i], reason, error, timestamp))
}

pub open spec fn answer_events(
    calls: Seq<ToolCallView>,
    n: int,
    reason: SyntheticReason,
    error: Option<Text>,
    timestamp: i64,
) -> Seq<AgentEventView>
    decreases n,
{
    if n <= 0 {
        Seq::empty()
    } else {
        answer_events(calls, n - 1, reason, error, timestamp) + whole_events(
            calls[n - 1],
            synthetic_outcome(reason, error),
            timestamp,
        )
    }
}

/// The turn ends with these results.
pub open spec fn turn_ended(r: RunView, m: AssistantView, results: Seq<ToolResultView>, goes_on: bool, over: bool) -> RunView {
    RunView {
        messages: r.messages + as_messages(results),
        new_messages: r.new_messages.push(MessageView::Assistant(m)) + as_messages(results),
        response: no_response(),
        has_more: goes_on,
        over,
        ..r
    }
}

pub open spec fn turn_end_event(m: AssistantView, results: Seq<ToolResultView>) -> AgentEventView {
    AgentEventView::TurnEnd { message: MessageView::Assistant(m), tool_results: results }
}

/// The error that the answers of a failed turn carry.
pub open spec fn answer_error(m: AssistantView) -> Option<Text> {
    if is_failed(m.stop_reason) {
        m.error_message
    } else {
        None
    }
}

/// The events of announcing messages.
pub open spec fn announced(messages: Seq<MessageView>) -> Seq<AgentEventView>
    decreases messages.len(),
{
    if messages.len() == 0 {
        Seq::empty()
    } else {
        announced(messages.drop_last()).push(
            AgentEventView::MessageStart { message: messages.last() },
        ).push(AgentEventView::MessageEnd { message: messages.last() })
    }
}

/// Whether another turn begins, given the messages that the user queued.
pub open spec fn another_turn(r: RunView, steering: Seq<MessageView>) -> bool {
    !r.over && (r.has_more || steering.len() > 0) && r.steps < r.max_steps
}

pub open spec fn turn_begun(r: RunView, steering: Seq<MessageView>) -> RunView {
    RunView {
        messages: r.messages + steering,
        new_messages: r.new_messages + steering,
        response: no_response(),
        steps: r.steps + 1,
        first_turn: false,
        ..r
    }
}

/// The events of beginning a turn; the first one was announced with the run.
pub open spec fn begin_events(r: RunView, steering: Seq<MessageView>) -> Seq<AgentEventView> {
    if r.first_turn {
        announced(steering)
    } else {
        seq![AgentEventView::TurnStart] + announced(steering)
    }
}

pub open spec fn run_started(history: Seq<MessageView>, prompts: Seq<MessageView>, max_steps: nat) -> RunView {
    RunView {
        messages: history + prompts,
        new_messages: prompts,
        response: no_response(),
        steps: 0,
        max_steps,
        first_turn: true,
        has_more: true,
        over: false,
    }
}

/// Whether a run can go on from a conversation: it must end with a message that
/// the model can answer.
pub fn check_continue(messages: &Vec<Message>) -> (r: Result<(), String>)
    ensures
        messages.deep_view().len() == 0 ==> r is Err && r->Err_0@ == "Cannot continue: no messages in context"@,
        messages.deep_view().len() > 0 && messages.deep_view().last() is Assistant ==> r is Err && r->Err_0@
            == "Cannot continue from message role: assistant"@,
        messages.deep_view().len() > 0 && !(messages.deep_view().last() is Assistant) ==> r is Ok,
{
    assert(messages.deep_view().len() == messages.len());
    if messages.len() == 0 {
        return Err(owned("Cannot continue: no messages in context"));
    }
    assert(messages.deep_view().last() == messages@[messages.len() - 1].deep_view());
    match &messages[messages.len() - 1] {
        Message::Assistant(_) => Err(owned("Cannot continue from message role: assistant")),
        _ => Ok(()),
    }
}

/// A run of the agent.
pub struct AgentRun {
    messages: Vec<Message>,
    new_messages: Vec<Message>,
    partial: Option<AssistantMessage>,
    added: bool,
    completed: Vec<String>,
    steps: usize,
    max_steps: usize,
    first_turn: bool,
    has_more: bool,
    over: bool,
}

impl View for AgentRun {
    type V = RunView;

    closed spec fn view(&self) -> RunView {
        RunView {
            messages: self.messages.deep_view(),
            new_messages: self.new_messages.deep_view(),
            response: ResponseView {
                partial: self.partial.deep_view(),
                added: self.added,
                completed: self.completed.deep_view(),
            },
            steps: self.steps as nat,
            max_steps: self.max_steps as nat,
            first_turn: self.first_turn,
            has_more: self.has_more,
            over: self.over,
        }
    }
}

/// What to do at the beginning of a turn.
#[derive(Debug, PartialEq, Eq)]
pub enum TurnStep {
    /// Report these events and ask the model.
    Ask(Vec<AgentEvent>),
    /// Report this event; the run is over.
    Finish(AgentEvent),
}

/// What to do when a response is over.
#[derive(Debug, PartialEq, Eq)]
pub enum TurnPlan {
    /// Run these calls, then end the turn with their results.
    Execute(Vec<ToolCall>),
    /// Report these events; the turn is over.
    Ended(Vec<AgentEvent>),
}

fn announce(events: &mut Vec<AgentEvent>, message: &Message)
    ensures
        final(events).deep_view() == old(events).deep_view().push(
            AgentEventView::MessageStart { message: message.deep_view() },
        ).push(AgentEventView::MessageEnd { message: message.deep_view() }),
{
    let ghost before = events.deep_view();
    events.push(AgentEvent::MessageStart { message: message.clone() });
    assert(events.deep_view() =~= before.push(
        AgentEventView::MessageStart { message: message.deep_view() },
    ));
    let ghost mid = events.deep_view();
    events.push(AgentEvent::MessageEnd { message: message.clone() });
    assert(events.deep_view() =~= mid.push(AgentEventView::MessageEnd { message: message.deep_view() }));
}

/// Announces messages behind the events that are there.
fn announce_all(events: &mut Vec<AgentEvent>, messages: &Vec<Message>)
    ensures
        final(events).deep_view() == old(events).deep_view() + announced(messages.deep_view()),
{
    let ghost m = messages.deep_view();
    let ghost start = events.deep_view();
    let mut i: usize = 0;
    assert(m.take(0) =~= Seq::empty());
    assert(start + announced(m.take(0)) =~= start);
    while i < messages.len()
        invariant
            m == messages.deep_view(),
            i <= messages.len(),
            events.deep_view() == start + announced(m.take(i as int)),
        decreases messages.len() - i,
    {
        assert(m.take(i + 1).drop_last() =~= m.take(i as int));
        assert(m.take(i + 1).last() == messages@[i as int].deep_view());
        let ghost before = events.deep_view();
        announce(events, &messages[i]);
        assert(events.deep_view() =~= start + announced(m.take(i + 1)));
        i = i + 1;
    }
    assert(m.take(messages.len() as int) =~= m);
}

/// Appends copies of messages.
fn extend_messages(list: &mut Vec<Message>, more: &Vec<Message>)
    ensures
        final(list).deep_view() == old(list).deep_view() + more.deep_view(),
{
    let ghost before = list.deep_view();
    let mut copies = copy_messages(more);
    let ghost added = copies.deep_view();
    list.append(&mut copies);
    assert(list.deep_view() =~= before + added);
}

fn extend_results(list: &mut Vec<Message>, results: &Vec<ToolResultMessage>)
    ensures
        final(list).deep_view() == old(list).deep_view() + as_messages(results.deep_view()),
{
    let ghost before = list.deep_view();
    let ghost r = results.deep_view();
    let mut i: usize = 0;
    assert(before + as_messages(r.take(0)) =~= before);
    while i < results.len()
        invariant
            r == results.deep_view(),
            i <= results.len(),
            list.deep_view() == before + as_messages(r.take(i as int)),
        decreases results.len() - i,
    {
        let ghost here = list.deep_view();
        let message = Message::ToolResult(results[i].clone());
        let ghost view = message.deep_view();
        list.push(message);
        proof {
            assert(view == MessageView::ToolResult(r[i as int]));
            assert(list.deep_view() =~= here.push(view));
            assert(as_messages(r.take(i + 1)) =~= as_messages(r.take(i as int)).push(view));
            assert(list.deep_view() =~= before + as_messages(r.take(i + 1)));
        }
        i = i + 1;
    }
    assert(r.take(results.len() as int) =~= r);
}

/// Puts the message of a response into its place.
fn place(messages: &mut Vec<Message>, added: bool, m: &AssistantMessage)
    ensures
        final(messages).deep_view() == placed(old(messages).deep_view(), added, m.deep_view()),
{
    let ghost before = messages.deep_view();
    let copy = Message::Assistant(Box::new(m.clone()));
    let ghost view = copy.deep_view();
    if !added {
        messages.push(copy);
        assert(messages.deep_view() =~= before.push(view));
    } else if messages.len() > 0 {
        let last = messages.len() - 1;
        messages.set(last, copy);
        assert(messages.deep_view() =~= before.update(last as int, view));
    } else {
        assert(before.len() == 0);
    }
}

fn end_events(added: bool, m: &AssistantMessage) -> (r: Vec<AgentEvent>)
    ensures
        r.deep_view() == final_events(added, m.deep_view()),
{
    let mut events: Vec<AgentEvent> = Vec::new();
    if !added {
        events.push(AgentEvent::MessageStart { message: Message::Assistant(Box::new(m.clone())) });
    }
    events.push(AgentEvent::MessageEnd { message: Message::Assistant(Box::new(m.clone())) });
    assert(events.deep_view() =~= final_events(added, m.deep_view()));
    events
}

/// The message as it was when an event was made.
fn message_of(event: &AssistantMessageEvent) -> (r: AssistantMessage)
    ensures
        r.deep_view() == message_in(event.deep_view()),
{
    match event {
        AssistantMessageEvent::Start { partial } => (**partial).clone(),
        AssistantMessageEvent::TextStart { partial, .. } => (**partial).clone(),
        AssistantMessageEvent::TextDelta { partial, .. } => (**partial).clone(),
        AssistantMessageEvent::TextEnd { partial, .. } => (**partial).clone(),
        AssistantMessageEvent::ThinkingStart { partial, .. } => (**partial).clone(),
        AssistantMessageEvent::ThinkingDelta { partial, .. } => (**partial).clone(),
        AssistantMessageEvent::ThinkingEnd { partial, .. } => (**partial).clone(),
        AssistantMessageEvent::ImageEnd { partial, .. } => (**partial).clone(),
        AssistantMessageEvent::ToolcallStart { partial, .. } => (**partial).clone(),
        AssistantMessageEvent::ToolcallDelta { partial, .. } => (**partial).clone(),
        AssistantMessageEvent::ToolcallEnd { partial, .. } => (**partial).clone(),
        AssistantMessageEvent::Done { message, .. } => (**message).clone(),
        AssistantMessageEvent::Error { error, .. } => (**error).clone(),
    }
}

fn is_start(event: &AssistantMessageEvent) -> (r: bool)
    ensures
        r == event.deep_view() is Start,
{
    match event {
        AssistantMessageEvent::Start { .. } => true,
        _ => false,
    }
}

impl AgentRun {
    /// A run begins behind a conversation, with prompts.
    pub fn start(history: Vec<Message>, prompts: &Vec<Message>, max_steps: usize) -> (r: (
        AgentRun,
        Vec<AgentEvent>,
    ))
        ensures
            r.0@ == run_started(history.deep_view(), prompts.deep_view(), max_steps as nat),
            r.1.deep_view() == seq![AgentEventView::AgentStart, AgentEventView::TurnStart] + announced(
                prompts.deep_view(),
            ),
    {
        let mut messages = history;
        extend_messages(&mut messages, prompts);
        let new_messages = copy_messages(prompts);
        let mut events: Vec<AgentEvent> = Vec::new();
        events.push(AgentEvent::AgentStart);
        events.push(AgentEvent::TurnStart);
        assert(events.deep_view() =~= seq![AgentEventView::AgentStart, AgentEventView::TurnStart]);
        announce_all(&mut events, prompts);
        let run = AgentRun {
            messages,
            new_messages,
            partial: None,
            added: false,
            completed: Vec::new(),
            steps: 0,
            max_steps,
            first_turn: true,
            has_more: true,
            over: false,
        };
        assert(run.completed.deep_view() =~= Seq::empty());
        (run, events)
    }

    /// The conversation.
    pub fn messages(&self) -> (r: &Vec<Message>)
        ensures
            r.deep_view() == self@.messages,
    {
        &self.messages
    }

    /// Begins a turn with the messages that the user queued, or ends the run.
    pub fn begin_turn(&mut self, steering: &Vec<Message>) -> (r: TurnStep)
        ensures
            another_turn(old(self)@, steering.deep_view()) ==> final(self)@ == turn_begun(
                old(self)@,
                steering.deep_view(),
            ) && r is Ask && r->Ask_0.deep_view() == begin_events(old(self)@, steering.deep_view()),
            !another_turn(old(self)@, steering.deep_view()) ==> final(self)@ == old(self)@ && r is Finish
                && r->Finish_0.deep_view() == (AgentEventView::AgentEnd {
                messages: old(self)@.new_messages,
            }),
    {
        let ghost s = steering.deep_view();
        assert(s.len() == steering.len());
        if self.over || !(self.has_more || steering.len() > 0) || self.steps >= self.max_steps {
            return TurnStep::Finish(AgentEvent::AgentEnd { messages: copy_messages(&self.new_messages) });
        }
        let ghost before = self@;
        let mut events: Vec<AgentEvent> = Vec::new();
        assert(events.deep_view() =~= Seq::empty());
        if self.first_turn {
            self.first_turn = false;
            announce_all(&mut events, steering);
            assert(events.deep_view() =~= announced(s));
        } else {
            events.push(AgentEvent::TurnStart);
            assert(events.deep_view() =~= seq![AgentEventView::TurnStart]);
            announce_all(&mut events, steering);
        }
        self.steps = self.steps + 1;
        extend_messages(&mut self.messages, steering);
        extend_messages(&mut self.new_messages, steering);
        self.partial = None;
        self.added = false;
        self.completed = Vec::new();
        assert(self.completed.deep_view() =~= Seq::empty());
        TurnStep::Ask(events)
    }

    /// Takes in an event of the response.
    #[verifier::rlimit(60)]
    pub fn on_response_event(&mut self, event: AssistantMessageEvent, tool_names: &Vec<String>) -> (r: (
        Vec<AgentEvent>,
        Option<AssistantMessage>,
    ))
        ensures
            (final(self)@, r.0.deep_view(), r.1.deep_view()) == after_response_event(
                old(self)@,
                event.deep_view(),
                tool_names.deep_view(),
            ),
    {
        let ghost before = self@;
        let ghost e = event.deep_view();
        let snapshot = message_of(&event);
        if event.is_terminal() {
            let kept = retain_completed_tool_calls(snapshot, &self.completed);
            let last = recover_transient_error_tool_turn(kept, tool_names);
            place(&mut self.messages, self.added, &last);
            let events = end_events(self.added, &last);
            return (events, Some(last));
        }
        let mut events: Vec<AgentEvent> = Vec::new();
        let message = Message::Assistant(Box::new(snapshot.clone()));
        if is_start(&event) {
            place(&mut self.messages, self.added, &snapshot);
            if self.added {
                self.completed = Vec::new();
                assert(self.completed.deep_view() =~= Seq::empty());
                events.push(AgentEvent::MessageUpdate { message, assistant_message_event: event });
            } else {
                self.added = true;
                events.push(AgentEvent::MessageStart { message });
            }
            self.partial = Some(snapshot);
            assert(events.deep_view() =~= after_response_event(before, e, tool_names.deep_view()).1);
            return (events, None);
        }
        if let AssistantMessageEvent::ToolcallEnd { tool_call, .. } = &event {
            let ghost done = self.completed.deep_view();
            self.completed.push(tool_call.id.clone());
            assert(self.completed.deep_view() =~= done.push(tool_call.id@));
        }
        if self.added {
            place(&mut self.messages, true, &snapshot);
        }
        events.push(AgentEvent::MessageUpdate { message, assistant_message_event: event });
        self.partial = Some(snapshot);
        assert(events.deep_view() =~= after_response_event(before, e, tool_names.deep_view()).1);
        (events, None)
    }

    /// The run was aborted while a response was received.
    pub fn on_abort(&mut self, model: &str, timestamp: i64) -> (r: (Vec<AgentEvent>, AssistantMessage))
        ensures
            r.1.deep_view() == aborted_message(old(self)@, model@, timestamp),
            r.0.deep_view() == final_events(old(self)@.response.added, r.1.deep_view()),
            final(self)@ == (RunView {
                messages: placed(
                    old(self)@.messages,
                    old(self)@.response.added,
                    aborted_message(old(self)@, model@, timestamp),
                ),
                ..old(self)@
            }),
    {
        let base = match &self.partial {
            None => error_assistant_message(model, StopReason::Aborted, "Request was aborted", timestamp),
            Some(p) => {
                let mut m = p.clone();
                m.stop_reason = StopReason::Aborted;
                m.error_message = Some(owned("Request was aborted"));
                m
            },
        };
        let aborted = retain_completed_tool_calls(base, &self.completed);
        place(&mut self.messages, self.added, &aborted);
        let events = end_events(self.added, &aborted);
        (events, aborted)
    }

    /// The response stopped without a terminal event.
    pub fn on_response_end(&mut self, model: &str, timestamp: i64) -> (r: (Vec<AgentEvent>, AssistantMessage))
        ensures
            r.1.deep_view() == unended_message(old(self)@, model@, timestamp),
            r.0.deep_view() == final_events(old(self)@.response.added, r.1.deep_view()),
            final(self)@ == (RunView {
                messages: placed(
                    old(self)@.messages,
                    old(self)@.response.added,
                    unended_message(old(self)@, model@, timestamp),
                ),
                ..old(self)@
            }),
    {
        let last = match &self.partial {
            Some(p) => p.clone(),
            None => error_assistant_message(
                model,
                StopReason::Error,
                "stream ended without a final result",
                timestamp,
            ),
        };
        place(&mut self.messages, self.added, &last);
        let events = end_events(self.added, &last);
        (events, last)
    }

    /// There is nothing that the model could be asked through: the turn gets a
    /// message that says so.
    pub fn on_no_stream(&mut self, model: &str, timestamp: i64) -> (r: (Vec<AgentEvent>, AssistantMessage))
        ensures
            r.1.deep_view() == unconfigured_message(model@, timestamp),
            r.0.deep_view() == seq![
                AgentEventView::MessageStart { message: MessageView::Assistant(r.1.deep_view()) },
                AgentEventView::MessageEnd { message: MessageView::Assistant(r.1.deep_view()) },
            ],
            final(self)@ == (RunView {
                messages: old(self)@.messages.push(MessageView::Assistant(unconfigured_message(model@, timestamp))),
                ..old(self)@
            }),
    {
        let message = error_assistant_message(
            model,
            StopReason::Error,
            "no stream_fn configured on AgentConfig",
            timestamp,
        );
        place(&mut self.messages, false, &message);
        let events = end_events(false, &message);
        (events, message)
    }

    /// The response is over with its final message: its calls are to be run, or
    /// they are answered and the turn ends.
    pub fn plan_turn(&mut self, message: &AssistantMessage, timestamp: i64) -> (r: TurnPlan)
        ensures
            match plan_of(message.deep_view()) {
                PlanView::Execute => r is Execute && r->Execute_0.deep_view() == calls_in(
                    message.deep_view().content,
                ) && final(self)@ == old(self)@,
                PlanView::Answer { reason, goes_on, over } => ({
                    let m = message.deep_view();
                    let calls = calls_in(m.content);
                    let error = answer_error(m);
                    &&& r is Ended
                    &&& r->Ended_0.deep_view() == answer_events(
                        calls,
                        calls.len() as int,
                        reason,
                        error,
                        timestamp,
                    ).push(turn_end_event(m, answers(calls, reason, error, timestamp)))
                    &&& final(self)@ == turn_ended(
                        old(self)@,
                        m,
                        answers(calls, reason, error, timestamp),
                        goes_on,
                        over,
                    )
                }),
            },
    {
        let calls = tool_calls_of(message);
        assert(calls.deep_view().len() == calls.len());
        let failed = message.stop_reason == StopReason::Error || message.stop_reason == StopReason::Aborted;
        let runnable = message.stop_reason == StopReason::ToolUse || message.stop_reason == StopReason::Stop;
        if runnable && calls.len() > 0 {
            return TurnPlan::Execute(calls);
        }
        let reason = match message.stop_reason {
            StopReason::Aborted => SyntheticReason::Aborted,
            StopReason::Error => SyntheticReason::Error,
            StopReason::Length => SyntheticReason::Length,
            _ => SyntheticReason::Skipped,
        };
        let error = if failed {
            copy_text(&message.error_message)
        } else {
            None
        };
        let goes_on = message.stop_reason == StopReason::Length && calls.len() > 0;
        let (mut events, results) = answer_calls(&calls, reason, &error, timestamp);
        let ghost answered = events.deep_view();
        let end = self.close_turn(message, results, goes_on, failed);
        let ghost end_view = end.deep_view();
        events.push(end);
        assert(events.deep_view() =~= answered.push(end_view));
        TurnPlan::Ended(events)
    }

    /// Ends a turn whose calls were run, with their results in the order in which
    /// they came.
    pub fn end_turn(&mut self, message: &AssistantMessage, results: Vec<ToolResultMessage>) -> (r: AgentEvent)
        ensures
            r.deep_view() == turn_end_event(message.deep_view(), results.deep_view()),
            final(self)@ == turn_ended(
                old(self)@,
                message.deep_view(),
                results.deep_view(),
                true,
                false,
            ),
    {
        self.close_turn(message, results, true, false)
    }

    fn close_turn(&mut self, message: &AssistantMessage, results: Vec<ToolResultMessage>, goes_on: bool, over: bool) -> (r: AgentEvent)
        ensures
            r.deep_view() == turn_end_event(message.deep_view(), results.deep_view()),
            final(self)@ == turn_ended(
                old(self)@,
                message.deep_view(),
                results.deep_view(),
                goes_on,
                over,
            ),
    {
        let ghost before = self@;
        let copy = Message::Assistant(Box::new(message.clone()));
        let ghost view = copy.deep_view();
        self.new_messages.push(copy);
        assert(self.new_messages.deep_view() =~= before.new_messages.push(view));
        extend_results(&mut self.messages, &results);
        extend_results(&mut self.new_messages, &results);
        self.partial = None;
        self.added = false;
        self.completed = Vec::new();
        self.has_more = goes_on;
        self.over = over;
        assert(self.completed.deep_view() =~= Seq::empty());
        AgentEvent::TurnEnd { message: Message::Assistant(Box::new(message.clone())), tool_results: results }
    }
}

/// Answers calls without running them.
fn answer_calls(calls: &Vec<ToolCall>, reason: SyntheticReason, error: &Option<String>, timestamp: i64) -> (r: (
    Vec<AgentEvent>,
    Vec<ToolResultMessage>,
))
    ensures
        r.0.deep_view() == answer_events(
            calls.deep_view(),
            calls.len() as int,
            reason,
            error.deep_view(),
            timestamp,
        ),
        r.1.deep_view() == answers(calls.deep_view(), reason, error.deep_view(), timestamp),
{
    let ghost c = calls.deep_view();
    let ghost ev = error.deep_view();
    let mut events: Vec<AgentEvent> = Vec::new();
    let mut results: Vec<ToolResultMessage> = Vec::new();
    let mut i: usize = 0;
    assert(events.deep_view() =~= Seq::empty());
    while i < calls.len()
        invariant
            c == calls.deep_view(),
            ev == error.deep_view(),
            i <= calls.len(),
            events.deep_view() == answer_events(c, i as int, reason, ev, timestamp),
            results.len() == i,
            forall|k: int|
                0 <= k < i ==> (#[trigger] results@[k]).deep_view() == synthetic_message(
                    c[k],
                    reason,
                    ev,
                    timestamp,
                ),
        decreases calls.len() - i,
    {
        let ghost before = events.deep_view();
        assert(c[i as int] == calls@[i as int].deep_view());
        let (mut more, message) = create_aborted_tool_result(&calls[i], reason, error, timestamp);
        let ghost added = more.deep_view();
        events.append(&mut more);
        assert(events.deep_view() =~= before + added);
        results.push(message);
        i = i + 1;
    }
    assert(results.deep_view() =~= answers(c, reason, ev, timestamp));
    (events, results)
}

// ---- what holds of every run ----------------------------------------------------------------

proof fn lemma_filter_stays(c: Seq<ContentView>, completed: Seq<Text>)
    ensures
        forall|i: int|
            0 <= i < c.filter(stays_filter(completed)).len() ==> stays(
                #[trigger] c.filter(stays_filter(completed))[i],
                completed,
            ),
    decreases c.len(),
{
    reveal(Seq::filter);
    if c.len() > 0 {
        lemma_filter_stays(c.drop_last(), completed);
    }
}

/// In a failed turn every tool call that is left was completed.
pub proof fn law_failed_turn_keeps_completed_calls_only(m: AssistantView, completed: Seq<Text>, i: int)
    requires
        is_failed(m.stop_reason),
        0 <= i < retained(m, completed).content.len(),
        retained(m, completed).content[i] is ToolCall,
    ensures
        completed.contains(retained(m, completed).content[i]->ToolCall_0.id),
{
    lemma_filter_len(m.content, stays_filter(completed));
    lemma_filter_stays(m.content, completed);
}

/// A turn that did not fail is left as it is.
pub proof fn law_successful_turn_is_untouched(m: AssistantView, completed: Seq<Text>, names: Seq<Text>)
    requires
        !is_failed(m.stop_reason),
    ensures
        recovered(retained(m, completed), names) == m,
{
}

/// A refused turn is never taken up again, whatever its error says.
pub proof fn law_refusal_is_final(m: AssistantView, names: Seq<Text>)
    requires
        was_refused(m),
    ensures
        recovered(m, names) == m,
{
}

/// A turn is only taken up again where all its tool calls name known tools.
pub proof fn law_only_known_calls_are_taken_up(m: AssistantView, names: Seq<Text>)
    requires
        recovered(m, names) != m,
    ensures
        m.stop_reason == StopReason::Error,
        recovered(m, names).stop_reason == StopReason::ToolUse,
        recovered(m, names).content == m.content,
        all_named(calls_in(m.content), names),
{
}

/// The calls of a turn that is not run are answered one by one, each under its
/// own identifier, in order.
pub proof fn law_answers_pair_calls(
    calls: Seq<ToolCallView>,
    reason: SyntheticReason,
    error: Option<Text>,
    timestamp: i64,
    i: int,
)
    requires
        0 <= i < calls.len(),
    ensures
        answers(calls, reason, error, timestamp).len() == calls.len(),
        answers(calls, reason, error, timestamp)[i].tool_call_id == calls[i].id,
        answers(calls, reason, error, timestamp)[i].is_error,
{
}

/// A turn ends a run exactly where it failed; it asks for another exactly where
/// it left calls that were run, or that were cut off by the length limit.
pub proof fn law_what_follows_a_turn(m: AssistantView)
    ensures
        match plan_of(m) {
            PlanView::Execute => !is_failed(m.stop_reason) && m.stop_reason != StopReason::Length && calls_in(
                m.content,
            ).len() > 0,
            PlanView::Answer { reason: _, goes_on, over } => over == is_failed(m.stop_reason) && goes_on == (
            m.stop_reason == StopReason::Length && calls_in(m.content).len() > 0),
        },
{
}

/// A run never has more turns than its limit, and each turn counts.
pub proof fn law_turns_within_limit(r: RunView, steering: Seq<MessageView>)
    requires
        another_turn(r, steering),
    ensures
        turn_begun(r, steering).steps == r.steps + 1,
        turn_begun(r, steering).steps <= r.max_steps,
{
}

/// After a failed turn the run ends, whatever the user queued.
pub proof fn law_failed_turn_ends_run(r: RunView, m: AssistantView, results: Seq<ToolResultView>, steering: Seq<MessageView>)
    ensures
        !another_turn(turn_ended(r, m, results, false, true), steering),
{
}

/// A message that the user queued makes the run go on where it would have ended.
pub proof fn law_queued_message_continues_run(
    r: RunView,
    m: AssistantView,
    results: Seq<ToolResultView>,
    steering: Seq<MessageView>,
)
    requires
        r.steps < r.max_steps,
    ensures
        another_turn(turn_ended(r, m, results, false, false), steering) == (steering.len() > 0),
{
}

/// While a response is received, the conversation ends in the message that the
/// latest event carries, and what stands before it is as it was.
pub proof fn law_conversation_shows_latest(r: RunView, e: EventView, names: Seq<Text>)
    requires
        r.response.added,
        r.messages.len() > 0,
        !ends_turn(e),
    ensures
        after_response_event(r, e, names).0.messages.len() == r.messages.len(),
        after_response_event(r, e, names).0.messages.last() == MessageView::Assistant(message_in(e)),
        forall|i: int|
            0 <= i < r.messages.len() - 1 ==> #[trigger] after_response_event(r, e, names).0.messages[i]
                == r.messages[i],
{
}

// ---- whole runs ----------------------------------------------------------------------------

/// What becomes of a response that has no terminal event.
pub enum ResponseEnding {
    /// It stopped by itself.
    Stopped,
    /// The run was aborted.
    Aborted,
    /// There was nothing to ask for it, so there is no response.
    NoStream,
}

/// What a turn gets from outside: what the user queued, the response up to where it
/// was taken in, and, where the calls are run, what they report and return.
pub struct TurnInput {
    pub steering: Seq<MessageView>,
    pub response: Seq<EventView>,
    pub names: Seq<Text>,
    /// What became of a response without an end.
    pub ending: ResponseEnding,
    pub model: Text,
    pub timestamp: i64,
    pub reports: Seq<AgentEventView>,
    pub results: Seq<ToolResultView>,
}

/// The events of a response taken in one by one, up to the one that ends it.
pub open spec fn response_through(r: RunView, events: Seq<EventView>, names: Seq<Text>) -> (
    RunView,
    Seq<AgentEventView>,
    Option<AssistantView>,
)
    decreases events.len(),
{
    if events.len() == 0 {
        (r, Seq::empty(), None)
    } else {
        let (r1, reports, last) = after_response_event(r, events[0], names);
        match last {
            Some(m) => (r1, reports, Some(m)),
            None => {
                let (r2, more, m) = response_through(r1, events.drop_first(), names);
                (r2, reports + more, m)
            },
        }
    }
}

/// The final message of a turn, with the run and the reports when it is there.
pub open spec fn asked(r: RunView, t: TurnInput) -> (RunView, Seq<AgentEventView>, AssistantView) {
    let response = if t.ending is NoStream {
        Seq::empty()
    } else {
        t.response
    };
    let (r1, reports, last) = response_through(turn_begun(r, t.steering), response, t.names);
    let opening = begin_events(r, t.steering) + reports;
    match last {
        Some(m) => (r1, opening, m),
        None => {
            let m = match t.ending {
                ResponseEnding::Stopped => unended_message(r1, t.model, t.timestamp),
                ResponseEnding::Aborted => aborted_message(r1, t.model, t.timestamp),
                ResponseEnding::NoStream => unconfigured_message(t.model, t.timestamp),
            };
            (
                RunView { messages: placed(r1.messages, r1.response.added, m), ..r1 },
                opening + final_events(r1.response.added, m),
                m,
            )
        },
    }
}

/// A turn from its beginning to its end.
pub open spec fn turn_through(r: RunView, t: TurnInput) -> (RunView, Seq<AgentEventView>) {
    let (r1, reports, m) = asked(r, t);
    let calls = calls_in(m.content);
    match plan_of(m) {
        PlanView::Execute => (
            turn_ended(r1, m, t.results, true, false),
            reports + t.reports + seq![turn_end_event(m, t.results)],
        ),
        PlanView::Answer { reason, goes_on, over } => {
            let results = answers(calls, reason, answer_error(m), t.timestamp);
            (
                turn_ended(r1, m, results, goes_on, over),
                reports + answer_events(calls, calls.len() as int, reason, answer_error(m), t.timestamp) + seq![
                    turn_end_event(m, results),
                ],
            )
        },
    }
}

/// Turns one after the other.
pub open spec fn run_through(r: RunView, turns: Seq<TurnInput>) -> (RunView, Seq<AgentEventView>)
    decreases turns.len(),
{
    if turns.len() == 0 {
        (r, Seq::empty())
    } else {
        let (r1, before) = run_through(r, turns.drop_last());
        let (r2, reports) = turn_through(r1, turns.last());
        (r2, before + reports)
    }
}

/// An event that is no beginning and no end of a run or a turn.
pub open spec fn is_inner(e: AgentEventView) -> bool {
    !(e is AgentStart || e is AgentEnd || e is TurnStart || e is TurnEnd)
}

/// Whether the turns can follow one another: each is asked for, and calls report
/// what calls report.
pub open spec fn can_follow(r: RunView, turns: Seq<TurnInput>) -> bool
    decreases turns.len(),
{
    turns.len() == 0 || {
        &&& can_follow(r, turns.drop_last())
        &&& another_turn(run_through(r, turns.drop_last()).0, turns.last().steering)
        &&& all_inner(turns.last().reports)
    }
}

pub open spec fn all_inner(events: Seq<AgentEventView>) -> bool {
    forall|i: int| 0 <= i < events.len() ==> is_inner(#[trigger] events[i])
}

/// How many turns begin in some events.
pub open spec fn turns_begun(events: Seq<AgentEventView>) -> nat
    decreases events.len(),
{
    if events.len() == 0 {
        0
    } else {
        turns_begun(events.drop_last()) + if events.last() is TurnStart {
            1nat
        } else {
            0
        }
    }
}

/// How many turns end in some events.
pub open spec fn turns_done(events: Seq<AgentEventView>) -> nat
    decreases events.len(),
{
    if events.len() == 0 {
        0
    } else {
        turns_done(events.drop_last()) + if events.last() is TurnEnd {
            1nat
        } else {
            0
        }
    }
}

/// Whether some events hold no beginning and no end of a run.
pub open spec fn within_run(events: Seq<AgentEventView>) -> bool {
    forall|i: int|
        0 <= i < events.len() ==> !((#[trigger] events[i]) is AgentStart) && !(events[i] is AgentEnd)
}

proof fn lemma_counts_add(a: Seq<AgentEventView>, b: Seq<AgentEventView>)
    ensures
        turns_begun(a + b) == turns_begun(a) + turns_begun(b),
        turns_done(a + b) == turns_done(a) + turns_done(b),
        within_run(a) && within_run(b) ==> within_run(a + b),
    decreases b.len(),
{
    if b.len() == 0 {
        assert(a + b =~= a);
    } else {
        assert((a + b).drop_last() =~= a + b.drop_last());
        lemma_counts_add(a, b.drop_last());
    }
}

proof fn lemma_inner_counts(events: Seq<AgentEventView>)
    requires
        all_inner(events),
    ensures
        turns_begun(events) == 0,
        turns_done(events) == 0,
        within_run(events),
    decreases events.len(),
{
    if events.len() > 0 {
        lemma_inner_counts(events.drop_last());
    }
}

proof fn lemma_announced_inner(messages: Seq<MessageView>)
    ensures
        all_inner(announced(messages)),
    decreases messages.len(),
{
    if messages.len() > 0 {
        lemma_announced_inner(messages.drop_last());
    }
}

proof fn lemma_answers_inner(calls: Seq<ToolCallView>, n: int, reason: SyntheticReason, error: Option<Text>, timestamp: i64)
    ensures
        all_inner(answer_events(calls, n, reason, error, timestamp)),
    decreases n,
{
    if n > 0 {
        lemma_answers_inner(calls, n - 1, reason, error, timestamp);
        let w = whole_events(calls[n - 1], synthetic_outcome(reason, error), timestamp);
        assert(w.len() == 4);
        assert(all_inner(w));
    }
}

proof fn lemma_response_inner(r: RunView, events: Seq<EventView>, names: Seq<Text>)
    ensures
        all_inner(response_through(r, events, names).1),
        response_through(r, events, names).0.first_turn == r.first_turn,
        response_through(r, events, names).0.steps == r.steps,
        response_through(r, events, names).0.max_steps == r.max_steps,
        response_through(r, events, names).0.new_messages == r.new_messages,
    decreases events.len(),
{
    if events.len() > 0 {
        let (r1, reports, last) = after_response_event(r, events[0], names);
        assert(all_inner(reports));
        if last is None {
            lemma_response_inner(r1, events.drop_first(), names);
        }
    }
}

proof fn lemma_turn(r: RunView, t: TurnInput)
    requires
        all_inner(t.reports),
    ensures
        turns_begun(turn_through(r, t).1) == (if r.first_turn {
            0nat
        } else {
            1
        }),
        turns_done(turn_through(r, t).1) == 1,
        within_run(turn_through(r, t).1),
        turn_through(r, t).1.len() > 0,
        turn_through(r, t).1.last() is TurnEnd,
        !turn_through(r, t).0.first_turn,
        turn_through(r, t).0.steps == r.steps + 1,
        turn_through(r, t).0.max_steps == r.max_steps,
{
    let r0 = turn_begun(r, t.steering);
    let response = if t.ending is NoStream {
        Seq::empty()
    } else {
        t.response
    };
    lemma_response_inner(r0, response, t.names);
    let (r1, reports, last) = response_through(r0, response, t.names);
    let begin = begin_events(r, t.steering);
    let hello = announced(t.steering);
    lemma_announced_inner(t.steering);
    lemma_inner_counts(hello);
    let one = seq![AgentEventView::TurnStart];
    assert(one.drop_last() =~= Seq::empty());
    assert(turns_begun(one) == 1 && turns_done(one) == 0) by {
        assert(turns_begun(one.drop_last()) == 0);
        assert(turns_done(one.drop_last()) == 0);
    }
    lemma_counts_add(one, hello);
    lemma_inner_counts(reports);
    lemma_counts_add(begin, reports);
    let opening = begin + reports;
    let (r2, all, m) = asked(r, t);
    let closing = final_events(r1.response.added, m);
    assert(all_inner(closing));
    lemma_inner_counts(closing);
    lemma_counts_add(opening, closing);
    let calls = calls_in(m.content);
    match plan_of(m) {
        PlanView::Execute => {
            let end = seq![turn_end_event(m, t.results)];
            lemma_inner_counts(t.reports);
            lemma_counts_add(all, t.reports);
            lemma_one_end(m, t.results);
            lemma_counts_add(all + t.reports, end);
        },
        PlanView::Answer { reason, goes_on, over } => {
            let results = answers(calls, reason, answer_error(m), t.timestamp);
            let told = answer_events(calls, calls.len() as int, reason, answer_error(m), t.timestamp);
            let end = seq![turn_end_event(m, results)];
            lemma_answers_inner(calls, calls.len() as int, reason, answer_error(m), t.timestamp);
            lemma_inner_counts(told);
            lemma_counts_add(all, told);
            lemma_one_end(m, results);
            lemma_counts_add(all + told, end);
        },
    }
}

proof fn lemma_one_end(m: AssistantView, results: Seq<ToolResultView>)
    ensures
        turns_begun(seq![turn_end_event(m, results)]) == 0,
        turns_done(seq![turn_end_event(m, results)]) == 1,
        within_run(seq![turn_end_event(m, results)]),
{
    let end = seq![turn_end_event(m, results)];
    assert(end.drop_last() =~= Seq::empty());
    assert(turns_begun(end.drop_last()) == 0);
    assert(turns_done(end.drop_last()) == 0);
}

/// A turn for which there is nothing to ask the model through is reported by the
/// message that says so and nothing else, and the run ends with it.
pub proof fn law_unconfigured_turn_ends_run(r: RunView, t: TurnInput, steering: Seq<MessageView>)
    requires
        t.ending is NoStream,
    ensures
        ({
            let m = unconfigured_message(t.model, t.timestamp);
            &&& turn_through(r, t).1 == begin_events(r, t.steering) + seq![
                AgentEventView::MessageStart { message: MessageView::Assistant(m) },
                AgentEventView::MessageEnd { message: MessageView::Assistant(m) },
                turn_end_event(m, Seq::empty()),
            ]
            &&& turn_through(r, t).0.messages == (r.messages + t.steering).push(MessageView::Assistant(m))
            &&& !another_turn(turn_through(r, t).0, steering)
        }),
{
    let m = unconfigured_message(t.model, t.timestamp);
    let calls = calls_in(m.content);
    assert(calls =~= Seq::empty());
    assert(answers(calls, SyntheticReason::Error, answer_error(m), t.timestamp) =~= Seq::empty());
    assert(answer_events(calls, 0, SyntheticReason::Error, answer_error(m), t.timestamp) =~= Seq::empty());
    assert(turn_through(r, t).1 =~= begin_events(r, t.steering) + seq![
        AgentEventView::MessageStart { message: MessageView::Assistant(m) },
        AgentEventView::MessageEnd { message: MessageView::Assistant(m) },
        turn_end_event(m, Seq::empty()),
    ]);
    assert(turn_through(r, t).0.messages =~= (r.messages + t.steering).push(MessageView::Assistant(m)));
}

/// Whatever a run goes through, its turns are reported whole: as many begin as end
/// (the first begins with the run), and within it no run begins or ends.
pub proof fn law_turns_are_reported_whole(r: RunView, turns: Seq<TurnInput>)
    requires
        can_follow(r, turns),
    ensures
        turns_done(run_through(r, turns).1) == turns.len(),
        turns_begun(run_through(r, turns).1) == (if r.first_turn && turns.len() > 0 {
            (turns.len() - 1) as nat
        } else {
            turns.len()
        }),
        within_run(run_through(r, turns).1),
        run_through(r, turns).0.first_turn == (r.first_turn && turns.len() == 0),
        run_through(r, turns).0.steps == r.steps + turns.len(),
        run_through(r, turns).0.max_steps == r.max_steps,
    decreases turns.len(),
{
    if turns.len() > 0 {
        let before = turns.drop_last();
        law_turns_are_reported_whole(r, before);
        let (r1, reports) = run_through(r, before);
        lemma_turn(r1, turns.last());
        lemma_counts_add(reports, turn_through(r1, turns.last()).1);
    }
}

/// The events of a whole run: it begins once, at the beginning, and ends once, at
/// the end; and where it had a turn at all, as many turns begin as end.
pub proof fn law_run_is_reported_whole(
    history: Seq<MessageView>,
    prompts: Seq<MessageView>,
    max_steps: nat,
    turns: Seq<TurnInput>,
)
    requires
        can_follow(run_started(history, prompts, max_steps), turns),
    ensures
        ({
            let r = run_started(history, prompts, max_steps);
            let inner = seq![AgentEventView::TurnStart] + announced(prompts) + run_through(r, turns).1;
            &&& within_run(inner)
            &&& turns_done(inner) == turns.len()
            &&& turns.len() > 0 ==> turns_begun(inner) == turns_done(inner)
            &&& turns.len() <= max_steps
        }),
{
    let r = run_started(history, prompts, max_steps);
    let one = seq![AgentEventView::TurnStart];
    assert(one.drop_last() =~= Seq::empty());
    assert(turns_begun(one) == 1 && turns_done(one) == 0) by {
        assert(turns_begun(one.drop_last()) == 0);
        assert(turns_done(one.drop_last()) == 0);
    }
    lemma_announced_inner(prompts);
    lemma_inner_counts(announced(prompts));
    lemma_counts_add(one, announced(prompts));
    law_turns_are_reported_whole(r, turns);
    lemma_counts_add(one + announced(prompts), run_through(r, turns).1);
    lemma_within_limit(r, turns);
}

proof fn lemma_within_limit(r: RunView, turns: Seq<TurnInput>)
    requires
        can_follow(r, turns),
        r.steps == 0,
    ensures
        turns.len() <= r.max_steps,
{
    if turns.len() > 0 {
        law_turns_are_reported_whole(r, turns.drop_last());
    }
}

proof fn lemma_response_placed(r: RunView, events: Seq<EventView>, names: Seq<Text>, base: Seq<MessageView>)
    requires
        r.response.added ==> r.messages.len() == base.len() + 1 && r.messages.drop_last() == base,
        !r.response.added ==> r.messages == base,
    ensures
        ({
            let (r2, reports, last) = response_through(r, events, names);
            match last {
                Some(m) => r2.messages == base.push(MessageView::Assistant(m)),
                None => {
                    &&& r2.response.added ==> r2.messages.len() == base.len() + 1 && r2.messages.drop_last() == base
                    &&& !r2.response.added ==> r2.messages == base
                },
            }
        }),
    decreases events.len(),
{
    if events.len() > 0 {
        let (r1, reports, last) = after_response_event(r, events[0], names);
        lemma_placed(r.messages, base, r.response.added, message_in(events[0]));
        match last {
            Some(m) => {
                lemma_placed(r.messages, base, r.response.added, m);
            },
            None => {
                lemma_response_placed(r1, events.drop_first(), names, base);
            },
        }
    }
}

proof fn lemma_placed(messages: Seq<MessageView>, base: Seq<MessageView>, added: bool, m: AssistantView)
    requires
        added ==> messages.len() == base.len() + 1 && messages.drop_last() == base,
        !added ==> messages == base,
    ensures
        placed(messages, added, m) == base.push(MessageView::Assistant(m)),
        placed(messages, added, m).drop_last() == base,
{
    assert(placed(messages, added, m) =~= base.push(MessageView::Assistant(m)));
    assert(base.push(MessageView::Assistant(m)).drop_last() =~= base);
}

/// The conversation is what it was before the run, and behind it what the run
/// added: the messages that the run's end reports.
pub proof fn law_conversation_is_history_and_new(
    history: Seq<MessageView>,
    prompts: Seq<MessageView>,
    max_steps: nat,
    turns: Seq<TurnInput>,
)
    ensures
        ({
            let r = run_through(run_started(history, prompts, max_steps), turns).0;
            r.messages == history + r.new_messages
        }),
    decreases turns.len(),
{
    let start = run_started(history, prompts, max_steps);
    if turns.len() > 0 {
        law_conversation_is_history_and_new(history, prompts, max_steps, turns.drop_last());
        let r = run_through(start, turns.drop_last()).0;
        let t = turns.last();
        let r0 = turn_begun(r, t.steering);
        let base = r0.messages;
        assert(base =~= history + r0.new_messages);
        let response = if t.ending is NoStream {
            Seq::empty()
        } else {
            t.response
        };
        lemma_response_placed(r0, response, t.names, base);
        lemma_response_inner(r0, response, t.names);
        let (r1, reports, last) = response_through(r0, response, t.names);
        let (r2, all, m) = asked(r, t);
        if last is None {
            lemma_placed(r1.messages, base, r1.response.added, m);
        }
        assert(r2.messages == base.push(MessageView::Assistant(m)));
        assert(r2.new_messages == r0.new_messages);
        let r3 = turn_through(r, t).0;
        assert(r3.messages =~= history + r3.new_messages);
    }
}

// ---- what becomes of a response ------------------------------------------------------------

/// Two tests that agree on a content keep the same of it.
proof fn lemma_same_filter(c: Seq<ContentView>, f: spec_fn(ContentView) -> bool, g: spec_fn(ContentView) -> bool)
    requires
        forall|b: ContentView| #[trigger] f(b) == g(b),
    ensures
        c.filter(f) == c.filter(g),
    decreases c.len(),
{
    reveal(Seq::filter);
    if c.len() > 0 {
        lemma_same_filter(c.drop_last(), f, g);
        assert(f(c.last()) == g(c.last()));
    }
}

proof fn lemma_kept_in_filter(c: Seq<ContentView>, f: spec_fn(ContentView) -> bool, b: ContentView)
    requires
        c.contains(b),
        f(b),
    ensures
        c.filter(f).contains(b),
    decreases c.len(),
{
    reveal(Seq::filter);
    let i = choose|i: int| 0 <= i < c.len() && c[i] == b;
    let init = c.drop_last();
    if i == c.len() - 1 {
        assert(c.filter(f).last() == b);
    } else {
        assert(init[i] == b);
        lemma_kept_in_filter(init, f, b);
        let k = choose|k: int| 0 <= k < init.filter(f).len() && init.filter(f)[k] == b;
        assert(c.filter(f)[k] == b);
    }
}

/// A turn that failed keeps all its content in order, but for the calls that were
/// not completed, and says that it was interrupted where any was dropped; nothing
/// else of it changes.
pub proof fn law_failed_turn_keeps_the_rest(m: AssistantView, completed: Seq<Text>)
    requires
        m.stop_reason == StopReason::Error || m.stop_reason == StopReason::Aborted,
    ensures
        ({
            let r = retained(m, completed);
            &&& r.content == m.content.filter(
                |b: ContentView| !(b is ToolCall) || completed.contains(b->ToolCall_0.id),
            )
            &&& forall|b: ContentView|
                m.content.contains(b) && (!(b is ToolCall) || completed.contains(b->ToolCall_0.id))
                    ==> #[trigger] r.content.contains(b)
            &&& r == (AssistantView { content: r.content, stop_details: r.stop_details, ..m })
            &&& r.content == m.content ==> r.stop_details == m.stop_details
            &&& r.content != m.content ==> r.stop_details is Some && r.stop_details->0.detail_type
                == "stream_interrupted_after_content"@
            &&& r.content != m.content && m.stop_details is None ==> r.stop_details->0.explanation == m.error_message
        }),
{
    let g = |b: ContentView| !(b is ToolCall) || completed.contains(b->ToolCall_0.id);
    lemma_same_filter(m.content, stays_filter(completed), g);
    lemma_filter_len(m.content, g);
    let r = retained(m, completed);
    assert forall|b: ContentView|
        m.content.contains(b) && (!(b is ToolCall) || completed.contains(b->ToolCall_0.id)) implies #[trigger] r.content.contains(b) by {
        lemma_kept_in_filter(m.content, g, b);
    }
}

/// A run that is aborted keeps what the response had brought: all its content in
/// order, but for the calls that were not completed. Only the reason and the error
/// are those of an abort. Where nothing had come, the message is empty.
pub proof fn law_abort_keeps_what_came(r: RunView, model: Text, timestamp: i64)
    ensures
        ({
            let m = aborted_message(r, model, timestamp);
            let done = r.response.completed;
            &&& m.stop_reason == StopReason::Aborted
            &&& m.error_message == Some("Request was aborted"@)
            &&& r.response.partial is Some ==> {
                let p = r.response.partial->0;
                &&& m.content == p.content.filter(
                    |b: ContentView| !(b is ToolCall) || done.contains(b->ToolCall_0.id),
                )
                &&& forall|b: ContentView|
                    p.content.contains(b) && (!(b is ToolCall) || done.contains(b->ToolCall_0.id))
                        ==> #[trigger] m.content.contains(b)
                &&& m == (AssistantView {
                    content: m.content,
                    stop_reason: m.stop_reason,
                    error_message: m.error_message,
                    stop_details: m.stop_details,
                    ..p
                })
                &&& m.content == p.content ==> m.stop_details == p.stop_details
            }
            &&& r.response.partial is None ==> m.content.len() == 0 && m.model == model && m.timestamp == timestamp
        }),
{
    if r.response.partial is Some {
        let p = r.response.partial->0;
        let base = AssistantView {
            stop_reason: StopReason::Aborted,
            error_message: Some("Request was aborted"@),
            ..p
        };
        law_failed_turn_keeps_the_rest(base, r.response.completed);
    } else {
        let base = bare_failure(model, StopReason::Aborted, "Request was aborted"@, timestamp);
        law_failed_turn_keeps_the_rest(base, r.response.completed);
        lemma_filter_len(base.content, stays_filter(r.response.completed));
    }
}

/// A response that stops without an end leaves the message that it had brought, as it
/// is; where none had come, an error.
pub proof fn law_unended_response_keeps_what_came(r: RunView, model: Text, timestamp: i64)
    ensures
        ({
            let m = unended_message(r, model, timestamp);
            &&& r.response.partial is Some ==> m == r.response.partial->0
            &&& r.response.partial is None ==> {
                &&& m.content.len() == 0
                &&& m.stop_reason == StopReason::Error
                &&& m.error_message == Some("stream ended without a final result"@)
                &&& m.model == model && m.timestamp == timestamp
            }
        }),
{
}

/// While a response comes, the message of the latest event is what has come of it;
/// a call is completed when its end comes, and no other event completes one; each
/// event is reported once, with itself, but for the start, which begins the message.
pub proof fn law_response_is_followed(r: RunView, e: EventView, names: Seq<Text>)
    requires
        !(e is Done),
        !(e is Error),
    ensures
        ({
            let (now, reports, last) = after_response_event(r, e, names);
            let m = MessageView::Assistant(message_in(e));
            &&& last is None
            &&& now.response.partial == Some(message_in(e))
            &&& e is ToolcallEnd ==> now.response.completed == r.response.completed.push(e->ToolcallEnd_tool_call.id)
            &&& !(e is ToolcallEnd) && !(e is Start) ==> now.response.completed == r.response.completed
            &&& e is Start && r.response.added ==> now.response.completed.len() == 0
            &&& now.response.added == (r.response.added || e is Start)
            &&& reports.len() == 1
            &&& e is Start && !r.response.added ==> reports[0] == (AgentEventView::MessageStart { message: m })
            &&& !(e is Start && !r.response.added) ==> reports[0] == (AgentEventView::MessageUpdate {
                message: m,
                assistant_message_event: e,
            })
            &&& e is Start && !r.response.added ==> now.messages == r.messages.push(m)
            &&& r.response.added && r.messages.len() > 0 ==> now.messages == r.messages.drop_last().push(m)
            &&& !r.response.added && !(e is Start) ==> now.messages == r.messages
            &&& now == (RunView { messages: now.messages, response: now.response, ..r })
        }),
{
    let m = MessageView::Assistant(message_in(e));
    if r.messages.len() > 0 {
        assert(r.messages.update(r.messages.len() - 1, m) =~= r.messages.drop_last().push(m));
    }
}

/// A response that ends well ends in its message, as it is; one that ends in an error
/// in what is kept of it. The conversation ends in that message, which is reported,
/// with its beginning where that was not reported yet.
pub proof fn law_response_ends_in_its_message(r: RunView, e: EventView, names: Seq<Text>)
    requires
        e is Done || e is Error,
    ensures
        ({
            let (now, reports, last) = after_response_event(r, e, names);
            let came = message_in(e);
            let done = r.response.completed;
            let m = last->0;
            &&& last is Some
            &&& came.stop_reason != StopReason::Error && came.stop_reason != StopReason::Aborted ==> m == came
            &&& came.stop_reason == StopReason::Error || came.stop_reason == StopReason::Aborted ==> m.content
                == came.content.filter(|b: ContentView| !(b is ToolCall) || done.contains(b->ToolCall_0.id))
            &&& m.usage == came.usage && m.model == came.model && m.response_id == came.response_id && m.timestamp
                == came.timestamp
            &&& !r.response.added ==> now.messages == r.messages.push(MessageView::Assistant(m))
            &&& r.response.added && r.messages.len() > 0 ==> now.messages == r.messages.drop_last().push(
                MessageView::Assistant(m),
            )
            &&& now == (RunView { messages: now.messages, ..r })
            &&& reports.len() == (if r.response.added {
                1int
            } else {
                2
            })
            &&& reports.last() == (AgentEventView::MessageEnd { message: MessageView::Assistant(m) })
            &&& !r.response.added ==> reports[0] == (AgentEventView::MessageStart { message: MessageView::Assistant(m) })
        }),
{
    let came = message_in(e);
    if is_failed(came.stop_reason) {
        law_failed_turn_keeps_the_rest(came, r.response.completed);
    }
    let m = MessageView::Assistant(after_response_event(r, e, names).2->0);
    if r.messages.len() > 0 {
        assert(r.messages.update(r.messages.len() - 1, m) =~= r.messages.drop_last().push(m));
    }
}

/// A turn that broke off with a transient error is taken up again where it was not
/// refused and has calls, all of tools that there are: its calls are then run, and
/// its error is gone. Any other turn stays as it is.
pub proof fn law_broken_turn_is_taken_up(m: AssistantView, names: Seq<Text>, transient: bool)
    ensures
        ({
            let r = recovered_if(m, names, transient);
            let calls = calls_in(m.content);
            let refused = m.stop_details is Some && (m.stop_details->0.detail_type == "refusal"@
                || m.stop_details->0.detail_type == "sensitive"@ || m.stop_details->0.category == Some("refusal"@)
                || m.stop_details->0.category == Some("sensitive"@));
            let fit = transient && m.stop_reason == StopReason::Error && !refused && calls.len() > 0 && (forall|i: int|
                0 <= i < calls.len() ==> names.contains((#[trigger] calls[i]).name));
            &&& !fit ==> r == m
            &&& fit ==> {
                &&& r.stop_reason == StopReason::ToolUse
                &&& r.error_message is None && r.error_id is None && r.error_status is None
                &&& r.content == m.content && r.usage == m.usage && r.model == m.model && r.response_id == m.response_id
                &&& r.stop_details is Some && r.stop_details->0.detail_type == "stream_interrupted_after_content"@
            }
        }),
{
}

/// The calls of a turn are run exactly where it ended by itself; else each is
/// answered, for the reason why it is not run.
pub proof fn law_calls_are_run_or_answered(m: AssistantView)
    ensures
        ({
            let n = calls_in(m.content).len();
            &&& plan_of(m) is Execute == (n > 0 && (m.stop_reason == StopReason::Stop || m.stop_reason
                == StopReason::ToolUse))
            &&& m.stop_reason == StopReason::Aborted ==> plan_of(m)->reason == SyntheticReason::Aborted
            &&& m.stop_reason == StopReason::Error ==> plan_of(m)->reason == SyntheticReason::Error
            &&& m.stop_reason == StopReason::Length ==> plan_of(m)->reason == SyntheticReason::Length
            &&& m.stop_reason == StopReason::Error || m.stop_reason == StopReason::Aborted ==> answer_error(m)
                == m.error_message
            &&& m.stop_reason != StopReason::Error && m.stop_reason != StopReason::Aborted ==> answer_error(m) is None
        }),
{
}

/// A turn that ends adds its results to the conversation, all of them, in their order
/// and as they are; what the run added holds the turn's message and those results.
pub proof fn law_results_join_the_conversation(
    r: RunView,
    m: AssistantView,
    results: Seq<ToolResultView>,
    goes_on: bool,
    over: bool,
    i: int,
)
    requires
        0 <= i < results.len(),
    ensures
        ({
            let now = turn_ended(r, m, results, goes_on, over);
            &&& now.messages.len() == r.messages.len() + results.len()
            &&& now.messages.take(r.messages.len() as int) == r.messages
            &&& now.messages[r.messages.len() + i] == MessageView::ToolResult(results[i])
            &&& now.new_messages.len() == r.new_messages.len() + 1 + results.len()
            &&& now.new_messages.take(r.new_messages.len() as int) == r.new_messages
            &&& now.new_messages[r.new_messages.len() as int] == MessageView::Assistant(m)
            &&& now.new_messages[r.new_messages.len() + 1 + i] == MessageView::ToolResult(results[i])
            &&& now.has_more == goes_on && now.over == over && now.steps == r.steps && now.max_steps == r.max_steps
        }),
{
    let now = turn_ended(r, m, results, goes_on, over);
    assert(now.messages.take(r.messages.len() as int) =~= r.messages);
    assert(now.new_messages.take(r.new_messages.len() as int) =~= r.new_messages);
}

/// Messages are announced one by one, in order, each by its beginning and its end.
pub proof fn law_messages_are_announced(messages: Seq<MessageView>, i: int)
    requires
        0 <= i < messages.len(),
    ensures
        announced(messages).len() == 2 * messages.len(),
        announced(messages)[2 * i] == (AgentEventView::MessageStart { message: messages[i] }),
        announced(messages)[2 * i + 1] == (AgentEventView::MessageEnd { message: messages[i] }),
    decreases messages.len(),
{
    let init = messages.drop_last();
    if init.len() > 0 {
        let k = if i < init.len() {
            i
        } else {
            0
        };
        law_messages_are_announced(init, k);
    } else {
        assert(announced(init) =~= Seq::empty());
    }
}

/// A run starts behind its history with its prompts and goes on while a turn asks for
/// it or something is queued, within the limit of turns and unless a turn failed.
/// What is queued joins the conversation, in order, at the beginning of a turn.
pub proof fn law_queue_joins_the_conversation(
    history: Seq<MessageView>,
    prompts: Seq<MessageView>,
    max_steps: nat,
    r: RunView,
    steering: Seq<MessageView>,
)
    ensures
        run_started(history, prompts, max_steps).messages == history + prompts,
        run_started(history, prompts, max_steps).new_messages == prompts,
        another_turn(run_started(history, prompts, max_steps), steering) == (max_steps > 0),
        another_turn(r, steering) == (!r.over && r.steps < r.max_steps && (r.has_more || steering.len() > 0)),
        turn_begun(r, steering).messages == r.messages + steering,
        turn_begun(r, steering).new_messages == r.new_messages + steering,
        turn_begun(r, steering).response.partial is None,
        turn_begun(r, steering).response.completed.len() == 0,
        !turn_begun(r, steering).response.added,
        !turn_begun(r, steering).first_turn,
        !r.first_turn ==> begin_events(r, steering).len() == 1 + 2 * steering.len() && begin_events(r, steering)[0]
            is TurnStart,
        r.first_turn ==> begin_events(r, steering).len() == 2 * steering.len(),
{
    if steering.len() > 0 {
        law_messages_are_announced(steering, 0);
    }
}

/// The calls of a turn that is not run are reported one after the other, in order, each
/// from its start to its end, with the answer that it gets; the turn ends with all the
/// answers.
pub proof fn law_answers_are_reported(
    calls: Seq<ToolCallView>,
    n: int,
    reason: SyntheticReason,
    error: Option<Text>,
    timestamp: i64,
)
    requires
        0 <= n < calls.len(),
    ensures
        ({
            let before = answer_events(calls, n, reason, error, timestamp);
            let now = answer_events(calls, n + 1, reason, error, timestamp);
            let answer = answers(calls, reason, error, timestamp)[n];
            let at = before.len() as int;
            &&& answer_events(calls, 0, reason, error, timestamp).len() == 0
            &&& now.len() == before.len() + 4 && now.take(before.len() as int) == before
            &&& now[at] is ToolExecutionStart
            &&& now[at]->ToolExecutionStart_tool_call_id == calls[n].id
            &&& now[at + 1] is ToolExecutionEnd
            &&& now[at + 1]->ToolExecutionEnd_tool_call_id == calls[n].id
            &&& now[at + 1]->is_error == Some(true)
            &&& now[at + 2] == (AgentEventView::MessageStart { message: MessageView::ToolResult(answer) })
            &&& now[at + 3] == (AgentEventView::MessageEnd { message: MessageView::ToolResult(answer) })
        }),
{
    let before = answer_events(calls, n, reason, error, timestamp);
    let now = answer_events(calls, n + 1, reason, error, timestamp);
    assert(now.take(before.len() as int) =~= before);
}

/// The end of a turn is reported with its message and its results.
pub proof fn law_turn_end_holds_results(m: AssistantView, results: Seq<ToolResultView>)
    ensures
        turn_end_event(m, results) is TurnEnd,
        turn_end_event(m, results)->TurnEnd_message == MessageView::Assistant(m),
        turn_end_event(m, results)->tool_results == results,
{
}

/// A failed turn sounds transient where its error or its explanation says that the
/// stream could not be read on, or that its JSON was cut short.
pub proof fn law_transient_failures_are_known_by_their_words(m: AssistantView)
    ensures
        ({
            let error = if m.error_message is Some {
                m.error_message->0
            } else {
                Seq::empty()
            };
            let explanation = if m.stop_details is Some && m.stop_details->0.explanation is Some {
                m.stop_details->0.explanation->0
            } else {
                Seq::empty()
            };
            &&& regex_search("(?i)stream[_ -]?read[_ -]?error"@, error + seq!['\n'] + explanation) == Some(true)
                ==> sounds_transient(m)
            &&& regex_search(parse_error_pattern(), error) == Some(true) ==> sounds_transient(m)
            &&& regex_search(parse_error_pattern(), explanation) == Some(true) ==> sounds_transient(m)
            &&& sounds_transient(m) ==> regex_search(
                "(?i)stream[_ -]?read[_ -]?error"@,
                error + seq!['\n'] + explanation,
            ) == Some(true) || regex_search(parse_error_pattern(), error) == Some(true) || regex_search(
                parse_error_pattern(),
                explanation,
            ) == Some(true)
            &&& forall|names: Seq<Text>| #[trigger] recovered(m, names) == recovered_if(m, names, sounds_transient(m))
        }),
{
}

proof fn lemma_partial_is_latest(r: RunView, events: Seq<EventView>, names: Seq<Text>)
    requires
        events.len() > 0,
        forall|i: int| 0 <= i < events.len() ==> !((#[trigger] events[i]) is Done) && !(events[i] is Error),
    ensures
        response_through(r, events, names).2 is None,
        response_through(r, events, names).0.response.partial == Some(message_in(events.last())),
    decreases events.len(),
{
    let first = events[0];
    assert(!(first is Done) && !(first is Error));
    law_response_is_followed(r, first, names);
    let r1 = after_response_event(r, first, names).0;
    let rest = events.drop_first();
    if rest.len() > 0 {
        assert forall|i: int| 0 <= i < rest.len() implies !((#[trigger] rest[i]) is Done) && !(rest[i] is Error) by {
            assert(rest[i] == events[i + 1]);
        }
        lemma_partial_is_latest(r1, rest, names);
        assert(rest.last() == events.last());
    } else {
        assert(response_through(r1, rest, names) == (r1, Seq::<AgentEventView>::empty(), None::<AssistantView>));
        assert(events.last() == first);
    }
}

/// A run that is aborted after some events of a response keeps what the last of them
/// shows: every block but calls, in their order, and of the calls those that ended.
pub proof fn law_abort_keeps_what_was_streamed(
    r: RunView,
    events: Seq<EventView>,
    names: Seq<Text>,
    model: Text,
    timestamp: i64,
)
    requires
        events.len() > 0,
        forall|i: int| 0 <= i < events.len() ==> !((#[trigger] events[i]) is Done) && !(events[i] is Error),
    ensures
        ({
            let now = response_through(r, events, names).0;
            let m = aborted_message(now, model, timestamp);
            let shown = message_in(events.last()).content;
            let done = now.response.completed;
            &&& m.content == shown.filter(|b: ContentView| !(b is ToolCall) || done.contains(b->ToolCall_0.id))
            &&& forall|b: ContentView| shown.contains(b) && !(b is ToolCall) ==> #[trigger] m.content.contains(b)
            &&& events.last() is ToolcallEnd ==> done.contains(events.last()->ToolcallEnd_tool_call.id)
            &&& m.stop_reason == StopReason::Aborted
        }),
{
    lemma_partial_is_latest(r, events, names);
    let now = response_through(r, events, names).0;
    law_abort_keeps_what_came(now, model, timestamp);
    if events.last() is ToolcallEnd {
        lemma_last_call_completed(r, events, names);
    }
}

proof fn lemma_last_call_completed(r: RunView, events: Seq<EventView>, names: Seq<Text>)
    requires
        events.len() > 0,
        events.last() is ToolcallEnd,
        forall|i: int| 0 <= i < events.len() ==> !((#[trigger] events[i]) is Done) && !(events[i] is Error),
    ensures
        response_through(r, events, names).0.response.completed.contains(events.last()->ToolcallEnd_tool_call.id),
    decreases events.len(),
{
    let first = events[0];
    assert(!(first is Done) && !(first is Error));
    law_response_is_followed(r, first, names);
    let r1 = after_response_event(r, first, names).0;
    let rest = events.drop_first();
    if rest.len() > 0 {
        assert forall|i: int| 0 <= i < rest.len() implies !((#[trigger] rest[i]) is Done) && !(rest[i] is Error) by {
            assert(rest[i] == events[i + 1]);
        }
        assert(rest.last() == events.last());
        lemma_last_call_completed(r1, rest, names);
    } else {
        assert(response_through(r1, rest, names) == (r1, Seq::<AgentEventView>::empty(), None::<AssistantView>));
        assert(events.last() == first);
        assert(r1.response.completed.last() == first->ToolcallEnd_tool_call.id);
    }
}

} // verus!

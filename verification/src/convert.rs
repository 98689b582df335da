//! From the provider's shapes to messages, and the events of a complete message.
use vstd::prelude::*;
use crate::error::{error_text, AiError};
use crate::event::{
    ends_turn, message_in, terminal_event, terminal_of, AssistantMessageEvent, EventView,
};
use crate::json::{compact_json, copy_json, empty_object, json_view, new_object, write_compact, JsonView};
use crate::message::{
    copy_text, zero_usage, AssistantContent, AssistantMessage, AssistantView, ContentView, CttlUsage,
    FallbackContent, RedactedThinkingContent, ServerUsage, StopReason, Text, TextContent, TextView,
    ThinkingContent, ThinkingView, ToolCall, ToolCallView, Usage, UsageView,
};
use crate::wire::{
    CacheCreation, KnownStopReason, ResponseBlock, ResponseContentBlock, ResponseMessage,
    ServerToolUsage, WireStopReason, WireUsage,
};
use std::sync::Arc;

verus! {

/// What is known of a request before its answer.
#[derive(Debug, PartialEq, Eq)]
pub struct RequestMeta {
    pub api: String,
    pub provider: String,
    pub model: String,
    /// When the request started, in Unix milliseconds.
    pub timestamp: i64,
    /// How long it took, in milliseconds, where that was measured.
    pub duration: Option<u64>,
}

impl Clone for RequestMeta {
    fn clone(&self) -> (r: Self)
        ensures
            r == *self,
    {
        RequestMeta {
            api: self.api.clone(),
            provider: self.provider.clone(),
            model: self.model.clone(),
            timestamp: self.timestamp,
            duration: self.duration,
        }
    }
}

/// Why a turn stopped, given what the provider says. A reason of no known name
/// does not fail a turn that was fully received.
pub open spec fn stop_of(reason: WireStopReason) -> StopReason {
    match reason {
        WireStopReason::Known(KnownStopReason::EndTurn) => StopReason::Stop,
        WireStopReason::Known(KnownStopReason::PauseTurn) => StopReason::Stop,
        WireStopReason::Known(KnownStopReason::StopSequence) => StopReason::Stop,
        WireStopReason::Known(KnownStopReason::MaxTokens) => StopReason::Length,
        WireStopReason::Known(KnownStopReason::ModelContextWindowExceeded) => StopReason::Length,
        WireStopReason::Known(KnownStopReason::ToolUse) => StopReason::ToolUse,
        WireStopReason::Known(KnownStopReason::Refusal) => StopReason::Error,
        WireStopReason::Known(KnownStopReason::Sensitive) => StopReason::Error,
        WireStopReason::Other(_) => StopReason::Stop,
    }
}

pub fn map_stop_reason(reason: &WireStopReason) -> (r: StopReason)
    ensures
        r == stop_of(*reason),
{
    match reason {
        WireStopReason::Known(known) => match known {
            KnownStopReason::EndTurn | KnownStopReason::PauseTurn | KnownStopReason::StopSequence => StopReason::Stop,
            KnownStopReason::MaxTokens | KnownStopReason::ModelContextWindowExceeded => StopReason::Length,
            KnownStopReason::ToolUse => StopReason::ToolUse,
            KnownStopReason::Refusal | KnownStopReason::Sensitive => StopReason::Error,
        },
        WireStopReason::Other(_) => StopReason::Stop,
    }
}

pub open spec fn or_zero(o: Option<u64>) -> u64 {
    match o {
        Some(n) => n,
        None => 0,
    }
}

/// `n`, where it is not zero.
pub open spec fn nonzero(n: u64) -> Option<u64> {
    if n > 0 {
        Some(n)
    } else {
        None
    }
}

/// The number of all tokens that a report counts.
pub open spec fn reported_total(w: WireUsage) -> int {
    or_zero(w.input_tokens) + or_zero(w.output_tokens) + or_zero(w.cache_read_input_tokens) + or_zero(
        w.cache_creation_input_tokens,
    )
}

pub open spec fn cttl_of(c: Option<CacheCreation>) -> Option<CttlUsage> {
    match c {
        Some(cc) => {
            let five = or_zero(cc.ephemeral_5m_input_tokens);
            let hour = or_zero(cc.ephemeral_1h_input_tokens);
            if five > 0 || hour > 0 {
                Some(CttlUsage { ephemeral_5m: nonzero(five), ephemeral_1h: nonzero(hour) })
            } else {
                None
            }
        },
        None => None,
    }
}

pub open spec fn server_of(s: Option<ServerToolUsage>) -> Option<ServerUsage> {
    match s {
        Some(st) => {
            let search = or_zero(st.web_search_requests);
            let fetch = or_zero(st.web_fetch_requests);
            if search > 0 || fetch > 0 {
                Some(ServerUsage { web_search: nonzero(search), web_fetch: nonzero(fetch) })
            } else {
                None
            }
        },
        None => None,
    }
}

/// The usage that a report amounts to.
pub open spec fn usage_of(w: WireUsage) -> UsageView {
    UsageView {
        input: or_zero(w.input_tokens),
        output: or_zero(w.output_tokens),
        cache_read: or_zero(w.cache_read_input_tokens),
        cache_write: or_zero(w.cache_creation_input_tokens),
        total_tokens: reported_total(w) as u64,
        cttl: cttl_of(w.cache_creation),
        server: server_of(w.server_tool_use),
        ..zero_usage()
    }
}

pub fn zero_default(o: Option<u64>) -> (r: u64)
    ensures
        r == or_zero(o),
{
    match o {
        Some(n) => n,
        None => 0,
    }
}

fn unless_zero(n: u64) -> (r: Option<u64>)
    ensures
        r == nonzero(n),
{
    if n > 0 {
        Some(n)
    } else {
        None
    }
}

/// The cache lifetimes of a report.
pub fn convert_cttl(c: Option<CacheCreation>) -> (r: Option<CttlUsage>)
    ensures
        r == cttl_of(c),
{
    match c {
        Some(cc) => {
            let five = zero_default(cc.ephemeral_5m_input_tokens);
            let hour = zero_default(cc.ephemeral_1h_input_tokens);
            if five > 0 || hour > 0 {
                Some(CttlUsage { ephemeral_5m: unless_zero(five), ephemeral_1h: unless_zero(hour) })
            } else {
                None
            }
        },
        None => None,
    }
}

/// The provider-run tools of a report.
pub fn convert_server(s: Option<ServerToolUsage>) -> (r: Option<ServerUsage>)
    ensures
        r == server_of(s),
{
    match s {
        Some(st) => {
            let search = zero_default(st.web_search_requests);
            let fetch = zero_default(st.web_fetch_requests);
            if search > 0 || fetch > 0 {
                Some(ServerUsage { web_search: unless_zero(search), web_fetch: unless_zero(fetch) })
            } else {
                None
            }
        },
        None => None,
    }
}

/// Whether the sum of a report's counts fits the counter that takes it.
pub fn usage_fits(wire: &WireUsage) -> (r: bool)
    ensures
        r == (reported_total(*wire) <= u64::MAX),
{
    let total: u128 = zero_default(wire.input_tokens) as u128 + zero_default(wire.output_tokens) as u128 + zero_default(
        wire.cache_read_input_tokens,
    ) as u128 + zero_default(wire.cache_creation_input_tokens) as u128;
    total <= u64::MAX as u128
}

/// The usage that a report amounts to; costs are not known here and stay zero.
pub fn convert_usage(wire: &WireUsage) -> (r: Usage)
    requires
        reported_total(*wire) <= u64::MAX,
    ensures
        r.deep_view() == usage_of(*wire),
{
    let input = zero_default(wire.input_tokens);
    let output = zero_default(wire.output_tokens);
    let cache_read = zero_default(wire.cache_read_input_tokens);
    let cache_write = zero_default(wire.cache_creation_input_tokens);
    let base = Usage::default();
    Usage {
        input,
        output,
        cache_read,
        cache_write,
        total_tokens: input + output + cache_read + cache_write,
        orchestration: base.orchestration,
        premium_requests: base.premium_requests,
        reasoning_tokens: base.reasoning_tokens,
        cttl: convert_cttl(wire.cache_creation),
        server: convert_server(wire.server_tool_use),
        cost: base.cost,
    }
}

/// A tool call with the given arguments and nothing else known of it.
pub open spec fn bare_call(id: Text, name: Text, arguments: JsonView) -> ContentView {
    ContentView::ToolCall(
        ToolCallView {
            id,
            name,
            arguments,
            thought_signature: None,
            intent: None,
            raw_block: None,
            custom_wire_name: None,
        },
    )
}

/// The block of a message that a block of a response becomes.
pub open spec fn content_of(b: ResponseContentBlock) -> ContentView {
    match b {
        ResponseContentBlock::Text { text } => ContentView::Text(
            TextView { text: text@, text_signature: None },
        ),
        ResponseContentBlock::Thinking { thinking, signature } => ContentView::Thinking(
            ThinkingView {
                thinking: thinking@,
                thinking_signature: signature.deep_view(),
                item_id: None,
            },
        ),
        ResponseContentBlock::RedactedThinking { data } => ContentView::RedactedThinking(data@),
        ResponseContentBlock::ToolUse { id, name, input } => bare_call(
            id@,
            name@,
            match input {
                Some(j) => json_view(j),
                None => empty_object(),
            },
        ),
        ResponseContentBlock::Fallback { from, to } => ContentView::Fallback(from.model@, to.model@),
    }
}

pub fn convert_block(block: &ResponseContentBlock) -> (r: AssistantContent)
    ensures
        r.deep_view() == content_of(*block),
{
    match block {
        ResponseContentBlock::Text { text } => AssistantContent::Text(
            TextContent { text: text.clone(), text_signature: None },
        ),
        ResponseContentBlock::Thinking { thinking, signature } => AssistantContent::Thinking(
            ThinkingContent {
                thinking: thinking.clone(),
                thinking_signature: copy_text(signature),
                item_id: None,
            },
        ),
        ResponseContentBlock::RedactedThinking { data } => AssistantContent::RedactedThinking(
            RedactedThinkingContent { data: data.clone() },
        ),
        ResponseContentBlock::ToolUse { id, name, input } => AssistantContent::ToolCall(
            ToolCall {
                id: id.clone(),
                name: name.clone(),
                arguments: match input {
                    Some(j) => copy_json(j),
                    None => new_object(),
                },
                thought_signature: None,
                intent: None,
                raw_block: None,
                custom_wire_name: None,
            },
        ),
        ResponseContentBlock::Fallback { from, to } => AssistantContent::Fallback(
            FallbackContent { from: from.clone(), to: to.clone() },
        ),
    }
}

/// The blocks of known kinds, converted, in order.
pub open spec fn known_content(blocks: Seq<ResponseBlock>) -> Seq<ContentView>
    decreases blocks.len(),
{
    if blocks.len() == 0 {
        Seq::empty()
    } else {
        match blocks.last() {
            ResponseBlock::Known(b) => known_content(blocks.drop_last()).push(content_of(b)),
            ResponseBlock::Unknown(_) => known_content(blocks.drop_last()),
        }
    }
}

/// A message without content, stamped with what is known of its request.
pub open spec fn blank_message(meta: RequestMeta) -> AssistantView {
    AssistantView {
        content: Seq::empty(),
        api: meta.api@,
        provider: meta.provider@,
        model: meta.model@,
        context_snapshot: None,
        retry_recovery: None,
        response_id: None,
        upstream_provider: None,
        usage: zero_usage(),
        stop_reason: StopReason::Stop,
        stop_details: None,
        error_message: None,
        tool_call_abort_messages: None,
        error_status: None,
        error_id: None,
        disabled_features: None,
        provider_payload: None,
        timestamp: meta.timestamp,
        duration: meta.duration,
        ttft: None,
    }
}

pub fn empty_message(meta: &RequestMeta) -> (r: AssistantMessage)
    ensures
        r.deep_view() == blank_message(*meta),
        r.content@.len() == 0,
{
    let r = AssistantMessage {
        content: Vec::new(),
        api: meta.api.clone(),
        provider: meta.provider.clone(),
        model: meta.model.clone(),
        context_snapshot: None,
        retry_recovery: None,
        response_id: None,
        upstream_provider: None,
        usage: Usage::default(),
        stop_reason: StopReason::Stop,
        stop_details: None,
        error_message: None,
        tool_call_abort_messages: None,
        error_status: None,
        error_id: None,
        disabled_features: None,
        provider_payload: None,
        timestamp: meta.timestamp,
        duration: meta.duration,
        ttft: None,
    };
    assert(r.content.deep_view() =~= Seq::empty());
    r
}

/// The message of a complete response.
pub open spec fn response_message(response: ResponseMessage, meta: RequestMeta) -> AssistantView {
    AssistantView {
        content: known_content(response.content@),
        response_id: Some(response.id@),
        usage: usage_of(response.usage),
        stop_reason: match response.stop_reason {
            Some(reason) => stop_of(reason),
            None => StopReason::Stop,
        },
        ..blank_message(meta)
    }
}

/// The message of a complete response. Blocks of unknown kinds are dropped.
pub fn convert_response(response: &ResponseMessage, meta: &RequestMeta) -> (r: AssistantMessage)
    requires
        reported_total(response.usage) <= u64::MAX,
    ensures
        r.deep_view() == response_message(*response, *meta),
{
    let ghost blocks = response.content@;
    let mut content: Vec<AssistantContent> = Vec::new();
    let mut i: usize = 0;
    assert(content.deep_view() =~= known_content(blocks.take(0)));
    while i < response.content.len()
        invariant
            blocks == response.content@,
            i <= response.content.len(),
            content.deep_view() == known_content(blocks.take(i as int)),
        decreases response.content.len() - i,
    {
        assert(blocks.take(i + 1).drop_last() =~= blocks.take(i as int));
        assert(blocks.take(i + 1).last() == blocks[i as int]);
        if let ResponseBlock::Known(known) = &response.content[i] {
            let ghost before = content.deep_view();
            let block = convert_block(known);
            content.push(block);
            assert(content.deep_view() =~= before.push(block.deep_view()));
        }
        i = i + 1;
    }
    assert(blocks.take(blocks.len() as int) =~= blocks);
    let mut r = empty_message(meta);
    r.content = content;
    r.response_id = Some(response.id.clone());
    r.usage = convert_usage(&response.usage);
    r.stop_reason = match &response.stop_reason {
        Some(reason) => map_stop_reason(reason),
        None => StopReason::Stop,
    };
    r
}

/// The message that stands for a failed request.
pub open spec fn failure_message(error: AiError, meta: RequestMeta) -> AssistantView {
    AssistantView {
        stop_reason: if error is Aborted {
            StopReason::Aborted
        } else {
            StopReason::Error
        },
        error_message: Some(error_text(error)),
        error_status: match error {
            AiError::Api { status, message: _, body: _, request_id: _ } => Some(status),
            _ => None,
        },
        ..blank_message(meta)
    }
}

pub fn error_to_message(error: &AiError, meta: &RequestMeta) -> (r: AssistantMessage)
    ensures
        r.deep_view() == failure_message(*error, *meta),
{
    let mut r = empty_message(meta);
    r.stop_reason = match error {
        AiError::Aborted => StopReason::Aborted,
        _ => StopReason::Error,
    };
    r.error_status = match error {
        AiError::Api { status, message: _, body: _, request_id: _ } => Some(*status),
        _ => None,
    };
    r.error_message = Some(error.to_text());
    r
}

/// `m` with the first `n` of its blocks, and then `more`.
pub open spec fn partial_with(m: AssistantView, n: int, more: Seq<ContentView>) -> AssistantView {
    AssistantView { content: m.content.take(n) + more, ..m }
}

/// The events of the block at `i` of a complete message: where its kind has
/// events, a start with an empty shell, one delta with all of it, and an end.
pub open spec fn block_events(m: AssistantView, i: int) -> Seq<EventView> {
    let full = partial_with(m, i + 1, Seq::empty());
    match m.content[i] {
        ContentView::Text(b) => seq![
            EventView::TextStart {
                content_index: i,
                partial: partial_with(
                    m,
                    i,
                    seq![ContentView::Text(TextView { text: Seq::empty(), text_signature: None })],
                ),
            },
            EventView::TextDelta { content_index: i, delta: b.text, partial: full },
            EventView::TextEnd { content_index: i, content: b.text, partial: full },
        ],
        ContentView::Thinking(b) => seq![
            EventView::ThinkingStart {
                content_index: i,
                partial: partial_with(
                    m,
                    i,
                    seq![
                        ContentView::Thinking(
                            ThinkingView {
                                thinking: Seq::empty(),
                                thinking_signature: None,
                                item_id: None,
                            },
                        ),
                    ],
                ),
            },
            EventView::ThinkingDelta { content_index: i, delta: b.thinking, partial: full },
            EventView::ThinkingEnd { content_index: i, content: b.thinking, partial: full },
        ],
        ContentView::ToolCall(c) => seq![
            EventView::ToolcallStart {
                content_index: i,
                partial: partial_with(
                    m,
                    i,
                    seq![ContentView::ToolCall(ToolCallView { arguments: empty_object(), ..c })],
                ),
            },
            EventView::ToolcallDelta {
                content_index: i,
                delta: compact_json(c.arguments),
                partial: full,
            },
            EventView::ToolcallEnd { content_index: i, tool_call: c, partial: full },
        ],
        ContentView::Image(b) => seq![
            EventView::ImageEnd { content_index: i, content: b, partial: full },
        ],
        _ => Seq::empty(),
    }
}

/// The events of the first `n` blocks of a complete message.
pub open spec fn blocks_events(m: AssistantView, n: int) -> Seq<EventView>
    decreases n,
{
    if n <= 0 {
        Seq::empty()
    } else {
        blocks_events(m, n - 1) + block_events(m, n - 1)
    }
}

/// The events of a complete message: only its error, where it failed; else its
/// start, its blocks' events, and its end.
pub open spec fn message_events(m: AssistantView) -> Seq<EventView> {
    if m.stop_reason == StopReason::Error || m.stop_reason == StopReason::Aborted {
        seq![terminal_of(m)]
    } else {
        seq![EventView::Start { partial: partial_with(m, 0, Seq::empty()) }] + blocks_events(
            m,
            m.content.len() as int,
        ) + seq![terminal_of(m)]
    }
}

/// A snapshot of `working`, which is `m` with the first `n` blocks and `more`.
fn snapshot_of(working: &AssistantMessage) -> (r: Arc<AssistantMessage>)
    ensures
        (*r).deep_view() == working.deep_view(),
{
    Arc::new(working.clone())
}

/// The events of the block at `i` of a message whose first `i` blocks stand in
/// `working`; the block comes to stand there too.
#[verifier::rlimit(40)]
fn emit_block(
    block: &AssistantContent,
    i: usize,
    working: &mut AssistantMessage,
    Ghost(m): Ghost<AssistantView>,
) -> (events: Vec<AssistantMessageEvent>)
    requires
        i < m.content.len(),
        m.content[i as int] == block.deep_view(),
        old(working).deep_view() == partial_with(m, i as int, Seq::empty()),
    ensures
        final(working).deep_view() == partial_with(m, i + 1, Seq::empty()),
        events.deep_view() == block_events(m, i as int),
{
    let mut events: Vec<AssistantMessageEvent> = Vec::new();
    let ghost c = m.content;
    let ghost i0 = i as int;
    assert(c.take(i0) + Seq::<ContentView>::empty() =~= c.take(i0));
    assert(c.take(i0 + 1) + Seq::<ContentView>::empty() =~= c.take(i0).push(c[i0]));
    match block {
        AssistantContent::Text(text) => {
            let shell = AssistantContent::Text(TextContent { text: String::new(), text_signature: None });
            let ghost shell_view = shell.deep_view();
            working.content.push(shell);
            assert(shell_view == ContentView::Text(TextView { text: Seq::empty(), text_signature: None }));
            assert(working.content.deep_view() =~= c.take(i0) + seq![shell_view]);
            events.push(
                AssistantMessageEvent::TextStart { content_index: i, partial: snapshot_of(working) },
            );
            let copy = block.clone();
            working.content.set(i, copy);
            assert(working.content.deep_view() =~= c.take(i0).push(c[i0]));
            let partial = snapshot_of(working);
            events.push(
                AssistantMessageEvent::TextDelta {
                    content_index: i,
                    delta: text.text.clone(),
                    partial: Arc::clone(&partial),
                },
            );
            events.push(
                AssistantMessageEvent::TextEnd { content_index: i, content: text.text.clone(), partial },
            );
        },
        AssistantContent::Thinking(thinking) => {
            let shell = AssistantContent::Thinking(
                ThinkingContent { thinking: String::new(), thinking_signature: None, item_id: None },
            );
            let ghost shell_view = shell.deep_view();
            working.content.push(shell);
            assert(shell_view == ContentView::Thinking(
                ThinkingView { thinking: Seq::empty(), thinking_signature: None, item_id: None },
            ));
            assert(working.content.deep_view() =~= c.take(i0) + seq![shell_view]);
            events.push(
                AssistantMessageEvent::ThinkingStart { content_index: i, partial: snapshot_of(working) },
            );
            let copy = block.clone();
            working.content.set(i, copy);
            assert(working.content.deep_view() =~= c.take(i0).push(c[i0]));
            let partial = snapshot_of(working);
            events.push(
                AssistantMessageEvent::ThinkingDelta {
                    content_index: i,
                    delta: thinking.thinking.clone(),
                    partial: Arc::clone(&partial),
                },
            );
            events.push(
                AssistantMessageEvent::ThinkingEnd {
                    content_index: i,
                    content: thinking.thinking.clone(),
                    partial,
                },
            );
        },
        AssistantContent::ToolCall(call) => {
            let mut empty_call = call.clone();
            empty_call.arguments = new_object();
            let shell = AssistantContent::ToolCall(empty_call);
            let ghost shell_view = shell.deep_view();
            working.content.push(shell);
            assert(working.content.deep_view() =~= c.take(i0) + seq![shell_view]);
            events.push(
                AssistantMessageEvent::ToolcallStart { content_index: i, partial: snapshot_of(working) },
            );
            let copy = block.clone();
            working.content.set(i, copy);
            assert(working.content.deep_view() =~= c.take(i0).push(c[i0]));
            let partial = snapshot_of(working);
            events.push(
                AssistantMessageEvent::ToolcallDelta {
                    content_index: i,
                    delta: write_compact(&call.arguments),
                    partial: Arc::clone(&partial),
                },
            );
            events.push(
                AssistantMessageEvent::ToolcallEnd { content_index: i, tool_call: call.clone(), partial },
            );
        },
        AssistantContent::Image(image) => {
            let copy = block.clone();
            working.content.push(copy);
            assert(working.content.deep_view() =~= c.take(i0).push(c[i0]));
            events.push(
                AssistantMessageEvent::ImageEnd {
                    content_index: i,
                    content: image.clone(),
                    partial: snapshot_of(working),
                },
            );
        },
        _ => {
            let copy = block.clone();
            working.content.push(copy);
            assert(working.content.deep_view() =~= c.take(i0).push(c[i0]));
        },
    }
    assert(events.deep_view() =~= block_events(m, i0));
    events
}

/// The events of a complete message.
pub fn emit_nonstream_events(message: &Arc<AssistantMessage>) -> (r: Vec<AssistantMessageEvent>)
    ensures
        r.deep_view() == message_events((**message).deep_view()),
{
    let ghost m = (**message).deep_view();
    let mut events: Vec<AssistantMessageEvent> = Vec::new();
    if message.stop_reason == StopReason::Error || message.stop_reason == StopReason::Aborted {
        events.push(terminal_event(message));
        assert(events.deep_view() =~= seq![terminal_of(m)]);
        return events;
    }
    let mut working: AssistantMessage = (**message).clone();
    working.content = Vec::new();
    assert(working.content.deep_view() =~= m.content.take(0));
    assert(m.content.take(0) + Seq::<ContentView>::empty() =~= m.content.take(0));
    events.push(AssistantMessageEvent::Start { partial: snapshot_of(&working) });
    let ghost start = seq![EventView::Start { partial: partial_with(m, 0, Seq::empty()) }];
    assert(events.deep_view() =~= start + blocks_events(m, 0));
    let mut i: usize = 0;
    while i < message.content.len()
        invariant
            m == (**message).deep_view(),
            i <= message.content.len(),
            working.deep_view() == partial_with(m, i as int, Seq::empty()),
            events.deep_view() == start + blocks_events(m, i as int),
        decreases message.content.len() - i,
    {
        let ghost before = events.deep_view();
        let ghost i0 = i as int;
        let mut more = emit_block(&message.content[i], i, &mut working, Ghost(m));
        let ghost added = more.deep_view();
        events.append(&mut more);
        assert(events.deep_view() =~= before + block_events(m, i0));
        assert(start + blocks_events(m, i0) + block_events(m, i0) =~= start + blocks_events(m, i0 + 1));
        i = i + 1;
    }
    assert(m.content.take(m.content.len() as int) =~= m.content);
    let ghost before = events.deep_view();
    events.push(terminal_event(message));
    assert(events.deep_view() =~= before.push(terminal_of(m)));
    assert(before.push(terminal_of(m)) =~= message_events(m));
    events
}

/// The number of blocks that the message had when an event was made.
pub open spec fn blocks_in(e: EventView) -> nat {
    message_in(e).content.len()
}

proof fn lemma_block_events(m: AssistantView, i: int)
    requires
        0 <= i < m.content.len(),
    ensures
        forall|k: int|
            0 <= k < block_events(m, i).len() ==> !ends_turn(#[trigger] block_events(m, i)[k]) && blocks_in(
                block_events(m, i)[k],
            ) == i + 1,
{
}

proof fn lemma_blocks_events(m: AssistantView, n: int)
    requires
        0 <= n <= m.content.len(),
    ensures
        forall|k: int|
            0 <= k < blocks_events(m, n).len() ==> !ends_turn(#[trigger] blocks_events(m, n)[k])
                && blocks_in(blocks_events(m, n)[k]) <= n,
        forall|k: int, l: int|
            0 <= k < l < blocks_events(m, n).len() ==> blocks_in(#[trigger] blocks_events(m, n)[k])
                <= blocks_in(#[trigger] blocks_events(m, n)[l]),
    decreases n,
{
    if n > 0 {
        let a = blocks_events(m, n - 1);
        let b = block_events(m, n - 1);
        let all = blocks_events(m, n);
        lemma_blocks_events(m, n - 1);
        lemma_block_events(m, n - 1);
        assert forall|k: int| 0 <= k < all.len() implies !ends_turn(#[trigger] all[k]) && blocks_in(all[k])
            <= n && (k < a.len() ==> blocks_in(all[k]) <= n - 1) && (k >= a.len() ==> blocks_in(all[k])
            == n) by {
            if k < a.len() {
                assert(all[k] == a[k]);
            } else {
                assert(all[k] == b[k - a.len()]);
            }
        }
        assert forall|k: int, l: int| 0 <= k < l < all.len() implies blocks_in(#[trigger] all[k])
            <= blocks_in(#[trigger] all[l]) by {
            if l < a.len() {
                assert(all[k] == a[k] && all[l] == a[l]);
            }
        }
    }
}

/// A complete message is reported with exactly one terminal event, which comes
/// last and carries the message itself.
pub proof fn law_one_terminal_event(m: AssistantView)
    ensures
        message_events(m).len() > 0,
        message_events(m).last() == terminal_of(m),
        ends_turn(message_events(m).last()),
        message_in(message_events(m).last()) == m,
        forall|k: int|
            0 <= k < message_events(m).len() - 1 ==> !ends_turn(#[trigger] message_events(m)[k]),
{
    lemma_blocks_events(m, m.content.len() as int);
    let ev = message_events(m);
    let inner = blocks_events(m, m.content.len() as int);
    assert forall|k: int| 0 <= k < ev.len() - 1 implies !ends_turn(#[trigger] ev[k]) by {
        if k > 0 {
            assert(ev[k] == inner[k - 1]);
        }
    }
}

/// From event to event the message never loses a block.
pub proof fn law_partials_grow(m: AssistantView, k: int, l: int)
    requires
        0 <= k <= l < message_events(m).len(),
    ensures
        blocks_in(message_events(m)[k]) <= blocks_in(message_events(m)[l]),
{
    lemma_blocks_events(m, m.content.len() as int);
    let ev = message_events(m);
    let inner = blocks_events(m, m.content.len() as int);
    law_one_terminal_event(m);
    if ev.len() > 1 {
        assert(blocks_in(ev[0]) == 0);
        if 0 < k < ev.len() - 1 {
            assert(ev[k] == inner[k - 1]);
        }
        if 0 < l < ev.len() - 1 {
            assert(ev[l] == inner[l - 1]);
        }
    }
}

// ---- what becomes of a response ----------------------------------------------------------------

/// A block of a response becomes a block with what it holds.
pub proof fn law_block_holds_what_came(b: ResponseContentBlock)
    ensures
        match b {
            ResponseContentBlock::Text { text } => content_of(b) is Text && content_of(b)->Text_0.text == text@,
            ResponseContentBlock::Thinking { thinking, signature } => content_of(b) is Thinking
                && content_of(b)->Thinking_0.thinking == thinking@ && content_of(b)->Thinking_0.thinking_signature
                == signature.deep_view(),
            ResponseContentBlock::RedactedThinking { data } => content_of(b) == ContentView::RedactedThinking(data@),
            ResponseContentBlock::ToolUse { id, name, input } => {
                &&& content_of(b) is ToolCall
                &&& content_of(b)->ToolCall_0.id == id@ && content_of(b)->ToolCall_0.name == name@
                &&& input is Some ==> content_of(b)->ToolCall_0.arguments == json_view(input->0)
                &&& input is None ==> content_of(b)->ToolCall_0.arguments == JsonView::Object(Seq::empty())
            },
            ResponseContentBlock::Fallback { from, to } => content_of(b) == ContentView::Fallback(from.model@, to.model@),
        },
{
}

/// The blocks of a response are taken in one by one, in order; one of a kind that is
/// not known is passed over.
pub proof fn law_blocks_are_taken_in_order(a: Seq<ResponseBlock>, b: Seq<ResponseBlock>)
    ensures
        known_content(a + b) == known_content(a) + known_content(b),
        a.len() == 1 && a[0] is Known ==> known_content(a) == seq![content_of(a[0]->Known_0)],
        a.len() == 1 && a[0] is Unknown ==> known_content(a).len() == 0,
    decreases b.len(),
{
    if b.len() == 0 {
        assert(a + b =~= a);
        assert(known_content(a) + known_content(b) =~= known_content(a));
    } else {
        law_blocks_are_taken_in_order(a, b.drop_last());
        assert((a + b).drop_last() =~= a + b.drop_last());
        assert(known_content(a + b) =~= known_content(a) + known_content(b));
    }
    if a.len() == 1 {
        assert(a.drop_last() =~= Seq::empty());
        assert(known_content(a.drop_last()) =~= Seq::empty());
        if a[0] is Known {
            assert(known_content(a) =~= seq![content_of(a[0]->Known_0)]);
        }
    }
}

/// The message of a response carries its identifier, its blocks, its counts and the
/// reason why it stopped, and what the request was about.
pub proof fn law_response_becomes_its_message(response: ResponseMessage, meta: RequestMeta)
    requires
        reported_total(response.usage) <= u64::MAX,
    ensures
        ({
            let m = response_message(response, meta);
            let u = response.usage;
            &&& m.content == known_content(response.content@)
            &&& m.response_id == Some(response.id@)
            &&& m.api == meta.api@ && m.provider == meta.provider@ && m.model == meta.model@
            &&& m.timestamp == meta.timestamp && m.duration == meta.duration
            &&& m.error_message is None
            &&& m.usage.input == (if let Some(n) = u.input_tokens { n } else { 0 })
            &&& m.usage.output == (if let Some(n) = u.output_tokens { n } else { 0 })
            &&& m.usage.cache_read == (if let Some(n) = u.cache_read_input_tokens { n } else { 0 })
            &&& m.usage.cache_write == (if let Some(n) = u.cache_creation_input_tokens { n } else { 0 })
            &&& m.usage.total_tokens == m.usage.input + m.usage.output + m.usage.cache_read + m.usage.cache_write
            &&& response.stop_reason is None ==> m.stop_reason == StopReason::Stop
            &&& response.stop_reason == Some(WireStopReason::Known(KnownStopReason::ToolUse)) ==> m.stop_reason
                == StopReason::ToolUse
            &&& response.stop_reason == Some(WireStopReason::Known(KnownStopReason::EndTurn)) ==> m.stop_reason
                == StopReason::Stop
            &&& response.stop_reason == Some(WireStopReason::Known(KnownStopReason::MaxTokens)) ==> m.stop_reason
                == StopReason::Length
            &&& response.stop_reason == Some(WireStopReason::Known(KnownStopReason::Refusal)) ==> m.stop_reason
                == StopReason::Error
        }),
{
}

/// The counts that a report details are kept where they are not zero.
pub proof fn law_detailed_counts_are_kept(c: CacheCreation, s: ServerToolUsage)
    ensures
        ({
            let five = if let Some(n) = c.ephemeral_5m_input_tokens { n } else { 0 };
            let hour = if let Some(n) = c.ephemeral_1h_input_tokens { n } else { 0 };
            let search = if let Some(n) = s.web_search_requests { n } else { 0 };
            let fetch = if let Some(n) = s.web_fetch_requests { n } else { 0 };
            &&& five == 0 && hour == 0 ==> cttl_of(Some(c)) is None
            &&& five > 0 ==> cttl_of(Some(c)) is Some && cttl_of(Some(c))->0.ephemeral_5m == Some(five)
            &&& hour > 0 ==> cttl_of(Some(c)) is Some && cttl_of(Some(c))->0.ephemeral_1h == Some(hour)
            &&& search == 0 && fetch == 0 ==> server_of(Some(s)) is None
            &&& search > 0 ==> server_of(Some(s)) is Some && server_of(Some(s))->0.web_search == Some(search)
            &&& fetch > 0 ==> server_of(Some(s)) is Some && server_of(Some(s))->0.web_fetch == Some(fetch)
            &&& cttl_of(None) is None && server_of(None) is None
        }),
{
}

/// A failed request becomes an empty message that says what failed.
pub proof fn law_failure_becomes_a_message(error: AiError, meta: RequestMeta)
    ensures
        ({
            let m = failure_message(error, meta);
            &&& m.content.len() == 0
            &&& m.error_message == Some(error_text(error))
            &&& error is Aborted ==> m.stop_reason == StopReason::Aborted
            &&& !(error is Aborted) ==> m.stop_reason == StopReason::Error
            &&& error is Api ==> m.error_status == Some(error->status)
            &&& !(error is Api) ==> m.error_status is None
            &&& m.model == meta.model@ && m.provider == meta.provider@ && m.api == meta.api@
        }),
{
}

/// A complete message is reported by its start, block by block in order, and by its
/// end; one that failed only by its end.
pub proof fn law_message_is_reported_in_order(m: AssistantView, n: int)
    requires
        0 <= n < m.content.len(),
    ensures
        ({
            let e = message_events(m);
            let failed = m.stop_reason == StopReason::Error || m.stop_reason == StopReason::Aborted;
            &&& e.last() == terminal_of(m)
            &&& failed ==> e.len() == 1
            &&& !failed ==> {
                &&& e.len() == 2 + blocks_events(m, m.content.len() as int).len()
                &&& e[0] is Start && e[0]->Start_partial.content.len() == 0 && e[0]->Start_partial.model == m.model
                &&& e.subrange(1, e.len() - 1) == blocks_events(m, m.content.len() as int)
            }
            &&& blocks_events(m, 0).len() == 0
            &&& blocks_events(m, n + 1) == blocks_events(m, n) + block_events(m, n)
        }),
{
    let e = message_events(m);
    if !(m.stop_reason == StopReason::Error || m.stop_reason == StopReason::Aborted) {
        assert(e.subrange(1, e.len() - 1) =~= blocks_events(m, m.content.len() as int));
        assert(m.content.take(0) + Seq::<ContentView>::empty() =~= Seq::empty());
    }
}

/// A text is reported by its start, its whole text and its end, and so is reasoning;
/// a call by its start, its arguments and its end; an image by its end. Each end shows
/// the message up to its block.
pub proof fn law_block_is_reported_whole(m: AssistantView, i: int)
    requires
        0 <= i < m.content.len(),
    ensures
        ({
            let e = block_events(m, i);
            let upto = m.content.take(i + 1);
            match m.content[i] {
                ContentView::Text(b) => {
                    &&& e.len() == 3 && e[0] is TextStart && e[1] is TextDelta && e[2] is TextEnd
                    &&& e[0]->TextStart_content_index == i && e[0]->TextStart_partial.content.len() == i + 1
                    &&& e[1]->TextDelta_delta == b.text && e[1]->TextDelta_content_index == i
                    &&& e[2]->TextEnd_content == b.text && e[2]->TextEnd_partial.content == upto
                },
                ContentView::Thinking(b) => {
                    &&& e.len() == 3 && e[0] is ThinkingStart && e[1] is ThinkingDelta && e[2] is ThinkingEnd
                    &&& e[1]->ThinkingDelta_delta == b.thinking && e[1]->ThinkingDelta_content_index == i
                    &&& e[2]->ThinkingEnd_content == b.thinking && e[2]->ThinkingEnd_partial.content == upto
                },
                ContentView::ToolCall(c) => {
                    &&& e.len() == 3 && e[0] is ToolcallStart && e[1] is ToolcallDelta && e[2] is ToolcallEnd
                    &&& e[1]->ToolcallDelta_delta == compact_json(c.arguments) && e[1]->ToolcallDelta_content_index == i
                    &&& e[2]->ToolcallEnd_tool_call == c && e[2]->ToolcallEnd_partial.content == upto
                },
                ContentView::Image(b) => e.len() == 1 && e[0] is ImageEnd && e[0]->ImageEnd_content == b
                    && e[0]->ImageEnd_partial.content == upto,
                _ => e.len() == 0,
            }
        }),
{
    assert(m.content.take(i + 1) + Seq::<ContentView>::empty() =~= m.content.take(i + 1));
}

} // verus!

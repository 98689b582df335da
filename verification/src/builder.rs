//! The accumulator of a streamed turn: raw events in, a growing message and its
//! events out.
use vstd::prelude::*;
use crate::convert::{
    blank_message, content_of, convert_block, convert_cttl, convert_server, convert_usage, cttl_of, empty_message,
    map_stop_reason, reported_total, server_of, stop_of, usage_fits, usage_of, RequestMeta,
};
use crate::event::{ends_turn, terminal_event, terminal_of, AssistantMessageEvent, DoneReason, ErrorReason, EventView};
use crate::json::{
    field_of, json_view, lemma_member_pos_is, lemma_object_view, members_view, strict_json, text_in, Json, JsonView,
};
use crate::json_repair::{parse_json_with_repair, repaired_json};
use crate::message::{
    copy_text, AssistantContent, AssistantMessage, AssistantView, ContentView, StopReason, Text,
    TextContent, TextView, ThinkingContent, ThinkingView, ToolCall, ToolCallView, Usage, UsageView,
};
use crate::text::{
    byte_len, byte_prefix, byte_size, chars_of, debug_text, decimal, decimal_text, ends_with_text, joined,
    lemma_trim_idempotent, matches_at, owned, prefix_within, same_text, shown, starts_with_text, text_of, trim_text,
    trimmed,
};
use crate::wire::{
    ContentBlockDelta, KnownStopReason, MessageDelta, RawMessageStreamEvent, ResponseBlock,
    ResponseContentBlock, StopDetails, WireStopReason, WireUsage,
};
use std::collections::HashSet;
use std::sync::Arc;

verus! {

/// What a block under construction is.
#[derive(Debug, Clone, Copy, PartialEq, Eq, Structural)]
pub enum BlockKind {
    Text,
    Thinking,
    RedactedThinking,
    ToolCall,
    /// A block that the message does not take in.
    Ignored,
}

struct OpenBlock {
    index: u64,
    content_index: usize,
    kind: BlockKind,
    partial_json: String,
}

/// A block under construction: its index on the wire, its place in the message,
/// and the arguments received so far.
#[verifier::ext_equal]
pub struct OpenView {
    pub index: u64,
    pub content_index: int,
    pub kind: BlockKind,
    pub partial_json: Text,
}

impl DeepView for OpenBlock {
    type V = OpenView;

    closed spec fn deep_view(&self) -> OpenView {
        OpenView {
            index: self.index,
            content_index: self.content_index as int,
            kind: self.kind,
            partial_json: self.partial_json@,
        }
    }
}

/// The state of a streamed turn.
#[verifier::ext_equal]
pub struct BuilderView {
    pub working: AssistantView,
    /// The open blocks, in the order in which they were opened.
    pub open: Seq<OpenView>,
    pub saw_message_start: bool,
    pub saw_terminal: bool,
    pub saw_message_stop: bool,
    /// A second envelope came: a reconnect replays what was already received.
    pub saw_spliced_envelope: bool,
    /// The wire indexes of the blocks that were closed.
    pub closed: Set<u64>,
}

// ---- texts ------------------------------------------------------------------

pub open spec fn is_enveloped(t: Text) -> bool {
    t.len() >= 21 && starts_with_text(t, "<thinking>"@) && ends_with_text(t, "</thinking>"@)
}

pub open spec fn without_envelope(t: Text) -> Text {
    t.subrange(10, t.len() - 11)
}

/// `s` without any of the envelopes around it, trimmed.
pub open spec fn innermost(s: Text) -> Text
    decreases s.len(),
    via innermost_decreases
{
    let t = trimmed(s);
    if is_enveloped(t) {
        innermost(without_envelope(t))
    } else {
        t
    }
}

#[via_fn]
proof fn innermost_decreases(s: Text) {
    lemma_trimmed_shorter(s);
}

proof fn lemma_trimmed_shorter(s: Text)
    ensures
        trimmed(s).len() <= s.len(),
{
    lemma_start_shorter(s);
    lemma_end_shorter(crate::text::trimmed_start(s));
}

proof fn lemma_start_shorter(s: Text)
    ensures
        crate::text::trimmed_start(s).len() <= s.len(),
    decreases s.len(),
{
    if s.len() > 0 && crate::text::is_space(s[0]) {
        lemma_start_shorter(s.subrange(1, s.len() as int));
    }
}

proof fn lemma_end_shorter(s: Text)
    ensures
        crate::text::trimmed_end(s).len() <= s.len(),
    decreases s.len(),
{
    if s.len() > 0 && crate::text::is_space(s.last()) {
        lemma_end_shorter(s.drop_last());
    }
}

/// The text inside leaked `<thinking>` envelopes; none where there is none.
pub open spec fn unwrapped(s: Text) -> Option<Text> {
    if is_enveloped(trimmed(s)) {
        Some(innermost(s))
    } else {
        None
    }
}

/// Strips the `<thinking>…</thinking>` envelopes around a text.
#[verifier::rlimit(40)]
pub fn unwrap_thinking_envelope(text: &str) -> (r: Option<String>)
    ensures
        r.deep_view() == unwrapped(text@),
{
    let open = chars_of("<thinking>");
    let close = chars_of("</thinking>");
    proof {
        reveal_strlit("<thinking>");
        reveal_strlit("</thinking>");
    }
    let mut current = trim_text(text);
    let mut stripped = false;
    let mut v = chars_of(current.as_str());
    proof {
        lemma_trimmed_shorter(text@);
        crate::text::lemma_trim_idempotent(text@);
    }
    while v.len() >= 21 && matches_at(&v, 0, &open) && matches_at(&v, v.len() - 11, &close)
        invariant
            v@ == current@,
            open@ == "<thinking>"@,
            close@ == "</thinking>"@,
            open@.len() == 10,
            close@.len() == 11,
            trimmed(current@) == current@,
            innermost(text@) == innermost(current@),
            stripped ==> is_enveloped(trimmed(text@)),
            !stripped ==> current@ == trimmed(text@),
        decreases v.len(),
    {
        let ghost before = current@;
        let inner = text_of(&v, 10, v.len() - 11);
        current = trim_text(inner.as_str());
        proof {
            assert(is_enveloped(before));
            assert(inner@ == without_envelope(before));
            lemma_trimmed_shorter(inner@);
            crate::text::lemma_trim_idempotent(inner@);
            assert(innermost(before) == innermost(inner@));
            assert(innermost(inner@) == innermost(current@)) by {
                reveal_with_fuel(innermost, 2);
            }
        }
        v = chars_of(current.as_str());
        stripped = true;
    }
    if stripped {
        Some(current)
    } else {
        None
    }
}

/// A text cut to what an error report shows of it.
pub open spec fn cut_for_error(s: Text) -> Text {
    if byte_len(s) <= 512 {
        s
    } else {
        byte_prefix(s, 512) + "… [truncated "@ + decimal(
            (byte_len(s) - byte_len(byte_prefix(s, 512))) as nat,
        ) + " chars]"@
    }
}

/// Cuts a text to what an error report shows of it.
pub fn truncate_for_error(json: &str) -> (r: String)
    ensures
        r@ == cut_for_error(json@),
{
    let size = byte_size(json);
    if size <= 512 {
        return owned(json);
    }
    let (head, used) = prefix_within(json, 512);
    let rest = decimal_text((size - used) as u64);
    let a = joined(head.as_str(), "… [truncated ");
    let b = joined(a.as_str(), rest.as_str());
    joined(b.as_str(), " chars]")
}

/// The message of a turn that the provider ended with an error.
pub open spec fn stop_error_text(delta: MessageDelta) -> Text {
    match delta.stop_details {
        Some(d) => if d.detail_type@ == "refusal"@ {
            refusal_text(d)
        } else {
            bare_stop_error(delta.stop_reason)
        },
        None => bare_stop_error(delta.stop_reason),
    }
}

pub open spec fn refusal_text(d: StopDetails) -> Text {
    let label = match d.category {
        Some(c) => "Refusal ("@ + c@ + ")"@,
        None => "Refusal"@,
    };
    match d.explanation {
        Some(e) => if trimmed(e@).len() > 0 {
            label + ": "@ + trimmed(e@)
        } else {
            label
        },
        None => label,
    }
}

pub open spec fn bare_stop_error(reason: Option<WireStopReason>) -> Text {
    match reason {
        Some(WireStopReason::Known(KnownStopReason::Refusal)) => "Refusal (no details provided)"@,
        Some(WireStopReason::Known(KnownStopReason::Sensitive)) => "Content flagged by safety filters"@,
        _ => "Anthropic stream ended with stop_reason: "@ + reason_shown(reason),
    }
}

/// The text that shows a reason.
pub open spec fn reason_shown(reason: Option<WireStopReason>) -> Text {
    match reason {
        None => "None"@,
        Some(WireStopReason::Known(k)) => "Some(Known("@ + known_reason_name(k) + "))"@,
        Some(WireStopReason::Other(t)) => "Some(Other("@ + debug_text(t@) + "))"@,
    }
}

pub open spec fn known_reason_name(k: KnownStopReason) -> Text {
    match k {
        KnownStopReason::EndTurn => "EndTurn"@,
        KnownStopReason::MaxTokens => "MaxTokens"@,
        KnownStopReason::StopSequence => "StopSequence"@,
        KnownStopReason::ToolUse => "ToolUse"@,
        KnownStopReason::PauseTurn => "PauseTurn"@,
        KnownStopReason::Refusal => "Refusal"@,
        KnownStopReason::Sensitive => "Sensitive"@,
        KnownStopReason::ModelContextWindowExceeded => "ModelContextWindowExceeded"@,
    }
}

fn name_reason(k: KnownStopReason) -> (r: &'static str)
    ensures
        r@ == known_reason_name(k),
{
    match k {
        KnownStopReason::EndTurn => "EndTurn",
        KnownStopReason::MaxTokens => "MaxTokens",
        KnownStopReason::StopSequence => "StopSequence",
        KnownStopReason::ToolUse => "ToolUse",
        KnownStopReason::PauseTurn => "PauseTurn",
        KnownStopReason::Refusal => "Refusal",
        KnownStopReason::Sensitive => "Sensitive",
        KnownStopReason::ModelContextWindowExceeded => "ModelContextWindowExceeded",
    }
}

fn show_reason(reason: &Option<WireStopReason>) -> (r: String)
    ensures
        r@ == reason_shown(*reason),
{
    match reason {
        None => owned("None"),
        Some(WireStopReason::Known(k)) => {
            let opened = joined("Some(Known(", name_reason(*k));
            joined(opened.as_str(), "))")
        },
        Some(WireStopReason::Other(t)) => {
            let text = shown(t.as_str());
            let opened = joined("Some(Other(", text.as_str());
            joined(opened.as_str(), "))")
        },
    }
}

/// The message of a turn that the provider ended with an error.
pub fn error_stop_message(delta: &MessageDelta) -> (r: String)
    ensures
        r@ == stop_error_text(*delta),
{
    if let Some(d) = &delta.stop_details {
        if same_text(d.detail_type.as_str(), "refusal") {
            let label = match &d.category {
                Some(c) => {
                    let opened = joined("Refusal (", c.as_str());
                    joined(opened.as_str(), ")")
                },
                None => owned("Refusal"),
            };
            if let Some(e) = &d.explanation {
                let t = trim_text(e.as_str());
                if !t.as_str().is_empty() {
                    let head = joined(label.as_str(), ": ");
                    return joined(head.as_str(), t.as_str());
                }
            }
            return label;
        }
    }
    match &delta.stop_reason {
        Some(WireStopReason::Known(KnownStopReason::Refusal)) => owned("Refusal (no details provided)"),
        Some(WireStopReason::Known(KnownStopReason::Sensitive)) => owned("Content flagged by safety filters"),
        _ => {
            let reason = show_reason(&delta.stop_reason);
            joined("Anthropic stream ended with stop_reason: ", reason.as_str())
        },
    }
}

// ---- usage ------------------------------------------------------------------

pub open spec fn or_else(o: Option<u64>, n: u64) -> u64 {
    match o {
        Some(m) => m,
        None => n,
    }
}

pub open spec fn merged_total(u: UsageView, d: WireUsage) -> int {
    or_else(d.input_tokens, u.input) + or_else(d.output_tokens, u.output) + or_else(
        d.cache_read_input_tokens,
        u.cache_read,
    ) + or_else(d.cache_creation_input_tokens, u.cache_write)
}

/// `u` after a report: what it names is replaced, and the total is counted anew.
pub open spec fn merged_usage(u: UsageView, d: WireUsage) -> UsageView {
    UsageView {
        input: or_else(d.input_tokens, u.input),
        output: or_else(d.output_tokens, u.output),
        cache_read: or_else(d.cache_read_input_tokens, u.cache_read),
        cache_write: or_else(d.cache_creation_input_tokens, u.cache_write),
        cttl: if cttl_of(d.cache_creation) is Some {
            cttl_of(d.cache_creation)
        } else {
            u.cttl
        },
        server: if server_of(d.server_tool_use) is Some {
            server_of(d.server_tool_use)
        } else {
            u.server
        },
        total_tokens: merged_total(u, d) as u64,
        ..u
    }
}

/// Takes a report into the usage.
pub fn merge_delta_usage(usage: &mut Usage, delta: &WireUsage)
    requires
        merged_total(old(usage).deep_view(), *delta) <= u64::MAX,
    ensures
        final(usage).deep_view() == merged_usage(old(usage).deep_view(), *delta),
{
    if let Some(input) = delta.input_tokens {
        usage.input = input;
    }
    if let Some(output) = delta.output_tokens {
        usage.output = output;
    }
    if let Some(cache_read) = delta.cache_read_input_tokens {
        usage.cache_read = cache_read;
    }
    if let Some(cache_write) = delta.cache_creation_input_tokens {
        usage.cache_write = cache_write;
    }
    let cttl = convert_cttl(delta.cache_creation);
    if cttl.is_some() {
        usage.cttl = cttl;
    }
    let server = convert_server(delta.server_tool_use);
    if server.is_some() {
        usage.server = server;
    }
    usage.total_tokens = usage.input + usage.output + usage.cache_read + usage.cache_write;
}

// ---- the state machine ------------------------------------------------------

/// The position of the open block with the wire index, or the number of open
/// blocks.
pub open spec fn open_pos(open: Seq<OpenView>, index: u64) -> int
    decreases open.len(),
{
    if open.len() == 0 {
        0
    } else if open[0].index == index {
        0
    } else {
        1 + open_pos(open.subrange(1, open.len() as int), index)
    }
}

pub open spec fn is_open(b: BuilderView, index: u64) -> bool {
    open_pos(b.open, index) < b.open.len()
}

proof fn lemma_open_pos(open: Seq<OpenView>, index: u64)
    ensures
        0 <= open_pos(open, index) <= open.len(),
        open_pos(open, index) < open.len() ==> open[open_pos(open, index)].index == index,
        forall|i: int| 0 <= i < open_pos(open, index) ==> (#[trigger] open[i]).index != index,
    decreases open.len(),
{
    if open.len() > 0 && open[0].index != index {
        let t = open.subrange(1, open.len() as int);
        lemma_open_pos(t, index);
        assert forall|i: int| 0 <= i < open_pos(open, index) implies (#[trigger] open[i]).index != index by {
            if i > 0 {
                assert(t[i - 1] == open[i]);
            }
        }
    }
}

proof fn lemma_open_pos_is(open: Seq<OpenView>, index: u64, p: int)
    requires
        0 <= p <= open.len(),
        p < open.len() ==> open[p].index == index,
        forall|i: int| 0 <= i < p ==> (#[trigger] open[i]).index != index,
    ensures
        open_pos(open, index) == p,
{
    lemma_open_pos(open, index);
    let q = open_pos(open, index);
    if q < p {
        assert(open[q].index != index);
    } else if p < q {
        assert(open[p].index != index);
    }
}

pub open spec fn ignored_open(index: u64) -> OpenView {
    OpenView { index, content_index: usize::MAX as int, kind: BlockKind::Ignored, partial_json: Seq::empty() }
}

/// The kind of a block that the message takes in.
pub open spec fn kind_of(b: ResponseContentBlock) -> BlockKind {
    match b {
        ResponseContentBlock::Text { .. } => BlockKind::Text,
        ResponseContentBlock::Thinking { .. } => BlockKind::Thinking,
        ResponseContentBlock::RedactedThinking { .. } => BlockKind::RedactedThinking,
        ResponseContentBlock::ToolUse { .. } => BlockKind::ToolCall,
        ResponseContentBlock::Fallback { .. } => BlockKind::Ignored,
    }
}

/// What a block is when it opens: an empty signature counts as none.
pub open spec fn opened_content(b: ResponseContentBlock) -> ContentView {
    match b {
        ResponseContentBlock::Thinking { thinking, signature } => ContentView::Thinking(
            ThinkingView {
                thinking: thinking@,
                thinking_signature: match signature {
                    Some(s) => if s@.len() > 0 {
                        Some(s@)
                    } else {
                        None
                    },
                    None => None,
                },
                item_id: None,
            },
        ),
        _ => content_of(b),
    }
}

pub open spec fn opening_events(b: ResponseContentBlock, i: int, partial: AssistantView) -> Seq<EventView> {
    match b {
        ResponseContentBlock::Text { text } => {
            let start = seq![EventView::TextStart { content_index: i, partial }];
            if text@.len() > 0 {
                start.push(EventView::TextDelta { content_index: i, delta: text@, partial })
            } else {
                start
            }
        },
        ResponseContentBlock::Thinking { thinking, signature: _ } => {
            let start = seq![EventView::ThinkingStart { content_index: i, partial }];
            if thinking@.len() > 0 {
                start.push(EventView::ThinkingDelta { content_index: i, delta: thinking@, partial })
            } else {
                start
            }
        },
        ResponseContentBlock::ToolUse { .. } => seq![
            EventView::ToolcallStart { content_index: i, partial },
        ],
        _ => Seq::empty(),
    }
}

/// A block opens. It is not taken in after the end, while its index is open,
/// where a reconnect replays a block that was closed, or where its kind has no
/// place in a message.
pub open spec fn block_opened(b: BuilderView, index: u64, block: ResponseBlock) -> (
    BuilderView,
    Seq<EventView>,
) {
    if b.saw_terminal || is_open(b, index) {
        (b, Seq::empty())
    } else if b.saw_spliced_envelope && b.closed.contains(index) {
        (BuilderView { open: b.open.push(ignored_open(index)), ..b }, Seq::empty())
    } else {
        match block {
            ResponseBlock::Known(known) => if known is Fallback {
                (BuilderView { open: b.open.push(ignored_open(index)), ..b }, Seq::empty())
            } else {
                let i = b.working.content.len() as int;
                let working = AssistantView {
                    content: b.working.content.push(opened_content(known)),
                    ..b.working
                };
                (
                    BuilderView {
                        working,
                        open: b.open.push(
                            OpenView {
                                index,
                                content_index: i,
                                kind: kind_of(known),
                                partial_json: Seq::empty(),
                            },
                        ),
                        ..b
                    },
                    opening_events(known, i, working),
                )
            },
            ResponseBlock::Unknown(_) => (
                BuilderView { open: b.open.push(ignored_open(index)), ..b },
                Seq::empty(),
            ),
        }
    }
}

pub open spec fn with_block(m: AssistantView, i: int, c: ContentView) -> AssistantView {
    AssistantView { content: m.content.update(i, c), ..m }
}

/// What a delta makes of the block it is for; none where it does not fit it.
pub open spec fn grown_content(c: ContentView, delta: ContentBlockDelta) -> Option<ContentView> {
    match (delta, c) {
        (ContentBlockDelta::TextDelta { text }, ContentView::Text(t)) => Some(
            ContentView::Text(TextView { text: t.text + text@, ..t }),
        ),
        (ContentBlockDelta::ThinkingDelta { thinking }, ContentView::Thinking(t)) => Some(
            ContentView::Thinking(ThinkingView { thinking: t.thinking + thinking@, ..t }),
        ),
        (ContentBlockDelta::SignatureDelta { signature }, ContentView::Thinking(t)) => Some(
            ContentView::Thinking(
                ThinkingView {
                    thinking_signature: Some(
                        match t.thinking_signature {
                            Some(s) => s + signature@,
                            None => signature@,
                        },
                    ),
                    ..t
                },
            ),
        ),
        (ContentBlockDelta::InputJsonDelta { partial_json: _ }, ContentView::ToolCall(_)) => Some(c),
        _ => None,
    }
}

/// The events of a delta that fits its block; a signature accumulates silently.
pub open spec fn delta_events(delta: ContentBlockDelta, i: int, partial: AssistantView) -> Seq<EventView> {
    match delta {
        ContentBlockDelta::TextDelta { text } => seq![
            EventView::TextDelta { content_index: i, delta: text@, partial },
        ],
        ContentBlockDelta::ThinkingDelta { thinking } => seq![
            EventView::ThinkingDelta { content_index: i, delta: thinking@, partial },
        ],
        ContentBlockDelta::InputJsonDelta { partial_json } => seq![
            EventView::ToolcallDelta { content_index: i, delta: partial_json@, partial },
        ],
        ContentBlockDelta::SignatureDelta { .. } => Seq::empty(),
    }
}

/// A delta comes for a block.
pub open spec fn block_grown(b: BuilderView, index: u64, delta: ContentBlockDelta) -> (
    BuilderView,
    Seq<EventView>,
) {
    let p = open_pos(b.open, index);
    if b.saw_terminal || !is_open(b, index) || b.open[p].kind == BlockKind::Ignored {
        (b, Seq::empty())
    } else {
        let i = b.open[p].content_index;
        match grown_content(b.working.content[i], delta) {
            None => (b, Seq::empty()),
            Some(c) => {
                let working = with_block(b.working, i, c);
                let open = match delta {
                    ContentBlockDelta::InputJsonDelta { partial_json } => b.open.update(
                        p,
                        OpenView {
                            partial_json: b.open[p].partial_json + partial_json@,
                            ..b.open[p]
                        },
                    ),
                    _ => b.open,
                };
                (BuilderView { working, open, ..b }, delta_events(delta, i, working))
            },
        }
    }
}

/// The arguments that the received text amounts to; one that cannot be read is
/// kept beside what is wrong with it.
pub open spec fn final_arguments(received: JsonView, json: Text) -> JsonView {
    if json.len() == 0 {
        received
    } else {
        match repaired_json(json) {
            Ok(v) => v,
            Err(e) => JsonView::Object(
                seq![
                    ("__parseError"@, JsonView::String(e)),
                    ("__rawJson"@, JsonView::String(cut_for_error(json))),
                ],
            ),
        }
    }
}

/// A block as it is when it closes.
pub open spec fn closed_content(c: ContentView, o: OpenView) -> ContentView {
    match (o.kind, c) {
        (BlockKind::Thinking, ContentView::Thinking(t)) => match unwrapped(t.thinking) {
            Some(inner) => ContentView::Thinking(
                ThinkingView { thinking: inner, thinking_signature: None, ..t },
            ),
            None => c,
        },
        (BlockKind::ToolCall, ContentView::ToolCall(t)) => ContentView::ToolCall(
            ToolCallView { arguments: final_arguments(t.arguments, o.partial_json), ..t },
        ),
        _ => c,
    }
}

pub open spec fn closing_events(o: OpenView, c: ContentView, partial: AssistantView) -> Seq<EventView> {
    match (o.kind, c) {
        (BlockKind::Text, ContentView::Text(t)) => seq![
            EventView::TextEnd { content_index: o.content_index, content: t.text, partial },
        ],
        (BlockKind::Thinking, ContentView::Thinking(t)) => seq![
            EventView::ThinkingEnd { content_index: o.content_index, content: t.thinking, partial },
        ],
        (BlockKind::ToolCall, ContentView::ToolCall(t)) => seq![
            EventView::ToolcallEnd { content_index: o.content_index, tool_call: t, partial },
        ],
        _ => Seq::empty(),
    }
}

/// The message and the events of closing a block.
pub open spec fn block_finished(m: AssistantView, o: OpenView) -> (AssistantView, Seq<EventView>) {
    if o.kind == BlockKind::Ignored {
        (m, Seq::empty())
    } else {
        let c = closed_content(m.content[o.content_index], o);
        let now = with_block(m, o.content_index, c);
        (now, closing_events(o, c, now))
    }
}

/// A raw event comes.
pub open spec fn after_event(b: BuilderView, e: RawMessageStreamEvent) -> (BuilderView, Seq<EventView>) {
    match e {
        RawMessageStreamEvent::MessageStart { message } => if b.saw_message_start {
            (BuilderView { saw_spliced_envelope: true, ..b }, Seq::empty())
        } else {
            (
                BuilderView {
                    saw_message_start: true,
                    working: AssistantView {
                        response_id: Some(message.id@),
                        usage: usage_of(message.usage),
                        ..b.working
                    },
                    ..b
                },
                Seq::empty(),
            )
        },
        RawMessageStreamEvent::ContentBlockStart { index, content_block } => block_opened(
            b,
            index,
            content_block,
        ),
        RawMessageStreamEvent::ContentBlockDelta { index, delta } => block_grown(b, index, delta),
        RawMessageStreamEvent::ContentBlockStop { index } => if is_open(b, index) {
            let p = open_pos(b.open, index);
            let (working, events) = block_finished(b.working, b.open[p]);
            (
                BuilderView { working, open: b.open.remove(p), closed: b.closed.insert(index), ..b },
                events,
            )
        } else {
            (b, Seq::empty())
        },
        RawMessageStreamEvent::MessageDelta { delta, usage } => if b.saw_terminal {
            (b, Seq::empty())
        } else {
            let merged = AssistantView { usage: merged_usage(b.working.usage, usage), ..b.working };
            match delta.stop_reason {
                None => (BuilderView { working: merged, ..b }, Seq::empty()),
                Some(reason) => {
                    let stopped = AssistantView { stop_reason: stop_of(reason), ..merged };
                    let working = if stop_of(reason) == StopReason::Error {
                        AssistantView {
                            stop_details: delta.stop_details.deep_view(),
                            error_message: Some(stop_error_text(delta)),
                            ..stopped
                        }
                    } else {
                        stopped
                    };
                    (BuilderView { working, saw_terminal: true, ..b }, Seq::empty())
                },
            }
        },
        RawMessageStreamEvent::MessageStop => (
            BuilderView { saw_terminal: true, saw_message_stop: true, ..b },
            Seq::empty(),
        ),
    }
}

/// The token counts of an event fit the counters that take them.
pub open spec fn counts_fit(b: BuilderView, e: RawMessageStreamEvent) -> bool {
    match e {
        RawMessageStreamEvent::MessageStart { message } => b.saw_message_start || reported_total(
            message.usage,
        ) <= u64::MAX,
        RawMessageStreamEvent::MessageDelta { delta: _, usage } => b.saw_terminal || merged_total(
            b.working.usage,
            usage,
        ) <= u64::MAX,
        _ => true,
    }
}

/// The message and the events of closing open blocks, one after the other.
pub open spec fn all_finished(m: AssistantView, open: Seq<OpenView>) -> (AssistantView, Seq<EventView>)
    decreases open.len(),
{
    if open.len() == 0 {
        (m, Seq::empty())
    } else {
        let (before, events) = all_finished(m, open.drop_last());
        let (now, more) = block_finished(before, open.last());
        (now, events + more)
    }
}

/// The stream ended: the open blocks close, in the order of their places in the
/// message, and the turn ends. Without a message start it ends with an error.
pub open spec fn finished(b: BuilderView) -> (AssistantView, Seq<EventView>) {
    let (m, events) = all_finished(b.working, b.open);
    let last = if b.saw_message_start {
        m
    } else {
        AssistantView {
            stop_reason: StopReason::Error,
            error_message: Some("stream ended before message_start"@),
            ..m
        }
    };
    (last, events.push(terminal_of(last)))
}

/// The stream was cut off: the turn ends with what the message holds.
pub open spec fn failed(b: BuilderView, stop_reason: StopReason, error_message: Text) -> AssistantView {
    AssistantView { stop_reason, error_message: Some(error_message), ..b.working }
}

pub open spec fn initial(meta: RequestMeta) -> BuilderView {
    BuilderView {
        working: blank_message(meta),
        open: Seq::empty(),
        saw_message_start: false,
        saw_terminal: false,
        saw_message_stop: false,
        saw_spliced_envelope: false,
        closed: Set::empty(),
    }
}

/// The kind of an open block is that of its block in the message.
pub open spec fn fits(o: OpenView, content: Seq<ContentView>) -> bool {
    o.kind == BlockKind::Ignored || (0 <= o.content_index < content.len() && match o.kind {
        BlockKind::Text => content[o.content_index] is Text,
        BlockKind::Thinking => content[o.content_index] is Thinking,
        BlockKind::RedactedThinking => content[o.content_index] is RedactedThinking,
        BlockKind::ToolCall => content[o.content_index] is ToolCall,
        BlockKind::Ignored => true,
    })
}

/// Open blocks have distinct wire indexes, stand at distinct places in the
/// message in the order in which they were opened, and are of the kind that
/// stands there.
pub open spec fn well_formed(b: BuilderView) -> bool {
    &&& forall|i: int| 0 <= i < b.open.len() ==> fits(#[trigger] b.open[i], b.working.content)
    &&& forall|i: int, j: int|
        0 <= i < j < b.open.len() ==> (#[trigger] b.open[i]).index != (#[trigger] b.open[j]).index
    &&& forall|i: int, j: int|
        0 <= i < j < b.open.len() && (#[trigger] b.open[i]).kind != BlockKind::Ignored && (
        #[trigger] b.open[j]).kind != BlockKind::Ignored ==> b.open[i].content_index
            < b.open[j].content_index
}

/// The accumulator of a streamed turn.
pub struct StreamingBuilder {
    working: AssistantMessage,
    open_blocks: Vec<OpenBlock>,
    saw_message_start: bool,
    saw_terminal: bool,
    saw_message_stop: bool,
    saw_spliced_envelope: bool,
    closed_block_indexes: HashSet<u64>,
}

impl View for StreamingBuilder {
    type V = BuilderView;

    closed spec fn view(&self) -> BuilderView {
        BuilderView {
            working: self.working.deep_view(),
            open: self.open_blocks.deep_view(),
            saw_message_start: self.saw_message_start,
            saw_terminal: self.saw_terminal,
            saw_message_stop: self.saw_message_stop,
            saw_spliced_envelope: self.saw_spliced_envelope,
            closed: self.closed_block_indexes@,
        }
    }
}

fn ignored_block(index: u64) -> (r: OpenBlock)
    ensures
        r.deep_view() == ignored_open(index),
{
    OpenBlock { index, content_index: usize::MAX, kind: BlockKind::Ignored, partial_json: String::new() }
}

/// The block that a response block opens with, and its kind.
fn open_content(known: &ResponseContentBlock) -> (r: (AssistantContent, BlockKind))
    ensures
        r.0.deep_view() == opened_content(*known),
        r.1 == kind_of(*known),
{
    match known {
        ResponseContentBlock::Text { .. } => (convert_block(known), BlockKind::Text),
        ResponseContentBlock::Thinking { thinking, signature } => {
            let kept = match signature {
                Some(s) => if s.as_str().is_empty() {
                    None
                } else {
                    Some(s.clone())
                },
                None => None,
            };
            (
                AssistantContent::Thinking(
                    ThinkingContent { thinking: thinking.clone(), thinking_signature: kept, item_id: None },
                ),
                BlockKind::Thinking,
            )
        },
        ResponseContentBlock::RedactedThinking { .. } => (
            convert_block(known),
            BlockKind::RedactedThinking,
        ),
        ResponseContentBlock::ToolUse { .. } => (convert_block(known), BlockKind::ToolCall),
        ResponseContentBlock::Fallback { .. } => (convert_block(known), BlockKind::Ignored),
    }
}

/// The events of an opening block.
fn open_events(known: &ResponseContentBlock, content_index: usize, partial: Arc<AssistantMessage>) -> (r: Vec<
    AssistantMessageEvent,
>)
    ensures
        r.deep_view() == opening_events(*known, content_index as int, (*partial).deep_view()),
{
    let mut events: Vec<AssistantMessageEvent> = Vec::new();
    let ghost view = (*partial).deep_view();
    match known {
        ResponseContentBlock::Text { text } => {
            events.push(AssistantMessageEvent::TextStart { content_index, partial: Arc::clone(&partial) });
            if !text.as_str().is_empty() {
                events.push(
                    AssistantMessageEvent::TextDelta { content_index, delta: text.clone(), partial },
                );
            }
        },
        ResponseContentBlock::Thinking { thinking, signature: _ } => {
            events.push(
                AssistantMessageEvent::ThinkingStart { content_index, partial: Arc::clone(&partial) },
            );
            if !thinking.as_str().is_empty() {
                events.push(
                    AssistantMessageEvent::ThinkingDelta { content_index, delta: thinking.clone(), partial },
                );
            }
        },
        ResponseContentBlock::ToolUse { .. } => {
            events.push(AssistantMessageEvent::ToolcallStart { content_index, partial });
        },
        _ => {},
    }
    assert(events.deep_view() =~= opening_events(*known, content_index as int, view));
    events
}

/// What a delta makes of its block.
#[verifier::rlimit(40)]
fn grow_content(block: &AssistantContent, delta: &ContentBlockDelta) -> (r: Option<AssistantContent>)
    ensures
        r.deep_view() == grown_content(block.deep_view(), *delta),
{
    match (delta, block) {
        (ContentBlockDelta::TextDelta { text }, AssistantContent::Text(t)) => Some(
            AssistantContent::Text(
                TextContent {
                    text: joined(t.text.as_str(), text.as_str()),
                    text_signature: copy_text(&t.text_signature),
                },
            ),
        ),
        (ContentBlockDelta::ThinkingDelta { thinking }, AssistantContent::Thinking(t)) => Some(
            AssistantContent::Thinking(
                ThinkingContent {
                    thinking: joined(t.thinking.as_str(), thinking.as_str()),
                    thinking_signature: copy_text(&t.thinking_signature),
                    item_id: copy_text(&t.item_id),
                },
            ),
        ),
        (ContentBlockDelta::SignatureDelta { signature }, AssistantContent::Thinking(t)) => {
            let grown = match &t.thinking_signature {
                Some(s) => joined(s.as_str(), signature.as_str()),
                None => signature.clone(),
            };
            Some(
                AssistantContent::Thinking(
                    ThinkingContent {
                        thinking: t.thinking.clone(),
                        thinking_signature: Some(grown),
                        item_id: copy_text(&t.item_id),
                    },
                ),
            )
        },
        (ContentBlockDelta::InputJsonDelta { .. }, AssistantContent::ToolCall(_)) => Some(block.clone()),
        _ => None,
    }
}

/// The arguments that the received text amounts to.
fn finish_arguments(received: &Json, json: &String) -> (r: Json)
    ensures
        json_view(r) == final_arguments(json_view(*received), json@),
{
    if json.as_str().is_empty() {
        return received.clone();
    }
    match parse_json_with_repair(json.as_str()) {
        Ok(v) => v,
        Err(e) => {
            let mut o: Vec<(String, Json)> = Vec::new();
            let ghost ev = e@;
            o.push((owned("__parseError"), Json::String(e)));
            o.push((owned("__rawJson"), Json::String(truncate_for_error(json.as_str()))));
            proof {
                lemma_object_view(o);
                assert(members_view(o@) =~= seq![
                    ("__parseError"@, JsonView::String(ev)),
                    ("__rawJson"@, JsonView::String(cut_for_error(json@))),
                ]);
            }
            Json::Object(o)
        },
    }
}

/// A block as it is when it closes.
#[verifier::rlimit(40)]
fn close_content(block: &AssistantContent, open: &OpenBlock) -> (r: AssistantContent)
    ensures
        r.deep_view() == closed_content(block.deep_view(), open.deep_view()),
{
    match (open.kind, block) {
        (BlockKind::Thinking, AssistantContent::Thinking(t)) => {
            match unwrap_thinking_envelope(t.thinking.as_str()) {
                Some(inner) => AssistantContent::Thinking(
                    ThinkingContent {
                        thinking: inner,
                        thinking_signature: None,
                        item_id: copy_text(&t.item_id),
                    },
                ),
                None => block.clone(),
            }
        },
        (BlockKind::ToolCall, AssistantContent::ToolCall(t)) => {
            let mut call = t.clone();
            call.arguments = finish_arguments(&t.arguments, &open.partial_json);
            AssistantContent::ToolCall(call)
        },
        _ => block.clone(),
    }
}

impl StreamingBuilder {
    /// An empty message, stamped with what is known of its request.
    pub fn new(meta: &RequestMeta) -> (r: Self)
        ensures
            r@ == initial(*meta),
            well_formed(r@),
    {
        broadcast use vstd::std_specs::hash::group_hash_axioms;

        let r = StreamingBuilder {
            working: empty_message(meta),
            open_blocks: Vec::new(),
            saw_message_start: false,
            saw_terminal: false,
            saw_message_stop: false,
            saw_spliced_envelope: false,
            closed_block_indexes: HashSet::new(),
        };
        assert(r.open_blocks.deep_view() =~= Seq::empty());
        assert(r@.closed =~= Set::empty());
        r
    }

    /// The message as far as it has come.
    pub fn snapshot(&self) -> (r: Arc<AssistantMessage>)
        ensures
            (*r).deep_view() == self@.working,
    {
        Arc::new(self.working.clone())
    }

    /// Whether the stream's envelope has come.
    pub fn saw_message_start(&self) -> (r: bool)
        ensures
            r == self@.saw_message_start,
    {
        self.saw_message_start
    }

    /// Whether the token counts of an event fit.
    pub fn accepts(&self, event: &RawMessageStreamEvent) -> (r: bool)
        ensures
            r == counts_fit(self@, *event),
    {
        match event {
            RawMessageStreamEvent::MessageStart { message } => {
                self.saw_message_start || usage_fits(&message.usage)
            },
            RawMessageStreamEvent::MessageDelta { delta: _, usage } => {
                self.saw_terminal || {
                    let u = &self.working.usage;
                    let total = value_or(usage.input_tokens, u.input) as u128
                        + value_or(usage.output_tokens, u.output) as u128
                        + value_or(usage.cache_read_input_tokens, u.cache_read) as u128
                        + value_or(usage.cache_creation_input_tokens, u.cache_write) as u128;
                    total <= u64::MAX as u128
                }
            },
            _ => true,
        }
    }

    /// Records the time to the first token; later calls change nothing.
    pub fn set_ttft_once(&mut self, ttft_ms: u64)
        ensures
            final(self)@ == (BuilderView {
                working: AssistantView {
                    ttft: match old(self)@.working.ttft {
                        Some(t) => Some(t),
                        None => Some(ttft_ms),
                    },
                    ..old(self)@.working
                },
                ..old(self)@
            }),
    {
        if self.working.ttft.is_none() {
            self.working.ttft = Some(ttft_ms);
        }
    }

    /// Records how long the request took.
    pub fn set_duration(&mut self, duration_ms: u64)
        ensures
            final(self)@ == (BuilderView {
                working: AssistantView { duration: Some(duration_ms), ..old(self)@.working },
                ..old(self)@
            }),
    {
        self.working.duration = Some(duration_ms);
    }

    /// Where the open block with the wire index stands.
    fn find_open(&self, index: u64) -> (p: usize)
        ensures
            p == open_pos(self@.open, index),
            p <= self.open_blocks.len(),
    {
        let mut i: usize = 0;
        while i < self.open_blocks.len()
            invariant
                i <= self.open_blocks.len(),
                forall|k: int| 0 <= k < i ==> (#[trigger] self@.open[k]).index != index,
            decreases self.open_blocks.len() - i,
        {
            assert(self@.open[i as int] == self.open_blocks@[i as int].deep_view());
            if self.open_blocks[i].index == index {
                proof {
                    lemma_open_pos_is(self@.open, index, i as int);
                }
                return i;
            }
            i = i + 1;
        }
        proof {
            lemma_open_pos_is(self@.open, index, i as int);
        }
        i
    }

    /// Takes in a raw event and gives the events it amounts to.
    #[verifier::rlimit(40)]
    pub fn on_event(&mut self, event: RawMessageStreamEvent) -> (r: Vec<AssistantMessageEvent>)
        requires
            well_formed(old(self)@),
            counts_fit(old(self)@, event),
        ensures
            (final(self)@, r.deep_view()) == after_event(old(self)@, event),
            well_formed(final(self)@),
    {
        proof {
            law_event_keeps_well_formed(self@, event);
        }
        match event {
            RawMessageStreamEvent::MessageStart { message } => {
                if self.saw_message_start {
                    self.saw_spliced_envelope = true;
                } else {
                    self.saw_message_start = true;
                    self.working.usage = convert_usage(&message.usage);
                    self.working.response_id = Some(message.id);
                }
                no_events()
            },
            RawMessageStreamEvent::ContentBlockStart { index, content_block } => self.on_block_start(
                index,
                &content_block,
            ),
            RawMessageStreamEvent::ContentBlockDelta { index, delta } => self.on_block_delta(index, delta),
            RawMessageStreamEvent::ContentBlockStop { index } => self.on_block_stop(index),
            RawMessageStreamEvent::MessageDelta { delta, usage } => {
                if self.saw_terminal {
                    return no_events();
                }
                if let Some(raw) = &delta.stop_reason {
                    self.working.stop_reason = map_stop_reason(raw);
                    self.saw_terminal = true;
                    if self.working.stop_reason == StopReason::Error {
                        self.working.stop_details = match &delta.stop_details {
                            Some(d) => Some(d.clone()),
                            None => None,
                        };
                        self.working.error_message = Some(error_stop_message(&delta));
                    }
                }
                merge_delta_usage(&mut self.working.usage, &usage);
                no_events()
            },
            RawMessageStreamEvent::MessageStop => {
                self.saw_terminal = true;
                self.saw_message_stop = true;
                no_events()
            },
        }
    }

    #[verifier::rlimit(40)]
    fn on_block_start(&mut self, index: u64, block: &ResponseBlock) -> (r: Vec<AssistantMessageEvent>)
        ensures
            (final(self)@, r.deep_view()) == block_opened(old(self)@, index, *block),
    {
        broadcast use vstd::std_specs::hash::group_hash_axioms;

        let ghost before = self@;
        let p = self.find_open(index);
        if self.saw_terminal || p < self.open_blocks.len() {
            return no_events();
        }
        let replayed = self.saw_spliced_envelope && self.closed_block_indexes.contains(&index);
        let known = match block {
            ResponseBlock::Known(known) => known,
            ResponseBlock::Unknown(_) => {
                self.open_ignored(index);
                return no_events();
            },
        };
        if replayed {
            self.open_ignored(index);
            return no_events();
        }
        if let ResponseContentBlock::Fallback { .. } = known {
            self.open_ignored(index);
            return no_events();
        }
        let (content, kind) = open_content(known);
        let content_index = self.working.content.len();
        let ghost content_view = content.deep_view();
        self.working.content.push(content);
        assert(self.working.content.deep_view() =~= before.working.content.push(content_view));
        let open = OpenBlock { index, content_index, kind, partial_json: String::new() };
        let ghost open_view = open.deep_view();
        self.open_blocks.push(open);
        assert(self.open_blocks.deep_view() =~= before.open.push(open_view));
        let partial = self.snapshot();
        open_events(known, content_index, partial)
    }

    /// Opens a block that the message does not take in.
    fn open_ignored(&mut self, index: u64)
        ensures
            final(self)@ == (BuilderView { open: old(self)@.open.push(ignored_open(index)), ..old(self)@ }),
    {
        let ghost before = self@;
        let open = ignored_block(index);
        let ghost open_view = open.deep_view();
        self.open_blocks.push(open);
        assert(self.open_blocks.deep_view() =~= before.open.push(open_view));
    }

    #[verifier::rlimit(40)]
    fn on_block_delta(&mut self, index: u64, delta: ContentBlockDelta) -> (r: Vec<AssistantMessageEvent>)
        requires
            well_formed(old(self)@),
        ensures
            (final(self)@, r.deep_view()) == block_grown(old(self)@, index, delta),
    {
        let ghost before = self@;
        let p = self.find_open(index);
        if self.saw_terminal || p >= self.open_blocks.len() {
            return no_events();
        }
        assert(before.open[p as int] == self.open_blocks@[p as int].deep_view());
        if self.open_blocks[p].kind == BlockKind::Ignored {
            return no_events();
        }
        let content_index = self.open_blocks[p].content_index;
        assert(fits(before.open[p as int], before.working.content));
        let grown = grow_content(&self.working.content[content_index], &delta);
        match grown {
            None => no_events(),
            Some(block) => {
                let ghost block_view = block.deep_view();
                self.working.content.set(content_index, block);
                assert(self.working.content.deep_view() =~= before.working.content.update(
                    content_index as int,
                    block_view,
                ));
                if let ContentBlockDelta::InputJsonDelta { partial_json } = &delta {
                    let json = joined(self.open_blocks[p].partial_json.as_str(), partial_json.as_str());
                    let kind = self.open_blocks[p].kind;
                    let open = OpenBlock { index, content_index, kind, partial_json: json };
                    let ghost open_view = open.deep_view();
                    self.open_blocks.set(p, open);
                    proof {
                        lemma_open_pos(before.open, index);
                        assert(self.open_blocks.deep_view() =~= before.open.update(p as int, open_view));
                    }
                }
                let partial = self.snapshot();
                let mut events: Vec<AssistantMessageEvent> = Vec::new();
                let ghost d = delta;
                match delta {
                    ContentBlockDelta::TextDelta { text } => {
                        events.push(
                            AssistantMessageEvent::TextDelta { content_index, delta: text, partial },
                        );
                    },
                    ContentBlockDelta::ThinkingDelta { thinking } => {
                        events.push(
                            AssistantMessageEvent::ThinkingDelta { content_index, delta: thinking, partial },
                        );
                    },
                    ContentBlockDelta::InputJsonDelta { partial_json } => {
                        events.push(
                            AssistantMessageEvent::ToolcallDelta {
                                content_index,
                                delta: partial_json,
                                partial,
                            },
                        );
                    },
                    ContentBlockDelta::SignatureDelta { .. } => {},
                }
                assert(events.deep_view() =~= delta_events(d, content_index as int, self@.working));
                events
            },
        }
    }

    #[verifier::rlimit(40)]
    fn on_block_stop(&mut self, index: u64) -> (r: Vec<AssistantMessageEvent>)
        requires
            well_formed(old(self)@),
        ensures
            (final(self)@, r.deep_view()) == after_event(
                old(self)@,
                RawMessageStreamEvent::ContentBlockStop { index },
            ),
    {
        broadcast use vstd::std_specs::hash::group_hash_axioms;

        let ghost before = self@;
        let p = self.find_open(index);
        if p >= self.open_blocks.len() {
            return no_events();
        }
        assert(before.open[p as int] == self.open_blocks@[p as int].deep_view());
        assert(fits(before.open[p as int], before.working.content));
        let open = self.open_blocks.remove(p);
        assert(self.open_blocks.deep_view() =~= before.open.remove(p as int));
        self.closed_block_indexes.insert(index);
        self.finalize_block(&open)
    }

    /// Closes a block of the message.
    #[verifier::rlimit(40)]
    fn finalize_block(&mut self, open: &OpenBlock) -> (r: Vec<AssistantMessageEvent>)
        requires
            fits(open.deep_view(), old(self)@.working.content),
        ensures
            (final(self)@.working, r.deep_view()) == block_finished(
                old(self)@.working,
                open.deep_view(),
            ),
            final(self)@ == (BuilderView { working: final(self)@.working, ..old(self)@ }),
    {
        let ghost before = self@;
        let content_index = open.content_index;
        if open.kind == BlockKind::Ignored {
            return no_events();
        }
        let block = close_content(&self.working.content[content_index], open);
        let ghost block_view = block.deep_view();
        self.working.content.set(content_index, block);
        assert(self.working.content.deep_view() =~= before.working.content.update(
            content_index as int,
            block_view,
        ));
        let mut events: Vec<AssistantMessageEvent> = Vec::new();
        let partial = self.snapshot();
        match (open.kind, &self.working.content[content_index]) {
            (BlockKind::Text, AssistantContent::Text(t)) => {
                events.push(
                    AssistantMessageEvent::TextEnd { content_index, content: t.text.clone(), partial },
                );
            },
            (BlockKind::Thinking, AssistantContent::Thinking(t)) => {
                events.push(
                    AssistantMessageEvent::ThinkingEnd { content_index, content: t.thinking.clone(), partial },
                );
            },
            (BlockKind::ToolCall, AssistantContent::ToolCall(t)) => {
                events.push(
                    AssistantMessageEvent::ToolcallEnd { content_index, tool_call: t.clone(), partial },
                );
            },
            _ => {},
        }
        assert(events.deep_view() =~= closing_events(open.deep_view(), block_view, self@.working));
        events
    }

    /// Ends the turn: the open blocks close, then comes the terminal event.
    #[verifier::rlimit(40)]
    pub fn finish(self) -> (r: (Arc<AssistantMessage>, Vec<AssistantMessageEvent>))
        requires
            well_formed(self@),
        ensures
            ((*r.0).deep_view(), r.1.deep_view()) == finished(self@),
    {
        let mut this = self;
        let ghost start = this@;
        let mut events: Vec<AssistantMessageEvent> = Vec::new();
        let mut dangling: Vec<OpenBlock> = Vec::new();
        dangling.append(&mut this.open_blocks);
        assert(dangling.deep_view() =~= start.open);
        let mut i: usize = 0;
        assert(start.open.take(0) =~= Seq::empty());
        assert(events.deep_view() =~= Seq::empty());
        while i < dangling.len()
            invariant
                i <= dangling.len(),
                well_formed(start),
                dangling.deep_view() == start.open,
                (this@.working, events.deep_view()) == all_finished(start.working, start.open.take(i as int)),
                this@.working.content.len() == start.working.content.len(),
                same_kinds(start.working.content, this@.working.content),
                this.saw_message_start == start.saw_message_start,
            decreases dangling.len() - i,
        {
            let ghost now = this@.working;
            let ghost done = events.deep_view();
            proof {
                assert(start.open[i as int] == dangling@[i as int].deep_view());
                assert(fits(start.open[i as int], start.working.content));
                assert(start.open.take(i + 1).drop_last() =~= start.open.take(i as int));
                assert(start.open.take(i + 1).last() == start.open[i as int]);
            }
            let mut more = this.finalize_block(&dangling[i]);
            let ghost added = more.deep_view();
            events.append(&mut more);
            assert(events.deep_view() =~= done + added);
            i = i + 1;
        }
        assert(start.open.take(i as int) =~= start.open);
        if !this.saw_message_start {
            this.working.stop_reason = StopReason::Error;
            this.working.error_message = Some(owned("stream ended before message_start"));
        }
        let message = Arc::new(this.working);
        let ghost done = events.deep_view();
        events.push(terminal_event(&message));
        assert(events.deep_view() =~= done.push(terminal_of((*message).deep_view())));
        (message, events)
    }

    /// Ends the turn with a failure from outside; the message keeps what it holds.
    pub fn fail(self, stop_reason: StopReason, error_message: String) -> (r: (
        Arc<AssistantMessage>,
        Vec<AssistantMessageEvent>,
    ))
        ensures
            (*r.0).deep_view() == failed(self@, stop_reason, error_message@),
            r.1.deep_view() == seq![terminal_of(failed(self@, stop_reason, error_message@))],
    {
        let mut this = self;
        this.working.stop_reason = stop_reason;
        this.working.error_message = Some(error_message);
        let message = Arc::new(this.working);
        let mut events: Vec<AssistantMessageEvent> = Vec::new();
        events.push(terminal_event(&message));
        assert(events.deep_view() =~= seq![terminal_of((*message).deep_view())]);
        (message, events)
    }
}

fn no_events() -> (r: Vec<AssistantMessageEvent>)
    ensures
        r.deep_view() == Seq::<EventView>::empty(),
{
    let r: Vec<AssistantMessageEvent> = Vec::new();
    assert(r.deep_view() =~= Seq::<EventView>::empty());
    r
}

fn value_or(o: Option<u64>, n: u64) -> (r: u64)
    ensures
        r == or_else(o, n),
{
    match o {
        Some(m) => m,
        None => n,
    }
}

// ---- what holds of every turn ------------------------------------------------

/// Block by block, two contents are of the same kinds.
pub open spec fn same_kinds(a: Seq<ContentView>, b: Seq<ContentView>) -> bool {
    a.len() == b.len() && forall|i: int|
        0 <= i < a.len() ==> (#[trigger] a[i] is Text == b[i] is Text) && (a[i] is Thinking == b[i] is Thinking)
            && (a[i] is RedactedThinking == b[i] is RedactedThinking) && (a[i] is ToolCall == b[i] is ToolCall)
}

/// Every raw event keeps the state well formed.
pub proof fn law_event_keeps_well_formed(b: BuilderView, e: RawMessageStreamEvent)
    requires
        well_formed(b),
    ensures
        well_formed(after_event(b, e).0),
{
    let n = after_event(b, e).0;
    match e {
        RawMessageStreamEvent::ContentBlockStart { index, content_block } => {
            lemma_open_pos(b.open, index);
            assert forall|i: int| 0 <= i < n.open.len() implies fits(#[trigger] n.open[i], n.working.content) by {
                if i < b.open.len() {
                    assert(n.open[i] == b.open[i]);
                    assert(fits(b.open[i], b.working.content));
                }
            }
            assert forall|i: int, j: int| 0 <= i < j < n.open.len() implies (#[trigger] n.open[i]).index != (
            #[trigger] n.open[j]).index by {
                assert(n.open[i] == b.open[i]);
                if j < b.open.len() {
                    assert(n.open[j] == b.open[j]);
                }
            }
            assert forall|i: int, j: int|
                0 <= i < j < n.open.len() && (#[trigger] n.open[i]).kind != BlockKind::Ignored && (
                #[trigger] n.open[j]).kind != BlockKind::Ignored implies n.open[i].content_index
                < n.open[j].content_index by {
                assert(n.open[i] == b.open[i]);
                assert(fits(b.open[i], b.working.content));
                if j < b.open.len() {
                    assert(n.open[j] == b.open[j]);
                }
            }
        },
        RawMessageStreamEvent::ContentBlockDelta { index, delta } => {
            lemma_open_pos(b.open, index);
            assert forall|i: int| 0 <= i < n.open.len() implies fits(#[trigger] n.open[i], n.working.content) by {
                assert(fits(b.open[i], b.working.content));
            }
        },
        RawMessageStreamEvent::ContentBlockStop { index } => {
            lemma_open_pos(b.open, index);
            let p = open_pos(b.open, index);
            if p < b.open.len() {
                assert forall|i: int| 0 <= i < n.open.len() implies fits(#[trigger] n.open[i], n.working.content) by {
                    let k = if i < p {
                        i
                    } else {
                        i + 1
                    };
                    assert(n.open[i] == b.open[k]);
                    assert(fits(b.open[k], b.working.content));
                }
                assert forall|i: int, j: int| 0 <= i < j < n.open.len() implies (#[trigger] n.open[i]).index != (
                #[trigger] n.open[j]).index by {
                    let k = if i < p { i } else { i + 1 };
                    let l = if j < p { j } else { j + 1 };
                    assert(n.open[i] == b.open[k] && n.open[j] == b.open[l]);
                }
                assert forall|i: int, j: int|
                    0 <= i < j < n.open.len() && (#[trigger] n.open[i]).kind != BlockKind::Ignored && (
                    #[trigger] n.open[j]).kind != BlockKind::Ignored implies n.open[i].content_index
                    < n.open[j].content_index by {
                    let k = if i < p { i } else { i + 1 };
                    let l = if j < p { j } else { j + 1 };
                    assert(n.open[i] == b.open[k] && n.open[j] == b.open[l]);
                }
            }
        },
        _ => {},
    }
}

/// No raw event takes a block out of the message or changes its kind.
pub proof fn law_content_only_grows(b: BuilderView, e: RawMessageStreamEvent)
    requires
        well_formed(b),
    ensures
        b.working.content.len() <= after_event(b, e).0.working.content.len(),
        same_kinds(
            b.working.content,
            after_event(b, e).0.working.content.take(b.working.content.len() as int),
        ),
{
    let n = after_event(b, e).0;
    match e {
        RawMessageStreamEvent::ContentBlockDelta { index, delta: _ } => {
            lemma_open_pos(b.open, index);
            if open_pos(b.open, index) < b.open.len() {
                assert(fits(b.open[open_pos(b.open, index)], b.working.content));
            }
        },
        RawMessageStreamEvent::ContentBlockStop { index } => {
            lemma_open_pos(b.open, index);
            if open_pos(b.open, index) < b.open.len() {
                assert(fits(b.open[open_pos(b.open, index)], b.working.content));
            }
        },
        _ => {},
    }
}

/// After a second envelope, the start of a block that was closed changes nothing
/// in the message and is reported by no event, whatever the block holds.
pub proof fn law_replayed_block_is_dropped(b: BuilderView, index: u64, block: ResponseBlock)
    requires
        b.saw_spliced_envelope,
        b.closed.contains(index),
    ensures
        block_opened(b, index, block).0.working == b.working,
        block_opened(b, index, block).1.len() == 0,
{
}

/// Deltas for one block come, one after the other.
pub open spec fn deltas_through(b: BuilderView, index: u64, deltas: Seq<ContentBlockDelta>) -> (
    BuilderView,
    Seq<EventView>,
)
    decreases deltas.len(),
{
    if deltas.len() == 0 {
        (b, Seq::empty())
    } else {
        let (before, events) = deltas_through(b, index, deltas.drop_last());
        let (now, more) = block_grown(before, index, deltas.last());
        (now, events + more)
    }
}

/// After a second envelope, a block that was closed is dropped from its replayed
/// start to its replayed stop: none of its deltas changes anything or is reported,
/// and with the stop the builder is what it was before the start.
pub proof fn law_replay_leaves_no_trace(
    b: BuilderView,
    index: u64,
    block: ResponseBlock,
    deltas: Seq<ContentBlockDelta>,
)
    requires
        b.saw_spliced_envelope,
        b.closed.contains(index),
        !is_open(b, index),
    ensures
        ({
            let (opened, events) = block_opened(b, index, block);
            &&& opened.working == b.working
            &&& events.len() == 0
            &&& deltas_through(opened, index, deltas) == (opened, Seq::<EventView>::empty())
            &&& after_event(opened, RawMessageStreamEvent::ContentBlockStop { index }) == (b, Seq::<EventView>::empty())
        }),
    decreases deltas.len(),
{
    let opened = block_opened(b, index, block).0;
    lemma_open_pos(b.open, index);
    if !b.saw_terminal {
        assert forall|i: int| 0 <= i < b.open.len() implies (#[trigger] opened.open[i]).index != index by {
            assert(opened.open[i] == b.open[i]);
        }
        lemma_open_pos_is(opened.open, index, b.open.len() as int);
        assert(opened.open.remove(b.open.len() as int) =~= b.open);
        assert(b.closed.insert(index) =~= b.closed);
        assert(after_event(opened, RawMessageStreamEvent::ContentBlockStop { index }).0 =~= b);
    }
    if deltas.len() > 0 {
        law_replay_leaves_no_trace(b, index, block, deltas.drop_last());
        assert(Seq::<EventView>::empty() + Seq::<EventView>::empty() =~= Seq::<EventView>::empty());
    }
}

/// A second envelope leaves the message, with its identifier and usage, as it is.
pub proof fn law_second_envelope_changes_no_message(b: BuilderView, e: RawMessageStreamEvent)
    requires
        b.saw_message_start,
        e is MessageStart,
    ensures
        after_event(b, e).0.working == b.working,
        after_event(b, e).0.saw_spliced_envelope,
        after_event(b, e).1.len() == 0,
{
}

/// After the end of the message neither a new block nor a delta is taken in.
pub proof fn law_nothing_grows_after_terminal(b: BuilderView, e: RawMessageStreamEvent)
    requires
        b.saw_terminal,
        e is ContentBlockStart || e is ContentBlockDelta || e is MessageDelta,
    ensures
        after_event(b, e) == (b, Seq::<EventView>::empty()),
{
}

/// No event before the end of the stream ends the turn.
pub proof fn law_events_do_not_end_turn(b: BuilderView, e: RawMessageStreamEvent, k: int)
    requires
        0 <= k < after_event(b, e).1.len(),
    ensures
        !ends_turn(after_event(b, e).1[k]),
{
}

proof fn lemma_finish_block_events(m: AssistantView, o: OpenView)
    ensures
        forall|k: int|
            0 <= k < block_finished(m, o).1.len() ==> !ends_turn(#[trigger] block_finished(m, o).1[k]),
{
}

proof fn lemma_all_finished_events(m: AssistantView, open: Seq<OpenView>)
    ensures
        forall|k: int|
            0 <= k < all_finished(m, open).1.len() ==> !ends_turn(#[trigger] all_finished(m, open).1[k]),
    decreases open.len(),
{
    if open.len() > 0 {
        let (before, events) = all_finished(m, open.drop_last());
        lemma_all_finished_events(m, open.drop_last());
        lemma_finish_block_events(before, open.last());
        let more = block_finished(before, open.last()).1;
        let all = all_finished(m, open).1;
        assert forall|k: int| 0 <= k < all.len() implies !ends_turn(#[trigger] all[k]) by {
            if k < events.len() {
                assert(all[k] == events[k]);
            } else {
                assert(all[k] == more[k - events.len()]);
            }
        }
    }
}

/// A finished turn has exactly one terminal event; it comes last and carries the
/// final message.
pub proof fn law_finish_ends_turn_once(b: BuilderView)
    ensures
        finished(b).1.len() > 0,
        finished(b).1.last() == terminal_of(finished(b).0),
        forall|k: int|
            0 <= k < finished(b).1.len() - 1 ==> !ends_turn(#[trigger] finished(b).1[k]),
{
    lemma_all_finished_events(b.working, b.open);
    let events = all_finished(b.working, b.open).1;
    assert forall|k: int| 0 <= k < finished(b).1.len() - 1 implies !ends_turn(#[trigger] finished(b).1[k]) by {
        assert(finished(b).1[k] == events[k]);
    }
}

/// A stream that ends before its envelope ends in an error, whatever came.
pub proof fn law_no_envelope_is_an_error(b: BuilderView)
    requires
        !b.saw_message_start,
    ensures
        finished(b).0.stop_reason == StopReason::Error,
        finished(b).1.last() is Error,
{
    law_finish_ends_turn_once(b);
}

/// A failure keeps every block that the message holds.
pub proof fn law_failure_keeps_content(b: BuilderView, stop_reason: StopReason, error_message: Text)
    ensures
        failed(b, stop_reason, error_message).content == b.working.content,
        failed(b, stop_reason, error_message).usage == b.working.usage,
{
}

/// Merging a report always leaves the total equal to the sum of the counts.
pub proof fn law_merged_total_is_sum(u: UsageView, d: WireUsage)
    requires
        merged_total(u, d) <= u64::MAX,
    ensures
        merged_usage(u, d).total_tokens == merged_usage(u, d).input + merged_usage(u, d).output
            + merged_usage(u, d).cache_read + merged_usage(u, d).cache_write,
{
}

proof fn lemma_innermost(s: Text)
    ensures
        !is_enveloped(innermost(s)),
        trimmed(innermost(s)) == innermost(s),
    decreases s.len(),
{
    lemma_trimmed_shorter(s);
    let t = trimmed(s);
    if is_enveloped(t) {
        lemma_innermost(without_envelope(t));
    } else {
        lemma_trim_idempotent(s);
    }
}

/// What was taken out of its envelopes is in none: unwrapping it again does
/// nothing.
pub proof fn law_unwrapped_text_has_no_envelope(s: Text)
    requires
        unwrapped(s) is Some,
    ensures
        unwrapped(unwrapped(s)->0) is None,
{
    lemma_innermost(s);
}

/// The arguments of a call are what its JSON says wherever it is JSON; where no
/// reading can be made of it, they say so and keep what came.
pub proof fn law_arguments_are_not_lost(received: JsonView, json: Text)
    requires
        json.len() > 0,
    ensures
        strict_json(json) is Some ==> final_arguments(received, json) == strict_json(json)->0,
        repaired_json(json) is Err ==> text_in(field_of(final_arguments(received, json), "__rawJson"@)) == Some(
            cut_for_error(json),
        ),
        repaired_json(json) is Err ==> text_in(field_of(final_arguments(received, json), "__parseError"@)) is Some,
{
    if repaired_json(json) is Err {
        let o = final_arguments(received, json)->Object_0;
        reveal_strlit("__parseError");
        reveal_strlit("__rawJson");
        assert("__parseError"@.len() == 12 && "__rawJson"@.len() == 9);
        lemma_member_pos_is(o, "__parseError"@, 0);
        lemma_member_pos_is(o, "__rawJson"@, 1);
    }
}

// ---- what becomes of what comes --------------------------------------------------

/// Raw events come, one after the other.
pub open spec fn events_through(b: BuilderView, raws: Seq<RawMessageStreamEvent>) -> (BuilderView, Seq<EventView>)
    decreases raws.len(),
{
    if raws.len() == 0 {
        (b, Seq::empty())
    } else {
        let (before, events) = events_through(b, raws.drop_last());
        let (now, more) = after_event(before, raws.last());
        (now, events + more)
    }
}

/// Texts one behind the other.
pub open spec fn run_together(texts: Seq<String>) -> Text
    decreases texts.len(),
{
    if texts.len() == 0 {
        Seq::empty()
    } else {
        run_together(texts.drop_last()) + texts.last()@
    }
}

/// Text deltas for a block.
pub open spec fn text_deltas(index: u64, texts: Seq<String>) -> Seq<RawMessageStreamEvent> {
    Seq::new(
        texts.len(),
        |k: int| RawMessageStreamEvent::ContentBlockDelta { index, delta: ContentBlockDelta::TextDelta { text: texts[k] } },
    )
}

/// Thinking deltas for a block.
pub open spec fn thinking_deltas(index: u64, texts: Seq<String>) -> Seq<RawMessageStreamEvent> {
    Seq::new(
        texts.len(),
        |k: int|
            RawMessageStreamEvent::ContentBlockDelta {
                index,
                delta: ContentBlockDelta::ThinkingDelta { thinking: texts[k] },
            },
    )
}

/// Argument deltas for a block.
pub open spec fn argument_deltas(index: u64, texts: Seq<String>) -> Seq<RawMessageStreamEvent> {
    Seq::new(
        texts.len(),
        |k: int|
            RawMessageStreamEvent::ContentBlockDelta {
                index,
                delta: ContentBlockDelta::InputJsonDelta { partial_json: texts[k] },
            },
    )
}

/// Whether the block at a place of the open ones is open under the index, is of the
/// kind, and stands at the place in the message.
pub open spec fn is_open_at(b: BuilderView, p: int, index: u64, kind: BlockKind, i: int) -> bool {
    &&& well_formed(b)
    &&& 0 <= p < b.open.len()
    &&& b.open[p].index == index
    &&& b.open[p].kind == kind
    &&& b.open[p].content_index == i
}

proof fn lemma_open_at(b: BuilderView, p: int, index: u64, kind: BlockKind, i: int)
    requires
        is_open_at(b, p, index, kind, i),
    ensures
        open_pos(b.open, index) == p,
        fits(b.open[p], b.working.content),
{
    assert forall|j: int| 0 <= j < p implies (#[trigger] b.open[j]).index != index by {
        assert(b.open[j].index != b.open[p].index);
    }
    lemma_open_pos_is(b.open, index, p);
}

/// Before the end of the turn, the text of an open text block is what it was and
/// behind it every delta that came, whatever the deltas hold; each delta is reported
/// by one event, which carries the delta and the text up to it; and nothing else
/// changes.
#[verifier::spinoff_prover]
#[verifier::rlimit(80)]
pub proof fn law_text_deltas_add_up(b: BuilderView, p: int, index: u64, i: int, texts: Seq<String>)
    requires
        !b.saw_terminal,
        is_open_at(b, p, index, BlockKind::Text, i),
    ensures
        ({
            let (now, events) = events_through(b, text_deltas(index, texts));
            let old_text = b.working.content[i]->Text_0;
            &&& b.working.content[i] is Text
            &&& now == (BuilderView {
                working: AssistantView {
                    content: b.working.content.update(
                        i,
                        ContentView::Text(
                            TextView {
                                text: old_text.text + run_together(texts),
                                text_signature: old_text.text_signature,
                            },
                        ),
                    ),
                    ..b.working
                },
                ..b
            })
            &&& events.len() == texts.len()
            &&& forall|k: int|
                0 <= k < texts.len() ==> {
                    &&& (#[trigger] events[k]) is TextDelta
                    &&& events[k]->TextDelta_content_index == i
                    &&& events[k]->TextDelta_delta == texts[k]@
                    &&& events[k]->TextDelta_partial.content[i] is Text
                    &&& events[k]->TextDelta_partial.content[i]->Text_0.text == old_text.text + run_together(
                        texts.take(k + 1),
                    )
                }
        }),
    decreases texts.len(),
{
    lemma_open_at(b, p, index, BlockKind::Text, i);
    let raws = text_deltas(index, texts);
    let t = b.working.content[i]->Text_0;
    if texts.len() == 0 {
        assert(t.text + run_together(texts) =~= t.text);
        assert(b.working.content.update(i, b.working.content[i]) =~= b.working.content);
        assert(events_through(b, raws).0 =~= b);
    } else {
        let fewer = texts.drop_last();
        law_text_deltas_add_up(b, p, index, i, fewer);
        assert(raws.drop_last() =~= text_deltas(index, fewer));
        let (mid, events) = events_through(b, raws.drop_last());
        assert(mid.open == b.open);
        let (now, more) = after_event(mid, raws.last());
        let all = t.text + run_together(texts);
        assert((t.text + run_together(fewer)) + texts.last()@ =~= all);
        assert(now.working.content =~= b.working.content.update(
            i,
            ContentView::Text(TextView { text: all, text_signature: t.text_signature }),
        ));
        let got = events_through(b, raws).1;
        assert forall|k: int| 0 <= k < texts.len() implies (#[trigger] got[k]) is TextDelta
            && got[k]->TextDelta_content_index == i && got[k]->TextDelta_delta == texts[k]@
            && got[k]->TextDelta_partial.content[i] is Text && got[k]->TextDelta_partial.content[i]->Text_0.text
            == t.text + run_together(texts.take(k + 1)) by {
            if k < fewer.len() {
                assert(got[k] == events[k]);
                assert(fewer.take(k + 1) =~= texts.take(k + 1));
            } else {
                assert(texts.take(k + 1) =~= texts);
                assert(got[k] == more[0]);
            }
        }
    }
}

/// Before the end of the turn, the thinking of an open thinking block is what it was
/// and behind it every delta that came; each delta is reported by one event, which
/// carries it; and nothing else changes.
pub proof fn law_thinking_deltas_add_up(b: BuilderView, p: int, index: u64, i: int, texts: Seq<String>)
    requires
        !b.saw_terminal,
        is_open_at(b, p, index, BlockKind::Thinking, i),
    ensures
        ({
            let (now, events) = events_through(b, thinking_deltas(index, texts));
            let old_block = b.working.content[i]->Thinking_0;
            &&& b.working.content[i] is Thinking
            &&& now == (BuilderView {
                working: AssistantView {
                    content: b.working.content.update(
                        i,
                        ContentView::Thinking(
                            ThinkingView {
                                thinking: old_block.thinking + run_together(texts),
                                thinking_signature: old_block.thinking_signature,
                                item_id: old_block.item_id,
                            },
                        ),
                    ),
                    ..b.working
                },
                ..b
            })
            &&& events.len() == texts.len()
            &&& forall|k: int|
                0 <= k < texts.len() ==> {
                    &&& (#[trigger] events[k]) is ThinkingDelta
                    &&& events[k]->ThinkingDelta_content_index == i
                    &&& events[k]->ThinkingDelta_delta == texts[k]@
                }
        }),
    decreases texts.len(),
{
    lemma_open_at(b, p, index, BlockKind::Thinking, i);
    let raws = thinking_deltas(index, texts);
    let t = b.working.content[i]->Thinking_0;
    if texts.len() == 0 {
        assert(t.thinking + run_together(texts) =~= t.thinking);
        assert(b.working.content.update(i, b.working.content[i]) =~= b.working.content);
        assert(events_through(b, raws).0 =~= b);
    } else {
        let fewer = texts.drop_last();
        law_thinking_deltas_add_up(b, p, index, i, fewer);
        assert(raws.drop_last() =~= thinking_deltas(index, fewer));
        let (mid, events) = events_through(b, raws.drop_last());
        let (now, more) = after_event(mid, raws.last());
        let all = t.thinking + run_together(texts);
        assert((t.thinking + run_together(fewer)) + texts.last()@ =~= all);
        assert(now.working.content =~= b.working.content.update(
            i,
            ContentView::Thinking(
                ThinkingView { thinking: all, thinking_signature: t.thinking_signature, item_id: t.item_id },
            ),
        ));
        let got = events_through(b, raws).1;
        assert forall|k: int| 0 <= k < texts.len() implies (#[trigger] got[k]) is ThinkingDelta
            && got[k]->ThinkingDelta_content_index == i && got[k]->ThinkingDelta_delta == texts[k]@ by {
            if k < fewer.len() {
                assert(got[k] == events[k]);
            } else {
                assert(got[k] == more[0]);
            }
        }
    }
}

/// Before the end of the turn, the pieces of a call's arguments are collected in
/// their order; each is reported by one event, which carries it; and the message does
/// not change.
pub proof fn law_argument_deltas_add_up(b: BuilderView, p: int, index: u64, i: int, texts: Seq<String>)
    requires
        !b.saw_terminal,
        is_open_at(b, p, index, BlockKind::ToolCall, i),
    ensures
        ({
            let (now, events) = events_through(b, argument_deltas(index, texts));
            &&& now == (BuilderView {
                open: b.open.update(
                    p,
                    (OpenView { partial_json: b.open[p].partial_json + run_together(texts), ..b.open[p] }),
                ),
                ..b
            })
            &&& events.len() == texts.len()
            &&& forall|k: int|
                0 <= k < texts.len() ==> {
                    &&& (#[trigger] events[k]) is ToolcallDelta
                    &&& events[k]->ToolcallDelta_content_index == i
                    &&& events[k]->ToolcallDelta_delta == texts[k]@
                }
        }),
    decreases texts.len(),
{
    lemma_open_at(b, p, index, BlockKind::ToolCall, i);
    let raws = argument_deltas(index, texts);
    let o = b.open[p];
    if texts.len() == 0 {
        assert(o.partial_json + run_together(texts) =~= o.partial_json);
        assert(b.open.update(p, b.open[p]) =~= b.open);
        assert(events_through(b, raws).0 =~= b);
    } else {
        let fewer = texts.drop_last();
        law_argument_deltas_add_up(b, p, index, i, fewer);
        assert(raws.drop_last() =~= argument_deltas(index, fewer));
        let (mid, events) = events_through(b, raws.drop_last());
        assert forall|j: int| 0 <= j < p implies (#[trigger] mid.open[j]).index != index by {
            assert(mid.open[j] == b.open[j]);
            assert(b.open[j].index != b.open[p].index);
        }
        lemma_open_pos_is(mid.open, index, p);
        let (now, more) = after_event(mid, raws.last());
        let all = o.partial_json + run_together(texts);
        assert((o.partial_json + run_together(fewer)) + texts.last()@ =~= all);
        assert(now.open =~= b.open.update(p, (OpenView { partial_json: all, ..o })));
        assert(now.working.content =~= b.working.content);
        assert(now =~= (BuilderView { open: b.open.update(p, (OpenView { partial_json: all, ..o })), ..b }));
        let got = events_through(b, raws).1;
        assert forall|k: int| 0 <= k < texts.len() implies (#[trigger] got[k]) is ToolcallDelta
            && got[k]->ToolcallDelta_content_index == i && got[k]->ToolcallDelta_delta == texts[k]@ by {
            if k < fewer.len() {
                assert(got[k] == events[k]);
            } else {
                assert(got[k] == more[0]);
            }
        }
    }
}

/// Before the end of the turn, a signature delta lengthens the signature of an open
/// thinking block and changes nothing else; no event reports it.
pub proof fn law_signature_deltas_add_up(b: BuilderView, p: int, index: u64, i: int, signature: String)
    requires
        !b.saw_terminal,
        is_open_at(b, p, index, BlockKind::Thinking, i),
    ensures
        ({
            let delta = ContentBlockDelta::SignatureDelta { signature };
            let (now, events) = after_event(b, RawMessageStreamEvent::ContentBlockDelta { index, delta });
            let was = b.working.content[i]->Thinking_0;
            let is = now.working.content[i]->Thinking_0;
            &&& events.len() == 0
            &&& now.open == b.open
            &&& now.working.content.len() == b.working.content.len()
            &&& now.working.content[i] is Thinking
            &&& is.thinking == was.thinking
            &&& is.thinking_signature is Some
            &&& was.thinking_signature is None ==> is.thinking_signature->0 == signature@
            &&& was.thinking_signature is Some ==> is.thinking_signature->0 == was.thinking_signature->0 + signature@
            &&& forall|j: int|
                0 <= j < b.working.content.len() && j != i ==> (#[trigger] now.working.content[j])
                    == b.working.content[j]
        }),
{
    lemma_open_at(b, p, index, BlockKind::Thinking, i);
}

/// A block that may open stands at the end of the message with what it came with,
/// an empty signature counting as none, and is open under its index. Its start is
/// reported, and behind it its text or thinking, where there is any.
pub proof fn law_block_is_taken_in(b: BuilderView, index: u64, known: ResponseContentBlock)
    requires
        !b.saw_terminal,
        !(b.saw_spliced_envelope && b.closed.contains(index)),
        forall|j: int| 0 <= j < b.open.len() ==> (#[trigger] b.open[j]).index != index,
    ensures
        ({
            let (now, events) = after_event(
                b,
                RawMessageStreamEvent::ContentBlockStart { index, content_block: ResponseBlock::Known(known) },
            );
            let i = b.working.content.len() as int;
            let c = now.working.content.last();
            let opened = now.open.last();
            &&& now.saw_terminal == b.saw_terminal && now.closed == b.closed
            &&& now.open.len() == b.open.len() + 1 && now.open.drop_last() == b.open && opened.index == index
            &&& opened.partial_json.len() == 0
            &&& !(known is Fallback) ==> now.working == (AssistantView {
                content: b.working.content.push(c),
                ..b.working
            }) && opened.content_index == i
            &&& match known {
                ResponseContentBlock::Text { text } => {
                    &&& c == ContentView::Text(TextView { text: text@, text_signature: None })
                    &&& opened.kind == BlockKind::Text
                    &&& events.len() == (if text@.len() > 0 {
                        2int
                    } else {
                        1
                    })
                    &&& events[0] == (EventView::TextStart { content_index: i, partial: now.working })
                    &&& text@.len() > 0 ==> events[1] == (EventView::TextDelta {
                        content_index: i,
                        delta: text@,
                        partial: now.working,
                    })
                },
                ResponseContentBlock::Thinking { thinking, signature } => {
                    &&& c is Thinking && c->Thinking_0.thinking == thinking@
                    &&& signature is Some && signature->0@.len() > 0 ==> c->Thinking_0.thinking_signature == Some(
                        signature->0@,
                    )
                    &&& signature is None || signature->0@.len() == 0 ==> c->Thinking_0.thinking_signature is None
                    &&& opened.kind == BlockKind::Thinking
                    &&& events.len() == (if thinking@.len() > 0 {
                        2int
                    } else {
                        1
                    })
                    &&& events[0] == (EventView::ThinkingStart { content_index: i, partial: now.working })
                    &&& thinking@.len() > 0 ==> events[1] == (EventView::ThinkingDelta {
                        content_index: i,
                        delta: thinking@,
                        partial: now.working,
                    })
                },
                ResponseContentBlock::RedactedThinking { data } => {
                    &&& c == ContentView::RedactedThinking(data@)
                    &&& opened.kind == BlockKind::RedactedThinking
                    &&& events.len() == 0
                },
                ResponseContentBlock::ToolUse { id, name, input } => {
                    &&& c is ToolCall && c->ToolCall_0.id == id@ && c->ToolCall_0.name == name@
                    &&& input is Some ==> c->ToolCall_0.arguments == json_view(input->0)
                    &&& input is None ==> c->ToolCall_0.arguments == JsonView::Object(Seq::empty())
                    &&& opened.kind == BlockKind::ToolCall
                    &&& events == seq![EventView::ToolcallStart { content_index: i, partial: now.working }]
                },
                ResponseContentBlock::Fallback { .. } => now.working == b.working && events.len() == 0 && opened.kind
                    == BlockKind::Ignored,
            }
        }),
{
    lemma_open_pos(b.open, index);
    assert(b.open.push(ignored_open(index)).drop_last() =~= b.open);
    let now = after_event(
        b,
        RawMessageStreamEvent::ContentBlockStart { index, content_block: ResponseBlock::Known(known) },
    ).0;
    assert(now.open.drop_last() =~= b.open);
}

/// A text block closes as it is: its end is reported with its whole text, and it is
/// no longer open.
pub proof fn law_text_block_closes_whole(b: BuilderView, p: int, index: u64, i: int)
    requires
        is_open_at(b, p, index, BlockKind::Text, i),
    ensures
        ({
            let (now, events) = after_event(b, RawMessageStreamEvent::ContentBlockStop { index });
            &&& now.working == b.working
            &&& now.open == b.open.remove(p)
            &&& now.closed == b.closed.insert(index)
            &&& events == seq![
                EventView::TextEnd {
                    content_index: i,
                    content: b.working.content[i]->Text_0.text,
                    partial: b.working,
                },
            ]
        }),
{
    lemma_open_at(b, p, index, BlockKind::Text, i);
    assert(b.working.content.update(i, b.working.content[i]) =~= b.working.content);
}

/// A thinking block closes with what stands in it, which its end is reported with.
/// Where it leaked in an envelope, the envelope is gone, and so is the signature,
/// which was made over the envelope.
pub proof fn law_thinking_block_closes_whole(b: BuilderView, p: int, index: u64, i: int)
    requires
        is_open_at(b, p, index, BlockKind::Thinking, i),
    ensures
        ({
            let (now, events) = after_event(b, RawMessageStreamEvent::ContentBlockStop { index });
            let was = b.working.content[i]->Thinking_0;
            let enveloped = starts_with_text(trimmed(was.thinking), "<thinking>"@) && ends_with_text(
                trimmed(was.thinking),
                "</thinking>"@,
            ) && trimmed(was.thinking).len() >= 21;
            &&& now.open == b.open.remove(p)
            &&& now.closed == b.closed.insert(index)
            &&& now.working.content.len() == b.working.content.len()
            &&& now.working.content[i] is Thinking
            &&& !enveloped ==> now.working == b.working
            &&& enveloped ==> now.working.content[i]->Thinking_0.thinking_signature is None
            &&& forall|j: int|
                0 <= j < b.working.content.len() && j != i ==> (#[trigger] now.working.content[j])
                    == b.working.content[j]
            &&& events == seq![
                EventView::ThinkingEnd {
                    content_index: i,
                    content: now.working.content[i]->Thinking_0.thinking,
                    partial: now.working,
                },
            ]
        }),
{
    lemma_open_at(b, p, index, BlockKind::Thinking, i);
    assert(b.working.content.update(i, b.working.content[i]) =~= b.working.content);
}

/// A call closes with the arguments that its collected text writes, where it is
/// JSON; without any such text, with those that it came with. Its end is reported
/// with the whole call.
pub proof fn law_call_closes_with_its_arguments(b: BuilderView, p: int, index: u64, i: int)
    requires
        is_open_at(b, p, index, BlockKind::ToolCall, i),
    ensures
        ({
            let (now, events) = after_event(b, RawMessageStreamEvent::ContentBlockStop { index });
            let was = b.working.content[i]->ToolCall_0;
            let is = now.working.content[i]->ToolCall_0;
            let json = b.open[p].partial_json;
            &&& now.open == b.open.remove(p)
            &&& now.closed == b.closed.insert(index)
            &&& now.working.content.len() == b.working.content.len()
            &&& now.working.content[i] is ToolCall
            &&& is == (ToolCallView { arguments: is.arguments, ..was })
            &&& json.len() == 0 ==> is.arguments == was.arguments
            &&& json.len() > 0 && strict_json(json) is Some ==> is.arguments == strict_json(json)->0
            &&& forall|j: int|
                0 <= j < b.working.content.len() && j != i ==> (#[trigger] now.working.content[j])
                    == b.working.content[j]
            &&& events == seq![EventView::ToolcallEnd { content_index: i, tool_call: is, partial: now.working }]
        }),
{
    lemma_open_at(b, p, index, BlockKind::ToolCall, i);
    if b.open[p].partial_json.len() > 0 {
        law_arguments_are_not_lost(b.working.content[i]->ToolCall_0.arguments, b.open[p].partial_json);
    }
}

/// The first envelope names the response and gives the counts of its usage; a count
/// that it does not give is zero, and the total is their sum.
pub proof fn law_envelope_gives_usage(b: BuilderView, e: RawMessageStreamEvent)
    requires
        !b.saw_message_start,
        e is MessageStart,
        counts_fit(b, e),
    ensures
        ({
            let m = e->MessageStart_message;
            let now = after_event(b, e).0;
            let u = now.working.usage;
            &&& now.saw_message_start
            &&& now.working.response_id == Some(m.id@)
            &&& now.working.content == b.working.content
            &&& now.working.stop_reason == b.working.stop_reason
            &&& u.input == (if let Some(n) = m.usage.input_tokens { n } else { 0 })
            &&& u.output == (if let Some(n) = m.usage.output_tokens { n } else { 0 })
            &&& u.cache_read == (if let Some(n) = m.usage.cache_read_input_tokens { n } else { 0 })
            &&& u.cache_write == (if let Some(n) = m.usage.cache_creation_input_tokens { n } else { 0 })
            &&& u.total_tokens == u.input + u.output + u.cache_read + u.cache_write
            &&& now.open == b.open && now.closed == b.closed && now.saw_terminal == b.saw_terminal
            &&& after_event(b, e).1.len() == 0
        }),
{
}

/// The end of the message gives the reason why the model stopped, replaces the counts
/// that it names and leaves the others. Reasons that are failures leave an error
/// message, and no other does.
pub proof fn law_stop_is_taken_in(b: BuilderView, delta: MessageDelta, usage: WireUsage)
    requires
        !b.saw_terminal,
        counts_fit(b, (RawMessageStreamEvent::MessageDelta { delta, usage })),
    ensures
        ({
            let (now, events) = after_event(b, RawMessageStreamEvent::MessageDelta { delta, usage });
            let was = b.working.usage;
            let is = now.working.usage;
            &&& events.len() == 0
            &&& now.working.content == b.working.content
            &&& now.open == b.open && now.closed == b.closed
            &&& now.saw_terminal == (delta.stop_reason is Some)
            &&& is.input == (if let Some(n) = usage.input_tokens { n } else { was.input })
            &&& is.output == (if let Some(n) = usage.output_tokens { n } else { was.output })
            &&& is.cache_read == (if let Some(n) = usage.cache_read_input_tokens { n } else { was.cache_read })
            &&& is.cache_write == (if let Some(n) = usage.cache_creation_input_tokens { n } else { was.cache_write })
            &&& is.total_tokens == is.input + is.output + is.cache_read + is.cache_write
            &&& is.cost == was.cost
            &&& match delta.stop_reason {
                None => now.working.stop_reason == b.working.stop_reason,
                Some(WireStopReason::Known(KnownStopReason::MaxTokens)) => now.working.stop_reason == StopReason::Length,
                Some(WireStopReason::Known(KnownStopReason::ModelContextWindowExceeded)) => now.working.stop_reason
                    == StopReason::Length,
                Some(WireStopReason::Known(KnownStopReason::ToolUse)) => now.working.stop_reason == StopReason::ToolUse,
                Some(WireStopReason::Known(KnownStopReason::Refusal)) => now.working.stop_reason == StopReason::Error,
                Some(WireStopReason::Known(KnownStopReason::Sensitive)) => now.working.stop_reason == StopReason::Error,
                Some(_) => now.working.stop_reason == StopReason::Stop,
            }
            &&& delta.stop_reason is Some && now.working.stop_reason == StopReason::Error ==> {
                &&& now.working.error_message is Some && now.working.error_message->0.len() > 0
                &&& now.working.stop_details == delta.stop_details.deep_view()
            }
            &&& !(delta.stop_reason is Some && now.working.stop_reason == StopReason::Error) ==> {
                &&& now.working.error_message == b.working.error_message
                &&& now.working.stop_details == b.working.stop_details
            }
        }),
{
    reveal_strlit("Refusal");
    reveal_strlit("Refusal (");
    reveal_strlit("Refusal (no details provided)");
    reveal_strlit("Content flagged by safety filters");
    reveal_strlit("Anthropic stream ended with stop_reason: ");
    assert("Refusal"@.len() == 7);
    assert("Refusal ("@.len() == 9);
    assert("Refusal (no details provided)"@.len() > 0);
    assert("Content flagged by safety filters"@.len() > 0);
    assert("Anthropic stream ended with stop_reason: "@.len() > 0);
}

/// A refusal is told by its category and explanation, where it has them.
pub proof fn law_refusal_says_why(delta: MessageDelta)
    requires
        delta.stop_details is Some,
        delta.stop_details->0.detail_type@ == "refusal"@,
    ensures
        ({
            let d = delta.stop_details->0;
            let t = stop_error_text(delta);
            &&& starts_with_text(t, "Refusal"@)
            &&& d.category is Some && d.explanation is Some && trimmed(d.explanation->0@).len() > 0 ==> t
                == "Refusal ("@ + d.category->0@ + ")"@ + ": "@ + trimmed(d.explanation->0@)
            &&& d.category is None && d.explanation is Some && trimmed(d.explanation->0@).len() > 0 ==> t == "Refusal"@
                + ": "@ + trimmed(d.explanation->0@)
            &&& d.category is Some && d.explanation is None ==> t == "Refusal ("@ + d.category->0@ + ")"@
            &&& d.category is None && d.explanation is None ==> t == "Refusal"@
        }),
{
    reveal_strlit("Refusal");
    reveal_strlit("Refusal (");
    let t = stop_error_text(delta);
    assert("Refusal"@.len() == 7 && "Refusal ("@.len() == 9);
    assert(t.subrange(0, 7) =~= "Refusal"@);
}

/// Whether some open block stands at the place in the message.
pub open spec fn stands_open(open: Seq<OpenView>, j: int) -> bool {
    exists|p: int| 0 <= p < open.len() && (#[trigger] open[p]).content_index == j && open[p].kind != BlockKind::Ignored
}

proof fn lemma_all_finished_keeps(m: AssistantView, open: Seq<OpenView>)
    requires
        forall|p: int| 0 <= p < open.len() ==> fits(#[trigger] open[p], m.content),
    ensures
        ({
            let now = all_finished(m, open).0;
            &&& now == (AssistantView { content: now.content, ..m })
            &&& same_kinds(m.content, now.content)
            &&& forall|j: int| 0 <= j < m.content.len() && m.content[j] is Text ==> (#[trigger] now.content[j]) == m.content[j]
            &&& forall|j: int|
                0 <= j < m.content.len() && !stands_open(open, j) ==> (#[trigger] now.content[j]) == m.content[j]
        }),
    decreases open.len(),
{
    if open.len() > 0 {
        let init = open.drop_last();
        let last = open.last();
        assert forall|p: int| 0 <= p < init.len() implies fits(#[trigger] init[p], m.content) by {
            assert(fits(open[p], m.content));
        }
        lemma_all_finished_keeps(m, init);
        let before = all_finished(m, init).0;
        let now = all_finished(m, open).0;
        assert(fits(open[open.len() - 1], m.content));
        assert forall|j: int| 0 <= j < m.content.len() && m.content[j] is Text implies (#[trigger] now.content[j])
            == m.content[j] by {
            assert(before.content[j] == m.content[j]);
        }
        assert forall|j: int| 0 <= j < m.content.len() && !stands_open(open, j) implies (#[trigger] now.content[j])
            == m.content[j] by {
            if stands_open(init, j) {
                let p = choose|p: int|
                    0 <= p < init.len() && (#[trigger] init[p]).content_index == j && init[p].kind != BlockKind::Ignored;
                assert(open[p].content_index == j && open[p].kind != BlockKind::Ignored);
            }
            assert(before.content[j] == m.content[j]);
            if last.kind != BlockKind::Ignored && last.content_index == j {
                assert(open[open.len() - 1].content_index == j);
            }
        }
        assert(same_kinds(m.content, now.content));
    } else {
        assert(m =~= (AssistantView { content: m.content, ..m }));
    }
}

/// A stream that ends keeps the whole message: no block is lost or moved, texts and
/// blocks that were closed stay as they are, and so do the usage and, behind an
/// envelope, the reason why the model stopped, which the terminal event names.
pub proof fn law_finish_keeps_message(b: BuilderView)
    requires
        well_formed(b),
    ensures
        ({
            let (m, events) = finished(b);
            &&& same_kinds(b.working.content, m.content)
            &&& forall|j: int|
                0 <= j < m.content.len() && b.working.content[j] is Text ==> (#[trigger] m.content[j])
                    == b.working.content[j]
            &&& forall|j: int|
                0 <= j < m.content.len() && !stands_open(b.open, j) ==> (#[trigger] m.content[j]) == b.working.content[j]
            &&& m.usage == b.working.usage
            &&& m.response_id == b.working.response_id
            &&& m.model == b.working.model
            &&& b.saw_message_start ==> m.stop_reason == b.working.stop_reason && m.error_message
                == b.working.error_message
            &&& match m.stop_reason {
                StopReason::Stop => events.last() == (EventView::Done { reason: DoneReason::Stop, message: m }),
                StopReason::Length => events.last() == (EventView::Done { reason: DoneReason::Length, message: m }),
                StopReason::ToolUse => events.last() == (EventView::Done { reason: DoneReason::ToolUse, message: m }),
                StopReason::Error => events.last() == (EventView::Error { reason: ErrorReason::Error, error: m }),
                StopReason::Aborted => events.last() == (EventView::Error { reason: ErrorReason::Aborted, error: m }),
            }
        }),
{
    lemma_all_finished_keeps(b.working, b.open);
}

/// A failure ends the turn for the reason given, with the error given, and changes
/// nothing else of the message.
pub proof fn law_failure_is_told(b: BuilderView, stop_reason: StopReason, error_message: Text)
    ensures
        ({
            let m = failed(b, stop_reason, error_message);
            &&& m.stop_reason == stop_reason
            &&& m.error_message == Some(error_message)
            &&& (AssistantView {
                stop_reason: b.working.stop_reason,
                error_message: b.working.error_message,
                ..m
            }) == b.working
        }),
{
}

/// A text in an envelope, with space around it or not, comes out of it; a text that
/// is in none stays as it is.
pub proof fn law_envelope_is_taken_off(inner: Text)
    requires
        trimmed(inner) == inner,
        !(inner.len() >= 21 && starts_with_text(inner, "<thinking>"@) && ends_with_text(inner, "</thinking>"@)),
    ensures
        unwrapped(inner) is None,
        unwrapped("<thinking>"@ + inner + "</thinking>"@) == Some(inner),
{
    reveal_strlit("<thinking>");
    reveal_strlit("</thinking>");
    let t = "<thinking>"@ + inner + "</thinking>"@;
    assert("<thinking>"@.len() == 10 && "</thinking>"@.len() == 11);
    assert(t[0] == '<' && t.last() == '>');
    assert(crate::text::trimmed_start(t) == t);
    assert(crate::text::trimmed_end(t) == t);
    assert(t.subrange(0, 10) =~= "<thinking>"@);
    assert(t.subrange(t.len() - 11, t.len() as int) =~= "</thinking>"@);
    assert(without_envelope(t) =~= inner);
    assert(innermost(t) == innermost(inner));
}

/// A text of which an error report is made is shown whole where it is short, and
/// else by its beginning, which fits, with a note behind it.
pub proof fn law_error_report_shows_beginning(s: Text)
    ensures
        byte_len(s) <= 512 ==> cut_for_error(s) == s,
        byte_len(s) > 512 ==> starts_with_text(cut_for_error(s), byte_prefix(s, 512)) && cut_for_error(s).len()
            > byte_prefix(s, 512).len(),
{
    reveal_strlit("… [truncated ");
    assert("… [truncated "@.len() > 0);
    if byte_len(s) > 512 {
        let h = byte_prefix(s, 512);
        assert(cut_for_error(s).subrange(0, h.len() as int) =~= h);
    }
}

/// A delta that comes for no open block, or that does not fit its block, changes nothing
/// and is not reported; a block whose index is open does not open again.
pub proof fn law_stray_events_change_nothing(b: BuilderView, index: u64, delta: ContentBlockDelta, block: ResponseBlock)
    ensures
        (forall|j: int| 0 <= j < b.open.len() ==> (#[trigger] b.open[j]).index != index) ==> {
            &&& after_event(b, RawMessageStreamEvent::ContentBlockDelta { index, delta }) == (b, Seq::<EventView>::empty())
            &&& after_event(b, RawMessageStreamEvent::ContentBlockStop { index }) == (b, Seq::<EventView>::empty())
        },
        (exists|j: int| 0 <= j < b.open.len() && (#[trigger] b.open[j]).index == index) ==> after_event(
            b,
            RawMessageStreamEvent::ContentBlockStart { index, content_block: block },
        ) == (b, Seq::<EventView>::empty()),
{
    lemma_open_pos(b.open, index);
}

/// A delta that does not fit its block changes nothing and is not reported.
pub proof fn law_misfit_deltas_change_nothing(b: BuilderView, p: int, index: u64, kind: BlockKind, i: int, delta: ContentBlockDelta)
    requires
        is_open_at(b, p, index, kind, i),
        delta is TextDelta ==> kind != BlockKind::Text,
        delta is ThinkingDelta || delta is SignatureDelta ==> kind != BlockKind::Thinking,
        delta is InputJsonDelta ==> kind != BlockKind::ToolCall,
    ensures
        after_event(b, RawMessageStreamEvent::ContentBlockDelta { index, delta }) == (b, Seq::<EventView>::empty()),
{
    lemma_open_at(b, p, index, kind, i);
}

/// A turn begins with an empty message about what was asked, and with nothing seen.
pub proof fn law_turn_begins_empty(meta: RequestMeta)
    ensures
        ({
            let b = initial(meta);
            &&& well_formed(b)
            &&& b.working.content.len() == 0 && b.open.len() == 0
            &&& b.working.api == meta.api@ && b.working.provider == meta.provider@ && b.working.model == meta.model@
            &&& b.working.timestamp == meta.timestamp
            &&& b.working.stop_reason == StopReason::Stop && b.working.error_message is None
            &&& b.working.usage.total_tokens == 0 && b.working.usage.input == 0 && b.working.usage.output == 0
            &&& !b.saw_message_start && !b.saw_terminal && !b.saw_message_stop && !b.saw_spliced_envelope
            &&& b.closed == Set::<u64>::empty()
        }),
{
}

/// Counts that a report details replace those that there were, and stay where it details
/// none.
pub proof fn law_detailed_usage_is_merged(u: UsageView, d: WireUsage)
    ensures
        cttl_of(d.cache_creation) is Some ==> merged_usage(u, d).cttl == cttl_of(d.cache_creation),
        cttl_of(d.cache_creation) is None ==> merged_usage(u, d).cttl == u.cttl,
        server_of(d.server_tool_use) is Some ==> merged_usage(u, d).server == server_of(d.server_tool_use),
        server_of(d.server_tool_use) is None ==> merged_usage(u, d).server == u.server,
        merged_usage(u, d).orchestration == u.orchestration,
        merged_usage(u, d).reasoning_tokens == u.reasoning_tokens,
        merged_usage(u, d).premium_requests == u.premium_requests,
        merged_usage(u, d).cost == u.cost,
{
}

/// A turn that the provider ended with an error, without details, says how.
pub proof fn law_bare_stop_is_told(delta: MessageDelta)
    requires
        delta.stop_details is None,
    ensures
        delta.stop_reason == Some(WireStopReason::Known(KnownStopReason::Refusal)) ==> stop_error_text(delta)
            == "Refusal (no details provided)"@,
        delta.stop_reason == Some(WireStopReason::Known(KnownStopReason::Sensitive)) ==> stop_error_text(delta)
            == "Content flagged by safety filters"@,
{
}

proof fn lemma_finished_call(m: AssistantView, open: Seq<OpenView>, p: int)
    requires
        0 <= p < open.len(),
        open[p].kind == BlockKind::ToolCall,
        forall|j: int| 0 <= j < open.len() ==> fits(#[trigger] open[j], m.content),
        forall|i: int, j: int|
            0 <= i < j < open.len() && (#[trigger] open[i]).kind != BlockKind::Ignored && (#[trigger] open[j]).kind
                != BlockKind::Ignored ==> open[i].content_index < open[j].content_index,
    ensures
        all_finished(m, open).0.content.len() == m.content.len(),
        all_finished(m, open).0.content[open[p].content_index] == closed_content(
            m.content[open[p].content_index],
            open[p],
        ),
    decreases open.len(),
{
    let init = open.drop_last();
    let last = open.last();
    let at = open[p].content_index;
    assert(fits(open[p], m.content));
    assert(fits(open[open.len() - 1], m.content));
    assert forall|j: int| 0 <= j < init.len() implies fits(#[trigger] init[j], m.content) by {
        assert(fits(open[j], m.content));
    }
    lemma_all_finished_keeps(m, init);
    if p < init.len() {
        assert forall|i: int, j: int|
            0 <= i < j < init.len() && (#[trigger] init[i]).kind != BlockKind::Ignored && (#[trigger] init[j]).kind
                != BlockKind::Ignored implies init[i].content_index < init[j].content_index by {
            assert(open[i].content_index < open[j].content_index);
        }
        assert(init[p] == open[p]);
        lemma_finished_call(m, init, p);
        if last.kind != BlockKind::Ignored {
            assert(open[p].content_index < open[open.len() - 1].content_index);
        }
    } else {
        assert(!stands_open(init, at)) by {
            if stands_open(init, at) {
                let q = choose|q: int|
                    0 <= q < init.len() && (#[trigger] init[q]).content_index == at && init[q].kind != BlockKind::Ignored;
                assert(open[q].content_index < open[p].content_index);
            }
        }
        assert(all_finished(m, init).0.content[at] == m.content[at]);
    }
}

/// A call that is open when the stream ends gets the arguments that its collected text
/// writes, where it is JSON; without any such text, those that it came with.
pub proof fn law_finish_closes_open_calls(b: BuilderView, p: int)
    requires
        well_formed(b),
        0 <= p < b.open.len(),
        b.open[p].kind == BlockKind::ToolCall,
    ensures
        ({
            let i = b.open[p].content_index;
            let was = b.working.content[i]->ToolCall_0;
            let is = finished(b).0.content[i]->ToolCall_0;
            let json = b.open[p].partial_json;
            &&& finished(b).0.content[i] is ToolCall
            &&& is.id == was.id && is.name == was.name
            &&& json.len() == 0 ==> is.arguments == was.arguments
            &&& json.len() > 0 && strict_json(json) is Some ==> is.arguments == strict_json(json)->0
        }),
{
    assert(fits(b.open[p], b.working.content));
    lemma_finished_call(b.working, b.open, p);
    if b.open[p].partial_json.len() > 0 {
        law_arguments_are_not_lost(b.working.content[b.open[p].content_index]->ToolCall_0.arguments, b.open[p].partial_json);
    }
}

/// The end of the stream's message ends the turn and changes nothing of the message.
pub proof fn law_message_stop_ends_the_turn(b: BuilderView)
    ensures
        after_event(b, RawMessageStreamEvent::MessageStop).0 == (BuilderView {
            saw_terminal: true,
            saw_message_stop: true,
            ..b
        }),
        after_event(b, RawMessageStreamEvent::MessageStop).1.len() == 0,
{
}

/// Hidden reasoning, and a block that the message did not take in, close without a
/// report and leave the message as it is.
pub proof fn law_silent_blocks_close_silently(b: BuilderView, p: int, index: u64, kind: BlockKind, i: int)
    requires
        is_open_at(b, p, index, kind, i),
        kind == BlockKind::Ignored || kind == BlockKind::RedactedThinking,
    ensures
        ({
            let (now, events) = after_event(b, RawMessageStreamEvent::ContentBlockStop { index });
            &&& now.working == b.working
            &&& now.open == b.open.remove(p)
            &&& now.closed == b.closed.insert(index)
            &&& events.len() == 0
        }),
{
    lemma_open_at(b, p, index, kind, i);
    if kind == BlockKind::RedactedThinking {
        assert(b.working.content.update(i, b.working.content[i]) =~= b.working.content);
    }
}

/// A block of a kind that is not known is passed over, with all that comes for it.
pub proof fn law_unknown_blocks_are_passed_over(b: BuilderView, index: u64, v: Json)
    requires
        !b.saw_terminal,
        forall|j: int| 0 <= j < b.open.len() ==> (#[trigger] b.open[j]).index != index,
    ensures
        ({
            let (now, events) = after_event(
                b,
                RawMessageStreamEvent::ContentBlockStart { index, content_block: ResponseBlock::Unknown(v) },
            );
            &&& now.working == b.working
            &&& events.len() == 0
            &&& now.open.len() == b.open.len() + 1
            &&& now.open.last().index == index && now.open.last().kind == BlockKind::Ignored
        }),
{
    lemma_open_pos(b.open, index);
}

/// Reasoning that leaked in an envelope closes as what stands in the envelope.
pub proof fn law_leaked_thinking_closes_unwrapped(b: BuilderView, p: int, index: u64, i: int)
    requires
        is_open_at(b, p, index, BlockKind::Thinking, i),
        unwrapped(b.working.content[i]->Thinking_0.thinking) is Some,
    ensures
        after_event(b, RawMessageStreamEvent::ContentBlockStop { index }).0.working.content[i]->Thinking_0.thinking
            == unwrapped(b.working.content[i]->Thinking_0.thinking)->0,
{
    lemma_open_at(b, p, index, BlockKind::Thinking, i);
}

/// A text block reads, when it closes, as all the text that came for it: what it opened
/// with and every delta, in order.
pub proof fn law_closed_text_is_all_that_came(b: BuilderView, index: u64, opening: String, texts: Seq<String>)
    requires
        well_formed(b),
        !b.saw_terminal,
        !(b.saw_spliced_envelope && b.closed.contains(index)),
        forall|j: int| 0 <= j < b.open.len() ==> (#[trigger] b.open[j]).index != index,
    ensures
        ({
            let start = RawMessageStreamEvent::ContentBlockStart {
                index,
                content_block: ResponseBlock::Known(ResponseContentBlock::Text { text: opening }),
            };
            let opened = after_event(b, start).0;
            let grown = events_through(opened, text_deltas(index, texts)).0;
            let (closed_state, events) = after_event(grown, RawMessageStreamEvent::ContentBlockStop { index });
            let all = opening@ + run_together(texts);
            &&& closed_state.working.content == b.working.content.push(
                ContentView::Text(TextView { text: all, text_signature: None }),
            )
            &&& closed_state.open == b.open
            &&& events.len() == 1 && events[0] is TextEnd && events[0]->TextEnd_content == all
        }),
{
    let start = RawMessageStreamEvent::ContentBlockStart {
        index,
        content_block: ResponseBlock::Known(ResponseContentBlock::Text { text: opening }),
    };
    let i = b.working.content.len() as int;
    let p = b.open.len() as int;
    law_block_is_taken_in(b, index, ResponseContentBlock::Text { text: opening });
    law_event_keeps_well_formed(b, start);
    let opened = after_event(b, start).0;
    assert(opened.open[p] == opened.open.last());
    assert(is_open_at(opened, p, index, BlockKind::Text, i));
    law_text_deltas_add_up(opened, p, index, i, texts);
    let grown = events_through(opened, text_deltas(index, texts)).0;
    assert(grown.open == opened.open);
    assert(well_formed(grown)) by {
        assert forall|j: int| 0 <= j < grown.open.len() implies fits(#[trigger] grown.open[j], grown.working.content) by {
            assert(fits(opened.open[j], opened.working.content));
        }
        assert forall|j: int, k: int| 0 <= j < k < grown.open.len() implies (#[trigger] grown.open[j]).index != (
        #[trigger] grown.open[k]).index by {
            assert(opened.open[j].index != opened.open[k].index);
        }
        assert forall|j: int, k: int|
            0 <= j < k < grown.open.len() && (#[trigger] grown.open[j]).kind != BlockKind::Ignored && (
            #[trigger] grown.open[k]).kind != BlockKind::Ignored implies grown.open[j].content_index
            < grown.open[k].content_index by {
            assert(opened.open[j].content_index < opened.open[k].content_index);
        }
    }
    law_text_block_closes_whole(grown, p, index, i);
    assert(opened.open.remove(p) =~= b.open) by {
        assert(opened.open.drop_last() == b.open);
    }
    assert(grown.working.content =~= b.working.content.push(
        ContentView::Text(TextView { text: opening@ + run_together(texts), text_signature: None }),
    ));
}

} // verus!

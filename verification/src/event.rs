//! Events that a turn of the model is reported with.
use vstd::prelude::*;
use crate::message::{
    AssistantMessage, AssistantView, ImageContent, ImageView, StopReason, Text, ToolCall, ToolCallView,
};
use std::sync::Arc;

verus! {

#[derive(Debug, Clone, Copy, PartialEq, Eq, Structural)]
pub enum DoneReason {
    Stop,
    Length,
    ToolUse,
}

#[derive(Debug, Clone, Copy, PartialEq, Eq, Structural)]
pub enum ErrorReason {
    Aborted,
    Error,
}

/// An event of a turn. `partial` is the message as far as it had come.
#[allow(inconsistent_fields)]
#[derive(Debug, PartialEq, Eq)]
pub enum AssistantMessageEvent {
    Start { partial: Arc<AssistantMessage> },
    TextStart { content_index: usize, partial: Arc<AssistantMessage> },
    TextDelta { content_index: usize, delta: String, partial: Arc<AssistantMessage> },
    TextEnd { content_index: usize, content: String, partial: Arc<AssistantMessage> },
    ThinkingStart { content_index: usize, partial: Arc<AssistantMessage> },
    ThinkingDelta { content_index: usize, delta: String, partial: Arc<AssistantMessage> },
    ThinkingEnd { content_index: usize, content: String, partial: Arc<AssistantMessage> },
    ImageEnd { content_index: usize, content: ImageContent, partial: Arc<AssistantMessage> },
    ToolcallStart { content_index: usize, partial: Arc<AssistantMessage> },
    ToolcallDelta { content_index: usize, delta: String, partial: Arc<AssistantMessage> },
    ToolcallEnd { content_index: usize, tool_call: ToolCall, partial: Arc<AssistantMessage> },
    Done { reason: DoneReason, message: Arc<AssistantMessage> },
    Error { reason: ErrorReason, error: Arc<AssistantMessage> },
}

#[allow(inconsistent_fields)]
#[verifier::ext_equal]
pub enum EventView {
    Start { partial: AssistantView },
    TextStart { content_index: int, partial: AssistantView },
    TextDelta { content_index: int, delta: Text, partial: AssistantView },
    TextEnd { content_index: int, content: Text, partial: AssistantView },
    ThinkingStart { content_index: int, partial: AssistantView },
    ThinkingDelta { content_index: int, delta: Text, partial: AssistantView },
    ThinkingEnd { content_index: int, content: Text, partial: AssistantView },
    ImageEnd { content_index: int, content: ImageView, partial: AssistantView },
    ToolcallStart { content_index: int, partial: AssistantView },
    ToolcallDelta { content_index: int, delta: Text, partial: AssistantView },
    ToolcallEnd { content_index: int, tool_call: ToolCallView, partial: AssistantView },
    Done { reason: DoneReason, message: AssistantView },
    Error { reason: ErrorReason, error: AssistantView },
}

impl DeepView for AssistantMessageEvent {
    type V = EventView;

    open spec fn deep_view(&self) -> EventView {
        match self {
            AssistantMessageEvent::Start { partial } => EventView::Start { partial: (**partial).deep_view() },
            AssistantMessageEvent::TextStart { content_index, partial } => EventView::TextStart {
                content_index: *content_index as int,
                partial: (**partial).deep_view(),
            },
            AssistantMessageEvent::TextDelta { content_index, delta, partial } => EventView::TextDelta {
                content_index: *content_index as int,
                delta: delta@,
                partial: (**partial).deep_view(),
            },
            AssistantMessageEvent::TextEnd { content_index, content, partial } => EventView::TextEnd {
                content_index: *content_index as int,
                content: content@,
                partial: (**partial).deep_view(),
            },
            AssistantMessageEvent::ThinkingStart { content_index, partial } => EventView::ThinkingStart {
                content_index: *content_index as int,
                partial: (**partial).deep_view(),
            },
            AssistantMessageEvent::ThinkingDelta { content_index, delta, partial } => EventView::ThinkingDelta {
                content_index: *content_index as int,
                delta: delta@,
                partial: (**partial).deep_view(),
            },
            AssistantMessageEvent::ThinkingEnd { content_index, content, partial } => EventView::ThinkingEnd {
                content_index: *content_index as int,
                content: content@,
                partial: (**partial).deep_view(),
            },
            AssistantMessageEvent::ImageEnd { content_index, content, partial } => EventView::ImageEnd {
                content_index: *content_index as int,
                content: content.deep_view(),
                partial: (**partial).deep_view(),
            },
            AssistantMessageEvent::ToolcallStart { content_index, partial } => EventView::ToolcallStart {
                content_index: *content_index as int,
                partial: (**partial).deep_view(),
            },
            AssistantMessageEvent::ToolcallDelta { content_index, delta, partial } => EventView::ToolcallDelta {
                content_index: *content_index as int,
                delta: delta@,
                partial: (**partial).deep_view(),
            },
            AssistantMessageEvent::ToolcallEnd { content_index, tool_call, partial } => EventView::ToolcallEnd {
                content_index: *content_index as int,
                tool_call: tool_call.deep_view(),
                partial: (**partial).deep_view(),
            },
            AssistantMessageEvent::Done { reason, message } => EventView::Done {
                reason: *reason,
                message: (**message).deep_view(),
            },
            AssistantMessageEvent::Error { reason, error } => EventView::Error {
                reason: *reason,
                error: (**error).deep_view(),
            },
        }
    }
}

/// Whether an event ends the turn.
pub open spec fn ends_turn(e: EventView) -> bool {
    e is Done || e is Error
}

/// The message as it was when the event was made.
pub open spec fn message_in(e: EventView) -> AssistantView {
    match e {
        EventView::Start { partial } => partial,
        EventView::TextStart { partial, .. } => partial,
        EventView::TextDelta { partial, .. } => partial,
        EventView::TextEnd { partial, .. } => partial,
        EventView::ThinkingStart { partial, .. } => partial,
        EventView::ThinkingDelta { partial, .. } => partial,
        EventView::ThinkingEnd { partial, .. } => partial,
        EventView::ImageEnd { partial, .. } => partial,
        EventView::ToolcallStart { partial, .. } => partial,
        EventView::ToolcallDelta { partial, .. } => partial,
        EventView::ToolcallEnd { partial, .. } => partial,
        EventView::Done { message, .. } => message,
        EventView::Error { error, .. } => error,
    }
}

/// The event that ends a turn with the given message.
pub open spec fn terminal_of(m: AssistantView) -> EventView {
    match m.stop_reason {
        StopReason::Stop => EventView::Done { reason: DoneReason::Stop, message: m },
        StopReason::Length => EventView::Done { reason: DoneReason::Length, message: m },
        StopReason::ToolUse => EventView::Done { reason: DoneReason::ToolUse, message: m },
        StopReason::Error => EventView::Error { reason: ErrorReason::Error, error: m },
        StopReason::Aborted => EventView::Error { reason: ErrorReason::Aborted, error: m },
    }
}

impl AssistantMessageEvent {
    /// Whether the event ends the turn.
    pub fn is_terminal(&self) -> (r: bool)
        ensures
            r == ends_turn(self.deep_view()),
    {
        match self {
            AssistantMessageEvent::Done { .. } => true,
            AssistantMessageEvent::Error { .. } => true,
            _ => false,
        }
    }

    /// The message of an event that ends the turn.
    pub fn terminal_message(&self) -> (r: Option<&Arc<AssistantMessage>>)
        ensures
            r is Some == ends_turn(self.deep_view()),
            r is Some ==> (**r->0).deep_view() == message_in(self.deep_view()),
    {
        match self {
            AssistantMessageEvent::Done { message, .. } => Some(message),
            AssistantMessageEvent::Error { error, .. } => Some(error),
            _ => None,
        }
    }
}

/// The event that ends a turn with the given message.
pub fn terminal_event(message: &Arc<AssistantMessage>) -> (r: AssistantMessageEvent)
    ensures
        r.deep_view() == terminal_of((**message).deep_view()),
{
    match message.stop_reason {
        StopReason::Stop => AssistantMessageEvent::Done {
            reason: DoneReason::Stop,
            message: Arc::clone(message),
        },
        StopReason::Length => AssistantMessageEvent::Done {
            reason: DoneReason::Length,
            message: Arc::clone(message),
        },
        StopReason::ToolUse => AssistantMessageEvent::Done {
            reason: DoneReason::ToolUse,
            message: Arc::clone(message),
        },
        StopReason::Error => AssistantMessageEvent::Error {
            reason: ErrorReason::Error,
            error: Arc::clone(message),
        },
        StopReason::Aborted => AssistantMessageEvent::Error {
            reason: ErrorReason::Aborted,
            error: Arc::clone(message),
        },
    }
}

/// Every event carries one message; it is the one that the event gives back, and a
/// turn ends with the reason that its message has.
pub proof fn law_event_carries_its_message(i: int, t: Text, c: ImageView, call: ToolCallView, m: AssistantView)
    ensures
        message_in(EventView::Start { partial: m }) == m,
        message_in(EventView::TextStart { content_index: i, partial: m }) == m,
        message_in(EventView::TextDelta { content_index: i, delta: t, partial: m }) == m,
        message_in(EventView::TextEnd { content_index: i, content: t, partial: m }) == m,
        message_in(EventView::ThinkingStart { content_index: i, partial: m }) == m,
        message_in(EventView::ThinkingDelta { content_index: i, delta: t, partial: m }) == m,
        message_in(EventView::ThinkingEnd { content_index: i, content: t, partial: m }) == m,
        message_in(EventView::ImageEnd { content_index: i, content: c, partial: m }) == m,
        message_in(EventView::ToolcallStart { content_index: i, partial: m }) == m,
        message_in(EventView::ToolcallDelta { content_index: i, delta: t, partial: m }) == m,
        message_in(EventView::ToolcallEnd { content_index: i, tool_call: call, partial: m }) == m,
        message_in(terminal_of(m)) == m,
        terminal_of(m) is Done == (m.stop_reason != StopReason::Error && m.stop_reason != StopReason::Aborted),
        terminal_of(m) is Error == (m.stop_reason == StopReason::Error || m.stop_reason == StopReason::Aborted),
        m.stop_reason == StopReason::Stop ==> terminal_of(m)->Done_reason == DoneReason::Stop,
        m.stop_reason == StopReason::Length ==> terminal_of(m)->Done_reason == DoneReason::Length,
        m.stop_reason == StopReason::ToolUse ==> terminal_of(m)->Done_reason == DoneReason::ToolUse,
        m.stop_reason == StopReason::Error ==> terminal_of(m)->Error_reason == ErrorReason::Error,
        m.stop_reason == StopReason::Aborted ==> terminal_of(m)->Error_reason == ErrorReason::Aborted,
{
}

} // verus!

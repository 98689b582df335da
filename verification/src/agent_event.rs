//! Events that a run of the agent is reported with.
use vstd::prelude::*;
use crate::event::{AssistantMessageEvent, EventView};
use crate::json::{json_view, Json, JsonView};
use crate::message::{Message, MessageView, Text, ToolResultMessage, ToolResultView};

verus! {

/// An event of a run.
#[allow(inconsistent_fields)]
#[derive(Debug, PartialEq, Eq)]
pub enum AgentEvent {
    AgentStart,
    AgentEnd { messages: Vec<Message> },
    TurnStart,
    TurnEnd { message: Message, tool_results: Vec<ToolResultMessage> },
    MessageStart { message: Message },
    MessageUpdate { message: Message, assistant_message_event: AssistantMessageEvent },
    MessageEnd { message: Message },
    ToolExecutionStart { tool_call_id: String, tool_name: String, args: Json, intent: Option<String> },
    ToolExecutionUpdate { tool_call_id: String, tool_name: String, args: Json, partial_result: Json },
    ToolExecutionEnd { tool_call_id: String, tool_name: String, result: Json, is_error: Option<bool> },
}

#[allow(inconsistent_fields)]
#[verifier::ext_equal]
pub enum AgentEventView {
    AgentStart,
    AgentEnd { messages: Seq<MessageView> },
    TurnStart,
    TurnEnd { message: MessageView, tool_results: Seq<ToolResultView> },
    MessageStart { message: MessageView },
    MessageUpdate { message: MessageView, assistant_message_event: EventView },
    MessageEnd { message: MessageView },
    ToolExecutionStart { tool_call_id: Text, tool_name: Text, args: JsonView, intent: Option<Text> },
    ToolExecutionUpdate { tool_call_id: Text, tool_name: Text, args: JsonView, partial_result: JsonView },
    ToolExecutionEnd { tool_call_id: Text, tool_name: Text, result: JsonView, is_error: Option<bool> },
}

impl DeepView for AgentEvent {
    type V = AgentEventView;

    open spec fn deep_view(&self) -> AgentEventView {
        match self {
            AgentEvent::AgentStart => AgentEventView::AgentStart,
            AgentEvent::AgentEnd { messages } => AgentEventView::AgentEnd { messages: messages.deep_view() },
            AgentEvent::TurnStart => AgentEventView::TurnStart,
            AgentEvent::TurnEnd { message, tool_results } => AgentEventView::TurnEnd {
                message: message.deep_view(),
                tool_results: tool_results.deep_view(),
            },
            AgentEvent::MessageStart { message } => AgentEventView::MessageStart {
                message: message.deep_view(),
            },
            AgentEvent::MessageUpdate { message, assistant_message_event } => AgentEventView::MessageUpdate {
                message: message.deep_view(),
                assistant_message_event: assistant_message_event.deep_view(),
            },
            AgentEvent::MessageEnd { message } => AgentEventView::MessageEnd { message: message.deep_view() },
            AgentEvent::ToolExecutionStart { tool_call_id, tool_name, args, intent } =>
                AgentEventView::ToolExecutionStart {
                    tool_call_id: tool_call_id@,
                    tool_name: tool_name@,
                    args: json_view(*args),
                    intent: intent.deep_view(),
                },
            AgentEvent::ToolExecutionUpdate { tool_call_id, tool_name, args, partial_result } =>
                AgentEventView::ToolExecutionUpdate {
                    tool_call_id: tool_call_id@,
                    tool_name: tool_name@,
                    args: json_view(*args),
                    partial_result: json_view(*partial_result),
                },
            AgentEvent::ToolExecutionEnd { tool_call_id, tool_name, result, is_error } =>
                AgentEventView::ToolExecutionEnd {
                    tool_call_id: tool_call_id@,
                    tool_name: tool_name@,
                    result: json_view(*result),
                    is_error: *is_error,
                },
        }
    }
}

impl AgentEvent {
    /// The messages of the event that ends a run.
    pub fn terminal_messages(&self) -> (r: Option<&Vec<Message>>)
        ensures
            r is Some == self.deep_view() is AgentEnd,
            r is Some ==> self.deep_view() == (AgentEventView::AgentEnd { messages: r->0.deep_view() }),
    {
        match self {
            AgentEvent::AgentEnd { messages } => Some(messages),
            _ => None,
        }
    }
}

} // verus!

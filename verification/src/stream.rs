//! The way of events from the one who makes them to the one who reads them.
use vstd::prelude::*;
use std::sync::Arc;
use crate::agent_event::{AgentEvent, AgentEventView};
use crate::error::AiError;
use crate::event::{ends_turn, message_in, AssistantMessageEvent, EventView};
use crate::message::{AssistantMessage, AssistantView, Message, MessageView};

verus! {

/// How many events wait to be read before the one who makes them has to wait.
pub const EVENT_CHANNEL_CAPACITY: usize = 1024;

// ---- events of a response -------------------------------------------------------------------

/// The final message after an event, given the one before it: the first event that
/// ends the turn settles it.
pub open spec fn settle(message: Option<AssistantView>, e: EventView) -> Option<AssistantView> {
    match message {
        Some(m) => Some(m),
        None => if ends_turn(e) {
            Some(message_in(e))
        } else {
            None
        },
    }
}

/// The final message, once some events were pushed.
pub open spec fn settled(events: Seq<EventView>) -> Option<AssistantView>
    decreases events.len(),
{
    if events.len() == 0 {
        None
    } else {
        settle(settled(events.drop_last()), events.last())
    }
}

/// Those of the pushed events that are delivered: all up to the first that ends
/// the turn, and that one.
pub open spec fn delivered(events: Seq<EventView>) -> Seq<EventView>
    decreases events.len(),
{
    if events.len() == 0 {
        Seq::empty()
    } else if settled(events.drop_last()) is Some {
        delivered(events.drop_last())
    } else {
        delivered(events.drop_last()).push(events.last())
    }
}

/// The side that events are pushed to.
#[derive(Debug, PartialEq, Eq)]
pub struct EventSink {
    pub message: Option<Arc<AssistantMessage>>,
}

pub open spec fn sink_result(s: EventSink) -> Option<AssistantView> {
    match s.message {
        Some(m) => Some((*m).deep_view()),
        None => None,
    }
}

impl EventSink {
    pub fn new() -> (r: Self)
        ensures
            sink_result(r) == settled(Seq::empty()),
    {
        EventSink { message: None }
    }

    /// Takes an event; the result says whether it is to be delivered. An event that
    /// ends the turn settles the final message and is delivered; what comes after it
    /// is dropped.
    pub fn push(&mut self, event: &AssistantMessageEvent) -> (r: bool)
        ensures
            sink_result(*final(self)) == settle(sink_result(*old(self)), event.deep_view()),
            r == (sink_result(*old(self)) is None),
    {
        if self.message.is_some() {
            return false;
        }
        if let Some(m) = event.terminal_message() {
            self.message = Some(Arc::clone(m));
        }
        true
    }

    /// The final message; without one the stream has ended too early.
    pub fn result(&self) -> (r: Result<Arc<AssistantMessage>, AiError>)
        ensures
            match sink_result(*self) {
                Some(m) => r is Ok && (*r->Ok_0).deep_view() == m,
                None => r is Err && r->Err_0 is StreamEnded,
            },
    {
        match &self.message {
            Some(m) => Ok(Arc::clone(m)),
            None => Err(AiError::StreamEnded),
        }
    }
}

/// At most one event that ends the turn is delivered; it is the last that is, and
/// its message is the final one.
pub proof fn law_delivery_ends_with_turn(events: Seq<EventView>)
    ensures
        forall|i: int| 0 <= i < delivered(events).len() - 1 ==> !ends_turn(#[trigger] delivered(events)[i]),
        settled(events) is Some <==> delivered(events).len() > 0 && ends_turn(delivered(events).last()),
        settled(events) is Some ==> settled(events) == Some(message_in(delivered(events).last())),
    decreases events.len(),
{
    if events.len() > 0 {
        law_delivery_ends_with_turn(events.drop_last());
        let d = delivered(events.drop_last());
        if settled(events.drop_last()) is None {
            assert forall|i: int| 0 <= i < delivered(events).len() - 1 implies !ends_turn(
                #[trigger] delivered(events)[i],
            ) by {
                assert(delivered(events)[i] == d[i]);
                if i == d.len() - 1 {
                    assert(d.last() == d[i]);
                }
            }
        }
    }
}

/// Events that do not end the turn are delivered, all of them and in order.
pub proof fn law_open_turn_is_delivered_whole(events: Seq<EventView>)
    requires
        forall|i: int| 0 <= i < events.len() - 1 ==> !ends_turn(#[trigger] events[i]),
    ensures
        delivered(events) == events,
    decreases events.len(),
{
    if events.len() > 0 {
        let before = events.drop_last();
        assert forall|i: int| 0 <= i < before.len() implies !ends_turn(#[trigger] before[i]) by {
            assert(before[i] == events[i]);
        }
        law_open_turn_is_delivered_whole(before);
        law_delivery_ends_with_turn(before);
        if before.len() > 0 {
            assert(!ends_turn(before[before.len() - 1]));
        }
        assert(before.push(events.last()) =~= events);
    } else {
        assert(delivered(events) =~= events);
    }
}

/// What is pushed after the turn has ended changes nothing.
pub proof fn law_late_events_are_dropped(events: Seq<EventView>, late: EventView)
    requires
        settled(events) is Some,
    ensures
        delivered(events.push(late)) == delivered(events),
        settled(events.push(late)) == settled(events),
{
    assert(events.push(late).drop_last() =~= events);
}

// ---- events of a run ------------------------------------------------------------------------

/// The new messages of a run after an event, given those before it: the first
/// event that ends the run settles them.
pub open spec fn settle_run(messages: Option<Seq<MessageView>>, e: AgentEventView) -> Option<Seq<MessageView>> {
    match messages {
        Some(m) => Some(m),
        None => match e {
            AgentEventView::AgentEnd { messages } => Some(messages),
            _ => None,
        },
    }
}

/// The new messages of a run, once some events were pushed.
pub open spec fn run_settled(events: Seq<AgentEventView>) -> Option<Seq<MessageView>>
    decreases events.len(),
{
    if events.len() == 0 {
        None
    } else {
        settle_run(run_settled(events.drop_last()), events.last())
    }
}

/// The side that events of a run are pushed to.
#[derive(Debug, PartialEq, Eq)]
pub struct AgentEventSink {
    pub messages: Option<Vec<Message>>,
}

impl AgentEventSink {
    pub fn new() -> (r: Self)
        ensures
            r.messages.deep_view() == run_settled(Seq::empty()),
    {
        AgentEventSink { messages: None }
    }

    /// Takes an event; the result says whether it is to be delivered. What comes
    /// after the end of the run is dropped.
    pub fn push(&mut self, event: &AgentEvent) -> (r: bool)
        ensures
            final(self).messages.deep_view() == settle_run(old(self).messages.deep_view(), event.deep_view()),
            r == (old(self).messages is None),
    {
        if self.messages.is_some() {
            return false;
        }
        if let Some(m) = event.terminal_messages() {
            self.messages = Some(crate::message::copy_messages(m));
        }
        true
    }

    /// The new messages of the run; none where it never came to its end.
    pub fn result(&self) -> (r: Vec<Message>)
        ensures
            r.deep_view() == (match self.messages.deep_view() {
                Some(m) => m,
                None => Seq::<MessageView>::empty(),
            }),
    {
        match &self.messages {
            Some(m) => crate::message::copy_messages(m),
            None => {
                let none: Vec<Message> = Vec::new();
                assert(none.deep_view() =~= Seq::empty());
                none
            },
        }
    }
}

/// What is pushed after the end of a run changes nothing.
pub proof fn law_late_run_events_are_dropped(events: Seq<AgentEventView>, late: AgentEventView)
    requires
        run_settled(events) is Some,
    ensures
        run_settled(events.push(late)) == run_settled(events),
{
    assert(events.push(late).drop_last() =~= events);
}

/// Until an event ends the turn, every event is delivered, in order, and the turn is
/// not settled; the first that ends it is the last delivered and settles the turn with
/// its message.
pub proof fn law_first_end_settles(events: Seq<EventView>, k: int)
    requires
        0 <= k <= events.len(),
        forall|i: int| 0 <= i < k ==> !((#[trigger] events[i]) is Done) && !(events[i] is Error),
        k < events.len() ==> events[k] is Done || events[k] is Error,
    ensures
        k == events.len() ==> settled(events) is None && delivered(events) == events,
        k < events.len() ==> settled(events) == Some(message_in(events[k])) && delivered(events) == events.take(k + 1),
    decreases events.len(),
{
    if events.len() > 0 {
        let d = events.drop_last();
        assert forall|i: int| 0 <= i < k && i < d.len() implies !((#[trigger] d[i]) is Done) && !(d[i] is Error) by {
            assert(d[i] == events[i]);
        }
        if k < d.len() {
            assert(d[k] == events[k]);
            law_first_end_settles(d, k);
            assert(d.take(k + 1) =~= events.take(k + 1));
        } else {
            law_first_end_settles(d, d.len() as int);
            assert(d.push(events.last()) =~= events);
            if k < events.len() {
                assert(events.take(k + 1) =~= events);
            } else {
                assert(!(events[events.len() - 1] is Done));
            }
        }
    } else {
        assert(delivered(events) =~= events);
    }
}

/// A run is settled by the first event that ends it, with the messages of that event.
pub proof fn law_first_end_settles_run(events: Seq<AgentEventView>, k: int)
    requires
        0 <= k <= events.len(),
        forall|i: int| 0 <= i < k ==> !((#[trigger] events[i]) is AgentEnd),
        k < events.len() ==> events[k] is AgentEnd,
    ensures
        k == events.len() ==> run_settled(events) is None,
        k < events.len() ==> run_settled(events) == Some(events[k]->AgentEnd_messages),
    decreases events.len(),
{
    if events.len() > 0 {
        let d = events.drop_last();
        assert forall|i: int| 0 <= i < k && i < d.len() implies !((#[trigger] d[i]) is AgentEnd) by {
            assert(d[i] == events[i]);
        }
        if k < d.len() {
            assert(d[k] == events[k]);
            law_first_end_settles_run(d, k);
        } else {
            law_first_end_settles_run(d, d.len() as int);
            if k == events.len() {
                assert(!(events[events.len() - 1] is AgentEnd));
            }
        }
    }
}

} // verus!

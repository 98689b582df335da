//! The driver of a streamed turn: what to do about each chunk, stall, drop and
//! cancellation, and when the request is opened anew.
//!
//! The transport itself is outside: it reads bytes, waits and sleeps as the
//! driver says, and hands back what happened.
use vstd::prelude::*;
use crate::builder::{
    after_event, counts_fit, failed, finished, initial, law_event_keeps_well_formed, law_events_do_not_end_turn,
    law_finish_ends_turn_once, well_formed, BuilderView, StreamingBuilder,
};
use crate::client::{backoff_ms, retry_backoff_ms};
use crate::convert::{emit_nonstream_events, error_to_message, failure_message, message_events, RequestMeta};
use crate::error::AiError;
use crate::event::{ends_turn, message_in, terminal_of, AssistantMessageEvent, EventView};
use crate::message::{AssistantView, StopReason, Text};
use crate::sse::{
    after_chunk, fresh, stream_error_message, stream_error_text, FrameView, SseFrame, SseParser, SseView,
};
use crate::text::{joined, owned, same_text};
use crate::wire::{ErrorEnvelope, RawMessageStreamEvent};
use std::sync::Arc;

verus! {

/// How often a stream is opened anew unless configured otherwise.
pub const DEFAULT_MAX_STREAM_RETRIES: u32 = 10;

/// How long to wait for the first event, in milliseconds.
pub const DEFAULT_FIRST_EVENT_TIMEOUT_MS: u64 = 100_000;

/// How long to wait for the next event, in milliseconds.
pub const DEFAULT_IDLE_TIMEOUT_MS: u64 = 120_000;

pub const FIRST_EVENT_TIMEOUT_MSG: &'static str =
    "Anthropic stream timed out while waiting for the first event";

pub const IDLE_TIMEOUT_MSG: &'static str = "Anthropic stream stalled while waiting for the next event";

/// What the environment says of a timeout.
#[derive(Debug, Clone, Copy, PartialEq, Eq, Structural)]
pub enum TimeoutSetting {
    /// Nothing, or nothing that is a finite number.
    Unset,
    /// A number that is not positive.
    Disabled,
    /// A positive number of milliseconds.
    Millis(u64),
}

pub open spec fn timeout_of(setting: TimeoutSetting, fallback: u64) -> Option<u64> {
    match setting {
        TimeoutSetting::Unset => Some(fallback),
        TimeoutSetting::Disabled => None,
        TimeoutSetting::Millis(ms) => Some(ms),
    }
}

pub fn resolve_timeout(setting: TimeoutSetting, fallback: u64) -> (r: Option<u64>)
    ensures
        r == timeout_of(setting, fallback),
{
    match setting {
        TimeoutSetting::Unset => Some(fallback),
        TimeoutSetting::Disabled => None,
        TimeoutSetting::Millis(ms) => Some(ms),
    }
}

/// The first value that is there and not empty.
pub open spec fn first_given(values: Seq<Option<Text>>) -> Option<Text>
    decreases values.len(),
{
    if values.len() == 0 {
        None
    } else {
        match values[0] {
            Some(v) => if v.len() > 0 {
                Some(v)
            } else {
                first_given(values.subrange(1, values.len() as int))
            },
            None => first_given(values.subrange(1, values.len() as int)),
        }
    }
}

/// The first of several variables that is set and not empty.
pub fn env_first(values: &Vec<Option<String>>) -> (r: Option<String>)
    ensures
        r.deep_view() == first_given(values.deep_view()),
{
    let ghost all = values.deep_view();
    let mut i: usize = 0;
    assert(all.subrange(0, all.len() as int) =~= all);
    while i < values.len()
        invariant
            all == values.deep_view(),
            i <= values.len(),
            first_given(all) == first_given(all.subrange(i as int, all.len() as int)),
        decreases values.len() - i,
    {
        let ghost rest = all.subrange(i as int, all.len() as int);
        assert(rest[0] == values@[i as int].deep_view());
        assert(rest.subrange(1, rest.len() as int) =~= all.subrange(i + 1, all.len() as int));
        if let Some(v) = &values[i] {
            if !v.as_str().is_empty() {
                return Some(v.clone());
            }
        }
        i = i + 1;
    }
    None
}

/// The deadlines of a stream, in milliseconds; none where a guard is off.
#[derive(Debug, Clone, Copy, PartialEq, Eq, Structural)]
pub struct WatchdogConfig {
    pub first_event: Option<u64>,
    pub idle: Option<u64>,
}

impl WatchdogConfig {
    /// The deadlines that the environment asks for. The wait for the first event
    /// is by default no shorter than that for the next one.
    pub fn from_env(idle: TimeoutSetting, first_event: TimeoutSetting) -> (r: Self)
        ensures
            r.idle == timeout_of(idle, DEFAULT_IDLE_TIMEOUT_MS),
            r.first_event == timeout_of(
                first_event,
                match r.idle {
                    Some(ms) => if ms > DEFAULT_FIRST_EVENT_TIMEOUT_MS {
                        ms
                    } else {
                        DEFAULT_FIRST_EVENT_TIMEOUT_MS
                    },
                    None => DEFAULT_FIRST_EVENT_TIMEOUT_MS,
                },
            ),
    {
        let idle = resolve_timeout(idle, DEFAULT_IDLE_TIMEOUT_MS);
        let fallback: u64 = match idle {
            Some(ms) => if ms > DEFAULT_FIRST_EVENT_TIMEOUT_MS {
                ms
            } else {
                DEFAULT_FIRST_EVENT_TIMEOUT_MS
            },
            None => DEFAULT_FIRST_EVENT_TIMEOUT_MS,
        };
        WatchdogConfig { first_event: resolve_timeout(first_event, fallback), idle }
    }

    pub fn new(first_event: Option<u64>, idle: Option<u64>) -> (r: Self)
        ensures
            r == (WatchdogConfig { first_event, idle }),
    {
        WatchdogConfig { first_event, idle }
    }

    /// The deadline of the next read.
    pub fn deadline(&self, saw_first_frame: bool) -> (r: Option<u64>)
        ensures
            r == if saw_first_frame {
                self.idle
            } else {
                self.first_event
            },
    {
        if saw_first_frame {
            self.idle
        } else {
            self.first_event
        }
    }
}

/// How an attempt at a stream ended.
#[derive(Debug, PartialEq, Eq)]
pub enum AttemptEnd {
    /// The body ended.
    Closed,
    /// The stream reported an error.
    ErrorFrame(String),
    /// The caller cancelled.
    Cancelled,
    /// Reading failed.
    Transport(String),
    /// No first event came in time.
    FirstEventTimeout,
    /// No next event came in time.
    IdleTimeout,
}

/// An attempt at a stream.
#[verifier::ext_equal]
pub struct AttemptView {
    pub parser: SseView,
    pub builder: BuilderView,
    pub saw_first_frame: bool,
    pub saw_first_content: bool,
}

pub open spec fn fresh_attempt(meta: RequestMeta) -> AttemptView {
    AttemptView {
        parser: fresh(),
        builder: initial(meta),
        saw_first_frame: false,
        saw_first_content: false,
    }
}

/// The state of a streamed turn.
#[verifier::ext_equal]
pub struct DriverView {
    pub meta: RequestMeta,
    pub max_retries: u32,
    /// How many attempts were given up for another.
    pub attempt: u32,
    pub current: AttemptView,
}

/// What a frame comes to.
pub enum FrameOutcome {
    Events(Seq<EventView>),
    Error(Text),
}

/// `b` with the time to the first token, where none is recorded.
pub open spec fn with_ttft(b: BuilderView, elapsed: u64) -> BuilderView {
    BuilderView {
        working: AssistantView {
            ttft: match b.working.ttft {
                Some(t) => Some(t),
                None => Some(elapsed),
            },
            ..b.working
        },
        ..b
    }
}

pub open spec fn with_duration(b: BuilderView, elapsed: u64) -> BuilderView {
    BuilderView { working: AssistantView { duration: Some(elapsed), ..b.working }, ..b }
}

/// The builder that takes in a raw event: the first block stamps the time to the
/// first token.
pub open spec fn stamped(a: AttemptView, e: RawMessageStreamEvent, elapsed: u64) -> BuilderView {
    if !a.saw_first_content && e is ContentBlockStart {
        with_ttft(a.builder, elapsed)
    } else {
        a.builder
    }
}

/// A frame comes, with the raw event and the error envelope that it decodes to,
/// `elapsed` milliseconds after the start.
pub open spec fn after_frame(
    a: AttemptView,
    frame: FrameView,
    event: Option<RawMessageStreamEvent>,
    envelope: Option<ErrorEnvelope>,
    elapsed: u64,
) -> (AttemptView, FrameOutcome) {
    let seen = AttemptView { saw_first_frame: true, ..a };
    if frame.event == Some("error"@) {
        (seen, FrameOutcome::Error(stream_error_text(frame.data, envelope)))
    } else {
        match event {
            None => (seen, FrameOutcome::Events(Seq::empty())),
            Some(e) => {
                let (builder, events) = after_event(stamped(a, e, elapsed), e);
                (
                    AttemptView {
                        builder,
                        saw_first_content: a.saw_first_content || e is ContentBlockStart,
                        ..seen
                    },
                    FrameOutcome::Events(events),
                )
            },
        }
    }
}

/// Whether an attempt that ended so is given up for another. After content came,
/// or where the stream stalled, reported an error or was cancelled, it is not.
pub open spec fn opens_anew(d: DriverView, end: AttemptEnd) -> bool {
    d.attempt < d.max_retries && match end {
        AttemptEnd::Closed => !d.current.builder.saw_message_start && !d.current.saw_first_content,
        AttemptEnd::Transport(_) => !d.current.saw_first_content,
        AttemptEnd::FirstEventTimeout => !d.current.saw_first_content,
        _ => false,
    }
}

/// The failure that an end stands for; none for a body that ended.
pub open spec fn failure_of(end: AttemptEnd) -> Option<(StopReason, Text)> {
    match end {
        AttemptEnd::Closed => None,
        AttemptEnd::ErrorFrame(m) => Some((StopReason::Error, m@)),
        AttemptEnd::Cancelled => Some((StopReason::Aborted, "Request was aborted."@)),
        AttemptEnd::Transport(m) => Some(
            (StopReason::Error, "Connection error while streaming: "@ + m@),
        ),
        AttemptEnd::FirstEventTimeout => Some((StopReason::Error, FIRST_EVENT_TIMEOUT_MSG@)),
        AttemptEnd::IdleTimeout => Some((StopReason::Error, IDLE_TIMEOUT_MSG@)),
    }
}

/// The events that end a turn whose last attempt ended so.
pub open spec fn closing_events(d: DriverView, end: AttemptEnd, elapsed: u64) -> Seq<EventView> {
    let b = with_duration(d.current.builder, elapsed);
    match failure_of(end) {
        None => finished(b).1,
        Some((reason, text)) => seq![terminal_of(failed(b, reason, text))],
    }
}

/// What to do when an attempt has ended.
#[derive(Debug, PartialEq, Eq)]
pub enum EndStep {
    /// Wait this many milliseconds, less jitter, and open the stream anew.
    Retry(u64),
    /// Report these events; the turn is over.
    Finish(Vec<AssistantMessageEvent>),
}

/// What to do about a frame.
#[derive(Debug, PartialEq, Eq)]
pub enum FrameStep {
    /// Report these events and go on.
    Events(Vec<AssistantMessageEvent>),
    /// The attempt has ended.
    Ended(AttemptEnd),
}

/// The driver of a streamed turn.
pub struct StreamDriver {
    meta: RequestMeta,
    watchdog: WatchdogConfig,
    max_retries: u32,
    attempt: u32,
    parser: SseParser,
    builder: StreamingBuilder,
    saw_first_frame: bool,
    saw_first_content: bool,
}

impl View for StreamDriver {
    type V = DriverView;

    closed spec fn view(&self) -> DriverView {
        DriverView {
            meta: self.meta,
            max_retries: self.max_retries,
            attempt: self.attempt,
            current: AttemptView {
                parser: self.parser@,
                builder: self.builder@,
                saw_first_frame: self.saw_first_frame,
                saw_first_content: self.saw_first_content,
            },
        }
    }
}

/// What holds between the calls on a driver.
pub open spec fn driver_ok(d: DriverView) -> bool {
    &&& well_formed(d.current.builder)
    &&& d.attempt <= d.max_retries
    &&& !d.current.saw_first_content ==> d.current.builder.open.len() == 0
}

impl StreamDriver {
    /// A turn begins; its start is reported once, whatever is opened anew later.
    pub fn start(meta: RequestMeta, watchdog: WatchdogConfig, max_retries: u32) -> (r: (
        StreamDriver,
        AssistantMessageEvent,
    ))
        ensures
            r.0@ == (DriverView {
                meta,
                max_retries,
                attempt: 0,
                current: fresh_attempt(meta),
            }),
            r.0.deadlines() == watchdog,
            driver_ok(r.0@),
            r.1.deep_view() == (EventView::Start { partial: initial(meta).working }),
    {
        let builder = StreamingBuilder::new(&meta);
        let start = AssistantMessageEvent::Start { partial: builder.snapshot() };
        (
            StreamDriver {
                meta,
                watchdog,
                max_retries,
                attempt: 0,
                parser: SseParser::new(),
                builder,
                saw_first_frame: false,
                saw_first_content: false,
            },
            start,
        )
    }

    pub closed spec fn deadlines(&self) -> WatchdogConfig {
        self.watchdog
    }

    /// The request could not be opened: the turn ends with its error.
    pub fn open_failed(self, error: &AiError) -> (r: Vec<AssistantMessageEvent>)
        ensures
            r.deep_view() == message_events(failure_message(*error, self@.meta)),
    {
        let message = Arc::new(error_to_message(error, &self.meta));
        emit_nonstream_events(&message)
    }

    /// How long the next read may take, in milliseconds.
    pub fn deadline(&self) -> (r: Option<u64>)
        ensures
            r == if self@.current.saw_first_frame {
                self.deadlines().idle
            } else {
                self.deadlines().first_event
            },
    {
        self.watchdog.deadline(self.saw_first_frame)
    }

    /// How the attempt ended when a read took too long.
    pub fn timed_out(&self) -> (r: AttemptEnd)
        ensures
            r == if self@.current.saw_first_frame {
                AttemptEnd::IdleTimeout
            } else {
                AttemptEnd::FirstEventTimeout
            },
    {
        if self.saw_first_frame {
            AttemptEnd::IdleTimeout
        } else {
            AttemptEnd::FirstEventTimeout
        }
    }

    /// Takes in a chunk and gives the frames to decode, in order.
    pub fn on_chunk(&mut self, chunk: &[u8]) -> (r: Vec<SseFrame>)
        requires
            driver_ok(old(self)@),
        ensures
            (final(self)@.current.parser, r.deep_view()) == after_chunk(
                old(self)@.current.parser,
                chunk@,
            ),
            final(self)@ == (DriverView {
                current: AttemptView {
                    parser: final(self)@.current.parser,
                    ..old(self)@.current
                },
                ..old(self)@
            }),
            final(self).deadlines() == old(self).deadlines(),
            driver_ok(final(self)@),
    {
        self.parser.push(chunk)
    }

    /// Whether the token counts of an event fit the counters.
    pub fn accepts(&self, event: &RawMessageStreamEvent) -> (r: bool)
        ensures
            r == counts_fit(self@.current.builder, *event),
    {
        self.builder.accepts(event)
    }

    /// Takes in a frame.
    pub fn on_frame(
        &mut self,
        frame: &SseFrame,
        event: Option<RawMessageStreamEvent>,
        envelope: &Option<ErrorEnvelope>,
        elapsed_ms: u64,
    ) -> (r: FrameStep)
        requires
            driver_ok(old(self)@),
            event is Some ==> counts_fit(old(self)@.current.builder, event->0),
        ensures
            final(self)@ == (DriverView {
                current: after_frame(
                    old(self)@.current,
                    frame.deep_view(),
                    event,
                    *envelope,
                    elapsed_ms,
                ).0,
                ..old(self)@
            }),
            final(self).deadlines() == old(self).deadlines(),
            driver_ok(final(self)@),
            match after_frame(old(self)@.current, frame.deep_view(), event, *envelope, elapsed_ms).1 {
                FrameOutcome::Events(events) => r is Events && r->Events_0.deep_view() == events,
                FrameOutcome::Error(text) => r is Ended && r->Ended_0 is ErrorFrame && r->Ended_0->ErrorFrame_0@
                    == text,
            },
    {
        let ghost before = self@;
        self.saw_first_frame = true;
        let failed = match &frame.event {
            Some(name) => same_text(name.as_str(), "error"),
            None => false,
        };
        if failed {
            return FrameStep::Ended(
                AttemptEnd::ErrorFrame(stream_error_message(frame.data.as_str(), envelope)),
            );
        }
        match event {
            None => {
                let events: Vec<AssistantMessageEvent> = Vec::new();
                assert(events.deep_view() =~= Seq::empty());
                FrameStep::Events(events)
            },
            Some(raw) => {
                let opens = match &raw {
                    RawMessageStreamEvent::ContentBlockStart { .. } => true,
                    _ => false,
                };
                if !self.saw_first_content && opens {
                    self.saw_first_content = true;
                    self.builder.set_ttft_once(elapsed_ms);
                }
                proof {
                    if !before.current.saw_first_content && !(raw is ContentBlockStart) {
                        law_silence_before_first_block(before.current.builder, raw);
                    }
                }
                let events = self.builder.on_event(raw);
                FrameStep::Events(events)
            },
        }
    }

    /// The attempt has ended, `elapsed_ms` after the start.
    pub fn on_end(self, end: AttemptEnd, elapsed_ms: u64) -> (r: (StreamDriver, EndStep))
        requires
            driver_ok(self@),
        ensures
            opens_anew(self@, end) ==> r.1 == EndStep::Retry(backoff_ms(self@.attempt)) && r.0@ == (DriverView {
                attempt: (self@.attempt + 1) as u32,
                current: fresh_attempt(self@.meta),
                ..self@
            }),
            !opens_anew(self@, end) ==> r.1 is Finish && r.1->Finish_0.deep_view() == closing_events(
                self@,
                end,
                elapsed_ms,
            ),
            r.0.deadlines() == self.deadlines(),
            driver_ok(r.0@),
    {
        let StreamDriver {
            meta,
            watchdog,
            max_retries,
            attempt,
            parser: _,
            builder,
            saw_first_frame: _,
            saw_first_content,
        } = self;
        let again = attempt < max_retries && match &end {
            AttemptEnd::Closed => !builder.saw_message_start() && !saw_first_content,
            AttemptEnd::Transport(_) => !saw_first_content,
            AttemptEnd::FirstEventTimeout => !saw_first_content,
            _ => false,
        };
        let fresh_builder = StreamingBuilder::new(&meta);
        let next: u32 = if again {
            attempt + 1
        } else {
            attempt
        };
        let driver = StreamDriver {
            meta,
            watchdog,
            max_retries,
            attempt: next,
            parser: SseParser::new(),
            builder: fresh_builder,
            saw_first_frame: false,
            saw_first_content: false,
        };
        if again {
            return (driver, EndStep::Retry(retry_backoff_ms(attempt)));
        }
        let mut last = builder;
        last.set_duration(elapsed_ms);
        let events = match end {
            AttemptEnd::Closed => last.finish().1,
            AttemptEnd::ErrorFrame(m) => last.fail(StopReason::Error, m).1,
            AttemptEnd::Cancelled => last.fail(StopReason::Aborted, owned("Request was aborted.")).1,
            AttemptEnd::Transport(m) => last.fail(
                StopReason::Error,
                joined("Connection error while streaming: ", m.as_str()),
            ).1,
            AttemptEnd::FirstEventTimeout => last.fail(
                StopReason::Error,
                owned(FIRST_EVENT_TIMEOUT_MSG),
            ).1,
            AttemptEnd::IdleTimeout => last.fail(
                StopReason::Error,
                owned(IDLE_TIMEOUT_MSG),
            ).1,
        };
        (driver, EndStep::Finish(events))
    }
}

/// Before the first block opens, no raw event is reported and none opens a
/// block.
pub proof fn law_silence_before_first_block(b: BuilderView, e: RawMessageStreamEvent)
    requires
        b.open.len() == 0,
        !(e is ContentBlockStart),
    ensures
        after_event(b, e).0.open.len() == 0,
        after_event(b, e).1.len() == 0,
{
    match e {
        RawMessageStreamEvent::ContentBlockDelta { index, .. } => {
            assert(crate::builder::open_pos(b.open, index) == 0);
        },
        RawMessageStreamEvent::ContentBlockStop { index } => {
            assert(crate::builder::open_pos(b.open, index) == 0);
        },
        _ => {},
    }
}

/// A frame that does not open the turn's first block is reported by no event.
pub proof fn law_nothing_reported_before_content(
    d: DriverView,
    frame: FrameView,
    event: Option<RawMessageStreamEvent>,
    envelope: Option<ErrorEnvelope>,
    elapsed: u64,
)
    requires
        driver_ok(d),
        !after_frame(d.current, frame, event, envelope, elapsed).0.saw_first_content,
    ensures
        match after_frame(d.current, frame, event, envelope, elapsed).1 {
            FrameOutcome::Events(events) => events.len() == 0,
            FrameOutcome::Error(_) => true,
        },
{
    if event is Some && frame.event != Some("error"@) {
        law_silence_before_first_block(d.current.builder, event->0);
    }
}

/// A stream is opened anew only while no block has opened, however it ended; one
/// that stalled later, reported an error or was cancelled never is.
pub proof fn law_no_retry_after_content(d: DriverView, end: AttemptEnd)
    requires
        opens_anew(d, end),
    ensures
        end is Closed || end is Transport || end is FirstEventTimeout,
        !d.current.saw_first_content,
        end is Closed ==> !d.current.builder.saw_message_start,
        d.attempt + 1 <= d.max_retries,
{
}

/// The end of a turn is reported with exactly one terminal event, which comes
/// last.
pub proof fn law_turn_ends_once(d: DriverView, end: AttemptEnd, elapsed: u64)
    ensures
        closing_events(d, end, elapsed).len() > 0,
        ends_turn(closing_events(d, end, elapsed).last()),
        forall|k: int|
            0 <= k < closing_events(d, end, elapsed).len() - 1 ==> !ends_turn(
                #[trigger] closing_events(d, end, elapsed)[k],
            ),
{
    law_finish_ends_turn_once(with_duration(d.current.builder, elapsed));
}

/// No frame ends the turn by the events it is reported with.
pub proof fn law_frames_do_not_end_turn(
    a: AttemptView,
    frame: FrameView,
    event: Option<RawMessageStreamEvent>,
    envelope: Option<ErrorEnvelope>,
    elapsed: u64,
    k: int,
)
    requires
        match after_frame(a, frame, event, envelope, elapsed).1 {
            FrameOutcome::Events(events) => 0 <= k < events.len(),
            FrameOutcome::Error(_) => false,
        },
    ensures
        !ends_turn(after_frame(a, frame, event, envelope, elapsed).1->Events_0[k]),
{
    let e = event->0;
    law_events_do_not_end_turn(stamped(a, e, elapsed), e, k);
}

/// A request that could not be opened is reported with its error alone.
pub proof fn law_open_failure_is_one_error(error: AiError, meta: RequestMeta)
    ensures
        message_events(failure_message(error, meta)).len() == 1,
        message_events(failure_message(error, meta))[0] is Error,
{
}

// ---- whole streams ---------------------------------------------------------------------------

/// A frame that came, with what it was decoded to and when.
pub struct CameFrame {
    pub frame: FrameView,
    pub event: Option<RawMessageStreamEvent>,
    pub envelope: Option<ErrorEnvelope>,
    pub elapsed: u64,
}

/// Frames taken in one after the other, with what they are reported by.
pub open spec fn frames_through(a: AttemptView, frames: Seq<CameFrame>) -> (AttemptView, Seq<EventView>)
    decreases frames.len(),
{
    if frames.len() == 0 {
        (a, Seq::empty())
    } else {
        let (a1, before) = frames_through(a, frames.drop_last());
        let f = frames.last();
        let (a2, outcome) = after_frame(a1, f.frame, f.event, f.envelope, f.elapsed);
        match outcome {
            FrameOutcome::Events(events) => (a2, before + events),
            FrameOutcome::Error(_) => (a2, before),
        }
    }
}

proof fn lemma_frames(d: DriverView, frames: Seq<CameFrame>)
    requires
        driver_ok(d),
    ensures
        driver_ok((DriverView { current: frames_through(d.current, frames).0, ..d })),
        d.current.saw_first_content ==> frames_through(d.current, frames).0.saw_first_content,
        !frames_through(d.current, frames).0.saw_first_content ==> frames_through(d.current, frames).1.len() == 0,
        forall|k: int|
            0 <= k < frames_through(d.current, frames).1.len() ==> !ends_turn(
                #[trigger] frames_through(d.current, frames).1[k],
            ),
    decreases frames.len(),
{
    if frames.len() > 0 {
        lemma_frames(d, frames.drop_last());
        let (a1, before) = frames_through(d.current, frames.drop_last());
        let d1 = DriverView { current: a1, ..d };
        let f = frames.last();
        let (a2, outcome) = after_frame(a1, f.frame, f.event, f.envelope, f.elapsed);
        if f.frame.event != Some("error"@) && f.event is Some {
            let e = f.event->0;
            law_event_keeps_well_formed(stamped(a1, e, f.elapsed), e);
            if !a2.saw_first_content {
                law_silence_before_first_block(stamped(a1, e, f.elapsed), e);
            }
        }
        if !a2.saw_first_content {
            law_nothing_reported_before_content(d1, f.frame, f.event, f.envelope, f.elapsed);
        }
        if outcome is Events {
            let events = outcome->Events_0;
            assert forall|k: int| 0 <= k < (before + events).len() implies !ends_turn(
                #[trigger] (before + events)[k],
            ) by {
                if k >= before.len() {
                    law_frames_do_not_end_turn(a1, f.frame, f.event, f.envelope, f.elapsed, k - before.len());
                }
            }
        }
    }
}

/// An attempt that is opened anew has reported nothing, whatever frames it had and
/// however it ended: what the next attempt reports repeats nothing.
pub proof fn law_reopened_attempt_was_silent(d: DriverView, frames: Seq<CameFrame>, end: AttemptEnd)
    requires
        driver_ok(d),
        opens_anew((DriverView { current: frames_through(d.current, frames).0, ..d }), end),
    ensures
        frames_through(d.current, frames).1.len() == 0,
{
    lemma_frames(d, frames);
}

/// From its first frame to its end a stream is reported with exactly one terminal
/// event, which comes last, whatever frames it had and however it ended.
pub proof fn law_stream_ends_once(d: DriverView, frames: Seq<CameFrame>, end: AttemptEnd, elapsed: u64)
    requires
        driver_ok(d),
    ensures
        ({
            let (a, events) = frames_through(d.current, frames);
            let all = events + closing_events((DriverView { current: a, ..d }), end, elapsed);
            &&& all.len() > 0
            &&& ends_turn(all.last())
            &&& forall|k: int| 0 <= k < all.len() - 1 ==> !ends_turn(#[trigger] all[k])
        }),
{
    lemma_frames(d, frames);
    let (a, events) = frames_through(d.current, frames);
    law_turn_ends_once((DriverView { current: a, ..d }), end, elapsed);
}

/// What a stream has reported when it fails stays in its message.
pub proof fn law_failed_stream_keeps_content(d: DriverView, end: AttemptEnd, elapsed: u64)
    requires
        !(end is Closed),
    ensures
        closing_events(d, end, elapsed).len() == 1,
        message_in(closing_events(d, end, elapsed)[0]).content == d.current.builder.working.content,
{
}

// ---- what becomes of a stream ------------------------------------------------------------------

/// A frame that holds an event of a message is taken in: the event reaches the message,
/// and what it is reported by is passed on. An error frame ends the stream with what it
/// says, and any other frame changes nothing but that one came.
pub proof fn law_frames_reach_the_message(
    a: AttemptView,
    frame: FrameView,
    event: Option<RawMessageStreamEvent>,
    envelope: Option<ErrorEnvelope>,
    elapsed: u64,
)
    ensures
        ({
            let (now, outcome) = after_frame(a, frame, event, envelope, elapsed);
            &&& now.saw_first_frame
            &&& frame.event == Some("error"@) ==> outcome == FrameOutcome::Error(stream_error_text(frame.data, envelope))
                && now.builder == a.builder && now.saw_first_content == a.saw_first_content
            &&& frame.event != Some("error"@) && event is None ==> outcome == FrameOutcome::Events(Seq::empty())
                && now.builder == a.builder && now.saw_first_content == a.saw_first_content
            &&& frame.event != Some("error"@) && event is Some ==> {
                let first = event->0 is ContentBlockStart && !a.saw_first_content;
                &&& now.saw_first_content == (a.saw_first_content || event->0 is ContentBlockStart)
                &&& !first ==> (now.builder, outcome->Events_0) == after_event(a.builder, event->0) && outcome is Events
                &&& first ==> outcome is Events && {
                    let b = BuilderView {
                        working: AssistantView {
                            ttft: if a.builder.working.ttft is Some {
                                a.builder.working.ttft
                            } else {
                                Some(elapsed)
                            },
                            ..a.builder.working
                        },
                        ..a.builder
                    };
                    (now.builder, outcome->Events_0) == after_event(b, event->0)
                }
            }
        }),
{
}

/// A stream that breaks off or stays silent before any content came is opened anew while
/// tries are left, and so is one that closes before its envelope.
pub proof fn law_silent_streams_are_opened_anew(d: DriverView, end: AttemptEnd)
    requires
        d.attempt < d.max_retries,
        !d.current.saw_first_content,
    ensures
        end is Transport || end is FirstEventTimeout ==> opens_anew(d, end),
        end is Closed && !d.current.builder.saw_message_start ==> opens_anew(d, end),
        end is Cancelled || end is ErrorFrame || end is IdleTimeout ==> !opens_anew(d, end),
{
}

/// A stream that fails ends in its message as it stands, with the reason and what went
/// wrong, and with how long it took; one that closes ends as its message does.
pub proof fn law_stream_end_is_told(d: DriverView, end: AttemptEnd, elapsed: u64)
    ensures
        ({
            let m = message_in(closing_events(d, end, elapsed).last());
            &&& end is Closed ==> closing_events(d, end, elapsed) == finished(with_duration(d.current.builder, elapsed)).1
            &&& end is Cancelled ==> m.stop_reason == StopReason::Aborted && m.error_message == Some(
                "Request was aborted."@,
            )
            &&& end is Transport ==> m.stop_reason == StopReason::Error && m.error_message == Some(
                "Connection error while streaming: "@ + end->Transport_0@,
            )
            &&& end is ErrorFrame ==> m.stop_reason == StopReason::Error && m.error_message == Some(end->ErrorFrame_0@)
            &&& end is FirstEventTimeout || end is IdleTimeout ==> m.stop_reason == StopReason::Error
                && m.error_message is Some
            &&& !(end is Closed) ==> m.content == d.current.builder.working.content && m.usage
                == d.current.builder.working.usage && m.duration == Some(elapsed)
        }),
        with_duration(d.current.builder, elapsed).working == (AssistantView {
            duration: Some(elapsed),
            ..d.current.builder.working
        }),
{
}

/// A timeout is the one that is set, none where it is switched off, and else the one
/// that there is without a setting. Of several variables the first that is set counts.
pub proof fn law_settings_of_timeouts(ms: u64, fallback: u64, values: Seq<Option<Text>>, v: Text)
    ensures
        timeout_of(TimeoutSetting::Millis(ms), fallback) == Some(ms),
        timeout_of(TimeoutSetting::Disabled, fallback) is None,
        timeout_of(TimeoutSetting::Unset, fallback) == Some(fallback),
        values.len() > 0 && values[0] == Some(v) && v.len() > 0 ==> first_given(values) == Some(v),
        values.len() > 0 && (values[0] is None || values[0]->0.len() == 0) ==> first_given(values) == first_given(
            values.subrange(1, values.len() as int),
        ),
        values.len() == 0 ==> first_given(values) is None,
{
}

} // verus!

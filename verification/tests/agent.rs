//! Runs of the agent and the scheduling of its calls, with scripted responses and
//! tools.
use std::collections::{BTreeSet, VecDeque};
use std::sync::Arc;

use omp_headless::agent_event::AgentEvent;
use omp_headless::agent_loop::{
    build_llm_context, check_continue, recover_transient_error_tool_turn, recover_turn_if,
    retain_completed_tool_calls, AgentConfig, AgentRun, ToolSpec, TurnPlan, TurnStep, DEFAULT_MAX_STEPS,
    STREAM_INTERRUPTED_AFTER_CONTENT,
};
use omp_headless::convert::emit_nonstream_events;
use omp_headless::event::{AssistantMessageEvent, ErrorReason};
use omp_headless::execute::{
    begin_call, coerce_tool_result, create_synthetic_tool_result_message, end_call, first_batch_step,
    has_substantive_content, next_batch_step, settle_call, sweep_skipped, tool_calls_of, tool_result_to_value,
    validate_args, BatchStep, CallStep, Concurrency, SyntheticReason, ToolOutcome, ToolResult,
};
use omp_headless::json::Json;
use omp_headless::json_repair::parse_json_with_repair;
use omp_headless::message::{
    AssistantContent, AssistantMessage, Message, StopReason, TextContent, ToolCall, ToolResultMessage, Usage,
    UserContent, UserContentBlock, UserMessage,
};
use omp_headless::wire::StopDetails;

fn json(text: &str) -> Json {
    parse_json_with_repair(text).unwrap()
}

fn assistant(content: Vec<AssistantContent>, stop: StopReason) -> AssistantMessage {
    AssistantMessage {
        content,
        api: "test".into(),
        provider: "test".into(),
        model: "fake".into(),
        context_snapshot: None,
        retry_recovery: None,
        response_id: None,
        upstream_provider: None,
        usage: Usage::default(),
        stop_reason: stop,
        stop_details: None,
        error_message: None,
        tool_call_abort_messages: None,
        error_status: None,
        error_id: None,
        disabled_features: None,
        provider_payload: None,
        timestamp: 0,
        duration: None,
        ttft: None,
    }
}

fn text(s: &str) -> AssistantContent {
    AssistantContent::Text(TextContent { text: s.into(), text_signature: None })
}

fn call(id: &str, name: &str) -> ToolCall {
    ToolCall {
        id: id.into(),
        name: name.into(),
        arguments: json("{}"),
        thought_signature: None,
        intent: None,
        raw_block: None,
        custom_wire_name: None,
    }
}

fn tool_call(id: &str, name: &str) -> AssistantContent {
    AssistantContent::ToolCall(call(id, name))
}

fn user(s: &str) -> Message {
    Message::User(UserMessage {
        content: UserContent::Text(s.into()),
        synthetic: None,
        steering: None,
        attribution: None,
        provider_payload: None,
        timestamp: 0,
    })
}

fn text_result(s: &str) -> ToolResult {
    ToolResult {
        content: vec![UserContentBlock::Text(TextContent { text: s.into(), text_signature: None })],
        details: None,
        is_error: false,
        useless: false,
    }
}

/// An assistant message whose content is exactly the given tool calls.
fn tool_turn(calls: &[(&str, &str)]) -> AssistantMessage {
    assistant(calls.iter().map(|(id, name)| tool_call(id, name)).collect(), StopReason::ToolUse)
}

// tools

/// What a tool does once it was started.
#[derive(Clone, Copy, PartialEq)]
enum Behavior {
    /// Is done at once.
    Instant,
    /// Is done when all that were started with it are under way.
    Barrier,
    /// Is done after the others.
    Hold,
    /// Goes on until the run is aborted.
    BlockUntilAbort,
    Panic,
    Fail,
}

struct FakeTool {
    name: &'static str,
    concurrency: Concurrency,
    behavior: Behavior,
    schema: Json,
}

fn tool(name: &'static str, concurrency: Concurrency, behavior: Behavior) -> FakeTool {
    FakeTool { name, concurrency, behavior, schema: json(r#"{"type":"object","properties":{}}"#) }
}

/// What came of a batch of calls.
struct Batch {
    events: Vec<AgentEvent>,
    results: Vec<ToolResultMessage>,
    timeline: Vec<String>,
}

impl Batch {
    fn mark(&mut self, tool: &FakeTool, phase: &str) {
        self.timeline.push(format!("{}:{phase}", tool.name));
    }

    fn finish(&mut self, tool: &FakeTool, call: &ToolCall, aborted: bool) {
        let outcome = match tool.behavior {
            Behavior::BlockUntilAbort => {
                self.mark(tool, "cut");
                ToolOutcome::Failed(format!("{} interrupted", tool.name))
            }
            Behavior::Panic => ToolOutcome::Panicked(format!("{} exploded", tool.name)),
            Behavior::Fail => {
                self.mark(tool, "end");
                ToolOutcome::Failed(format!("{} failed", tool.name))
            }
            _ => {
                self.mark(tool, "end");
                ToolOutcome::Returned(text_result(&format!("{} ran", tool.name)))
            }
        };
        let (events, result) = end_call(call, outcome, aborted, 0);
        self.events.extend(events);
        self.results.push(result);
    }

    /// Runs calls that are under way together.
    fn run(&mut self, tools: &[FakeTool], calls: &[ToolCall], aborted: bool) {
        let mut waiting: Vec<(&FakeTool, &ToolCall)> = Vec::new();
        let mut held: Vec<(&FakeTool, &ToolCall)> = Vec::new();
        for c in calls {
            let found = tools.iter().find(|t| t.name == c.name);
            match begin_call(found.map(|t| &t.schema), c, aborted, 0) {
                CallStep::Refused(events, result) => {
                    self.events.extend(events);
                    self.results.push(result);
                }
                CallStep::Run(event) => {
                    self.events.push(event);
                    let t = found.unwrap();
                    self.mark(t, "start");
                    match t.behavior {
                        Behavior::Barrier => waiting.push((t, c)),
                        Behavior::Hold | Behavior::BlockUntilAbort => held.push((t, c)),
                        _ => self.finish(t, c, aborted),
                    }
                }
            }
        }
        for (t, c) in waiting {
            self.finish(t, c, aborted);
        }
        for (t, c) in held {
            let cut = t.behavior == Behavior::BlockUntilAbort;
            self.finish(t, c, aborted || cut);
        }
    }
}

/// Runs the calls of a message; `queued` says whether the user has queued a
/// message.
fn execute_tool_calls(tools: &[FakeTool], message: &AssistantMessage, queued: bool) -> Batch {
    let calls = tool_calls_of(message);
    let classes: Vec<Concurrency> = calls
        .iter()
        .map(|c| tools.iter().find(|t| t.name == c.name).map_or(Concurrency::Shared, |t| t.concurrency))
        .collect();
    let mut batch = Batch { events: Vec::new(), results: Vec::new(), timeline: Vec::new() };
    let mut step = first_batch_step(&classes);
    loop {
        match step {
            BatchStep::Shared { from, to } => batch.run(tools, &calls[from..to], false),
            BatchStep::Steering { .. } => {}
            BatchStep::Exclusive { at } => batch.run(tools, &calls[at..at + 1], false),
            BatchStep::Done { ran } => {
                let (events, results) = sweep_skipped(&calls, ran, 0);
                batch.events.extend(events);
                batch.results.extend(results);
                return batch;
            }
        }
        step = next_batch_step(&classes, step, queued);
    }
}

fn pos(timeline: &[String], token: &str) -> usize {
    timeline
        .iter()
        .position(|e| e == token)
        .unwrap_or_else(|| panic!("timeline missing {token}: {timeline:?}"))
}

/// Nothing else happens while an exclusive tool runs.
fn assert_exclusive_isolated(timeline: &[String], exclusive: &str) {
    let start = pos(timeline, &format!("{exclusive}:start"));
    let end = pos(timeline, &format!("{exclusive}:end"));
    for (i, token) in timeline.iter().enumerate() {
        if i > start && i < end {
            assert!(token.starts_with(&format!("{exclusive}:")), "{timeline:?}");
        }
    }
}

fn result_names(results: &[ToolResultMessage]) -> Vec<String> {
    results.iter().map(|r| r.tool_name.clone()).collect()
}

fn result_text(r: &ToolResultMessage) -> String {
    let mut text = String::new();
    for block in &r.content {
        if let UserContentBlock::Text(t) = block {
            text.push_str(&t.text);
        }
    }
    text
}

/// Every call has exactly one result.
fn assert_result_pairing(message: &AssistantMessage, results: &[ToolResultMessage]) {
    let call_ids: Vec<String> = tool_calls_of(message).into_iter().map(|c| c.id).collect();
    let result_ids: Vec<String> = results.iter().map(|r| r.tool_call_id.clone()).collect();
    assert_eq!(call_ids.len(), result_ids.len(), "tool_use/tool_result count mismatch");
    for id in &call_ids {
        assert!(result_ids.contains(id), "tool_use {id} has no tool_result: {result_ids:?}");
    }
}

fn find<'a>(results: &'a [ToolResultMessage], name: &str) -> &'a ToolResultMessage {
    results.iter().find(|r| r.tool_name == name).unwrap()
}

// scheduling

#[test]
fn shared_tools_run_concurrently() {
    let tools = [
        tool("a", Concurrency::Shared, Behavior::Barrier),
        tool("b", Concurrency::Shared, Behavior::Barrier),
    ];
    let message = tool_turn(&[("c1", "a"), ("c2", "b")]);
    let batch = execute_tool_calls(&tools, &message, false);
    let tl = &batch.timeline;
    // Both started before either finished.
    assert!(pos(tl, "a:start") < pos(tl, "a:end"));
    assert!(pos(tl, "b:start") < pos(tl, "b:end"));
    assert!(pos(tl, "a:start") < pos(tl, "b:end"));
    assert!(pos(tl, "b:start") < pos(tl, "a:end"));
    assert_result_pairing(&message, &batch.results);
}

#[test]
fn exclusive_waits_for_preceding_shared() {
    let tools = [
        tool("a", Concurrency::Shared, Behavior::Barrier),
        tool("b", Concurrency::Shared, Behavior::Barrier),
        tool("x", Concurrency::Exclusive, Behavior::Instant),
    ];
    let message = tool_turn(&[("c1", "a"), ("c2", "b"), ("c3", "x")]);
    let batch = execute_tool_calls(&tools, &message, false);
    let tl = &batch.timeline;
    assert!(pos(tl, "x:start") > pos(tl, "a:end"), "exclusive ran before a finished");
    assert!(pos(tl, "x:start") > pos(tl, "b:end"), "exclusive ran before b finished");
    assert_exclusive_isolated(tl, "x");
    assert_result_pairing(&message, &batch.results);
}

#[test]
fn shared_after_exclusive_waits_for_it() {
    let tools = [
        tool("x", Concurrency::Exclusive, Behavior::Instant),
        tool("a", Concurrency::Shared, Behavior::Barrier),
        tool("b", Concurrency::Shared, Behavior::Barrier),
    ];
    let message = tool_turn(&[("c1", "x"), ("c2", "a"), ("c3", "b")]);
    let batch = execute_tool_calls(&tools, &message, false);
    let tl = &batch.timeline;
    assert!(pos(tl, "a:start") > pos(tl, "x:end"), "shared a ran before exclusive finished");
    assert!(pos(tl, "b:start") > pos(tl, "x:end"), "shared b ran before exclusive finished");
    // a and b still overlap each other.
    assert!(pos(tl, "a:start") < pos(tl, "b:end"));
    assert!(pos(tl, "b:start") < pos(tl, "a:end"));
    assert_exclusive_isolated(tl, "x");
    assert_result_pairing(&message, &batch.results);
}

#[test]
fn results_collected_in_completion_order() {
    let tools = [
        tool("slow", Concurrency::Shared, Behavior::Hold),
        tool("fast", Concurrency::Shared, Behavior::Instant),
    ];
    let message = tool_turn(&[("c1", "slow"), ("c2", "fast")]);
    let batch = execute_tool_calls(&tools, &message, false);
    assert_eq!(result_names(&batch.results), vec!["fast", "slow"], "results must be completion order");
    assert_eq!(message.content.len(), 2);
    assert_result_pairing(&message, &batch.results);
}

#[test]
fn tool_panic_does_not_sink_batch() {
    let tools = [
        tool("boom", Concurrency::Shared, Behavior::Panic),
        tool("ok", Concurrency::Shared, Behavior::Instant),
    ];
    let message = tool_turn(&[("c1", "boom"), ("c2", "ok")]);
    let batch = execute_tool_calls(&tools, &message, false);
    assert_result_pairing(&message, &batch.results);
    let boom = find(&batch.results, "boom");
    assert!(boom.is_error, "panicking tool must yield an is_error result");
    assert!(result_text(boom).contains("panicked"), "panic surfaced: {}", result_text(boom));
    assert!(!find(&batch.results, "ok").is_error, "sibling tool survived the panic");
}

#[test]
fn abort_keeps_completed_and_cuts_off_inflight() {
    let tools = [
        tool("done", Concurrency::Shared, Behavior::Instant),
        tool("hung", Concurrency::Shared, Behavior::BlockUntilAbort),
    ];
    let message = tool_turn(&[("c1", "done"), ("c2", "hung")]);
    let batch = execute_tool_calls(&tools, &message, false);
    assert_result_pairing(&message, &batch.results);
    let done = find(&batch.results, "done");
    assert!(!done.is_error, "completed tool keeps its real result");
    assert_eq!(result_text(done), "done ran");
    let hung = find(&batch.results, "hung");
    assert!(hung.is_error, "cut-off tool reports an error");
    assert!(result_text(hung).contains("aborted"), "cut-off reports aborted: {}", result_text(hung));
}

#[test]
fn steering_interrupts_before_exclusive() {
    let tools = [
        tool("a", Concurrency::Shared, Behavior::Instant),
        tool("x", Concurrency::Exclusive, Behavior::Instant),
        tool("b", Concurrency::Shared, Behavior::Instant),
    ];
    let message = tool_turn(&[("c1", "a"), ("c2", "x"), ("c3", "b")]);
    let batch = execute_tool_calls(&tools, &message, true);
    let tl = &batch.timeline;
    assert!(tl.iter().any(|e| e == "a:end"), "shared prefix should complete: {tl:?}");
    assert!(!tl.iter().any(|e| e == "x:start"), "exclusive must not start after steer: {tl:?}");
    assert!(!tl.iter().any(|e| e == "b:start"), "trailing shared must not start: {tl:?}");
    assert_result_pairing(&message, &batch.results);
    assert!(!find(&batch.results, "a").is_error);
    for name in ["x", "b"] {
        let skipped = find(&batch.results, name);
        assert!(skipped.is_error, "{name} must be skipped");
        assert!(result_text(skipped).contains("Skipped due to queued"), "{}", result_text(skipped));
    }
}

#[test]
fn steering_does_not_interrupt_shared_only_batch() {
    let tools = [
        tool("a", Concurrency::Shared, Behavior::Barrier),
        tool("b", Concurrency::Shared, Behavior::Barrier),
    ];
    let message = tool_turn(&[("c1", "a"), ("c2", "b")]);
    let batch = execute_tool_calls(&tools, &message, true);
    assert_result_pairing(&message, &batch.results);
    assert!(batch.results.iter().all(|r| !r.is_error), "shared-only batch runs to completion");
}

#[test]
fn tail_sweep_pairs_all_skipped() {
    // A leading exclusive: nothing runs.
    let tools = [
        tool("x", Concurrency::Exclusive, Behavior::Instant),
        tool("y", Concurrency::Exclusive, Behavior::Instant),
    ];
    let message = tool_turn(&[("c1", "x"), ("c2", "y")]);
    let batch = execute_tool_calls(&tools, &message, true);
    assert!(batch.timeline.is_empty(), "no tool should have started");
    assert_result_pairing(&message, &batch.results);
    assert!(batch.results.iter().all(|r| r.is_error), "every call paired with a skipped result");
}

#[test]
fn exclusive_error_does_not_break_batch() {
    let tools = [
        tool("x", Concurrency::Exclusive, Behavior::Fail),
        tool("a", Concurrency::Shared, Behavior::Instant),
    ];
    let message = tool_turn(&[("c1", "x"), ("c2", "a")]);
    let batch = execute_tool_calls(&tools, &message, false);
    assert_result_pairing(&message, &batch.results);
    assert!(find(&batch.results, "x").is_error, "failed exclusive yields is_error");
    assert!(!find(&batch.results, "a").is_error, "shared after a failed exclusive still runs");
    assert!(pos(&batch.timeline, "a:start") > pos(&batch.timeline, "x:end"));
}

#[test]
fn non_yielding_shared_tools_preserve_content_order() {
    let tools = [
        tool("a", Concurrency::Shared, Behavior::Instant),
        tool("b", Concurrency::Shared, Behavior::Instant),
    ];
    let message = tool_turn(&[("c1", "a"), ("c2", "b")]);
    let batch = execute_tool_calls(&tools, &message, false);
    assert_eq!(result_names(&batch.results), vec!["a", "b"]);
    assert_eq!(batch.timeline, vec!["a:start", "a:end", "b:start", "b:end"]);
}

// runs

/// Runs the agent on scripted responses. `steering` holds what is queued before
/// each turn.
fn run_agent(
    scripts: Vec<Vec<AssistantMessageEvent>>,
    tools: &[FakeTool],
    steering: Vec<Vec<Message>>,
    aborted: bool,
) -> (Vec<AgentEvent>, Vec<String>) {
    let mut scripts = VecDeque::from(scripts);
    let mut steering = VecDeque::from(steering);
    let names: Vec<String> = tools.iter().map(|t| t.name.to_string()).collect();
    let config = AgentConfig::new("fake".to_string(), 1024);
    let mut timeline = Vec::new();
    let (mut run, mut events) = AgentRun::start(Vec::new(), &vec![user("hi")], config.max_steps);
    loop {
        match run.begin_turn(&steering.pop_front().unwrap_or_default()) {
            TurnStep::Finish(event) => {
                events.push(event);
                return (events, timeline);
            }
            TurnStep::Ask(new) => events.extend(new),
        }
        let mut last: Option<AssistantMessage> = None;
        if aborted {
            let (new, message) = run.on_abort(&config.model, 0);
            events.extend(new);
            last = Some(message);
        } else {
            for event in scripts.pop_front().unwrap_or_default() {
                let (new, message) = run.on_response_event(event, &names);
                events.extend(new);
                if message.is_some() {
                    last = message;
                    break;
                }
            }
        }
        let message = match last {
            Some(m) => m,
            None => {
                let (new, m) = run.on_response_end(&config.model, 0);
                events.extend(new);
                m
            }
        };
        match run.plan_turn(&message, 0) {
            TurnPlan::Ended(new) => events.extend(new),
            TurnPlan::Execute(_) => {
                let batch = execute_tool_calls(tools, &message, false);
                events.extend(batch.events);
                timeline.extend(batch.timeline);
                events.push(run.end_turn(&message, batch.results));
            }
        }
    }
}

fn scripted_msg(first: AssistantMessage) -> Vec<Vec<AssistantMessageEvent>> {
    let stop = assistant(vec![text("done")], StopReason::Stop);
    vec![emit_nonstream_events(&Arc::new(first)), emit_nonstream_events(&Arc::new(stop))]
}

/// What holds of the events of every run.
fn check_invariants(events: &[AgentEvent]) -> Result<(), String> {
    if !matches!(events.first(), Some(AgentEvent::AgentStart)) {
        return Err("first event is not agent_start".into());
    }
    if !matches!(events.last(), Some(AgentEvent::AgentEnd { .. })) {
        return Err("last event is not agent_end".into());
    }
    let starts = count(events, |e| matches!(e, AgentEvent::AgentStart));
    let ends = count(events, |e| matches!(e, AgentEvent::AgentEnd { .. }));
    if starts != 1 || ends != 1 {
        return Err(format!("agent_start/agent_end not unique: {starts}/{ends}"));
    }
    let turn_starts = count(events, |e| matches!(e, AgentEvent::TurnStart));
    let turn_ends = count(events, |e| matches!(e, AgentEvent::TurnEnd { .. }));
    if turn_starts != turn_ends {
        return Err(format!("turn_start/turn_end mismatch: {turn_starts}/{turn_ends}"));
    }
    // Every tool_execution_start id has a matching tool_execution_end.
    let mut start_ids = BTreeSet::new();
    let mut end_ids = BTreeSet::new();
    for event in events {
        match event {
            AgentEvent::ToolExecutionStart { tool_call_id, .. } => {
                start_ids.insert(tool_call_id.clone());
            }
            AgentEvent::ToolExecutionEnd { tool_call_id, .. } => {
                end_ids.insert(tool_call_id.clone());
            }
            _ => {}
        }
    }
    if start_ids != end_ids {
        return Err(format!("tool exec start/end ids differ: {start_ids:?} vs {end_ids:?}"));
    }
    // The content of a message does not shrink within it.
    let mut last_len = 0usize;
    for event in events {
        match event {
            AgentEvent::MessageStart { .. } => last_len = 0,
            AgentEvent::MessageUpdate { message, .. } => {
                let len = match message {
                    Message::Assistant(a) => a.content.len(),
                    _ => 0,
                };
                if len < last_len {
                    return Err(format!("message_update content length regressed: {len} < {last_len}"));
                }
                last_len = len;
            }
            _ => {}
        }
    }
    Ok(())
}

fn count(events: &[AgentEvent], f: impl Fn(&AgentEvent) -> bool) -> usize {
    events.iter().filter(|e| f(e)).count()
}

fn final_messages(events: &[AgentEvent]) -> Vec<Message> {
    match events.last() {
        Some(AgentEvent::AgentEnd { messages }) => messages.clone(),
        _ => vec![],
    }
}

fn turn_ends(events: &[AgentEvent]) -> usize {
    count(events, |e| matches!(e, AgentEvent::TurnEnd { .. }))
}

fn tool_ends(events: &[AgentEvent]) -> usize {
    count(events, |e| matches!(e, AgentEvent::ToolExecutionEnd { .. }))
}

fn recorder() -> Vec<FakeTool> {
    vec![tool("t", Concurrency::Shared, Behavior::Instant)]
}

#[test]
fn stop_without_tools_ends_run() {
    let msg = assistant(vec![text("hello")], StopReason::Stop);
    let (events, _) = run_agent(vec![emit_nonstream_events(&Arc::new(msg))], &[], vec![], false);
    check_invariants(&events).unwrap();
    assert_eq!(turn_ends(&events), 1);
    assert_eq!(count(&events, |e| matches!(e, AgentEvent::ToolExecutionStart { .. })), 0);
}

#[test]
fn stop_with_tool_calls_executes_then_continues() {
    // A stop that carries a call still runs the tool.
    let first = assistant(vec![tool_call("c1", "t")], StopReason::Stop);
    let (events, timeline) = run_agent(scripted_msg(first), &recorder(), vec![], false);
    check_invariants(&events).unwrap();
    assert_eq!(timeline, vec!["t:start", "t:end"]);
    assert_eq!(tool_ends(&events), 1);
    // Two turns: the tool turn and the stop turn.
    assert_eq!(turn_ends(&events), 2);
}

#[test]
fn tool_use_stop_runs_tool() {
    let first = assistant(vec![tool_call("c1", "t")], StopReason::ToolUse);
    let (events, timeline) = run_agent(scripted_msg(first), &recorder(), vec![], false);
    check_invariants(&events).unwrap();
    assert_eq!(timeline, vec!["t:start", "t:end"]);
}

#[test]
fn length_stop_pairs_placeholder_without_executing() {
    // A truncated call is paired with a result that was made up, and not run.
    let first = assistant(vec![tool_call("c1", "t")], StopReason::Length);
    let (events, timeline) = run_agent(scripted_msg(first), &recorder(), vec![], false);
    check_invariants(&events).unwrap();
    assert!(timeline.is_empty(), "tool must not execute on length");
    assert_eq!(tool_ends(&events), 1);
    let has_synth =
        final_messages(&events).iter().any(|m| matches!(m, Message::ToolResult(r) if r.is_error));
    assert!(has_synth, "expected a synthetic error toolResult");
}

#[test]
fn error_stop_ends_run_with_placeholder_pairing() {
    // A completed call, then an error that carries it.
    let done_msg = assistant(vec![tool_call("c1", "t")], StopReason::Error);
    let script = vec![
        AssistantMessageEvent::Start { partial: Arc::new(assistant(vec![], StopReason::Error)) },
        AssistantMessageEvent::ToolcallStart {
            content_index: 0,
            partial: Arc::new(assistant(vec![], StopReason::Error)),
        },
        AssistantMessageEvent::ToolcallEnd {
            content_index: 0,
            tool_call: call("c1", "t"),
            partial: Arc::new(done_msg.clone()),
        },
        AssistantMessageEvent::Error { reason: ErrorReason::Error, error: Arc::new(done_msg) },
    ];
    let (events, timeline) = run_agent(vec![script], &recorder(), vec![], false);
    check_invariants(&events).unwrap();
    assert!(timeline.is_empty(), "error turn must not execute tools");
    // The completed call was kept and paired with a placeholder.
    assert_eq!(tool_ends(&events), 1);
    assert_eq!(turn_ends(&events), 1);
}

#[test]
fn aborted_stop_pairs_placeholder() {
    let done_msg = assistant(vec![tool_call("c1", "t")], StopReason::Aborted);
    let script = vec![
        AssistantMessageEvent::Start { partial: Arc::new(assistant(vec![], StopReason::Aborted)) },
        AssistantMessageEvent::ToolcallEnd {
            content_index: 0,
            tool_call: call("c1", "t"),
            partial: Arc::new(done_msg.clone()),
        },
        AssistantMessageEvent::Error { reason: ErrorReason::Aborted, error: Arc::new(done_msg) },
    ];
    let (events, _) = run_agent(vec![script], &[], vec![], false);
    check_invariants(&events).unwrap();
    let synth = final_messages(&events).iter().any(|m| matches!(m, Message::ToolResult(r) if r.is_error));
    assert!(synth, "aborted turn with a completed tool call must pair a placeholder");
}

#[test]
fn multiple_tool_calls_run_serially_in_order() {
    let tools = [
        tool("a", Concurrency::Shared, Behavior::Instant),
        tool("b", Concurrency::Shared, Behavior::Instant),
    ];
    let first = tool_turn(&[("c1", "a"), ("c2", "b")]);
    let (events, timeline) = run_agent(scripted_msg(first), &tools, vec![], false);
    check_invariants(&events).unwrap();
    assert_eq!(timeline, vec!["a:start", "a:end", "b:start", "b:end"]);
    assert_eq!(tool_ends(&events), 2);
}

#[test]
fn tool_error_does_not_break_the_chain() {
    let tools = [
        tool("a", Concurrency::Shared, Behavior::Fail),
        tool("b", Concurrency::Shared, Behavior::Instant),
    ];
    let first = tool_turn(&[("c1", "a"), ("c2", "b")]);
    let (events, timeline) = run_agent(scripted_msg(first), &tools, vec![], false);
    check_invariants(&events).unwrap();
    // Both tools ran (the first failed but the batch went on).
    assert_eq!(timeline, vec!["a:start", "a:end", "b:start", "b:end"]);
    let end_errs: Vec<Option<bool>> = events
        .iter()
        .filter_map(|e| match e {
            AgentEvent::ToolExecutionEnd { tool_call_id, is_error, .. } if tool_call_id == "c1" => Some(*is_error),
            _ => None,
        })
        .collect();
    assert_eq!(end_errs, vec![Some(true)], "the failing tool produced an is_error result");
}

fn failed_call(events: &[AgentEvent], id: &str) -> bool {
    events.iter().any(|e| {
        matches!(
            e,
            AgentEvent::ToolExecutionEnd { tool_call_id, is_error: Some(true), .. } if tool_call_id == id
        )
    })
}

#[test]
fn unknown_tool_name_yields_error_result() {
    let first = tool_turn(&[("c1", "ghost")]);
    let (events, _) = run_agent(scripted_msg(first), &[], vec![], false);
    check_invariants(&events).unwrap();
    assert!(failed_call(&events, "c1"), "unknown tool must yield an is_error result");
}

#[test]
fn missing_required_arg_yields_error_result() {
    let needs = FakeTool {
        schema: json(r#"{ "type": "object", "properties": { "x": { "type": "string" } }, "required": ["x"] }"#),
        ..tool("needs", Concurrency::Shared, Behavior::Instant)
    };
    let first = tool_turn(&[("c1", "needs")]);
    let (events, timeline) = run_agent(scripted_msg(first), &[needs], vec![], false);
    check_invariants(&events).unwrap();
    assert!(timeline.is_empty(), "must not execute with missing required arg");
    assert!(failed_call(&events, "c1"), "missing required arg must yield an is_error result");
}

#[test]
fn pre_aborted_token_short_circuits_to_aborted() {
    let (events, _) = run_agent(scripted_msg(tool_turn(&[("c1", "t")])), &[], vec![], true);
    check_invariants(&events).unwrap();
    let aborted = final_messages(&events)
        .iter()
        .any(|m| matches!(m, Message::Assistant(a) if a.stop_reason == StopReason::Aborted));
    assert!(aborted, "expected an aborted assistant message");
    assert_eq!(turn_ends(&events), 1);
}

#[test]
fn steering_after_batch_resumes_the_loop() {
    // The first turn stops without calls; a message is queued once, which forces a
    // second turn.
    let scripts = vec![
        emit_nonstream_events(&Arc::new(assistant(vec![text("first")], StopReason::Stop))),
        emit_nonstream_events(&Arc::new(assistant(vec![text("second")], StopReason::Stop))),
    ];
    let (events, _) = run_agent(scripts, &[], vec![vec![], vec![user("keep going")]], false);
    assert_eq!(turn_ends(&events), 2, "steer forced a 2nd turn");
    assert!(
        final_messages(&events).iter().any(|m| matches!(m, Message::User(u)
            if matches!(&u.content, UserContent::Text(t) if t == "keep going"))),
        "steering message injected into history"
    );
}

#[test]
fn no_steering_breaks_after_single_turn() {
    let scripts = vec![emit_nonstream_events(&Arc::new(assistant(vec![text("done")], StopReason::Stop)))];
    let (events, _) = run_agent(scripts, &[], vec![], false);
    assert_eq!(turn_ends(&events), 1, "no steer, one turn");
    assert!(matches!(events.last(), Some(AgentEvent::AgentEnd { .. })));
}

#[test]
fn turns_stay_within_the_limit() {
    let (mut run, _) = AgentRun::start(Vec::new(), &vec![user("hi")], 2);
    for _ in 0..2 {
        assert!(matches!(run.begin_turn(&vec![]), TurnStep::Ask(_)));
        let message = tool_turn(&[("c1", "t")]);
        assert!(matches!(run.plan_turn(&message, 0), TurnPlan::Execute(_)));
        run.end_turn(&message, Vec::new());
    }
    assert!(matches!(run.begin_turn(&vec![user("more")]), TurnStep::Finish(_)));
    assert_eq!(DEFAULT_MAX_STEPS, 64);
}

#[test]
fn response_without_an_end_is_an_error() {
    let (events, _) = run_agent(vec![vec![]], &[], vec![], false);
    check_invariants(&events).unwrap();
    match &final_messages(&events)[1] {
        Message::Assistant(a) => {
            assert_eq!(a.stop_reason, StopReason::Error);
            assert_eq!(a.error_message.as_deref(), Some("stream ended without a final result"));
        }
        other => panic!("{other:?}"),
    }
}

#[test]
fn conversation_shows_the_latest_partial() {
    let (mut run, _) = AgentRun::start(Vec::new(), &vec![user("hi")], 4);
    run.begin_turn(&vec![]);
    for event in emit_nonstream_events(&Arc::new(assistant(vec![text("hello")], StopReason::Stop))) {
        run.on_response_event(event, &vec![]);
    }
    assert_eq!(run.messages().len(), 2);
    assert!(matches!(&run.messages()[1], Message::Assistant(a) if a.content.len() == 1));
}

// failed turns

#[test]
fn failed_turn_keeps_completed_calls_only() {
    let message = assistant(vec![text("x"), tool_call("c1", "t"), tool_call("c2", "t")], StopReason::Error);
    let kept = retain_completed_tool_calls(message, &vec!["c2".to_string()]);
    let ids: Vec<String> = tool_calls_of(&kept).into_iter().map(|c| c.id).collect();
    assert_eq!(ids, vec!["c2"]);
    assert_eq!(kept.content.len(), 2);
    let whole = tool_turn(&[("c1", "t")]);
    assert_eq!(retain_completed_tool_calls(whole.clone(), &vec![]), whole);
}

#[test]
fn interrupted_turn_with_a_known_call_is_taken_up() {
    let mut message = assistant(vec![tool_call("c1", "t")], StopReason::Error);
    message.error_message = Some("Stream_Read error: reset".into());
    message.stop_details = None;
    let names = vec!["t".to_string()];
    let taken = recover_turn_if(message.clone(), &names, true);
    assert_eq!(taken.stop_reason, StopReason::ToolUse);
    assert_eq!(taken.error_message, None);
    assert_eq!(taken.stop_details.as_ref().unwrap().detail_type, STREAM_INTERRUPTED_AFTER_CONTENT);
    assert_eq!(recover_turn_if(message.clone(), &names, false).stop_reason, StopReason::Error);
    assert_eq!(recover_turn_if(message.clone(), &vec!["other".to_string()], true).stop_reason, StopReason::Error);
    assert_eq!(recover_transient_error_tool_turn(message.clone(), &names).stop_reason, StopReason::ToolUse);
    message.error_message = Some("JSON Parse error: Unterminated string".into());
    assert_eq!(recover_transient_error_tool_turn(message.clone(), &names).stop_reason, StopReason::ToolUse);
    message.error_message = Some("invalid request".into());
    assert_eq!(recover_transient_error_tool_turn(message, &names).stop_reason, StopReason::Error);
}

#[test]
fn refusal_is_final() {
    let mut message = assistant(vec![tool_call("c1", "t")], StopReason::Error);
    message.error_message = Some("stream read error".into());
    message.stop_details =
        Some(StopDetails { detail_type: "refusal".into(), category: None, explanation: None });
    let kept = recover_transient_error_tool_turn(message.clone(), &vec!["t".to_string()]);
    assert_eq!(kept, message);
}

#[test]
fn run_can_only_go_on_behind_a_question() {
    assert!(check_continue(&vec![user("hi")]).is_ok());
    assert!(check_continue(&vec![]).is_err());
    assert!(check_continue(&vec![Message::Assistant(Box::new(assistant(vec![], StopReason::Stop)))]).is_err());
}

#[test]
fn schemas_are_normalized_for_the_model() {
    let tools = vec![ToolSpec {
        name: "t".into(),
        description: "d".into(),
        input_schema: json(r#"{"type":"object","properties":{"n":{"type":"integer","minimum":1}}}"#),
    }];
    let context = build_llm_context(&vec!["sys".to_string()], &vec![user("hi")], &tools);
    assert_eq!(context.system_prompt, vec!["sys"]);
    assert_eq!(context.messages.len(), 1);
    assert_eq!(
        context.tools[0].input_schema.get("properties").unwrap().get("n").unwrap().get("description").unwrap().as_str(),
        Some("{minimum: 1}")
    );
}

// results

#[test]
fn empty_errors_get_a_text() {
    let empty = ToolResult { content: vec![], details: None, is_error: true, useless: false };
    let coerced = coerce_tool_result(empty);
    assert!(coerced.is_error);
    assert!(has_substantive_content(&coerced.content));
    let blank = vec![UserContentBlock::Text(TextContent { text: "  \n".into(), text_signature: None })];
    assert!(!has_substantive_content(&blank));
    assert_eq!(coerce_tool_result(text_result("x")), text_result("x"));
}

#[test]
fn outcomes_are_settled() {
    assert_eq!(settle_call(ToolOutcome::Returned(text_result("x")), true), text_result("x"));
    let failed = settle_call(ToolOutcome::Failed("boom".into()), false);
    assert!(failed.is_error);
    assert_eq!(failed.content, text_result("boom").content);
    let cut = settle_call(ToolOutcome::Failed("boom".into()), true);
    assert!(cut.is_error && cut != failed);
}

#[test]
fn result_is_written_as_json() {
    let value = tool_result_to_value(&text_result("x"));
    let blocks = value.get("content").unwrap();
    match blocks {
        Json::Array(b) => {
            assert_eq!(b[0].get("type").unwrap().as_str(), Some("text"));
            assert_eq!(b[0].get("text").unwrap().as_str(), Some("x"));
        }
        other => panic!("{other:?}"),
    }
}

#[test]
fn made_up_results_name_their_reason() {
    let c = call("c1", "t");
    let mut texts: Vec<String> = Vec::new();
    for reason in [SyntheticReason::Aborted, SyntheticReason::Error, SyntheticReason::Skipped, SyntheticReason::Length] {
        let m = create_synthetic_tool_result_message(&c, reason, &None, 7);
        assert_eq!((m.tool_call_id.as_str(), m.tool_name.as_str(), m.timestamp), ("c1", "t", 7));
        assert!(m.is_error);
        assert!(!reason.source().is_empty());
        texts.push(result_text(&m));
    }
    texts.sort();
    texts.dedup();
    assert_eq!(texts.len(), 4);
    let m = create_synthetic_tool_result_message(&c, SyntheticReason::Error, &Some("why".into()), 7);
    assert!(result_text(&m).contains("why"));
}

#[test]
fn arguments_are_held_against_the_schema() {
    let schema = json(r#"{"type":"object","properties":{"x":{"type":"string"}},"required":["x"]}"#);
    assert!(validate_args(&schema, &json(r#"{"x":"y"}"#)).is_ok());
    assert!(validate_args(&schema, &json("{}")).is_err());
    assert!(validate_args(&schema, &json("[]")).is_err());
    assert!(validate_args(&json("{}"), &json("{}")).is_ok());
}

#[test]
fn turn_without_a_stream_is_answered_by_an_error() {
    let (mut run, _) = AgentRun::start(Vec::new(), &vec![user("hi")], 4);
    assert!(matches!(run.begin_turn(&Vec::new()), TurnStep::Ask(_)));
    let (events, message) = run.on_no_stream("fake", 7);
    assert_eq!(message.stop_reason, StopReason::Error);
    assert_eq!(message.error_message.as_deref(), Some("no stream_fn configured on AgentConfig"));
    assert_eq!((message.model.as_str(), message.timestamp), ("fake", 7));
    assert!(message.content.is_empty());
    let reported = Message::Assistant(Box::new(message.clone()));
    assert_eq!(
        events,
        vec![
            AgentEvent::MessageStart { message: reported.clone() },
            AgentEvent::MessageEnd { message: reported.clone() },
        ]
    );
    assert_eq!(run.messages().last(), Some(&reported));
    match run.plan_turn(&message, 7) {
        TurnPlan::Ended(last) => assert!(matches!(last.as_slice(), [AgentEvent::TurnEnd { .. }])),
        other => panic!("{other:?}"),
    }
    assert!(matches!(run.begin_turn(&vec![user("more")]), TurnStep::Finish(_)));
}

//! Turns: events, streams, tools that delegate, and the loop itself.

use octane::config::agent::{builtin_agents, AgentDefinition, AgentMode, AgentScope, Frontmatter};
use octane::context::budget::Budget;
use octane::context::ContextError;
use octane::engine::model_source::{FinishReason, ModelStepSource, StreamEvent};
use octane::engine::summarizer::{render, transcript, truncate, ModelSummarizer, MAX_SUMMARY_TOKENS};
use octane::engine::task::{Task, TaskInput, TaskTool};
use octane::engine::turn::{Action, Input, StepOutput, Turn, TurnOutcome, TurnRunner};
use octane::engine::{Agent, CoreError, EventSink, LoopGuard, StepDecision, StopReason, ToolError, ToolOutcome};
use octane::permission::{PermissionError, Policy, Scope};
use octane::protocol::{
    Event, ItemEvent, ItemKind, ItemStatus, Message, Part, Role, ToolCall, ToolCallId, ToolResult,
    TurnId, TurnStatus, Usage,
};
use serde_json::Value;

#[test]
fn an_item_streams_started_delta_completed() {
    let mut sink = EventSink::new(TurnId::new());

    let id = sink.item_started(ItemKind::AgentMessage { text: String::new() });
    sink.item_delta(&id, "hel");
    sink.item_delta(&id, "lo");
    sink.item_completed(
        id.clone(),
        ItemKind::AgentMessage { text: "hello".into() },
        ItemStatus::Completed,
    );

    let received = sink.take();
    assert_eq!(received.len(), 4);

    // Deltas must address the item they belong to, or a client cannot tell
    // which of several in-flight items they extend.
    assert!(matches!(
        &received[1],
        Event::Item(ItemEvent::Delta { item_id, text, .. }) if *item_id == id && text == "hel"
    ));
    assert!(matches!(&received[3], Event::Item(ItemEvent::Completed { .. })));
    assert!(sink.take().is_empty());
}

#[test]
fn every_event_in_a_turn_carries_the_same_turn_id() {
    let turn = TurnId::new();
    let mut sink = EventSink::new(turn.clone());

    sink.item(ItemKind::AgentMessage { text: "x".into() });
    sink.turn_status(TurnStatus::Completed);

    let received = sink.take();
    assert_eq!(received.len(), 2);
    for event in received {
        match event {
            Event::Item(ItemEvent::Completed { turn_id, .. }) => assert_eq!(turn_id, turn),
            Event::Turn(turn_event) => assert_eq!(turn_event.turn_id, turn),
            _ => {}
        }
    }
}

#[test]
fn sending_without_a_subscriber_is_not_an_error() {
    // The loop must not care whether a UI is attached.
    let mut sink = EventSink::discard();
    sink.item(ItemKind::AgentMessage { text: "nobody is listening".into() });
    assert!(sink.take().is_empty());
}

#[test]
fn a_dropped_receiver_does_not_break_the_loop() {
    let mut sink = EventSink::new(TurnId::new());
    sink.close();
    sink.item(ItemKind::AgentMessage { text: "still fine".into() });
    assert!(sink.take().is_empty());
}

fn stream(script: Vec<StreamEvent>) -> (StepOutput, Vec<Event>) {
    let mut sink = EventSink::new(TurnId::new());
    let mut source = ModelStepSource::new();
    for event in script {
        source.receive(&mut sink, event);
    }
    let step = source.finish(&mut sink);
    (step, sink.take())
}

fn finish(reason: FinishReason) -> StreamEvent {
    StreamEvent::StepFinish { reason, usage: Usage::default() }
}

fn deltas(events: &[Event]) -> Vec<String> {
    events
        .iter()
        .filter_map(|event| match event {
            Event::Item(ItemEvent::Delta { text, .. }) => Some(text.clone()),
            _ => None,
        })
        .collect()
}

#[test]
fn text_is_both_published_as_deltas_and_accumulated() {
    // Publishing without accumulating leaves the loop nothing to act on;
    // accumulating without publishing defeats streaming.
    let (step, events) = stream(vec![
        StreamEvent::TextStart,
        StreamEvent::TextDelta("hel".into()),
        StreamEvent::TextDelta("lo".into()),
        StreamEvent::TextEnd,
        finish(FinishReason::Stop),
    ]);

    assert_eq!(step.text, "hello");
    assert_eq!(deltas(&events), vec!["hel", "lo"]);
}

#[test]
fn a_stream_that_skips_text_start_still_streams() {
    // Several endpoints never send it.
    let (step, events) =
        stream(vec![StreamEvent::TextDelta("implicit".into()), finish(FinishReason::Stop)]);

    assert_eq!(step.text, "implicit");
    assert_eq!(deltas(&events), vec!["implicit"]);
    // ...and the item is still closed, or the UI leaves it pending forever.
    assert!(events.iter().any(|e| matches!(e, Event::Item(ItemEvent::Completed { .. }))));
}

#[test]
fn a_stream_that_ends_without_closing_its_blocks_still_completes_them() {
    let (_step, events) =
        stream(vec![StreamEvent::TextStart, StreamEvent::TextDelta("unterminated".into())]);

    assert!(events.iter().any(|e| matches!(e, Event::Item(ItemEvent::Completed { .. }))));
}

#[test]
fn tool_calls_are_collected_for_the_loop_and_announced_to_the_ui() {
    let id = ToolCallId::new();
    let (step, events) = stream(vec![
        StreamEvent::ToolCallStart { id: id.clone(), name: "read".into() },
        StreamEvent::ToolCallInputDelta { id: id.clone(), delta: "{}".into() },
        StreamEvent::ToolCallEnd { id: id.clone(), input: r#"{"path":"a.rs"}"#.into() },
        finish(FinishReason::ToolCalls),
    ]);

    assert_eq!(step.tool_calls.len(), 1);
    assert_eq!(step.tool_calls[0].name, "read");
    // The end event is authoritative over the accumulated deltas.
    assert_eq!(step.tool_calls[0].input, r#"{"path":"a.rs"}"#);
    assert!(step.wants_tools);

    assert!(events.iter().any(|event| matches!(
        event,
        Event::Item(ItemEvent::Completed { item, .. })
            if matches!(item.kind, ItemKind::ToolExecution { .. })
    )));
}

#[test]
fn reasoning_streams_separately_from_prose() {
    let (step, events) = stream(vec![
        StreamEvent::ReasoningStart,
        StreamEvent::ReasoningDelta("thinking".into()),
        StreamEvent::ReasoningEnd,
        StreamEvent::TextStart,
        StreamEvent::TextDelta("answer".into()),
        StreamEvent::TextEnd,
        finish(FinishReason::Stop),
    ]);

    assert_eq!(step.reasoning, "thinking");
    assert_eq!(step.text, "answer");

    let kinds: Vec<&'static str> = events
        .iter()
        .filter_map(|event| match event {
            Event::Item(ItemEvent::Completed { item, .. }) => Some(match item.kind {
                ItemKind::Reasoning { .. } => "reasoning",
                ItemKind::AgentMessage { .. } => "message",
                _ => "other",
            }),
            _ => None,
        })
        .collect();
    assert_eq!(kinds, vec!["reasoning", "message"]);
}

#[test]
fn usage_is_published_as_it_was_reported() {
    let usage = Usage { input_tokens: 1_000_000, ..Usage::default() };
    let (step, events) =
        stream(vec![StreamEvent::StepFinish { reason: FinishReason::Stop, usage }]);
    assert!(events.contains(&Event::Usage(usage)));
    assert_eq!(step.tokens_used, 1_000_000);
}

#[test]
fn hitting_the_output_limit_is_reported_as_truncation() {
    let (step, _events) = stream(vec![finish(FinishReason::Length)]);
    assert!(step.truncated);
    assert!(!step.wants_tools);
}

#[test]
fn a_plain_answer_does_not_ask_for_tools() {
    let (step, _events) =
        stream(vec![StreamEvent::TextDelta("done".into()), finish(FinishReason::Stop)]);
    assert!(!step.wants_tools);
}

#[test]
fn a_tool_exchange_survives_as_readable_text() {
    // The span is flattened into one message, so what the summarizer sees
    // has to carry the shape of the work without the raw output.
    let id = ToolCallId::new();
    let call = Message::new(
        Role::Assistant,
        vec![Part::ToolCall(ToolCall {
            id: id.clone(),
            name: "read".into(),
            input: "{\"path\":\"src/main.rs\"}".into(),
        })],
    );
    let result = Message::new(
        Role::User,
        vec![Part::ToolResult(ToolResult {
            call_id: id,
            output: "fn main() {}".into(),
            metadata: None,
            is_error: false,
        })],
    );

    assert!(render(&call).contains("called read"));
    assert!(render(&call).contains("src/main.rs"));
    assert!(render(&result).contains("fn main()"));
}

#[test]
fn a_long_output_is_clipped_on_a_character_boundary() {
    // Tool output is arbitrary UTF-8; slicing by byte would panic.
    let text = "é".repeat(1_000);
    let clipped = truncate(&text, 400);
    assert!(clipped.chars().count() <= 404);
    assert!(clipped.ends_with("..."));
    assert_eq!(truncate("short", 400), "short");
}

#[test]
fn reasoning_is_left_out_of_the_transcript() {
    // It is the model's own scratch work, already superseded by whatever it
    // concluded, and it is the largest thing in a reasoning-heavy session.
    let message = Message::new(
        Role::Assistant,
        vec![
            Part::Reasoning { text: "let me think about this at length".into() },
            Part::Text { text: "the parser is recursive descent".into() },
        ],
    );
    let rendered = render(&message);
    assert!(!rendered.contains("at length"));
    assert!(rendered.contains("recursive descent"));
}

#[test]
fn a_summary_is_asked_for_and_gathered() {
    let span = vec![Message::text(Role::User, "hello"), Message::text(Role::Assistant, "hi")];
    let (messages, limit) = ModelSummarizer::request(&span, 100_000);
    assert_eq!(limit, MAX_SUMMARY_TOKENS);
    assert_eq!(ModelSummarizer::request(&span, 10).1, 10);
    assert_eq!(messages.len(), 2);
    assert_eq!(messages[1].text_content(), transcript(&span));

    let mut summarizer = ModelSummarizer::new();
    summarizer.text_delta("  it ");
    summarizer.text_delta("works\n");
    let usage = Usage { output_tokens: 3, ..Usage::default() };
    summarizer.step_finish(usage);
    let summary = summarizer.finish().unwrap();
    assert_eq!(summary.text, "it works");
    assert_eq!(summary.usage, usage);
}

#[test]
fn a_summary_of_nothing_is_a_failure() {
    let mut summarizer = ModelSummarizer::new();
    summarizer.text_delta("  \n");
    assert_eq!(
        summarizer.finish().unwrap_err().to_string(),
        "summarization failed: the model returned nothing"
    );
    assert_eq!(ModelSummarizer::failed("down"), ContextError::Summarization("down".into()));
}

fn task_tool() -> TaskTool {
    TaskTool::new(builtin_agents())
}

/// The arguments of a call, as a reader of JSON hands them over.
fn task_input(raw: &str) -> Result<TaskInput, String> {
    let value: Value = serde_json::from_str(raw).map_err(|error| error.to_string())?;
    let text = |key: &str| value.get(key).and_then(Value::as_str).map(str::to_owned);
    Ok(TaskInput {
        agent: text("agent").ok_or("missing field `agent`")?,
        prompt: text("prompt").ok_or("missing field `prompt`")?,
        description: text("description"),
    })
}

/// Runs a task with a delegate that makes a report of it.
fn execute(
    raw: &str,
    delegate: fn(&Task) -> Result<String, String>,
) -> Result<ToolOutcome, ToolError> {
    let task = task_tool().prepare(task_input(raw))?;
    let report = delegate(&task);
    TaskTool::report(&task, report)
}

fn echo(task: &Task) -> Result<String, String> {
    Ok(format!("{} handled: {}", task.agent.name, task.prompt))
}

#[test]
fn only_subagents_are_offered() {
    // A primary agent could delegate again; offering one here would allow
    // unbounded recursion through the tool.
    let tool = task_tool();
    let names: Vec<&str> = tool.agents().iter().map(|a| a.name.as_str()).collect();

    assert!(names.contains(&"research"));
    assert!(!names.contains(&"build"), "primary agents must not be delegable");
    assert!(!names.contains(&"plan"));
}

#[test]
fn the_description_is_the_roster() {
    // A static description cannot say which specialists exist.
    let tool = task_tool();
    let description = tool.description();

    assert!(description.contains("research:"));
    assert!(description.contains("critic:"));
    // ...and the guidance that makes delegation work rather than thrash.
    assert!(description.contains("self-contained"));
    assert!(description.contains("concurrently"));
}

#[test]
fn the_schema_enumerates_agents_rather_than_taking_free_text() {
    // A hallucinated name is a wasted round trip the schema can prevent.
    let tool = task_tool();
    let schema: Value = serde_json::from_str(&tool.input_schema()).unwrap();
    let names = schema["properties"]["agent"]["enum"].as_array().unwrap();

    assert!(names.iter().any(|name| name == "research"));
    assert!(!names.iter().any(|name| name == "build"));
}

#[test]
fn delegation_itself_requires_no_permission() {
    // The subagent's own calls are authorized individually as they happen,
    // so a plan agent cannot reach `write` by delegating.
    let tool = task_tool();
    assert!(tool.required_permissions(r#"{"agent":"code","prompt":"x"}"#).is_empty());
    assert_eq!(tool.name(), "task");
    assert!(tool.is_mutating());
}

#[test]
fn a_task_runs_and_returns_the_report() {
    let outcome = execute(
        r#"{"agent":"research","prompt":"find the loop","description":"locate loop"}"#,
        echo,
    )
    .unwrap();

    assert_eq!(outcome.output, "research handled: find the loop");
    assert_eq!(outcome.title, "locate loop");
    let metadata: Value = serde_json::from_str(&outcome.metadata.unwrap()).unwrap();
    assert_eq!(metadata["agent"], "research");
    assert_eq!(metadata["scope"], "built-in");
}

#[test]
fn an_unknown_agent_lists_the_real_ones() {
    let error = execute(r#"{"agent":"nonexistent","prompt":"x"}"#, echo).unwrap_err();

    let message = error.to_string();
    assert!(message.contains("nonexistent"));
    assert!(message.contains("research"), "should list what does exist");
}

#[test]
fn an_empty_prompt_is_refused() {
    // The subagent is one-shot and cannot ask what was meant.
    let error = execute(r#"{"agent":"research","prompt":"   "}"#, echo).unwrap_err();
    assert!(error.to_string().contains("cannot ask"));
}

#[test]
fn arguments_that_cannot_be_read_are_told_to_the_model() {
    let error = execute(r#"{"agent":"research"}"#, echo).unwrap_err();
    assert!(error.is_reportable_to_model());
    assert!(error.to_string().contains("missing field `prompt`"));
}

#[test]
fn a_silent_subagent_is_an_error_not_an_empty_result() {
    let error =
        execute(r#"{"agent":"research","prompt":"x"}"#, |_| Ok("   ".into())).unwrap_err();
    assert!(error.to_string().contains("returned nothing"));
}

#[test]
fn a_failing_subagent_is_reported_to_the_model_not_fatal() {
    let error = execute(r#"{"agent":"research","prompt":"x"}"#, |_| {
        Err("model unavailable".into())
    })
    .unwrap_err();

    assert!(error.is_reportable_to_model());
    assert!(error.to_string().contains("model unavailable"));
}

#[test]
fn a_task_without_a_description_still_has_a_title() {
    let outcome = execute(r#"{"agent":"critic","prompt":"review this"}"#, echo).unwrap();
    assert!(outcome.title.contains("critic"));
}

#[test]
fn hidden_agents_are_never_offered() {
    let mut agents = builtin_agents();
    agents.push(AgentDefinition {
        name: "titler".into(),
        scope: AgentScope::Builtin,
        frontmatter: Frontmatter {
            description: "Names sessions.".into(),
            mode: AgentMode::Hidden,
            ..Default::default()
        },
        prompt: String::new(),
        path: None,
    });

    let tool = TaskTool::new(agents);
    assert!(!tool.agents().iter().any(|agent| agent.name == "titler"));
}

/// What a turn came to, and how often each side was asked.
struct Ran {
    outcome: TurnOutcome,
    model_calls: usize,
    questions: usize,
    published: Vec<ItemKind>,
}

/// Drives a turn: a script of steps, one tool that echoes and needs `command(echo)`,
/// and a user who always gives one answer. Out of steps, the model is stuck.
fn drive(runner: &mut TurnRunner, steps: Vec<Result<StepOutput, String>>, answer: bool) -> Ran {
    let mut script = steps.into_iter();
    let mut turn = Turn::new(Vec::new());
    let mut published = Vec::new();
    let mut model_calls = 0;
    let mut questions = 0;
    let mut input = Input::Begin;
    loop {
        assert!(turn.expects(&input));
        input = match runner.next(&mut turn, &mut published, input) {
            Action::CallModel => {
                model_calls += 1;
                let stuck = || Ok(tool_step("echo", "{\"text\":\"same\"}"));
                Input::Stepped(script.next().unwrap_or_else(stuck))
            }
            Action::LookUp => Input::Found(
                (turn.current().unwrap().name == "echo").then(|| vec!["command(echo)".into()]),
            ),
            Action::Ask(resource) => {
                assert_eq!(resource.to_string(), "command(echo)");
                questions += 1;
                Input::Answered(answer)
            }
            Action::Execute => {
                let call = turn.current().unwrap();
                let output = format!("echoed: {}", call.input);
                Input::Executed(Ok(ToolOutcome::new("echo", &output)))
            }
            Action::Finish(reason) => {
                return Ran { outcome: turn.finish(reason), model_calls, questions, published }
            }
        };
    }
}

fn budget() -> Budget {
    Budget::new(200_000, 180_000, 170_000)
}

fn runner(policy: Policy) -> TurnRunner {
    TurnRunner::new(Agent::build(), policy, budget())
}

fn permissive_policy() -> Policy {
    Policy::builder().allow("command(*)", Scope::User).build().0
}

fn final_answer(text: &str) -> StepOutput {
    StepOutput {
        text: text.into(),
        reasoning: String::new(),
        tool_calls: Vec::new(),
        wants_tools: false,
        truncated: false,
        tokens_used: 5,
    }
}

fn tool_step(name: &str, input: &str) -> StepOutput {
    StepOutput {
        text: String::new(),
        reasoning: String::new(),
        tool_calls: vec![ToolCall { id: ToolCallId::new(), name: name.into(), input: input.into() }],
        wants_tools: true,
        truncated: false,
        tokens_used: 10,
    }
}

fn parts(outcome: &TurnOutcome) -> Vec<&Part> {
    outcome.messages.iter().flat_map(|message| &message.parts).collect()
}

#[test]
fn a_plain_answer_completes_the_turn() {
    let ran = drive(&mut runner(permissive_policy()), vec![Ok(final_answer("all done"))], true);

    assert_eq!(ran.outcome.stop_reason, StopReason::Completed);
    assert_eq!(ran.outcome.steps_taken, 1);
    assert_eq!(ran.model_calls, 1);
}

#[test]
fn tool_results_feed_the_next_step() {
    let ran = drive(
        &mut runner(permissive_policy()),
        vec![Ok(tool_step("echo", "{\"text\":\"hi\"}")), Ok(final_answer("done"))],
        true,
    );

    assert_eq!(ran.outcome.stop_reason, StopReason::Completed);
    assert_eq!(ran.outcome.steps_taken, 2);
    // The transcript must contain the call and its result, paired.
    let calls = parts(&ran.outcome).iter().filter(|p| matches!(p, Part::ToolCall(_))).count();
    let results = parts(&ran.outcome).iter().filter(|p| matches!(p, Part::ToolResult(_))).count();
    assert_eq!(calls, 1);
    assert_eq!(results, 1);
    assert!(!ran.published.is_empty());
}

#[test]
fn a_denial_ends_the_turn_without_retrying() {
    let policy = Policy::builder().ask("command(*)", Scope::User).build().0;
    let ran = drive(
        &mut runner(policy),
        vec![
            Ok(tool_step("echo", "{\"text\":\"hi\"}")),
            Ok(final_answer("should never be reached")),
        ],
        false,
    );

    assert!(matches!(ran.outcome.stop_reason, StopReason::Denied { .. }));
    // Critically: the model was not given another step to route around it.
    assert_eq!(ran.model_calls, 1);
}

#[test]
fn a_deny_rule_never_reaches_the_user() {
    let policy = Policy::builder().deny("command(echo)", Scope::Managed).build().0;
    // The user would say yes — but a deny rule must not be presented.
    let ran = drive(&mut runner(policy), vec![Ok(tool_step("echo", "{}"))], true);
    assert!(matches!(ran.outcome.stop_reason, StopReason::Denied { .. }));
    assert_eq!(ran.questions, 0);
}

#[test]
fn the_step_cap_bounds_a_runaway() {
    let mut runner = runner(permissive_policy());
    runner.step_limit = 3;
    // Also disable loop detection so the cap is what stops it.
    runner.guard = LoopGuard::new(1_000, 1_000);

    let ran = drive(&mut runner, Vec::new(), true);

    assert_eq!(ran.outcome.stop_reason, StopReason::StepLimit { limit: 3 });
    assert_eq!(ran.outcome.steps_taken, 3);
}

#[test]
fn loop_detection_stops_a_stuck_model_before_the_cap() {
    let mut runner = runner(permissive_policy());
    runner.step_limit = 500;

    let ran = drive(&mut runner, Vec::new(), true);

    assert!(matches!(ran.outcome.stop_reason, StopReason::LoopDetected { .. }));
    // Far fewer than the cap: the point is to stop paying early.
    assert!(ran.outcome.steps_taken < 20, "took {} steps", ran.outcome.steps_taken);
}

#[test]
fn cancellation_is_honoured() {
    let mut runner = runner(permissive_policy());
    runner.cancelled = true;

    let ran = drive(&mut runner, vec![Ok(final_answer("never"))], true);

    assert_eq!(ran.outcome.stop_reason, StopReason::Interrupted);
    assert_eq!(ran.model_calls, 0, "must not call the model at all");
}

#[test]
fn truncated_output_is_not_reported_as_success() {
    let step =
        StepOutput { text: "half an ans".into(), truncated: true, ..Default::default() };
    let ran = drive(&mut runner(permissive_policy()), vec![Ok(step)], true);
    assert_eq!(ran.outcome.stop_reason, StopReason::OutputTruncated);
    assert!(!ran.outcome.stop_reason.is_success());
}

#[test]
fn an_unknown_tool_is_reported_to_the_model_not_fatal() {
    let ran = drive(
        &mut runner(permissive_policy()),
        vec![Ok(tool_step("no_such_tool", "{}")), Ok(final_answer("recovered"))],
        true,
    );

    // The model got a chance to correct itself.
    assert_eq!(ran.outcome.stop_reason, StopReason::Completed);
    let has_error_result =
        parts(&ran.outcome).iter().any(|p| matches!(p, Part::ToolResult(r) if r.is_error));
    assert!(has_error_result);
}

#[test]
fn a_plan_agent_cannot_run_commands() {
    let mut runner = TurnRunner::new(Agent::plan(), permissive_policy(), budget());
    let ran = drive(&mut runner, vec![Ok(tool_step("echo", "{}"))], true);

    // Even with allow(command(*)) and a user who says yes, plan mode
    // forces a deny.
    assert!(matches!(ran.outcome.stop_reason, StopReason::Denied { .. }));
}

#[test]
fn approving_once_does_not_ask_again() {
    let policy = Policy::builder().ask("command(*)", Scope::User).build().0;
    let ran = drive(
        &mut runner(policy),
        vec![
            Ok(tool_step("echo", "{\"text\":\"1\"}")),
            Ok(tool_step("echo", "{\"text\":\"2\"}")),
            Ok(final_answer("done")),
        ],
        true,
    );

    assert_eq!(ran.outcome.stop_reason, StopReason::Completed);
    assert_eq!(ran.questions, 1, "the grant should have been remembered");
}

#[test]
fn a_tool_outside_the_agents_list_is_answered_not_run() {
    let mut agent = Agent::build();
    agent.allowed_tools = vec!["read".into()];
    let mut runner = TurnRunner::new(agent, permissive_policy(), budget());
    let ran = drive(
        &mut runner,
        vec![Ok(tool_step("echo", "{}")), Ok(final_answer("ok"))],
        true,
    );
    assert_eq!(ran.outcome.stop_reason, StopReason::Completed);
    assert!(parts(&ran.outcome).iter().any(|part| matches!(
        part,
        Part::ToolResult(result)
            if result.output == "tool \"echo\" is not available to the build agent"
    )));
}

#[test]
fn a_failing_model_fails_the_turn() {
    let ran = drive(&mut runner(permissive_policy()), vec![Err("offline".into())], true);
    assert_eq!(ran.outcome.stop_reason, StopReason::Failed { message: "offline".into() });
}

#[test]
fn what_the_model_cannot_correct_ends_the_turn() {
    for (error, expected) in [
        (ToolError::Broken("no backend".into()), StopReason::Failed { message: "no backend".into() }),
        (ToolError::Cancelled, StopReason::Interrupted),
        (ToolError::Denied("command(x)".into()), StopReason::Denied { resource: "command(x)".into() }),
    ] {
        assert!(!error.is_reportable_to_model());
        let mut runner = runner(permissive_policy());
        let mut turn = Turn::new(Vec::new());
        let mut published = Vec::new();
        runner.next(&mut turn, &mut published, Input::Begin);
        runner.next(&mut turn, &mut published, Input::Stepped(Ok(tool_step("echo", "{}"))));
        let action = runner.next(
            &mut turn,
            &mut published,
            Input::Found(Some(vec!["command(echo)".into()])),
        );
        assert!(matches!(action, Action::Execute));
        match runner.next(&mut turn, &mut published, Input::Executed(Err(error))) {
            Action::Finish(reason) => assert_eq!(reason, expected),
            other => panic!("the turn goes on: {other:?}"),
        }
    }
}

#[test]
fn a_full_context_stops_before_the_model_is_called() {
    let mut runner = TurnRunner::new(Agent::build(), permissive_policy(), Budget::new(10, 8, 6));
    let mut turn = Turn::new(vec![Message::text(Role::User, &"long ".repeat(100))]);
    let action = runner.next(&mut turn, &mut Vec::new(), Input::Begin);
    match action {
        Action::Finish(reason) => assert_eq!(reason.summary(), "failed: context requires compaction"),
        other => panic!("the turn goes on: {other:?}"),
    }
}

#[test]
fn the_model_decides_when_it_is_done() {
    let runner = runner(permissive_policy());
    assert_eq!(runner.evaluate(1, true), StepDecision::Continue);
    assert_eq!(runner.evaluate(1, false), StepDecision::Stop(StopReason::Completed));
}

#[test]
fn errors_of_the_loop_say_what_went_wrong() {
    assert_eq!(CoreError::Provider("offline".into()).to_string(), "offline");
    assert_eq!(CoreError::Cancelled.to_string(), "turn cancelled");
    assert_eq!(
        CoreError::UnknownTool("x".into()).to_string(),
        "no tool named \"x\" is registered"
    );
    assert_eq!(
        CoreError::Permission(PermissionError::UnknownAction("fly".into())).to_string(),
        "unknown permission action \"fly\""
    );
    assert_eq!(
        CoreError::Context(ContextError::CircuitOpen { attempts: 3 }).to_string(),
        "compaction failed 3 times; giving up"
    );
}

#[test]
fn a_window_of_any_size_is_counted() {
    let huge = Budget::new(usize::MAX, usize::MAX, usize::MAX);
    let mut runner = TurnRunner::new(Agent::build(), permissive_policy(), huge);
    let ran = drive(&mut runner, vec![Ok(final_answer("done"))], true);
    assert_eq!(ran.outcome.stop_reason, StopReason::Completed);
    assert_eq!(ran.outcome.steps_taken, 1);
    assert_eq!(runner.agent.name, Agent::build().name);
}

use hugr::brain::{
    AfterDrain, Brain, Command, Decision, DoneReason, Event, LogEntry, ModelDelta, ModelOutput, ModelSelector,
    OpOutcome, OpState, OutputEvent, PermissionRequest, Record, StaticPolicy, SteerMode, StopReason, ToolCall,
    TurnPolicy, Usage, VersionRef,
};
use hugr::json::Json;

fn s(t: &str) -> String {
    t.to_string()
}

/// Always the `big` model, no compaction, permission only for `fs_remove`.
fn test_policy() -> StaticPolicy {
    StaticPolicy { model: s("big"), gated: vec![s("fs_remove")] }
}

fn user(text: &str) -> Event {
    Event::UserInput { content: Json::String(s(text)), mode: SteerMode::Queue }
}

fn usage() -> Usage {
    Usage { input_tokens: 10, output_tokens: 4 }
}

fn text_output(text: &str) -> ModelOutput {
    ModelOutput { text: s(text), reasoning: None, tool_calls: vec![], stop: StopReason::EndTurn }
}

fn tool_output(calls: Vec<(&str, &str, Json)>) -> ModelOutput {
    ModelOutput {
        text: s(""),
        reasoning: None,
        tool_calls: calls.into_iter().map(|(id, name, args)| ToolCall { id: s(id), name: s(name), args }).collect(),
        stop: StopReason::ToolUse,
    }
}

fn run_script<P: TurnPolicy>(brain: &mut Brain<P>, events: Vec<Event>) -> Vec<Command> {
    let mut out = Vec::new();
    for e in events {
        brain.submit(e);
        out.extend(brain.poll());
    }
    out
}

/// The commands with cosmetic `Emit`s left out.
fn effectful(commands: &[Command]) -> Vec<&Command> {
    commands.iter().filter(|c| !matches!(c, Command::Emit(_))).collect()
}

fn cancelled_partial(log: &[LogEntry], op: u64) -> Option<&Json> {
    log.iter().find_map(|e| match &e.record {
        Record::OpEnded { op: o, outcome: OpOutcome::Cancelled { partial }, .. } if *o == op => Some(partial),
        _ => None,
    })
}

#[test]
fn stream_some_tokens_then_cancel_records_the_partial() {
    let mut brain = Brain::new(test_policy());
    let commands = run_script(
        &mut brain,
        vec![
            user("write a poem"),
            Event::ModelDelta { op: 0, delta: ModelDelta::Text(s("Hello, ")) },
            Event::ModelDelta { op: 0, delta: ModelDelta::Text(s("wor")) },
            Event::UserAbort,
            Event::OpCancelled { op: 0 },
        ],
    );
    let effectful = effectful(&commands);
    assert!(
        matches!(
            effectful.as_slice(),
            [
                Command::StartModelCall { op: 0, .. },
                Command::Cancel { op: 0 },
                Command::Done { reason: DoneReason::Cancelled },
            ]
        ),
        "unexpected command sequence: {effectful:#?}"
    );
    let partial = cancelled_partial(&brain.state().log, 0);
    assert_eq!(partial, Some(&Json::String(s("Hello, wor"))));
}

#[test]
fn cancellation_replay_is_deterministic() {
    let script = || {
        vec![
            user("write a poem"),
            Event::ModelDelta { op: 0, delta: ModelDelta::Text(s("Hello, ")) },
            Event::ModelDelta { op: 0, delta: ModelDelta::Text(s("wor")) },
            Event::UserAbort,
            Event::OpCancelled { op: 0 },
        ]
    };
    let mut a = Brain::new(test_policy());
    let commands_a = run_script(&mut a, script());
    let mut b = Brain::new(test_policy());
    let commands_b = run_script(&mut b, script());
    assert_eq!(commands_a, commands_b, "stream-then-cancel must replay to identical commands");
    assert_eq!(
        a.state().log,
        b.state().log,
        "stream-then-cancel must replay to an identical log (partial then cancelled)"
    );
    assert_eq!(cancelled_partial(&a.state().log, 0), Some(&Json::String(s("Hello, wor"))));
}

#[test]
fn stale_op_cancelled_after_done_is_ignored() {
    let mut brain = Brain::new(test_policy());
    let commands = run_script(
        &mut brain,
        vec![
            user("hi"),
            Event::ModelDelta { op: 0, delta: ModelDelta::Text(s("done")) },
            Event::ModelDone { op: 0, output: text_output("done"), usage: usage() },
            Event::OpCancelled { op: 0 },
        ],
    );
    let effectful = effectful(&commands);
    assert!(
        matches!(
            effectful.as_slice(),
            [
                Command::StartModelCall { op: 0, .. },
                Command::Checkpoint,
                Command::Done { reason: DoneReason::EndTurn },
            ]
        ),
        "stale OpCancelled should be a no-op: {effectful:#?}"
    );
    let op_ends: Vec<&OpOutcome> = brain
        .state()
        .log
        .iter()
        .filter_map(|e| match &e.record {
            Record::OpEnded { outcome, .. } => Some(outcome),
            _ => None,
        })
        .collect();
    assert_eq!(op_ends.len(), 1);
    assert!(matches!(op_ends[0], OpOutcome::Succeeded));
}

#[test]
fn tool_calls_start_capabilities_then_the_model_resumes() {
    let mut brain = Brain::new(test_policy());
    let args = Json::Object(vec![(s("cmd"), Json::String(s("ls")))]);
    let commands = run_script(
        &mut brain,
        vec![
            user("list files"),
            Event::ModelDone { op: 0, output: tool_output(vec![("c1", "shell", args)]), usage: usage() },
        ],
    );
    let eff = effectful(&commands);
    assert_eq!(eff.len(), 2, "{eff:#?}");
    match eff[1] {
        Command::StartCapability { op, name, args } => {
            assert_eq!(*op, 1);
            assert_eq!(name, "shell");
            assert_eq!(args, &Json::Object(vec![(s("cmd"), Json::String(s("ls")))]));
        },
        other => panic!("unexpected {other:?}"),
    }
    // The capability finishes: its result is logged under its name and the
    // model is called again with a fresh op.
    let commands = run_script(
        &mut brain,
        vec![Event::CapabilityDone { op: 1, result: Json::String(s("a.txt")), version: None }],
    );
    assert!(matches!(effectful(&commands).as_slice(), [Command::StartModelCall { op: 2, .. }]));
    let log = &brain.state().log;
    assert!(log.iter().any(|e| matches!(&e.record,
        Record::ToolResult { op: 1, name, result } if name == "shell" && *result == Json::String(s("a.txt")))));
    // Every entry is numbered by its position.
    for (i, e) in log.iter().enumerate() {
        assert_eq!(e.seq, i as u64);
    }
    assert_eq!(brain.state().next_seq, log.len() as u64);
}

#[test]
fn gated_capability_waits_for_permission() {
    let mut brain = Brain::new(test_policy());
    let args = Json::Object(vec![(s("path"), Json::String(s("x")))]);
    let commands = run_script(
        &mut brain,
        vec![
            user("clean up"),
            Event::ModelDone { op: 0, output: tool_output(vec![("c1", "fs_remove", args)]), usage: usage() },
        ],
    );
    let eff = effectful(&commands);
    match eff[1] {
        Command::RequestPermission { op, request: PermissionRequest { capability, args } } => {
            assert_eq!(*op, 1);
            assert_eq!(capability, "fs_remove");
            assert_eq!(args, &Json::Object(vec![(s("path"), Json::String(s("x")))]));
        },
        other => panic!("unexpected {other:?}"),
    }
    assert!(matches!(brain.state().inflight[0].state, OpState::AwaitingPermission { .. }));
    // Allowed: the stashed call starts as a capability under the same op.
    let commands = run_script(&mut brain, vec![Event::PermissionDecision { op: 1, decision: Decision::Allow }]);
    match effectful(&commands).as_slice() {
        [Command::StartCapability { op: 1, name, args }] => {
            assert_eq!(name, "fs_remove");
            let expected = Json::Object(vec![(s("path"), Json::String(s("x")))]);
            assert_eq!(format!("{args:?}"), format!("{expected:?}"));
        },
        other => panic!("unexpected {other:?}"),
    }
}

#[test]
fn denied_permission_feeds_the_reason_back_to_the_model() {
    let mut brain = Brain::new(test_policy());
    run_script(
        &mut brain,
        vec![
            user("clean up"),
            Event::ModelDone {
                op: 0,
                output: tool_output(vec![("c1", "fs_remove", Json::Null)]),
                usage: usage(),
            },
        ],
    );
    let commands = run_script(
        &mut brain,
        vec![Event::PermissionDecision { op: 1, decision: Decision::Deny { reason: s("not today") } }],
    );
    assert!(matches!(effectful(&commands).as_slice(), [Command::StartModelCall { op: 2, .. }]));
    let last_result = brain.state().log.iter().rev().find_map(|e| match &e.record {
        Record::ToolResult { op, name, result } => Some((*op, name.clone(), result)),
        _ => None,
    });
    let (op, name, result) = last_result.unwrap();
    assert_eq!(op, 1);
    assert_eq!(name, "<denied>");
    assert_eq!(result, &Json::String(s("not today")));
}

#[test]
fn interrupt_cancels_and_starts_a_fresh_turn_once_drained() {
    let mut brain = Brain::new(test_policy());
    let mut commands = run_script(&mut brain, vec![user("first")]);
    commands.extend(run_script(
        &mut brain,
        vec![Event::UserInput { content: Json::String(s("actually, stop")), mode: SteerMode::Interrupt }],
    ));
    assert_eq!(brain.state().after_drain, AfterDrain::FreshTurn);
    commands.extend(run_script(&mut brain, vec![Event::OpCancelled { op: 0 }]));
    let effectful = effectful(&commands);
    assert!(
        matches!(
            effectful.as_slice(),
            [Command::StartModelCall { op: 0, .. }, Command::Cancel { op: 0 }, Command::StartModelCall { op: 1, .. }]
        ),
        "{effectful:#?}"
    );
    assert_eq!(brain.state().after_drain, AfterDrain::Nothing);
}

#[test]
fn append_and_continue_only_logs_the_input() {
    let mut brain = Brain::new(test_policy());
    run_script(&mut brain, vec![user("first")]);
    let commands = run_script(
        &mut brain,
        vec![Event::UserInput { content: Json::String(s("also this")), mode: SteerMode::AppendAndContinue }],
    );
    assert!(effectful(&commands).is_empty());
    assert!(matches!(&brain.state().log.last().unwrap().record, Record::UserMessage { text } if text == "also this"));
}

#[test]
fn deltas_are_forwarded_but_never_logged() {
    let mut brain = Brain::new(test_policy());
    run_script(&mut brain, vec![user("hi")]);
    let before = brain.state().log.len();
    let commands = run_script(
        &mut brain,
        vec![
            Event::ModelDelta { op: 0, delta: ModelDelta::Text(s("He")) },
            Event::ModelDelta { op: 0, delta: ModelDelta::Reasoning(s("thinking")) },
            Event::CapabilityChunk { op: 0, chunk: Json::String(s("x")) },
        ],
    );
    assert_eq!(brain.state().log.len(), before);
    assert_eq!(
        commands,
        vec![
            Command::Emit(OutputEvent::ModelText { op: 0, text: s("He") }),
            Command::Emit(OutputEvent::ModelReasoning { op: 0, text: s("thinking") }),
            Command::Emit(OutputEvent::ToolChunk { op: 0, chunk: Json::String(s("x")) }),
        ]
    );
    match &brain.state().inflight[0].state {
        OpState::Model { text_so_far, .. } => assert_eq!(text_so_far, "He"),
        other => panic!("unexpected {other:?}"),
    }
}

#[test]
fn model_op_end_carries_timing_model_and_usage() {
    let mut brain = Brain::new(test_policy());
    run_script(&mut brain, vec![Event::Tick { now: 5 }, user("hi"), Event::Tick { now: 9 }]);
    run_script(&mut brain, vec![Event::ModelDone { op: 0, output: text_output("ok"), usage: usage() }]);
    let meta = brain.state().log.iter().find_map(|e| match &e.record {
        Record::OpEnded { meta, .. } => Some(meta),
        _ => None,
    });
    let meta = meta.unwrap();
    assert_eq!(meta.started_at, 5);
    assert_eq!(meta.ended_at, 9);
    assert_eq!(meta.model, Some(ModelSelector::Named(s("big"))));
    assert_eq!(meta.usage, Some(usage()));
    assert_eq!(meta.extra, Json::Null);
}

#[test]
fn model_error_ends_the_turn_with_the_error() {
    let mut brain = Brain::new(test_policy());
    run_script(&mut brain, vec![user("hi")]);
    let commands = run_script(&mut brain, vec![Event::ModelError { op: 0, error: Json::String(s("rate limited")) }]);
    assert_eq!(
        effectful(&commands),
        vec![&Command::Checkpoint, &Command::Done { reason: DoneReason::Error(s("\"rate limited\"")) }]
    );
    assert!(brain.state().log.iter().any(|e| matches!(&e.record,
        Record::OpEnded { op: 0, outcome: OpOutcome::Error(Json::String(m)), .. } if m == "rate limited")));
}

#[test]
fn versions_track_the_last_seen_object_version() {
    let mut brain = Brain::new(test_policy());
    let v = |o: &str, ver: &str| Some(VersionRef { object: s(o), version: s(ver) });
    run_script(
        &mut brain,
        vec![
            Event::CapabilityDone { op: 7, result: Json::Null, version: v("/a", "1") },
            Event::CapabilityError { op: 8, error: Json::Null, conflict: v("/a", "2") },
            Event::CapabilityDone { op: 9, result: Json::Null, version: v("/b", "1") },
        ],
    );
    assert_eq!(brain.state().versions, vec![(s("/a"), s("2")), (s("/b"), s("1"))]);
}

#[test]
fn poll_drains_the_outbox() {
    let mut brain = Brain::new(test_policy());
    brain.submit(user("hi"));
    assert_eq!(brain.poll().len(), 1);
    assert!(brain.poll().is_empty());
    assert!(brain.state().outbox.is_empty());
}

#[test]
fn static_policy_projects_the_conversation() {
    let mut brain = Brain::new(test_policy());
    run_script(&mut brain, vec![user("hi")]);
    let commands = run_script(&mut brain, vec![Event::ModelDone { op: 0, output: tool_output(vec![("c", "shell", Json::Null)]), usage: usage() }]);
    assert_eq!(effectful(&commands).len(), 1);
    let commands = run_script(&mut brain, vec![Event::CapabilityDone { op: 1, result: Json::Null, version: None }]);
    match effectful(&commands).as_slice() {
        [Command::StartModelCall { op: 2, model, request }] => {
            assert_eq!(model, &ModelSelector::Named(s("big")));
            assert_eq!(request.messages, vec![Json::String(s("hi")), Json::String(s(""))]);
        },
        other => panic!("unexpected {other:?}"),
    }
    assert!(brain.policy().needs_permission("fs_remove"));
    assert!(!brain.policy().needs_permission("shell"));
}

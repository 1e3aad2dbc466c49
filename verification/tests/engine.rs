use flow_agent_core::engine::application::{
    apply_flow_with_sink, plan_flow, require_planning, FlowApplication,
};
use flow_agent_core::engine::events::{
    numbered_text, EventKind, FailureFacts, FlowInvocation, RuntimeEventBuilder,
};
use flow_agent_core::engine::mode::{
    should_terminalize_error, EventClock, FlowExecutionOptions, LiveInvocationCounter,
    ToolSideEffectMode,
};
use flow_agent_core::engine::preflight::{preflight_flow_tools, FlowLimits, PreflightTool};
use flow_agent_core::engine::registry::{
    command_policy_for_phase, phase_payload, phase_uses_stub_model, runtime_policy_target,
    runtime_protected_path_match_mode, step_payload, stub_message_content, CommandPolicy,
    ConnectionBlock, FlowBlock, InstructionBlock, PhaseBlock, PhaseScope, PolicyArtifact,
    PolicyTarget, ProtectedPathMatchMode, ResolvedRegistry, StepBlock, ToolBlock,
};
use flow_agent_core::engine::run::{
    EngineAction, FlowEmitContext, FlowRun, Reply, RuntimeFailure, Stage,
};
use flow_agent_core::engine::signature::{
    same_signature, FlowExecutionPlan, RuntimeExecution, RuntimeStreamSignatureBuilder,
    EVENT_PLAN_DOMAIN,
};
use flow_agent_core::error::RuntimeError;

fn protocol(text: &str) -> RuntimeError {
    RuntimeError::Protocol(text.to_owned())
}

fn protocol_text<T>(result: Result<T, RuntimeError>) -> String {
    match result {
        Err(RuntimeError::Protocol(text)) => text,
        Err(other) => panic!("expected a protocol error, got {other:?}"),
        Ok(_) => panic!("expected a protocol error"),
    }
}

fn texts(values: &[&str]) -> Vec<String> {
    values.iter().map(|value| (*value).to_owned()).collect()
}

fn registry() -> ResolvedRegistry {
    ResolvedRegistry {
        flow_refs: texts(&["main", "sub"]),
        flows: vec![
            FlowBlock {
                id: "main".to_owned(),
                name: "Main".to_owned(),
                phase_refs: texts(&["work"]),
                subflow_refs: texts(&["sub"]),
            },
            FlowBlock {
                id: "sub".to_owned(),
                name: "Sub".to_owned(),
                phase_refs: Vec::new(),
                subflow_refs: Vec::new(),
            },
        ],
        phase_refs: texts(&["work"]),
        phases: vec![PhaseBlock {
            id: "work".to_owned(),
            name: "Work".to_owned(),
            instruction_refs: texts(&["say"]),
            tool_refs: texts(&["grep"]),
            steps: vec![StepBlock {
                id: "step".to_owned(),
                name: "Step".to_owned(),
                connection_refs: texts(&["model"]),
            }],
        }],
        tool_refs: texts(&["grep"]),
        tools: vec![ToolBlock { id: "grep".to_owned() }],
        instruction_refs: texts(&["say"]),
        instructions: vec![InstructionBlock {
            id: "say".to_owned(),
            prompt: "run the smoke test".to_owned(),
        }],
        connection_refs: texts(&["model"]),
        connections: vec![ConnectionBlock {
            id: "model".to_owned(),
            kind_name: "llm".to_owned(),
        }],
    }
}

fn policy() -> PolicyArtifact {
    PolicyArtifact {
        target: PolicyTarget::LinuxLandlockSeccomp,
        phase_scope: vec![PhaseScope {
            phase_id: "work".to_owned(),
            tool_ids: texts(&["grep"]),
        }],
        commands: vec![CommandPolicy { tool_id: "grep".to_owned() }],
    }
}

fn limits(depth: usize, invocations: u64) -> FlowLimits {
    FlowLimits { max_nesting_depth: depth, max_invocations: invocations }
}

#[test]
fn blocks_are_found_by_their_references() {
    let registry = registry();
    let step = step_payload(&registry, &registry.phases[0], &registry.phases[0].steps[0])
        .expect("the connection is there");
    assert_eq!(step.connection_ids, texts(&["model"]));
    assert_eq!(step.connection_kinds, texts(&["llm"]));
    assert_eq!(step.step_name, "Step");
    let phase = phase_payload(&registry, &registry.phases[0]).expect("all is there");
    assert_eq!(phase.tool_ids, texts(&["grep"]));
    assert_eq!(phase.instruction_ids, texts(&["say"]));
    let lost = StepBlock {
        id: "s".to_owned(),
        name: "S".to_owned(),
        connection_refs: texts(&["nowhere"]),
    };
    assert_eq!(
        protocol_text(step_payload(&registry, &registry.phases[0], &lost)),
        "resolved registry missing connection nowhere"
    );
}

#[test]
fn a_tool_is_used_in_its_phase_alone() {
    let tool = ToolBlock { id: "grep".to_owned() };
    assert_eq!(
        command_policy_for_phase(&policy(), "work", &tool).expect("it is allowed").tool_id,
        "grep"
    );
    assert_eq!(
        protocol_text(command_policy_for_phase(&policy(), "rest", &tool)),
        "tool grep is not available in phase rest"
    );
    let mut bare = policy();
    bare.commands.clear();
    assert_eq!(
        protocol_text(command_policy_for_phase(&bare, "work", &tool)),
        "runtime policy missing command for tool grep"
    );
    assert_eq!(runtime_policy_target(true), PolicyTarget::MacosSeatbelt);
    assert_eq!(runtime_policy_target(false), PolicyTarget::LinuxLandlockSeccomp);
    assert_eq!(
        runtime_protected_path_match_mode(true, ProtectedPathMatchMode::CaseSensitive),
        ProtectedPathMatchMode::CaseInsensitive
    );
}

#[test]
fn the_stub_model_answers_by_its_instructions() {
    let mut registry = registry();
    assert!(phase_uses_stub_model(&registry.phases[0]));
    assert_eq!(
        stub_message_content(&registry, &registry.phases[0], b"c").expect("a message"),
        "smoke"
    );
    registry.instructions[0].prompt = "say hello".to_owned();
    assert_eq!(
        stub_message_content(&registry, &registry.phases[0], b"c").expect("a message"),
        "hello"
    );
    assert_eq!(
        protocol_text(stub_message_content(&registry, &registry.phases[0], b"")),
        "stub model received empty compiled context"
    );
}

#[test]
fn tools_are_looked_at_before_a_run() {
    let (tools, outcome) = preflight_flow_tools(&registry(), &policy(), limits(4, 10), 0);
    assert!(outcome.is_ok());
    assert_eq!(tools, vec![PreflightTool { phase: 0, tool: 0 }]);
    let (_, outcome) = preflight_flow_tools(&registry(), &policy(), limits(4, 1), 0);
    assert_eq!(
        protocol_text(outcome),
        "flow invocation budget exceeded: next invocation 2 exceeds max 1"
    );
    let (_, outcome) = preflight_flow_tools(&registry(), &policy(), limits(1, 10), 0);
    let text = protocol_text(outcome);
    assert!(text.contains("exceeds max 1"), "{text}");
    assert!(text.starts_with("flow nesting depth "), "{text}");
    let mut endless = registry();
    endless.flows[1].subflow_refs = texts(&["main"]);
    let (_, outcome) = preflight_flow_tools(&endless, &policy(), limits(4, 100), 0);
    assert!(protocol_text(outcome).starts_with("flow nesting depth "));
}

#[test]
fn a_resumed_run_acts_behind_its_prefix() {
    let resume = ToolSideEffectMode::Resume { prefix_event_count: 5 };
    assert!(!resume.should_execute_tool(5));
    assert!(resume.should_execute_tool(6));
    assert!(!resume.should_preflight_tool(6));
    assert!(ToolSideEffectMode::PreflightResume { prefix_event_count: 5 }.should_preflight_tool(6));
    assert!(ToolSideEffectMode::Apply.occupies_live_invocation_slot(true));
    assert!(!resume.occupies_live_invocation_slot(true));
    assert!(resume.occupies_live_invocation_slot(false));
    assert!(!ToolSideEffectMode::Plan.occupies_live_invocation_slot(false));
    assert!(!should_terminalize_error(
        ToolSideEffectMode::Apply,
        &RuntimeError::EventWriter("w".to_owned())
    ));
    assert!(should_terminalize_error(
        ToolSideEffectMode::Plan,
        &RuntimeError::ContextBudgetExceeded("c".to_owned())
    ));
}

#[test]
fn live_invocations_are_limited() {
    let mut counter = LiveInvocationCounter::new();
    let first = counter.acquire(1).expect("there is room");
    assert_eq!(
        protocol_text(counter.acquire(1)),
        "global live flow invocation limit reached: max 1"
    );
    counter.release(first);
    assert_eq!(counter.count, 0);
    assert_eq!(LiveInvocationCounter::next_count(3, 4).expect("there is room"), 4);
    assert!(LiveInvocationCounter::next_count(4, 4).is_err());
}

fn builder() -> RuntimeEventBuilder {
    RuntimeEventBuilder::with_clock("run", EventClock { base_unix_seconds: 0 }, true)
}

#[test]
fn events_are_numbered_in_order() {
    assert_eq!(numbered_text("evt-", 7), "evt-007");
    assert_eq!(numbered_text("evt-", 1234), "evt-1234");
    let mut builder = builder();
    let next = builder.next_event(2).expect("there is room");
    assert_eq!(next.sequence, 1);
    assert_eq!(next.event_id, "evt-001");
    builder.record_event(EventKind::SessionStarted, no_facts(), "{}\n", &None);
    builder.commit_event(1, EventKind::SessionStarted, None, None);
    assert_eq!(builder.next_event(2).expect("there is room").sequence, 2);
    builder.commit_event(2, EventKind::Other, None, None);
    assert_eq!(
        protocol_text(builder.next_event(2)),
        "runtime event budget exceeded: next event 3 exceeds max 2"
    );
}

fn no_facts() -> FailureFacts {
    FailureFacts { code: None, message: None, reason: None }
}

#[test]
fn a_message_needs_its_context() {
    let mut builder = builder();
    assert_eq!(
        protocol_text(builder.take_checkpoint(EventKind::MessageCompleted)),
        "message.completed has no compiled context manifest"
    );
    builder.record_context_manifest("{}\n".to_owned(), Ok(())).expect("there is room");
    let checkpoint = builder
        .take_checkpoint(EventKind::MessageCompleted)
        .expect("a context is pending")
        .expect("a checkpoint");
    assert_eq!(checkpoint.line, "{}\n");
    assert_eq!(checkpoint.ordinal, 1);
    assert!(builder.take_checkpoint(EventKind::Other).expect("none is needed").is_none());
    let invocation = builder.next_flow_invocation(None, 4).expect("there is room");
    assert!(invocation.parent_flow_id.is_none());
    assert_eq!(
        protocol_text(builder.record_tool_intent(&invocation, "grep", Err("deep".to_owned()))),
        "failed to serialize tool intent grep: deep"
    );
    assert!(builder.record_tool_intent(&invocation, "grep", Ok("{}".to_owned())).is_ok());
    let execution = builder.into_execution(false, None, None);
    assert_eq!(execution.tool_intents.len(), 1);
}

fn execution(line: &str) -> RuntimeExecution {
    let mut builder = builder();
    builder.record_event(EventKind::SessionStarted, no_facts(), line, &None);
    builder.commit_event(1, EventKind::SessionStarted, None, None);
    builder.into_execution(false, None, None)
}

#[test]
fn signatures_tell_streams_apart() {
    let mut left = RuntimeStreamSignatureBuilder::new(EVENT_PLAN_DOMAIN);
    let mut right = RuntimeStreamSignatureBuilder::new(EVENT_PLAN_DOMAIN);
    left.push(b"ab");
    right.push(b"a");
    right.push(b"b");
    assert_eq!(left.signature().byte_count, 2);
    assert_eq!(right.signature().record_count, 2);
    assert!(!same_signature(&left.signature(), &right.signature()));
    assert!(same_signature(&left.signature(), &left.duplicate().signature()));
}

#[test]
fn what_is_applied_must_be_what_was_planned() {
    let clock = EventClock { base_unix_seconds: 0 };
    let planning = FlowExecutionOptions::with_stub_model_fixture_profile(
        clock,
        ToolSideEffectMode::Plan,
        false,
    );
    let plan = plan_flow(&planning, Ok(execution("{}\n"))).expect("the plan is made");
    assert!(plan.validate_integrity().is_ok());
    assert!(execution("{}\n").matches_plan(&plan));
    assert!(!execution("[]\n").matches_plan(&plan));
    assert_eq!(
        protocol_text(require_planning(ToolSideEffectMode::Apply)),
        "flow planning requires ToolSideEffectMode::Plan"
    );
    let applying = FlowExecutionOptions::with_stub_model_fixture_profile(
        clock,
        ToolSideEffectMode::Apply,
        false,
    )
    .with_terminal_flow_ids(texts(&["f"]));
    let application = FlowApplication { options: applying, plan };
    assert!(apply_flow_with_sink(&application, Ok(execution("{}\n"))).is_ok());
    assert_eq!(
        protocol_text(apply_flow_with_sink(&application, Ok(execution("[]\n")))),
        "flow apply did not match its execution plan"
    );
    let mut failed = execution("[]\n");
    failed.failed = true;
    assert!(apply_flow_with_sink(&application, Ok(failed)).is_ok());
    let mut forged = FlowExecutionPlan::from_execution(execution("{}\n"));
    forged.signature.record_count = 9;
    assert_eq!(
        protocol_text(forged.validate_integrity()),
        "flow execution plan signature is invalid"
    );
}

fn context(mode: ToolSideEffectMode) -> FlowEmitContext {
    FlowEmitContext {
        registry: registry(),
        policy: policy(),
        root_flow: 0,
        side_effect_mode: mode,
        stub_model_fixture_profile: true,
        terminal_flow_ids: Vec::new(),
        limits: limits(4, 10),
    }
}

#[test]
fn a_flow_runs_its_phases_and_its_subflows() {
    let ctx = context(ToolSideEffectMode::Apply);
    let mut run = FlowRun::execute_flow_with_sink();
    let mut actions = Vec::new();
    loop {
        let action = run.action(&ctx);
        if action == EngineAction::Finished {
            break;
        }
        actions.push(action);
        run.advance(&ctx, Reply::Done);
        assert!(actions.len() < 100);
    }
    assert_eq!(run.stage, Stage::Completed);
    assert_eq!(run.live_slots(), 0);
    assert_eq!(actions[0], EngineAction::StartSession);
    assert_eq!(actions.last(), Some(&EngineAction::CompleteSession));
    let place = |wanted: EngineAction| {
        actions.iter().position(|action| *action == wanted).expect("the action is taken")
    };
    assert!(place(EngineAction::StartFlow { flow: 0 }) < place(EngineAction::EnterPhase { phase: 0 }));
    assert!(
        place(EngineAction::RunTool { phase: 0, tool: 0 })
            < place(EngineAction::CompleteStep { phase: 0, step: 0 })
    );
    assert!(
        place(EngineAction::CompleteFlow { flow: 1 })
            < place(EngineAction::CompleteFlow { flow: 0 })
    );
}

#[test]
fn a_failed_tool_fails_its_session() {
    let ctx = context(ToolSideEffectMode::Apply);
    let mut run = FlowRun::execute_flow_with_sink();
    let mut later = Vec::new();
    let mut failed = false;
    loop {
        let action = run.action(&ctx);
        if action == EngineAction::Finished {
            break;
        }
        if failed {
            later.push(action);
        }
        if matches!(action, EngineAction::RunTool { .. }) {
            failed = true;
            run.advance(
                &ctx,
                Reply::Failure(RuntimeFailure {
                    reason: "tool".to_owned(),
                    message: "exit 1".to_owned(),
                    data: "{}".to_owned(),
                    tool_id: Some("grep".to_owned()),
                    phase_id: Some("work".to_owned()),
                    emit_tool_failed: true,
                }),
            );
        } else {
            run.advance(&ctx, Reply::Done);
        }
        assert!(later.len() < 100);
    }
    assert_eq!(run.stage, Stage::Failed);
    assert!(matches!(later.first(), Some(EngineAction::ReportToolFailure { .. })));
    assert!(later.contains(&EngineAction::CompleteStep { phase: 0, step: 0 }));
    assert_eq!(later.last(), Some(&EngineAction::FailSession));
    assert!(!later.contains(&EngineAction::CompleteSession));
}

#[test]
fn an_error_of_the_writer_ends_the_run_at_once() {
    let ctx = context(ToolSideEffectMode::Apply);
    let mut run = FlowRun::execute_flow_with_sink();
    while run.action(&ctx) != (EngineAction::EnterPhase { phase: 0 }) {
        run.advance(&ctx, Reply::Done);
    }
    run.advance(&ctx, Reply::Fault(RuntimeError::EventWriter("gone".to_owned())));
    assert_eq!(run.stage, Stage::Aborted);
    assert_eq!(run.action(&ctx), EngineAction::Finished);

    let mut other = FlowRun::execute_flow_with_sink();
    while other.action(&ctx) != (EngineAction::EnterPhase { phase: 0 }) {
        other.advance(&ctx, Reply::Done);
    }
    other.advance(&ctx, Reply::Fault(protocol("phase")));
    assert_eq!(other.stage, Stage::Running);
}

#[test]
fn invocations_know_their_parents() {
    let mut builder = builder();
    let root = builder.next_flow_invocation(None, 2).expect("there is room");
    let child: FlowInvocation = builder
        .next_flow_invocation(Some(root.flow_id.clone()), 2)
        .expect("there is room");
    assert_eq!(child.parent_flow_id, Some(root.flow_id.clone()));
    assert_ne!(child.flow_id, root.flow_id);
    assert_eq!(
        protocol_text(builder.next_flow_invocation(None, 2)),
        "flow invocation budget exceeded: next invocation 3 exceeds max 2"
    );
    assert_eq!(builder.next_message_id(), "msg-001");
}

#[test]
fn an_event_is_counted_when_it_is_committed() {
    let mut builder = builder();
    assert_eq!(
        protocol_text(builder.emit(
            0,
            EventKind::SessionStarted,
            no_facts(),
            Ok("{}\n".to_owned()),
            Ok(())
        )),
        "runtime event budget exceeded: next event 1 exceeds max 0"
    );
    assert_eq!(
        protocol_text(builder.emit(
            9,
            EventKind::SessionStarted,
            no_facts(),
            Err("depth".to_owned()),
            Ok(())
        )),
        "failed to serialize runtime event: depth"
    );
    assert_eq!(
        protocol_text(builder.emit(
            9,
            EventKind::SessionStarted,
            no_facts(),
            Ok("{}\n".to_owned()),
            Err(protocol("order"))
        )),
        "order"
    );
    assert!(builder
        .emit(9, EventKind::SessionStarted, no_facts(), Ok("{}\n".to_owned()), Ok(()))
        .expect("the event is sound")
        .is_none());
    assert_eq!(
        protocol_text(builder.emitted(
            Err(protocol("sink")),
            EventKind::SessionStarted,
            None,
            None
        )),
        "sink"
    );
    assert_eq!(builder.sequence, 0);
    assert!(builder.emitted(Ok(()), EventKind::SessionStarted, None, None).is_ok());
    assert_eq!(builder.sequence, 1);
    builder.record_context_manifest("{}\n".to_owned(), Ok(())).expect("there is room");
    let checkpoint = builder
        .emit(9, EventKind::MessageCompleted, no_facts(), Ok("{}\n".to_owned()), Ok(()))
        .expect("the event is sound")
        .expect("a context manifest");
    assert_eq!(checkpoint.ordinal, 1);
}

#[test]
fn the_words_of_an_error_reach_the_failure_of_its_session() {
    let mut builder = builder();
    let error = FailureFacts {
        code: Some("tool_failed".to_owned()),
        message: Some("exit 1".to_owned()),
        reason: None,
    };
    builder
        .emit(9, EventKind::Error, error, Ok("{}\n".to_owned()), Ok(()))
        .expect("the event is sound");
    builder.emitted(Ok(()), EventKind::Error, None, None).expect("it is committed");
    let failed = FailureFacts {
        code: None,
        message: None,
        reason: Some("tool_failed".to_owned()),
    };
    builder
        .emit(9, EventKind::SessionFailed, failed, Ok("{}\n".to_owned()), Ok(()))
        .expect("the event is sound");
    let failure = builder.session_failure.as_ref().expect("the session failed");
    assert_eq!(failure.reason, "tool_failed");
    assert_eq!(failure.message.as_deref(), Some("exit 1"));
}

#[test]
fn a_tool_runs_under_the_policy_of_its_phase() {
    let mut ctx = context(ToolSideEffectMode::Apply);
    let found = ctx
        .tool_policy(0, 0, false, ProtectedPathMatchMode::CaseSensitive)
        .expect("the phase may use it");
    assert_eq!(found.command.tool_id, "grep");
    assert_eq!(found.protected_path_match_mode, ProtectedPathMatchMode::CaseSensitive);
    assert!(found.stub_model_fixture_profile);
    let folded = ctx.tool_policy(0, 0, true, ProtectedPathMatchMode::CaseSensitive);
    assert_eq!(
        folded.expect("the phase may use it").protected_path_match_mode,
        ProtectedPathMatchMode::CaseInsensitive
    );
    ctx.policy.commands.clear();
    assert_eq!(
        protocol_text(ctx.tool_policy(0, 0, false, ProtectedPathMatchMode::CaseSensitive)),
        "runtime policy missing command for tool grep"
    );
}

#[test]
fn a_flow_is_started_within_its_limits() {
    let mut ctx = context(ToolSideEffectMode::Apply);
    let mut run = FlowRun::execute_flow_with_sink();
    run.emit_flow_block(&ctx);
    assert_eq!(run.stage, Stage::Running);
    assert_eq!(run.action(&ctx), EngineAction::AcquireSlot);
    assert_eq!(
        protocol_text(run.emit_flow_block_at_depth(&ctx, 1, Some(1), 5)),
        "flow nesting depth 5 for sub exceeds max 4"
    );
    assert_eq!(run.frames.len(), 1);
    run.emit_flow_block_at_depth(&ctx, 1, Some(1), 2).expect("it fits");
    assert_eq!(run.frames.len(), 2);
    assert_eq!(run.frames[1].parent, Some(1));
    assert_eq!(run.frames[1].invocation, 2);

    ctx.limits = limits(0, 10);
    let mut refused = FlowRun::execute_flow_with_sink();
    refused.emit_flow_block(&ctx);
    assert_eq!(refused.stage, Stage::Failing);
    assert_eq!(refused.frames.len(), 0);

    ctx.limits = limits(4, 0);
    let mut none = FlowRun::execute_flow_with_sink();
    assert_eq!(
        protocol_text(none.emit_flow_block_at_depth(&ctx, 0, None, 1)),
        "flow invocation budget exceeded: next invocation 1 exceeds max 0"
    );
}

#[test]
fn a_flow_enters_its_phases_in_turn() {
    let ctx = context(ToolSideEffectMode::Plan);
    let mut run = FlowRun::execute_flow_with_sink();
    run.emit_flow_block(&ctx);
    run.emit_phase(&ctx, 0);
    assert_eq!(run.action(&ctx), EngineAction::EnterPhase { phase: 0 });
    let mut last = FlowRun::execute_flow_with_sink();
    last.emit_flow_block(&ctx);
    last.emit_phase(&ctx, 1);
    assert_eq!(last.frames.len(), 2);
    assert_eq!(last.frames[1].flow, 1);
}

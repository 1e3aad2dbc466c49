//! The course of an execution. A run says what is to be done next, and goes on by
//! what came of it: which event follows which, what a failing tool or a failing
//! write leads to, and how a session ends.

use crate::engine::events::{invocation_budget_exceeded, numbered_text};
use crate::engine::events;
use crate::engine::mode::{should_terminalize_error, should_terminalize_runtime_error, ToolSideEffectMode};
use crate::engine::mode;
use crate::engine::preflight::{depth_exceeded, use_tool, FlowLimits};
use crate::engine::preflight;
use crate::engine::registry::{command_policy_for_phase, find_text, missing_block, phase_payload, phase_uses_stub_model, runtime_protected_path_match_mode, step_payload, CommandPolicy, FlowBlock, PhaseBlock, PolicyArtifact, ProtectedPathMatchMode, ResolvedRegistry};
use crate::engine::registry;
use crate::error::{ErrorModel, RuntimeError};
use crate::error;
use crate::text;
use vstd::prelude::*;

verus! {

/// Why a flow failed.
pub struct RuntimeFailure {
    pub reason: String,
    pub message: String,
    /// Further facts, in their canonical form.
    pub data: String,
    pub tool_id: Option<String>,
    pub phase_id: Option<String>,
    pub emit_tool_failed: bool,
}

/// Why a flow failed, by its contents.
pub struct FailureModel {
    pub reason: Seq<char>,
    pub message: Seq<char>,
    pub data: Seq<char>,
    pub tool_id: Option<Seq<char>>,
    pub phase_id: Option<Seq<char>>,
    pub emit_tool_failed: bool,
}

impl View for RuntimeFailure {
    type V = FailureModel;

    open spec fn view(&self) -> FailureModel {
        FailureModel {
            reason: self.reason@,
            message: self.message@,
            data: self.data@,
            tool_id: text::optional_view(self.tool_id),
            phase_id: text::optional_view(self.phase_id),
            emit_tool_failed: self.emit_tool_failed,
        }
    }
}

/// What an execution goes by.
pub struct FlowEmitContext {
    pub registry: ResolvedRegistry,
    pub policy: PolicyArtifact,
    pub root_flow: usize,
    pub side_effect_mode: ToolSideEffectMode,
    pub stub_model_fixture_profile: bool,
    pub terminal_flow_ids: Vec<String>,
    pub limits: FlowLimits,
}

/// What a tool runs under when a phase uses it.
#[derive(Clone, Copy)]
pub struct RuntimeToolPolicy<'a> {
    pub command: &'a CommandPolicy,
    pub protected_path_match_mode: ProtectedPathMatchMode,
    pub stub_model_fixture_profile: bool,
}

impl FlowEmitContext {
    /// The root flow is there, and counting stays within machine limits.
    pub open spec fn wf(self) -> bool {
        &&& self.registry.wf()
        &&& self.root_flow < self.registry.flows@.len()
        &&& self.limits.max_nesting_depth < usize::MAX
        &&& self.limits.max_invocations < u64::MAX
    }

    /// Whether an error ends the session with an event of its own.
    pub open spec fn terminal(self, error: ErrorModel) -> bool {
        mode::terminalizes(self.side_effect_mode, error)
    }

    /// What a tool of the registry runs under when a phase of it uses it. Whether this
    /// machine runs Windows, and how the policy's target compares protected paths, are
    /// told.
    pub fn tool_policy(
        &self,
        phase: usize,
        tool: usize,
        windows: bool,
        target_mode: ProtectedPathMatchMode,
    ) -> (result: Result<RuntimeToolPolicy<'_>, RuntimeError>)
        requires
            phase < self.registry.phases@.len(),
            tool < self.registry.tools@.len(),
        ensures
            error::failure(result) == registry::command_failure(
                self.policy,
                self.registry.phases@[phase as int].id@,
                self.registry.tools@[tool as int].id@,
            ),
            result matches Ok(found) ==> {
                let command = registry::command_at(
                    self.policy,
                    self.registry.tools@[tool as int].id@,
                );
                &&& command is Some
                &&& *found.command == self.policy.commands@[command->0]
                &&& found.protected_path_match_mode == (if windows {
                    ProtectedPathMatchMode::CaseInsensitive
                } else {
                    target_mode
                })
                &&& found.stub_model_fixture_profile == self.stub_model_fixture_profile
            },
    {
        let block = &self.registry.phases[phase];
        let command = command_policy_for_phase(
            &self.policy,
            block.id.as_str(),
            &self.registry.tools[tool],
        )?;
        Ok(
            RuntimeToolPolicy {
                command,
                protected_path_match_mode: runtime_protected_path_match_mode(windows, target_mode),
                stub_model_fixture_profile: self.stub_model_fixture_profile,
            },
        )
    }
}

/// Where a flow stands: what is to be done next in it. A phase is counted among the
/// references of its flow, a step and a tool among those of the phase.
#[derive(Clone, Copy)]
pub enum Position {
    Acquire,
    Started,
    Entered { phase: usize },
    StepStarted { phase: usize, step: usize },
    Sandbox { phase: usize },
    Context { phase: usize, step: usize },
    Delta { phase: usize, step: usize },
    Message { phase: usize, step: usize },
    Tool { phase: usize, tool: usize },
    ToolFailed { phase: usize, tool: usize },
    StepEnd { phase: usize, step: usize, closing: bool },
    ReportFailure,
    ReportError,
    Waiting { subflow: usize },
    ReportFlow,
    Completed,
}

/// A flow that is under way.
#[derive(Clone, Copy)]
pub struct Frame {
    pub flow: usize,
    pub invocation: u64,
    pub parent: Option<u64>,
    pub occupies: bool,
    pub position: Position,
}

/// Where the session stands.
#[derive(Clone, Copy, Debug, PartialEq, Eq, Structural)]
pub enum Stage {
    Opening,
    Running,
    Completing,
    Failing,
    Completed,
    Failed,
    Aborted,
}

/// What has gone wrong, if anything has.
pub enum Pending {
    Nothing,
    Failure(RuntimeFailure),
    Error(RuntimeError),
}

/// What has gone wrong, by its contents.
pub enum PendingModel {
    Nothing,
    Failure(FailureModel),
    Error(ErrorModel),
}

impl View for Pending {
    type V = PendingModel;

    open spec fn view(&self) -> PendingModel {
        match *self {
            Pending::Nothing => PendingModel::Nothing,
            Pending::Failure(found) => PendingModel::Failure(found@),
            Pending::Error(error) => PendingModel::Error(error@),
        }
    }
}

/// What came of what was to be done.
pub enum Reply {
    Done,
    Failure(RuntimeFailure),
    Fault(RuntimeError),
}

/// What came of what was to be done, by its contents.
pub enum ReplyModel {
    Done,
    Failure(FailureModel),
    Fault(ErrorModel),
}

impl View for Reply {
    type V = ReplyModel;

    open spec fn view(&self) -> ReplyModel {
        match *self {
            Reply::Done => ReplyModel::Done,
            Reply::Failure(found) => ReplyModel::Failure(found@),
            Reply::Fault(error) => ReplyModel::Fault(error@),
        }
    }
}

/// The state of a run.
pub struct RunModel {
    pub frames: Seq<Frame>,
    pub pending: PendingModel,
    pub invocations: u64,
    pub stage: Stage,
}

impl RunModel {
    /// The flow that is worked on.
    pub open spec fn top(self) -> Frame {
        self.frames.last()
    }

    /// The same run with its topmost flow at another position.
    pub open spec fn at(self, position: Position) -> RunModel {
        RunModel {
            frames: self.frames.update(
                self.frames.len() - 1,
                Frame { position, ..self.top() },
            ),
            ..self
        }
    }

    /// The same run with something gone wrong.
    pub open spec fn with(self, pending: PendingModel) -> RunModel {
        RunModel { pending, ..self }
    }
}

/// The block of a frame.
pub open spec fn block_of(ctx: FlowEmitContext, frame: Frame) -> FlowBlock {
    ctx.registry.flows@[frame.flow as int]
}

/// Which phase stands at a place of a frame's flow.
pub open spec fn phase_of(ctx: FlowEmitContext, frame: Frame, phase: int) -> Option<int> {
    ctx.registry.phase_at(block_of(ctx, frame).phase_refs@[phase]@)
}

/// The block of a phase of a frame.
pub open spec fn phase_block_of(ctx: FlowEmitContext, frame: Frame, phase: int) -> PhaseBlock {
    ctx.registry.phases@[phase_of(ctx, frame, phase)->0]
}

/// What is wrong with starting a flow at a depth.
pub open spec fn start_failure(
    ctx: FlowEmitContext,
    invocations: u64,
    flow: int,
    depth: nat,
) -> Option<ErrorModel> {
    let deep = preflight::depth_failure(ctx.registry.flows@[flow].id@, depth, ctx.limits.max_nesting_depth);
    if deep is Some {
        deep
    } else {
        events::invocation_failure(invocations as nat, ctx.limits.max_invocations)
    }
}

/// A flow that is started.
pub open spec fn started(
    ctx: FlowEmitContext,
    invocations: u64,
    flow: int,
    parent: Option<u64>,
) -> Frame {
    let occupies = ctx.side_effect_mode.occupies(
        registry::text_position(
            text::texts_view(ctx.terminal_flow_ids@),
            events::numbered("flow-"@, (invocations + 1) as nat),
        ) is Some,
    );
    Frame {
        flow: flow as usize,
        invocation: (invocations + 1) as u64,
        parent,
        occupies,
        position: if occupies {
            Position::Acquire
        } else {
            Position::Started
        },
    }
}

/// The run with one more flow.
pub open spec fn pushed(
    ctx: FlowEmitContext,
    run: RunModel,
    flow: int,
    parent: Option<u64>,
) -> RunModel {
    RunModel {
        frames: run.frames.push(started(ctx, run.invocations, flow, parent)),
        invocations: (run.invocations + 1) as u64,
        ..run
    }
}

/// The session when its root flow has ended.
pub open spec fn end_session(ctx: FlowEmitContext, run: RunModel) -> RunModel {
    RunModel {
        stage: match run.pending {
            PendingModel::Nothing => Stage::Completing,
            PendingModel::Failure(_) => Stage::Failing,
            PendingModel::Error(error) => if ctx.terminal(error) {
                Stage::Failing
            } else {
                Stage::Aborted
            },
        },
        ..run
    }
}

/// The run when the topmost flow has ended, with or without something gone wrong.
pub open spec fn end_frame(ctx: FlowEmitContext, run: RunModel) -> RunModel
    decreases run.frames.len(), 0nat,
{
    let below = RunModel { frames: run.frames.drop_last(), ..run };
    if run.frames.len() <= 1 {
        end_session(ctx, RunModel { frames: Seq::empty(), ..run })
    } else {
        match below.top().position {
            Position::Waiting { subflow } => match run.pending {
                PendingModel::Nothing => begin_subflow(ctx, below, subflow + 1),
                PendingModel::Failure(_) => below.at(Position::ReportFlow),
                PendingModel::Error(error) => below_failed(ctx, below, error),
            },
            _ => below,
        }
    }
}

/// The run when the flow below the topmost one met an error.
pub open spec fn below_failed(ctx: FlowEmitContext, run: RunModel, error: ErrorModel) -> RunModel
    decreases run.frames.len(), 1nat,
{
    let failed = run.with(PendingModel::Error(error));
    if ctx.terminal(error) {
        failed.at(Position::ReportFlow)
    } else {
        end_frame(ctx, failed)
    }
}

/// The run when the topmost flow comes to one of the flows below it.
pub open spec fn begin_subflow(ctx: FlowEmitContext, run: RunModel, subflow: int) -> RunModel
    decreases run.frames.len(), 2nat,
{
    let block = block_of(ctx, run.top());
    if run.frames.len() == 0 || subflow >= block.subflow_refs@.len() {
        run.at(Position::Completed)
    } else {
        let reference = block.subflow_refs@[subflow]@;
        match ctx.registry.flow_at(reference) {
            None => end_frame(
                ctx,
                run.with(PendingModel::Error(registry::missing_failure("flow"@, reference, None)->0)),
            ),
            Some(flow) => {
                let waiting = run.at(Position::Waiting { subflow: subflow as usize });
                match start_failure(ctx, run.invocations, flow, run.frames.len() + 1) {
                    Some(error) => below_failed(ctx, waiting, error),
                    None => pushed(ctx, waiting, flow, Some(run.top().invocation)),
                }
            },
        }
    }
}

/// The run when the topmost flow met an error outside its phases.
pub open spec fn flow_error(ctx: FlowEmitContext, run: RunModel, error: ErrorModel) -> RunModel {
    end_frame(ctx, run.with(PendingModel::Error(error)))
}

/// The run when a phase of the topmost flow met an error.
pub open spec fn phase_error(ctx: FlowEmitContext, run: RunModel, error: ErrorModel) -> RunModel {
    let failed = run.with(PendingModel::Error(error));
    if ctx.terminal(error) {
        failed.at(Position::ReportError)
    } else {
        end_frame(ctx, failed)
    }
}

/// The run when the topmost flow comes to one of its phases.
pub open spec fn begin_phase(ctx: FlowEmitContext, run: RunModel, phase: int) -> RunModel {
    let block = block_of(ctx, run.top());
    if phase >= block.phase_refs@.len() {
        begin_subflow(ctx, run, 0)
    } else {
        match phase_of(ctx, run.top(), phase) {
            None => flow_error(
                ctx,
                run,
                registry::missing_failure("phase"@, block.phase_refs@[phase]@, None)->0,
            ),
            Some(index) => match registry::phase_failure(ctx.registry, ctx.registry.phases@[index]) {
                Some(error) => phase_error(ctx, run, error),
                None => run.at(Position::Entered { phase: phase as usize }),
            },
        }
    }
}

/// The run when a phase comes to one of its steps.
pub open spec fn begin_step(ctx: FlowEmitContext, run: RunModel, phase: int, step: int) -> RunModel {
    let block = phase_block_of(ctx, run.top(), phase);
    if step >= block.steps@.len() {
        begin_phase(ctx, run, phase + 1)
    } else {
        match registry::step_failure(ctx.registry, block.steps@[step]) {
            Some(error) => phase_error(ctx, run, error),
            None => run.at(Position::StepStarted { phase: phase as usize, step: step as usize }),
        }
    }
}

/// The run when a step comes to one of its tools; only the first step has any.
pub open spec fn begin_tool(ctx: FlowEmitContext, run: RunModel, phase: int, tool: int) -> RunModel {
    let block = phase_block_of(ctx, run.top(), phase);
    if tool >= block.tool_refs@.len() {
        run.at(Position::StepEnd { phase: phase as usize, step: 0, closing: false })
    } else {
        match preflight::tool_use_failure(ctx.registry, ctx.policy, block, block.tool_refs@[tool]@) {
            Some(error) => phase_error(ctx, run, error),
            None => run.at(Position::Tool { phase: phase as usize, tool: tool as usize }),
        }
    }
}

/// The run when the model has been heard in a step, or was not asked.
pub open spec fn after_model(ctx: FlowEmitContext, run: RunModel, phase: int, step: int) -> RunModel {
    if step == 0 {
        begin_tool(ctx, run, phase, 0)
    } else {
        run.at(
            Position::StepEnd { phase: phase as usize, step: step as usize, closing: false },
        )
    }
}

/// The run when a step may go on: the model is asked where the phase has instructions.
pub open spec fn begin_model(ctx: FlowEmitContext, run: RunModel, phase: int, step: int) -> RunModel {
    if phase_block_of(ctx, run.top(), phase).instruction_refs@.len() > 0 {
        run.at(Position::Context { phase: phase as usize, step: step as usize })
    } else {
        after_model(ctx, run, phase, step)
    }
}

/// The run when its root flow is started.
pub open spec fn begin_root(ctx: FlowEmitContext, run: RunModel) -> RunModel {
    match start_failure(ctx, run.invocations, ctx.root_flow as int, 1) {
        Some(error) => end_session(
            ctx,
            RunModel { stage: Stage::Running, ..run.with(PendingModel::Error(error)) },
        ),
        None => pushed(
            ctx,
            RunModel { stage: Stage::Running, ..run },
            ctx.root_flow as int,
            None,
        ),
    }
}

/// What went wrong with its tool event written: it is not written again.
pub open spec fn tool_reported(pending: PendingModel) -> PendingModel {
    match pending {
        PendingModel::Failure(found) => PendingModel::Failure(
            FailureModel { emit_tool_failed: false, ..found },
        ),
        other => other,
    }
}

/// Whether what was to be done can have come to this: only a sandbox check or a tool
/// finds a failure, and a sandbox check meets no error.
pub open spec fn answers(run: RunModel, reply: ReplyModel) -> bool {
    &&& reply is Failure ==> run.stage == Stage::Running && (run.top().position is Sandbox
        || run.top().position is Tool)
    &&& reply is Fault ==> !(run.stage == Stage::Running && run.top().position is Sandbox)
}

/// The run after what was to be done was done in the topmost flow.
pub open spec fn done_in_flow(ctx: FlowEmitContext, run: RunModel) -> RunModel {
    match run.top().position {
        Position::Acquire => run.at(Position::Started),
        Position::Started => begin_phase(ctx, run, 0),
        Position::Entered { phase } => begin_step(ctx, run, phase as int, 0),
        Position::StepStarted { phase, step } => if step == 0 {
            run.at(Position::Sandbox { phase })
        } else {
            begin_model(ctx, run, phase as int, step as int)
        },
        Position::Sandbox { phase } => begin_model(ctx, run, phase as int, 0),
        Position::Context { phase, step } => run.at(Position::Delta { phase, step }),
        Position::Delta { phase, step } => run.at(Position::Message { phase, step }),
        Position::Message { phase, step } => after_model(ctx, run, phase as int, step as int),
        Position::Tool { phase, tool } => begin_tool(ctx, run, phase as int, tool + 1),
        Position::ToolFailed { phase, tool } => run.with(tool_reported(run.pending)).at(
            Position::StepEnd { phase, step: 0, closing: true },
        ),
        Position::StepEnd { phase, step, closing } => if !closing {
            begin_step(ctx, run, phase as int, step + 1)
        } else {
            match run.pending {
                PendingModel::Error(error) => phase_error(ctx, run, error),
                _ => run.at(Position::ReportFailure),
            }
        },
        Position::ReportFailure | Position::ReportError | Position::ReportFlow
        | Position::Completed => end_frame(ctx, run),
        Position::Waiting { .. } => run,
    }
}

/// The run after an error in the topmost flow. What stands in a phase is reported in
/// the flow, and an error of a tool first as that tool's; what stands outside the
/// phases is left to the flow above.
pub open spec fn fault_in_flow(ctx: FlowEmitContext, run: RunModel, error: ErrorModel) -> RunModel {
    match run.top().position {
        Position::Acquire | Position::Started | Position::ReportFailure | Position::ReportError
        | Position::ReportFlow | Position::Completed | Position::Waiting { .. } => flow_error(
            ctx,
            run,
            error,
        ),
        Position::Tool { phase, tool } => if mode::terminalizes_failures(ctx.side_effect_mode) {
            run.with(PendingModel::Error(error)).at(Position::ToolFailed { phase, tool })
        } else {
            phase_error(ctx, run, error)
        },
        _ => phase_error(ctx, run, error),
    }
}

/// The run after a sandbox check or a tool found a failure.
pub open spec fn failure_in_flow(run: RunModel, found: FailureModel) -> RunModel {
    let failed = run.with(PendingModel::Failure(found));
    match run.top().position {
        Position::Sandbox { phase } => failed.at(
            Position::StepEnd { phase, step: 0, closing: true },
        ),
        Position::Tool { phase, tool } => failed.at(Position::ToolFailed { phase, tool }),
        _ => run,
    }
}

/// The run after what was to be done came to something.
pub open spec fn advanced(ctx: FlowEmitContext, run: RunModel, reply: ReplyModel) -> RunModel {
    match (run.stage, reply) {
        (Stage::Running, ReplyModel::Done) => done_in_flow(ctx, run),
        (Stage::Running, ReplyModel::Fault(error)) => fault_in_flow(ctx, run, error),
        (Stage::Running, ReplyModel::Failure(found)) => failure_in_flow(run, found),
        (Stage::Opening, ReplyModel::Done) => begin_root(ctx, run),
        (Stage::Completing, ReplyModel::Done) => RunModel { stage: Stage::Completed, ..run },
        (Stage::Failing, ReplyModel::Done) => RunModel { stage: Stage::Failed, ..run },
        (Stage::Opening, ReplyModel::Fault(error))
        | (Stage::Completing, ReplyModel::Fault(error))
        | (Stage::Failing, ReplyModel::Fault(error)) => RunModel {
            stage: Stage::Aborted,
            ..run.with(PendingModel::Error(error))
        },
        _ => run,
    }
}

/// Whether a position fits the flow it stands in and what has gone wrong.
pub open spec fn position_fits(ctx: FlowEmitContext, frame: Frame, pending: PendingModel) -> bool {
    let sound = pending is Nothing;
    match frame.position {
        Position::Acquire | Position::Started | Position::Completed => sound,
        Position::Entered { phase } => sound && phase_fits(ctx, frame, phase),
        Position::StepStarted { phase, step } | Position::Context { phase, step }
        | Position::Delta { phase, step } | Position::Message { phase, step } => sound
            && step_fits(ctx, frame, phase, step),
        Position::Sandbox { phase } => sound && step_fits(ctx, frame, phase, 0),
        Position::Tool { phase, tool } => sound && step_fits(ctx, frame, phase, 0) && tool
            < phase_block_of(ctx, frame, phase as int).tool_refs.len(),
        Position::ToolFailed { phase, tool } => !sound && step_fits(ctx, frame, phase, 0) && tool
            < phase_block_of(ctx, frame, phase as int).tool_refs.len(),
        Position::StepEnd { phase, step, closing } => {
            &&& closing == !sound
            &&& step_fits(ctx, frame, phase, step)
            &&& closing ==> step == 0
        },
        Position::ReportFailure => pending is Failure,
        Position::ReportError => pending matches PendingModel::Error(error) && ctx.terminal(error),
        Position::ReportFlow => {
            &&& !sound
            &&& pending matches PendingModel::Error(error) ==> ctx.terminal(error)
        },
        Position::Waiting { .. } => false,
    }
}

/// Whether a phase is there.
pub open spec fn phase_fits(ctx: FlowEmitContext, frame: Frame, phase: usize) -> bool {
    &&& phase < block_of(ctx, frame).phase_refs.len()
    &&& phase_of(ctx, frame, phase as int) is Some
}

/// Whether a step is there.
pub open spec fn step_fits(ctx: FlowEmitContext, frame: Frame, phase: usize, step: usize) -> bool {
    &&& phase_fits(ctx, frame, phase)
    &&& step < phase_block_of(ctx, frame, phase as int).steps.len()
}

/// The flows below the topmost one wait for the one above them, each is the parent
/// of the next, and they were numbered in order.
pub open spec fn stacked(ctx: FlowEmitContext, run: RunModel) -> bool {
    &&& run.frames.len() <= ctx.limits.max_nesting_depth
    &&& run.invocations <= ctx.limits.max_invocations
    &&& forall|i: int|
        0 <= i < run.frames.len() ==> {
            &&& (#[trigger] run.frames[i]).flow < ctx.registry.flows@.len()
            &&& run.frames[i].invocation <= run.invocations
            &&& i == 0 ==> run.frames[i].parent is None
        }
    &&& forall|i: int, j: int|
        0 <= i < j < run.frames.len() ==> {
            &&& (#[trigger] run.frames[i]).invocation < (#[trigger] run.frames[j]).invocation
            &&& j == i + 1 ==> run.frames[j].parent == Some(run.frames[i].invocation)
        }
    &&& forall|i: int|
        0 <= i < run.frames.len() - 1 ==> {
            &&& (#[trigger] run.frames[i]).position matches Position::Waiting { subflow }
            &&& subflow < block_of(ctx, run.frames[i]).subflow_refs.len()
        }
}

/// What holds of every run.
pub open spec fn run_wf(ctx: FlowEmitContext, run: RunModel) -> bool {
    &&& stacked(ctx, run)
    &&& run.stage == Stage::Running <==> run.frames.len() > 0
    &&& run.stage == Stage::Running ==> position_fits(ctx, run.top(), run.pending)
    &&& run.stage == Stage::Opening ==> run.pending is Nothing && run.invocations == 0
    &&& run.stage == Stage::Completing || run.stage == Stage::Completed ==> run.pending is Nothing
    &&& run.stage == Stage::Failing || run.stage == Stage::Failed ==> !(run.pending is Nothing)
    &&& run.stage == Stage::Aborted ==> run.pending is Error
}

/// A run of a session.
pub struct FlowRun {
    pub frames: Vec<Frame>,
    pub pending: Pending,
    pub invocations: u64,
    pub stage: Stage,
}

impl View for FlowRun {
    type V = RunModel;

    open spec fn view(&self) -> RunModel {
        RunModel {
            frames: self.frames@,
            pending: self.pending@,
            invocations: self.invocations,
            stage: self.stage,
        }
    }
}

impl FlowRun {
    /// A run of which nothing has been done.
    pub fn execute_flow_with_sink() -> (run: FlowRun)
        ensures
            run@ == (RunModel {
                frames: Seq::empty(),
                pending: PendingModel::Nothing,
                invocations: 0,
                stage: Stage::Opening,
            }),
    {
        FlowRun {
            frames: Vec::new(),
            pending: Pending::Nothing,
            invocations: 0,
            stage: Stage::Opening,
        }
    }

    fn top(&self) -> (frame: Frame)
        requires
            self.frames@.len() > 0,
        ensures
            frame == self@.top(),
    {
        self.frames[self.frames.len() - 1]
    }

    fn place(&mut self, position: Position)
        requires
            old(self).frames@.len() > 0,
        ensures
            final(self)@ == old(self)@.at(position),
            final(self).pending == old(self).pending,
    {
        let last: usize = self.frames.len() - 1;
        let frame = Frame { position, ..self.frames[last] };
        self.frames.set(last, frame);
    }

    fn end_session(&mut self, ctx: &FlowEmitContext)
        ensures
            final(self)@ == end_session(*ctx, old(self)@),
    {
        self.stage = match &self.pending {
            Pending::Nothing => Stage::Completing,
            Pending::Failure(_) => Stage::Failing,
            Pending::Error(error) => if should_terminalize_error(ctx.side_effect_mode, error) {
                Stage::Failing
            } else {
                Stage::Aborted
            },
        };
    }

    fn end_frame(&mut self, ctx: &FlowEmitContext)
        requires
            ctx.wf(),
            stacked(*ctx, old(self)@),
            old(self).frames@.len() > 0,
            old(self).stage == Stage::Running,
        ensures
            final(self)@ == end_frame(*ctx, old(self)@),
            run_wf(*ctx, final(self)@),
        decreases old(self).frames@.len(), 0nat,
    {
        let ghost before = self@;
        let _ = self.frames.pop();
        assert(self.frames@ =~= before.frames.drop_last());
        if self.frames.len() == 0 {
            assert(self.frames@ =~= Seq::<Frame>::empty());
            self.end_session(ctx);
            return ;
        }
        assert(before.frames[before.frames.len() - 2] == self@.top());
        let frame = self.top();
        match frame.position {
            Position::Waiting { subflow } => {
                if let Pending::Nothing = &self.pending {
                    self.begin_subflow(ctx, subflow + 1);
                } else if let Pending::Failure(_) = &self.pending {
                    self.place(Position::ReportFlow);
                } else {
                    let mut pending = Pending::Nothing;
                    std::mem::swap(&mut pending, &mut self.pending);
                    if let Pending::Error(error) = pending {
                        self.below_failed(ctx, error);
                    }
                }
            },
            _ => {},
        }
    }

    fn below_failed(&mut self, ctx: &FlowEmitContext, error: RuntimeError)
        requires
            ctx.wf(),
            stacked(*ctx, old(self)@),
            old(self).frames@.len() > 0,
            old(self).stage == Stage::Running,
        ensures
            final(self)@ == below_failed(*ctx, old(self)@, error@),
            run_wf(*ctx, final(self)@),
        decreases old(self).frames@.len(), 1nat,
    {
        let terminal = should_terminalize_error(ctx.side_effect_mode, &error);
        self.pending = Pending::Error(error);
        if terminal {
            self.place(Position::ReportFlow);
        } else {
            self.end_frame(ctx);
        }
    }

    fn begin_subflow(&mut self, ctx: &FlowEmitContext, subflow: usize)
        requires
            ctx.wf(),
            stacked(*ctx, old(self)@),
            old(self).frames@.len() > 0,
            old(self).stage == Stage::Running,
            old(self).pending is Nothing,
        ensures
            final(self)@ == begin_subflow(*ctx, old(self)@, subflow as int),
            run_wf(*ctx, final(self)@),
        decreases old(self).frames@.len(), 2nat,
    {
        let frame = self.top();
        let block = &ctx.registry.flows[frame.flow];
        if subflow >= block.subflow_refs.len() {
            self.place(Position::Completed);
            return ;
        }
        let reference = block.subflow_refs[subflow].as_str();
        match find_text(&ctx.registry.flow_refs, reference) {
            None => {
                self.pending = Pending::Error(missing_block("flow", reference));
                self.end_frame(ctx);
            },
            Some(flow) => {
                let depth: usize = self.frames.len() + 1;
                self.place(Position::Waiting { subflow });
                let started = self.emit_flow_block_at_depth(
                    ctx,
                    flow,
                    Some(frame.invocation),
                    depth,
                );
                if let Err(error) = started {
                    self.below_failed(ctx, error);
                }
            },
        }
    }

    fn start_failed(&self, ctx: &FlowEmitContext, flow: usize, depth: usize) -> (error: Option<
        RuntimeError,
    >)
        requires
            ctx.wf(),
            flow < ctx.registry.flows@.len(),
            self.invocations <= ctx.limits.max_invocations,
        ensures
            match error {
                Some(error) => start_failure(*ctx, self.invocations, flow as int, depth as nat)
                    == Some(error@),
                None => start_failure(*ctx, self.invocations, flow as int, depth as nat) is None,
            },
    {
        let block = &ctx.registry.flows[flow];
        if depth > ctx.limits.max_nesting_depth {
            return Some(depth_exceeded(block.id.as_str(), depth, ctx.limits.max_nesting_depth));
        }
        let next: u64 = self.invocations + 1;
        if next > ctx.limits.max_invocations {
            return Some(invocation_budget_exceeded(next, ctx.limits.max_invocations));
        }
        None
    }

    /// Starts a flow of the registry at a depth, below another or as the root. Where
    /// it nests too deep, or the run has no invocation left, nothing is started.
    pub fn emit_flow_block_at_depth(
        &mut self,
        ctx: &FlowEmitContext,
        flow: usize,
        parent: Option<u64>,
        depth: usize,
    ) -> (result: Result<(), RuntimeError>)
        requires
            ctx.wf(),
            flow < ctx.registry.flows@.len(),
            old(self).invocations <= ctx.limits.max_invocations,
        ensures
            error::failure(result) == start_failure(
                *ctx,
                old(self).invocations,
                flow as int,
                depth as nat,
            ),
            result is Ok ==> final(self)@ == pushed(*ctx, old(self)@, flow as int, parent),
            result is Err ==> final(self)@ == old(self)@,
            final(self).pending == old(self).pending,
    {
        if let Some(error) = self.start_failed(ctx, flow, depth) {
            return Err(error);
        }
        self.invocations = self.invocations + 1;
        let flow_id = numbered_text("flow-", self.invocations);
        let terminal = find_text(&ctx.terminal_flow_ids, flow_id.as_str()).is_some();
        let occupies = ctx.side_effect_mode.occupies_live_invocation_slot(terminal);
        self.frames.push(
            Frame {
                flow,
                invocation: self.invocations,
                parent,
                occupies,
                position: if occupies {
                    Position::Acquire
                } else {
                    Position::Started
                },
            },
        );
        Ok(())
    }

    /// Starts the root flow. Where it cannot be started, the session ends by what is
    /// wrong.
    pub fn emit_flow_block(&mut self, ctx: &FlowEmitContext)
        requires
            ctx.wf(),
            run_wf(*ctx, old(self)@),
            old(self).stage == Stage::Opening,
        ensures
            final(self)@ == begin_root(*ctx, old(self)@),
            run_wf(*ctx, final(self)@),
    {
        self.stage = Stage::Running;
        if let Err(error) = self.emit_flow_block_at_depth(ctx, ctx.root_flow, None, 1) {
            self.pending = Pending::Error(error);
            self.end_session(ctx);
        }
    }

    fn flow_error(&mut self, ctx: &FlowEmitContext, error: RuntimeError)
        requires
            ctx.wf(),
            run_wf(*ctx, old(self)@),
            old(self).stage == Stage::Running,
        ensures
            final(self)@ == flow_error(*ctx, old(self)@, error@),
            run_wf(*ctx, final(self)@),
    {
        self.pending = Pending::Error(error);
        self.end_frame(ctx);
    }

    fn phase_error(&mut self, ctx: &FlowEmitContext, error: RuntimeError)
        requires
            ctx.wf(),
            run_wf(*ctx, old(self)@),
            old(self).stage == Stage::Running,
        ensures
            final(self)@ == phase_error(*ctx, old(self)@, error@),
            run_wf(*ctx, final(self)@),
    {
        let terminal = should_terminalize_error(ctx.side_effect_mode, &error);
        self.pending = Pending::Error(error);
        if terminal {
            self.place(Position::ReportError);
        } else {
            self.end_frame(ctx);
        }
    }

    /// Comes to a phase of the topmost flow: enters it, or goes on to the flows below
    /// where there is none left.
    pub fn emit_phase(&mut self, ctx: &FlowEmitContext, phase: usize)
        requires
            ctx.wf(),
            run_wf(*ctx, old(self)@),
            old(self).stage == Stage::Running,
            old(self).pending is Nothing,
        ensures
            final(self)@ == begin_phase(*ctx, old(self)@, phase as int),
            run_wf(*ctx, final(self)@),
    {
        let frame = self.top();
        let block = &ctx.registry.flows[frame.flow];
        if phase >= block.phase_refs.len() {
            self.begin_subflow(ctx, 0);
            return ;
        }
        let reference = block.phase_refs[phase].as_str();
        match find_text(&ctx.registry.phase_refs, reference) {
            None => {
                self.flow_error(ctx, missing_block("phase", reference));
            },
            Some(index) => match phase_payload(&ctx.registry, &ctx.registry.phases[index]) {
                Err(error) => {
                    self.phase_error(ctx, error);
                },
                Ok(_) => {
                    self.place(Position::Entered { phase });
                },
            },
        }
    }

    fn phase_index(ctx: &FlowEmitContext, frame: Frame, phase: usize) -> (index: usize)
        requires
            ctx.wf(),
            frame.flow < ctx.registry.flows@.len(),
            phase_fits(*ctx, frame, phase),
        ensures
            phase_of(*ctx, frame, phase as int) == Some(index as int),
            index < ctx.registry.phases@.len(),
    {
        let block = &ctx.registry.flows[frame.flow];
        match find_text(&ctx.registry.phase_refs, block.phase_refs[phase].as_str()) {
            Some(index) => index,
            None => 0,
        }
    }

    fn begin_step(&mut self, ctx: &FlowEmitContext, phase: usize, step: usize)
        requires
            ctx.wf(),
            run_wf(*ctx, old(self)@),
            old(self).stage == Stage::Running,
            old(self).pending is Nothing,
            phase_fits(*ctx, old(self)@.top(), phase),
        ensures
            final(self)@ == begin_step(*ctx, old(self)@, phase as int, step as int),
            run_wf(*ctx, final(self)@),
    {
        let index: usize = Self::phase_index(ctx, self.top(), phase);
        let block = &ctx.registry.phases[index];
        if step >= block.steps.len() {
            self.emit_phase(ctx, phase + 1);
            return ;
        }
        match step_payload(&ctx.registry, block, &block.steps[step]) {
            Err(error) => {
                self.phase_error(ctx, error);
            },
            Ok(_) => {
                self.place(Position::StepStarted { phase, step });
            },
        }
    }

    fn begin_tool(&mut self, ctx: &FlowEmitContext, phase: usize, tool: usize)
        requires
            ctx.wf(),
            run_wf(*ctx, old(self)@),
            old(self).stage == Stage::Running,
            old(self).pending is Nothing,
            step_fits(*ctx, old(self)@.top(), phase, 0),
        ensures
            final(self)@ == begin_tool(*ctx, old(self)@, phase as int, tool as int),
            run_wf(*ctx, final(self)@),
    {
        let index: usize = Self::phase_index(ctx, self.top(), phase);
        let block = &ctx.registry.phases[index];
        if tool >= block.tool_refs.len() {
            self.place(Position::StepEnd { phase, step: 0, closing: false });
            return ;
        }
        match use_tool(&ctx.registry, &ctx.policy, block, block.tool_refs[tool].as_str()) {
            Err(error) => {
                self.phase_error(ctx, error);
            },
            Ok(_) => {
                self.place(Position::Tool { phase, tool });
            },
        }
    }

    fn after_model(&mut self, ctx: &FlowEmitContext, phase: usize, step: usize)
        requires
            ctx.wf(),
            run_wf(*ctx, old(self)@),
            old(self).stage == Stage::Running,
            old(self).pending is Nothing,
            step_fits(*ctx, old(self)@.top(), phase, step),
        ensures
            final(self)@ == after_model(*ctx, old(self)@, phase as int, step as int),
            run_wf(*ctx, final(self)@),
    {
        if step == 0 {
            self.begin_tool(ctx, phase, 0);
        } else {
            self.place(Position::StepEnd { phase, step, closing: false });
        }
    }

    fn begin_model(&mut self, ctx: &FlowEmitContext, phase: usize, step: usize)
        requires
            ctx.wf(),
            run_wf(*ctx, old(self)@),
            old(self).stage == Stage::Running,
            old(self).pending is Nothing,
            step_fits(*ctx, old(self)@.top(), phase, step),
        ensures
            final(self)@ == begin_model(*ctx, old(self)@, phase as int, step as int),
            run_wf(*ctx, final(self)@),
    {
        let index: usize = Self::phase_index(ctx, self.top(), phase);
        if phase_uses_stub_model(&ctx.registry.phases[index]) {
            self.place(Position::Context { phase, step });
        } else {
            self.after_model(ctx, phase, step);
        }
    }

    fn done_in_flow(&mut self, ctx: &FlowEmitContext)
        requires
            ctx.wf(),
            run_wf(*ctx, old(self)@),
            old(self).stage == Stage::Running,
        ensures
            final(self)@ == done_in_flow(*ctx, old(self)@),
            run_wf(*ctx, final(self)@),
    {
        match self.top().position {
            Position::Acquire => {
                self.place(Position::Started);
            },
            Position::Started => {
                self.emit_phase(ctx, 0);
            },
            Position::Entered { phase } => {
                self.begin_step(ctx, phase, 0);
            },
            Position::StepStarted { phase, step } => {
                if step == 0 {
                    self.place(Position::Sandbox { phase });
                } else {
                    self.begin_model(ctx, phase, step);
                }
            },
            Position::Sandbox { phase } => {
                self.begin_model(ctx, phase, 0);
            },
            Position::Context { phase, step } => {
                self.place(Position::Delta { phase, step });
            },
            Position::Delta { phase, step } => {
                self.place(Position::Message { phase, step });
            },
            Position::Message { phase, step } => {
                self.after_model(ctx, phase, step);
            },
            Position::Tool { phase, tool } => {
                self.begin_tool(ctx, phase, tool + 1);
            },
            Position::ToolFailed { phase, .. } => {
                let mut pending = Pending::Nothing;
                std::mem::swap(&mut pending, &mut self.pending);
                self.pending = match pending {
                    Pending::Failure(found) => Pending::Failure(
                        RuntimeFailure { emit_tool_failed: false, ..found },
                    ),
                    other => other,
                };
                self.place(Position::StepEnd { phase, step: 0, closing: true });
            },
            Position::StepEnd { phase, step, closing } => {
                if !closing {
                    self.begin_step(ctx, phase, step + 1);
                } else {
                    let mut pending = Pending::Nothing;
                    std::mem::swap(&mut pending, &mut self.pending);
                    match pending {
                        Pending::Error(error) => {
                            let terminal = should_terminalize_error(ctx.side_effect_mode, &error);
                            self.pending = Pending::Error(error);
                            if terminal {
                                self.place(Position::ReportError);
                            } else {
                                self.end_frame(ctx);
                            }
                        },
                        other => {
                            self.pending = other;
                            self.place(Position::ReportFailure);
                        },
                    }
                }
            },
            Position::ReportFailure | Position::ReportError | Position::ReportFlow
            | Position::Completed => {
                self.end_frame(ctx);
            },
            Position::Waiting { .. } => {},
        }
    }

    fn fault_in_flow(&mut self, ctx: &FlowEmitContext, error: RuntimeError)
        requires
            ctx.wf(),
            run_wf(*ctx, old(self)@),
            old(self).stage == Stage::Running,
        ensures
            final(self)@ == fault_in_flow(*ctx, old(self)@, error@),
            run_wf(*ctx, final(self)@),
    {
        match self.top().position {
            Position::Acquire | Position::Started | Position::ReportFailure
            | Position::ReportError | Position::ReportFlow | Position::Completed
            | Position::Waiting { .. } => {
                self.flow_error(ctx, error);
            },
            Position::Tool { phase, tool } => {
                if should_terminalize_runtime_error(ctx.side_effect_mode) {
                    self.pending = Pending::Error(error);
                    self.place(Position::ToolFailed { phase, tool });
                } else {
                    self.phase_error(ctx, error);
                }
            },
            _ => {
                self.phase_error(ctx, error);
            },
        }
    }

    /// Goes on by what came of what was to be done.
    pub fn advance(&mut self, ctx: &FlowEmitContext, reply: Reply)
        requires
            ctx.wf(),
            run_wf(*ctx, old(self)@),
            answers(old(self)@, reply@),
        ensures
            final(self)@ == advanced(*ctx, old(self)@, reply@),
            run_wf(*ctx, final(self)@),
    {
        match self.stage {
            Stage::Running => match reply {
                Reply::Done => {
                    self.done_in_flow(ctx);
                },
                Reply::Fault(error) => {
                    self.fault_in_flow(ctx, error);
                },
                Reply::Failure(found) => match self.top().position {
                    Position::Sandbox { phase } => {
                        self.pending = Pending::Failure(found);
                        self.place(Position::StepEnd { phase, step: 0, closing: true });
                    },
                    Position::Tool { phase, tool } => {
                        self.pending = Pending::Failure(found);
                        self.place(Position::ToolFailed { phase, tool });
                    },
                    _ => {},
                },
            },
            Stage::Opening => match reply {
                Reply::Fault(error) => {
                    self.pending = Pending::Error(error);
                    self.stage = Stage::Aborted;
                },
                _ => {
                    self.emit_flow_block(ctx);
                },
            },
            Stage::Completing => match reply {
                Reply::Fault(error) => {
                    self.pending = Pending::Error(error);
                    self.stage = Stage::Aborted;
                },
                _ => {
                    self.stage = Stage::Completed;
                },
            },
            Stage::Failing => match reply {
                Reply::Fault(error) => {
                    self.pending = Pending::Error(error);
                    self.stage = Stage::Aborted;
                },
                _ => {
                    self.stage = Stage::Failed;
                },
            },
            _ => {},
        }
    }
}

/// An error that ends no session by an event ends the run at once, whatever flows are
/// under way: the run then asks for nothing more, and the error is what it reports.
pub proof fn lemma_error_unwinds(ctx: FlowEmitContext, run: RunModel, error: ErrorModel)
    requires
        stacked(ctx, run),
        run.frames.len() > 0,
        run.pending == PendingModel::Error(error),
        !ctx.terminal(error),
    ensures
        end_frame(ctx, run).stage == Stage::Aborted,
        end_frame(ctx, run).pending == PendingModel::Error(error),
        end_frame(ctx, run).frames.len() == 0,
        end_frame(ctx, run).invocations == run.invocations,
    decreases run.frames.len(),
{
    if run.frames.len() > 1 {
        let below = RunModel { frames: run.frames.drop_last(), ..run };
        assert(below.top() == run.frames[run.frames.len() - 2]);
        assert(below.with(PendingModel::Error(error)) == below);
        lemma_error_unwinds(ctx, below, error);
    }
}

/// A failing event writer ends a run: after its error nothing is emitted any more,
/// but for an error that a tool met while errors end the session, which is first
/// reported as that tool's.
pub proof fn law_writer_error_ends_run(ctx: FlowEmitContext, run: RunModel, words: Seq<char>)
    requires
        run_wf(ctx, run),
        run.stage != Stage::Completed,
        run.stage != Stage::Failed,
        run.stage != Stage::Aborted,
        answers(run, ReplyModel::Fault(ErrorModel::EventWriter(words))),
        !(run.stage == Stage::Running && run.top().position is Tool),
    ensures
        advanced(ctx, run, ReplyModel::Fault(ErrorModel::EventWriter(words))).stage
            == Stage::Aborted,
        advanced(ctx, run, ReplyModel::Fault(ErrorModel::EventWriter(words))).pending
            == PendingModel::Error(ErrorModel::EventWriter(words)),
{
    let error = ErrorModel::EventWriter(words);
    if run.stage == Stage::Running {
        lemma_error_unwinds(ctx, run.with(PendingModel::Error(error)), error);
    }
}

/// A run that has ended stays as it is.
pub proof fn law_ended_run_stays(ctx: FlowEmitContext, run: RunModel, reply: ReplyModel)
    requires
        run.stage == Stage::Completed || run.stage == Stage::Failed || run.stage == Stage::Aborted,
    ensures
        advanced(ctx, run, reply) == run,
{
}

/// A failure of a phase is reported in its flow only once the step in which it was
/// found has been completed.
pub proof fn law_step_completed_before_failure(ctx: FlowEmitContext, run: RunModel, reply: ReplyModel)
    requires
        ctx.wf(),
        run_wf(ctx, run),
        run.stage == Stage::Running,
        answers(run, reply),
        !(run.top().position is ReportFailure),
        advanced(ctx, run, reply).frames.len() > 0,
        advanced(ctx, run, reply).top().position is ReportFailure,
    ensures
        reply is Done,
        run.top().position matches Position::StepEnd { closing, .. } && closing,
{
    assert forall|error: ErrorModel|
        !reports_failure(#[trigger] end_frame(ctx, run.with(PendingModel::Error(error)))) by {
        lemma_end_frame_reports_none(ctx, run.with(PendingModel::Error(error)));
    }
    lemma_end_frame_reports_none(ctx, run);
    lemma_subflow_reports_none(ctx, run, 0);
}

/// Whether a run is about to report a failure of a phase.
spec fn reports_failure(run: RunModel) -> bool {
    run.frames.len() > 0 && run.top().position is ReportFailure
}

proof fn lemma_end_frame_reports_none(ctx: FlowEmitContext, run: RunModel)
    requires
        stacked(ctx, run),
        run.frames.len() > 0,
    ensures
        !reports_failure(end_frame(ctx, run)),
    decreases run.frames.len(), 0nat,
{
    if run.frames.len() > 1 {
        let below = RunModel { frames: run.frames.drop_last(), ..run };
        assert(below.top() == run.frames[run.frames.len() - 2]);
        match run.frames[run.frames.len() - 2].position {
            Position::Waiting { subflow } => match run.pending {
                PendingModel::Nothing => {
                    lemma_subflow_reports_none(ctx, below, subflow + 1);
                },
                PendingModel::Failure(_) => {},
                PendingModel::Error(error) => {
                    lemma_below_reports_none(ctx, below, error);
                },
            },
            _ => {},
        }
    }
}

proof fn lemma_below_reports_none(ctx: FlowEmitContext, run: RunModel, error: ErrorModel)
    requires
        stacked(ctx, run),
        run.frames.len() > 0,
    ensures
        !reports_failure(below_failed(ctx, run, error)),
    decreases run.frames.len(), 1nat,
{
    let failed = run.with(PendingModel::Error(error));
    if !ctx.terminal(error) {
        lemma_end_frame_reports_none(ctx, failed);
    }
}

proof fn lemma_subflow_reports_none(ctx: FlowEmitContext, run: RunModel, subflow: int)
    requires
        stacked(ctx, run),
        run.frames.len() > 0,
    ensures
        !reports_failure(begin_subflow(ctx, run, subflow)),
    decreases run.frames.len(), 2nat,
{
    let block = block_of(ctx, run.top());
    if run.frames.len() > 0 && subflow < block.subflow_refs@.len() {
        let reference = block.subflow_refs@[subflow]@;
        match ctx.registry.flow_at(reference) {
            None => {
                lemma_end_frame_reports_none(
                    ctx,
                    run.with(PendingModel::Error(registry::missing_failure("flow"@, reference, None)->0)),
                );
            },
            Some(flow) => {
                let waiting = run.at(Position::Waiting { subflow: subflow as usize });
                match start_failure(ctx, run.invocations, flow, run.frames.len() + 1) {
                    Some(error) => {
                        lemma_below_reports_none(ctx, waiting, error);
                    },
                    None => {},
                }
            },
        }
    }
}

/// A failure that was reported in a flow is then reported in each flow above it, and
/// at last fails the session; on the way it stays as it was.
pub proof fn law_failure_reaches_session(ctx: FlowEmitContext, run: RunModel)
    requires
        run_wf(ctx, run),
        run.stage == Stage::Running,
        run.top().position is ReportFailure || run.top().position is ReportError
            || run.top().position is ReportFlow,
    ensures
        ({
            let next = advanced(ctx, run, ReplyModel::Done);
            &&& next.pending == run.pending
            &&& if run.frames.len() == 1 {
                next.stage == Stage::Failing
            } else {
                &&& next.frames.len() == run.frames.len() - 1
                &&& next.stage == Stage::Running
                &&& next.top().position is ReportFlow
            }
        }),
{
    if run.frames.len() > 1 {
        let below = RunModel { frames: run.frames.drop_last(), ..run };
        assert(below.top() == run.frames[run.frames.len() - 2]);
    }
}

/// What is to be done next. A flow, a phase and a tool are given by their places in
/// the registry, a step by its place in the phase.
#[derive(Clone, Copy, Debug, PartialEq, Eq, Structural)]
pub enum EngineAction {
    StartSession,
    AcquireSlot,
    StartFlow { flow: usize },
    EnterPhase { phase: usize },
    StartStep { phase: usize, step: usize },
    CheckSandbox { phase: usize },
    CompileContext { phase: usize, step: usize },
    EmitMessageDelta,
    CompleteMessage,
    RunTool { phase: usize, tool: usize },
    ReportToolFailure { tool: usize },
    CompleteStep { phase: usize, step: usize },
    ReportFailure { flow: usize },
    ReportError { flow: usize },
    ReportFlowFailure { flow: usize },
    CompleteFlow { flow: usize },
    CompleteSession,
    FailSession,
    Finished,
}

/// What is to be done next in the topmost flow.
pub open spec fn action_in_flow(ctx: FlowEmitContext, frame: Frame) -> EngineAction {
    let flow = frame.flow;
    match frame.position {
        Position::Acquire => EngineAction::AcquireSlot,
        Position::Started => EngineAction::StartFlow { flow },
        Position::Entered { phase } => EngineAction::EnterPhase {
            phase: phase_of(ctx, frame, phase as int)->0 as usize,
        },
        Position::StepStarted { phase, step } => EngineAction::StartStep {
            phase: phase_of(ctx, frame, phase as int)->0 as usize,
            step,
        },
        Position::Sandbox { phase } => EngineAction::CheckSandbox {
            phase: phase_of(ctx, frame, phase as int)->0 as usize,
        },
        Position::Context { phase, step } => EngineAction::CompileContext {
            phase: phase_of(ctx, frame, phase as int)->0 as usize,
            step,
        },
        Position::Delta { .. } => EngineAction::EmitMessageDelta,
        Position::Message { .. } => EngineAction::CompleteMessage,
        Position::Tool { phase, tool } => EngineAction::RunTool {
            phase: phase_of(ctx, frame, phase as int)->0 as usize,
            tool: tool_of(ctx, frame, phase as int, tool as int),
        },
        Position::ToolFailed { phase, tool } => EngineAction::ReportToolFailure {
            tool: tool_of(ctx, frame, phase as int, tool as int),
        },
        Position::StepEnd { phase, step, .. } => EngineAction::CompleteStep {
            phase: phase_of(ctx, frame, phase as int)->0 as usize,
            step,
        },
        Position::ReportFailure => EngineAction::ReportFailure { flow },
        Position::ReportError => EngineAction::ReportError { flow },
        Position::ReportFlow => EngineAction::ReportFlowFailure { flow },
        Position::Completed => EngineAction::CompleteFlow { flow },
        Position::Waiting { .. } => EngineAction::Finished,
    }
}

/// Which tool stands at a place of a phase; the number of tools where none does.
pub open spec fn tool_of(ctx: FlowEmitContext, frame: Frame, phase: int, tool: int) -> usize {
    match ctx.registry.tool_at(phase_block_of(ctx, frame, phase).tool_refs@[tool]@) {
        Some(index) => index as usize,
        None => ctx.registry.tools.len(),
    }
}

/// What is to be done next.
pub open spec fn next_action(ctx: FlowEmitContext, run: RunModel) -> EngineAction {
    match run.stage {
        Stage::Opening => EngineAction::StartSession,
        Stage::Running => action_in_flow(ctx, run.top()),
        Stage::Completing => EngineAction::CompleteSession,
        Stage::Failing => EngineAction::FailSession,
        Stage::Completed | Stage::Failed | Stage::Aborted => EngineAction::Finished,
    }
}

impl FlowRun {
    fn tool_index(ctx: &FlowEmitContext, frame: Frame, phase: usize, tool: usize) -> (index: usize)
        requires
            ctx.wf(),
            frame.flow < ctx.registry.flows@.len(),
            phase_fits(*ctx, frame, phase),
            tool < phase_block_of(*ctx, frame, phase as int).tool_refs.len(),
        ensures
            index == tool_of(*ctx, frame, phase as int, tool as int),
    {
        let block = &ctx.registry.phases[Self::phase_index(ctx, frame, phase)];
        match find_text(&ctx.registry.tool_refs, block.tool_refs[tool].as_str()) {
            Some(index) => index,
            None => ctx.registry.tools.len(),
        }
    }

    /// What is to be done next.
    pub fn action(&self, ctx: &FlowEmitContext) -> (action: EngineAction)
        requires
            ctx.wf(),
            run_wf(*ctx, self@),
        ensures
            action == next_action(*ctx, self@),
    {
        match self.stage {
            Stage::Opening => EngineAction::StartSession,
            Stage::Running => {
                let frame = self.top();
                let flow = frame.flow;
                match frame.position {
                    Position::Acquire => EngineAction::AcquireSlot,
                    Position::Started => EngineAction::StartFlow { flow },
                    Position::Entered { phase } => EngineAction::EnterPhase {
                        phase: Self::phase_index(ctx, frame, phase),
                    },
                    Position::StepStarted { phase, step } => EngineAction::StartStep {
                        phase: Self::phase_index(ctx, frame, phase),
                        step,
                    },
                    Position::Sandbox { phase } => EngineAction::CheckSandbox {
                        phase: Self::phase_index(ctx, frame, phase),
                    },
                    Position::Context { phase, step } => EngineAction::CompileContext {
                        phase: Self::phase_index(ctx, frame, phase),
                        step,
                    },
                    Position::Delta { .. } => EngineAction::EmitMessageDelta,
                    Position::Message { .. } => EngineAction::CompleteMessage,
                    Position::Tool { phase, tool } => EngineAction::RunTool {
                        phase: Self::phase_index(ctx, frame, phase),
                        tool: Self::tool_index(ctx, frame, phase, tool),
                    },
                    Position::ToolFailed { phase, tool } => EngineAction::ReportToolFailure {
                        tool: Self::tool_index(ctx, frame, phase, tool),
                    },
                    Position::StepEnd { phase, step, .. } => EngineAction::CompleteStep {
                        phase: Self::phase_index(ctx, frame, phase),
                        step,
                    },
                    Position::ReportFailure => EngineAction::ReportFailure { flow },
                    Position::ReportError => EngineAction::ReportError { flow },
                    Position::ReportFlow => EngineAction::ReportFlowFailure { flow },
                    Position::Completed => EngineAction::CompleteFlow { flow },
                    Position::Waiting { .. } => EngineAction::Finished,
                }
            },
            Stage::Completing => EngineAction::CompleteSession,
            Stage::Failing => EngineAction::FailSession,
            Stage::Completed | Stage::Failed | Stage::Aborted => EngineAction::Finished,
        }
    }

    /// How many places for live invocations the flows under way take up.
    pub fn live_slots(&self) -> (slots: usize)
        ensures
            slots == slots_of(self.frames@),
    {
        let mut slots: usize = 0;
        let mut i: usize = 0;
        assert(self.frames@.take(0) =~= Seq::<Frame>::empty());
        while i < self.frames.len()
            invariant
                i <= self.frames.len(),
                slots <= i,
                slots == slots_of(self.frames@.take(i as int)),
            decreases self.frames.len() - i,
        {
            let ghost head = self.frames@.take(i + 1);
            assert(head.drop_last() =~= self.frames@.take(i as int));
            assert(head.last() == self.frames@[i as int]);
            let frame = self.frames[i];
            let held = match frame.position {
                Position::Acquire => false,
                _ => frame.occupies,
            };
            if held {
                slots = slots + 1;
            }
            i = i + 1;
        }
        assert(self.frames@.take(i as int) =~= self.frames@);
        slots
    }
}

/// How many flows hold a place: those that take one up and have got it.
pub open spec fn slots_of(frames: Seq<Frame>) -> nat
    decreases frames.len(),
{
    if frames.len() == 0 {
        0
    } else {
        let frame = frames.last();
        slots_of(frames.drop_last()) + (if frame.occupies && !(frame.position is Acquire) {
            1nat
        } else {
            0nat
        })
    }
}

/// A run never holds more places than flows may nest, and when it has ended it holds
/// none.
pub proof fn law_slots_bounded(ctx: FlowEmitContext, run: RunModel)
    requires
        run_wf(ctx, run),
    ensures
        slots_of(run.frames) <= ctx.limits.max_nesting_depth,
        run.stage != Stage::Running ==> slots_of(run.frames) == 0,
{
    lemma_slots_at_most_frames(run.frames);
}

proof fn lemma_slots_at_most_frames(frames: Seq<Frame>)
    ensures
        slots_of(frames) <= frames.len(),
    decreases frames.len(),
{
    if frames.len() > 0 {
        lemma_slots_at_most_frames(frames.drop_last());
    }
}

} // verus!

//! The course of an execution as a whole: which actions follow which when they are done, and
//! what a failure leads to.

use crate::engine::events;
use crate::engine::preflight;
use crate::engine::registry::PhaseBlock;
use crate::engine::registry;
use crate::engine::run::{
    EngineAction, FailureModel, FlowEmitContext, Frame, PendingModel, Position, ReplyModel, RunModel,
    Stage,
};
use crate::engine::run;
use crate::error::ErrorModel;
use crate::text;
use vstd::prelude::*;

verus! {

/// The run when so many actions were done, one behind the other.
#[verifier::opaque]
pub open spec fn done(ctx: FlowEmitContext, run: RunModel, count: nat) -> RunModel
    decreases count,
{
    if count == 0 {
        run
    } else {
        run::advanced(ctx, done(ctx, run, (count - 1) as nat), ReplyModel::Done)
    }
}

/// Whether a run works on a flow of the registry, at a position, with nothing gone wrong.
pub open spec fn works_at(ctx: FlowEmitContext, run: RunModel, position: Position) -> bool {
    &&& ctx.wf()
    &&& run::run_wf(ctx, run)
    &&& run.stage == Stage::Running
    &&& run.frames.last().position == position
}

proof fn lemma_done_adds(ctx: FlowEmitContext, run: RunModel, first: nat, second: nat)
    ensures
        done(ctx, run, first + second) == done(ctx, done(ctx, run, first), second),
    decreases second,
{
    reveal(done);
    if second > 0 {
        lemma_done_adds(ctx, run, first, (second - 1) as nat);
        assert((first + second - 1) as nat == first + (second - 1) as nat);
    }
}

proof fn lemma_one_more(ctx: FlowEmitContext, run: RunModel, count: nat)
    ensures
        done(ctx, run, 0) == run,
        done(ctx, run, count + 1) == run::advanced(ctx, done(ctx, run, count), ReplyModel::Done),
{
    reveal(done);
}

proof fn lemma_moved_again(run: RunModel, first: Position, second: Position)
    requires
        run.frames.len() > 0,
    ensures
        run.at(first).at(second) == run.at(second),
        run.at(first).top() == (Frame { position: first, ..run.top() }),
        run.at(first).frames.len() == run.frames.len(),
        run.at(first).stage == run.stage,
{
    assert(run.at(first).at(second).frames =~= run.at(second).frames);
}

proof fn lemma_reference(references: Seq<String>, reference: Seq<char>)
    ensures
        registry::text_position(text::texts_view(references), reference) matches Some(index)
            ==> 0 <= index < references.len() && references[index]@ == reference,
{
    registry::lemma_text_position_bounds(text::texts_view(references), reference);
}

/// What a phase comes to in its first step when the sandbox was checked.
spec fn first_use(phase: usize, block: PhaseBlock) -> Position {
    if block.tool_refs@.len() == 0 {
        Position::StepEnd { phase, step: 0, closing: false }
    } else {
        Position::Tool { phase, tool: 0 }
    }
}

/// Whether every tool of a phase may be used.
spec fn usable(ctx: FlowEmitContext, block: PhaseBlock) -> bool {
    forall|t: int|
        0 <= t < block.tool_refs@.len() ==> preflight::tool_use_failure(
            ctx.registry,
            ctx.policy,
            block,
            (#[trigger] block.tool_refs@[t])@,
        ) is None
}

/// Whether a run stands in a phase that is given by its block.
spec fn in_phase(ctx: FlowEmitContext, run: RunModel, phase: usize, block: PhaseBlock) -> bool {
    &&& run.stage == Stage::Running
    &&& run.frames.len() > 0
    &&& block == run::phase_block_of(ctx, run.top(), phase as int)
}

#[verifier::spinoff_prover]
proof fn lemma_first_use(ctx: FlowEmitContext, run: RunModel, phase: usize, block: PhaseBlock)
    requires
        in_phase(ctx, run, phase, block),
        usable(ctx, block),
    ensures
        run::begin_tool(ctx, run, phase as int, 0) == run.at(first_use(phase, block)),
{
    if block.tool_refs@.len() > 0 {
        assert(preflight::tool_use_failure(ctx.registry, ctx.policy, block, block.tool_refs@[0]@)
            is None);
    }
}

#[verifier::spinoff_prover]
proof fn lemma_step_starts(ctx: FlowEmitContext, run: RunModel, phase: usize, block: PhaseBlock)
    requires
        in_phase(ctx, run, phase, block),
        run.top().position == (Position::Entered { phase }),
        block.steps@.len() > 0,
        registry::step_failure(ctx.registry, block.steps@[0]) is None,
    ensures
        run::advanced(ctx, run, ReplyModel::Done) == run.at(
            Position::StepStarted { phase, step: 0 },
        ),
        run::advanced(
            ctx,
            run.at(Position::StepStarted { phase, step: 0 }),
            ReplyModel::Done,
        ) == run.at(Position::Sandbox { phase }),
{
    lemma_moved_again(
        run,
        Position::StepStarted { phase, step: 0 },
        Position::Sandbox { phase },
    );
}

#[verifier::spinoff_prover]
proof fn lemma_sandbox_is_left(ctx: FlowEmitContext, run: RunModel, phase: usize, block: PhaseBlock)
    requires
        in_phase(ctx, run, phase, block),
        usable(ctx, block),
    ensures
        run::advanced(ctx, run.at(Position::Sandbox { phase }), ReplyModel::Done) == run.at(
            if block.instruction_refs@.len() > 0 {
                Position::Context { phase, step: 0 }
            } else {
                first_use(phase, block)
            },
        ),
{
    let here = Position::Sandbox { phase };
    lemma_moved_again(run, here, Position::Context { phase, step: 0 });
    lemma_moved_again(run, here, first_use(phase, block));
    lemma_first_use(ctx, run.at(here), phase, block);
}

#[verifier::spinoff_prover]
proof fn lemma_model_is_asked(ctx: FlowEmitContext, run: RunModel, phase: usize, step: usize)
    requires
        run.stage == Stage::Running,
        run.frames.len() > 0,
    ensures
        run::advanced(ctx, run.at(Position::Context { phase, step }), ReplyModel::Done) == run.at(
            Position::Delta { phase, step },
        ),
        run::advanced(ctx, run.at(Position::Delta { phase, step }), ReplyModel::Done) == run.at(
            Position::Message { phase, step },
        ),
{
    let context = Position::Context { phase, step };
    let delta = Position::Delta { phase, step };
    lemma_moved_again(run, context, delta);
    lemma_moved_again(run, delta, Position::Message { phase, step });
}

#[verifier::spinoff_prover]
proof fn lemma_message_is_left(ctx: FlowEmitContext, run: RunModel, phase: usize, block: PhaseBlock)
    requires
        in_phase(ctx, run, phase, block),
        usable(ctx, block),
    ensures
        run::advanced(ctx, run.at(Position::Message { phase, step: 0 }), ReplyModel::Done)
            == run.at(first_use(phase, block)),
{
    let here = Position::Message { phase, step: 0 };
    lemma_moved_again(run, here, first_use(phase, block));
    lemma_first_use(ctx, run.at(here), phase, block);
}

#[verifier::spinoff_prover]
proof fn lemma_tool_is_left(
    ctx: FlowEmitContext,
    run: RunModel,
    phase: usize,
    block: PhaseBlock,
    tool: usize,
)
    requires
        in_phase(ctx, run, phase, block),
        usable(ctx, block),
        tool < block.tool_refs@.len(),
    ensures
        run::advanced(ctx, run.at(Position::Tool { phase, tool }), ReplyModel::Done) == run.at(
            if tool + 1 < block.tool_refs@.len() {
                Position::Tool { phase, tool: (tool + 1) as usize }
            } else {
                Position::StepEnd { phase, step: 0, closing: false }
            },
        ),
{
    assert(block.tool_refs.len() == block.tool_refs@.len());
    let here = Position::Tool { phase, tool };
    lemma_moved_again(run, here, Position::Tool { phase, tool: (tool + 1) as usize });
    lemma_moved_again(run, here, Position::StepEnd { phase, step: 0, closing: false });
    if tool + 1 < block.tool_refs@.len() {
        assert(preflight::tool_use_failure(
            ctx.registry,
            ctx.policy,
            block,
            block.tool_refs@[tool + 1]@,
        ) is None);
    }
}

/// The position behind so many tools of a phase.
spec fn behind_tools(phase: usize, block: PhaseBlock, count: nat) -> Position {
    if count < block.tool_refs@.len() {
        Position::Tool { phase, tool: count as usize }
    } else {
        Position::StepEnd { phase, step: 0, closing: false }
    }
}

proof fn lemma_tools_are_run(
    ctx: FlowEmitContext,
    run: RunModel,
    phase: usize,
    block: PhaseBlock,
    count: nat,
)
    requires
        in_phase(ctx, run, phase, block),
        usable(ctx, block),
        count <= block.tool_refs@.len(),
    ensures
        done(ctx, run.at(first_use(phase, block)), count) == run.at(
            behind_tools(phase, block, count),
        ),
    decreases count,
{
    assert(block.tool_refs.len() == block.tool_refs@.len());
    let start = run.at(first_use(phase, block));
    if count > 0 {
        let before = (count - 1) as nat;
        lemma_tools_are_run(ctx, run, phase, block, before);
        lemma_tool_is_left(ctx, run, phase, block, before as usize);
        lemma_one_more(ctx, start, before);
    } else {
        lemma_one_more(ctx, start, 0);
    }
}

/// The place where the tools of a phase begin, counted in actions from where it is entered.
spec fn first_place(block: PhaseBlock) -> nat {
    if block.instruction_refs@.len() > 0 {
        6
    } else {
        3
    }
}

proof fn lemma_first_step(ctx: FlowEmitContext, run: RunModel, phase: usize, block: PhaseBlock)
    requires
        in_phase(ctx, run, phase, block),
        run.top().position == (Position::Entered { phase }),
        block.steps@.len() > 0,
        registry::step_failure(ctx.registry, block.steps@[0]) is None,
        usable(ctx, block),
    ensures
        done(ctx, run, 1) == run.at(Position::StepStarted { phase, step: 0 }),
        done(ctx, run, 2) == run.at(Position::Sandbox { phase }),
        block.instruction_refs@.len() > 0 ==> {
            &&& done(ctx, run, 3) == run.at(Position::Context { phase, step: 0 })
            &&& done(ctx, run, 4) == run.at(Position::Delta { phase, step: 0 })
            &&& done(ctx, run, 5) == run.at(Position::Message { phase, step: 0 })
        },
        done(ctx, run, first_place(block)) == run.at(first_use(phase, block)),
{
    lemma_one_more(ctx, run, 0);
    lemma_one_more(ctx, run, 1);
    lemma_one_more(ctx, run, 2);
    lemma_step_starts(ctx, run, phase, block);
    lemma_sandbox_is_left(ctx, run, phase, block);
    if block.instruction_refs@.len() > 0 {
        lemma_one_more(ctx, run, 3);
        lemma_one_more(ctx, run, 4);
        lemma_one_more(ctx, run, 5);
        lemma_model_is_asked(ctx, run, phase, 0);
        lemma_message_is_left(ctx, run, phase, block);
    }
}

proof fn lemma_action_at(ctx: FlowEmitContext, run: RunModel, position: Position)
    requires
        run.stage == Stage::Running,
        run.frames.len() > 0,
    ensures
        run::next_action(ctx, run.at(position)) == run::action_in_flow(
            ctx,
            Frame { position, ..run.top() },
        ),
{
}

proof fn lemma_tool_action(
    ctx: FlowEmitContext,
    run: RunModel,
    phase: usize,
    index: usize,
    block: PhaseBlock,
    t: int,
)
    requires
        ctx.registry.wf(),
        in_phase(ctx, run, phase, block),
        run::phase_of(ctx, run.top(), phase as int) == Some(index as int),
        run.top().position == (Position::Entered { phase }),
        block.steps@.len() > 0,
        registry::step_failure(ctx.registry, block.steps@[0]) is None,
        usable(ctx, block),
        0 <= t < block.tool_refs@.len(),
    ensures
        run::next_action(ctx, done(ctx, run, (first_place(block) + t) as nat)) matches EngineAction::RunTool {
            phase: used,
            tool,
        } && used == index && tool < ctx.registry.tools@.len() && ctx.registry.tool_refs@[tool as int]@
            == block.tool_refs@[t]@,
{
    assert(block.tool_refs.len() == block.tool_refs@.len());
    assert(ctx.registry.tools.len() == ctx.registry.tools@.len());
    let first = first_place(block);
    lemma_first_step(ctx, run, phase, block);
    lemma_tools_are_run(ctx, run, phase, block, t as nat);
    lemma_done_adds(ctx, run, first, t as nat);
    assert((first + t) as nat == first + t as nat);
    lemma_action_at(ctx, run, Position::Tool { phase, tool: t as usize });
    assert(preflight::tool_use_failure(ctx.registry, ctx.policy, block, block.tool_refs@[t]@)
        is None);
    lemma_reference(ctx.registry.tool_refs@, block.tool_refs@[t]@);
}

/// When every action is answered as done, a phase that is entered takes its first step,
/// checks the sandbox, asks the model where it has instructions, runs every tool that it
/// names, one action for each reference and in their order, and completes the step only
/// behind the last of them.
#[verifier::spinoff_prover]
pub proof fn law_phase_runs_every_tool(
    ctx: FlowEmitContext,
    run: RunModel,
    phase: usize,
    index: usize,
)
    requires
        works_at(ctx, run, Position::Entered { phase }),
        run::next_action(ctx, run) == (EngineAction::EnterPhase { phase: index }),
        ctx.registry.phases@[index as int].steps@.len() > 0,
        registry::step_failure(ctx.registry, ctx.registry.phases@[index as int].steps@[0]) is None,
        forall|t: int|
            0 <= t < ctx.registry.phases@[index as int].tool_refs@.len()
                ==> preflight::tool_use_failure(
                ctx.registry,
                ctx.policy,
                ctx.registry.phases@[index as int],
                (#[trigger] ctx.registry.phases@[index as int].tool_refs@[t])@,
            ) is None,
    ensures
        ({
            let block = ctx.registry.phases@[index as int];
            let asked = block.instruction_refs@.len() > 0;
            let first: nat = if asked {
                6
            } else {
                3
            };
            &&& index < ctx.registry.phases@.len()
            &&& ctx.registry.phase_refs@[index as int]@
                == ctx.registry.flows@[run.frames.last().flow as int].phase_refs@[phase as int]@
            &&& run::next_action(ctx, done(ctx, run, 1)) == (EngineAction::StartStep {
                phase: index,
                step: 0,
            })
            &&& run::next_action(ctx, done(ctx, run, 2)) == (EngineAction::CheckSandbox {
                phase: index,
            })
            &&& asked ==> {
                &&& run::next_action(ctx, done(ctx, run, 3)) == (EngineAction::CompileContext {
                    phase: index,
                    step: 0,
                })
                &&& run::next_action(ctx, done(ctx, run, 4)) == EngineAction::EmitMessageDelta
                &&& run::next_action(ctx, done(ctx, run, 5)) == EngineAction::CompleteMessage
            }
            &&& forall|t: int|
                0 <= t < block.tool_refs@.len() ==> {
                    &&& run::next_action(ctx, #[trigger] done(ctx, run, (first + t) as nat)) matches EngineAction::RunTool {
                        phase: used,
                        tool,
                    }
                    &&& used == index
                    &&& tool < ctx.registry.tools@.len()
                    &&& ctx.registry.tool_refs@[tool as int]@ == block.tool_refs@[t]@
                }
            &&& run::next_action(ctx, done(ctx, run, first + block.tool_refs@.len()))
                == (EngineAction::CompleteStep { phase: index, step: 0 })
        }),
{
    let block = ctx.registry.phases@[index as int];
    lemma_entered(ctx, run, phase, index);
    lemma_first_step(ctx, run, phase, block);
    lemma_action_at(ctx, run, Position::StepStarted { phase, step: 0 });
    lemma_action_at(ctx, run, Position::Sandbox { phase });
    lemma_action_at(ctx, run, Position::Context { phase, step: 0 });
    lemma_action_at(ctx, run, Position::Delta { phase, step: 0 });
    lemma_action_at(ctx, run, Position::Message { phase, step: 0 });
    let first = first_place(block);
    assert forall|t: int| 0 <= t < block.tool_refs@.len() implies {
        &&& run::next_action(ctx, #[trigger] done(ctx, run, (first + t) as nat)) matches EngineAction::RunTool {
            phase: used,
            tool,
        }
        &&& used == index
        &&& tool < ctx.registry.tools@.len()
        &&& ctx.registry.tool_refs@[tool as int]@ == block.tool_refs@[t]@
    } by {
        lemma_tool_action(ctx, run, phase, index, block, t);
    }
    lemma_tools_are_run(ctx, run, phase, block, block.tool_refs@.len());
    lemma_done_adds(ctx, run, first, block.tool_refs@.len());
    lemma_action_at(ctx, run, Position::StepEnd { phase, step: 0, closing: false });
}

proof fn lemma_entered(ctx: FlowEmitContext, run: RunModel, phase: usize, index: usize)
    requires
        works_at(ctx, run, Position::Entered { phase }),
        run::next_action(ctx, run) == (EngineAction::EnterPhase { phase: index }),
    ensures
        index < ctx.registry.phases@.len(),
        in_phase(ctx, run, phase, ctx.registry.phases@[index as int]),
        run::phase_of(ctx, run.top(), phase as int) == Some(index as int),
        run.top().position == (Position::Entered { phase }),
        ctx.registry.phase_refs@[index as int]@
            == ctx.registry.flows@[run.frames.last().flow as int].phase_refs@[phase as int]@,
{
    let reference = ctx.registry.flows@[run.top().flow as int].phase_refs@[phase as int]@;
    assert(ctx.registry.phases.len() == ctx.registry.phases@.len());
    lemma_reference(ctx.registry.phase_refs@, reference);
}

/// A step behind the first asks the model where the phase has instructions, and is
/// completed; it runs no tool.
#[verifier::spinoff_prover]
pub proof fn law_later_step_asks_the_model(
    ctx: FlowEmitContext,
    run: RunModel,
    phase: usize,
    step: usize,
    index: usize,
)
    requires
        works_at(ctx, run, Position::StepStarted { phase, step }),
        step > 0,
        run::next_action(ctx, run) == (EngineAction::StartStep { phase: index, step }),
    ensures
        if ctx.registry.phases@[index as int].instruction_refs@.len() > 0 {
            &&& run::next_action(ctx, done(ctx, run, 1)) == (EngineAction::CompileContext {
                phase: index,
                step,
            })
            &&& run::next_action(ctx, done(ctx, run, 2)) == EngineAction::EmitMessageDelta
            &&& run::next_action(ctx, done(ctx, run, 3)) == EngineAction::CompleteMessage
            &&& run::next_action(ctx, done(ctx, run, 4)) == (EngineAction::CompleteStep {
                phase: index,
                step,
            })
        } else {
            run::next_action(ctx, done(ctx, run, 1)) == (EngineAction::CompleteStep {
                phase: index,
                step,
            })
        },
{
    lemma_stands_in_phase(ctx, run, phase, index);
    lemma_later_step(ctx, run, phase, step, ctx.registry.phases@[index as int]);
    lemma_action_at(ctx, run, Position::Context { phase, step });
    lemma_action_at(ctx, run, Position::Delta { phase, step });
    lemma_action_at(ctx, run, Position::Message { phase, step });
    lemma_action_at(ctx, run, Position::StepEnd { phase, step, closing: false });
}

proof fn lemma_stands_in_phase(ctx: FlowEmitContext, run: RunModel, phase: usize, index: usize)
    requires
        ctx.wf(),
        run::run_wf(ctx, run),
        run.stage == Stage::Running,
        run::phase_fits(ctx, run.top(), phase),
        run::phase_of(ctx, run.top(), phase as int)->0 as usize == index,
    ensures
        index < ctx.registry.phases@.len(),
        in_phase(ctx, run, phase, ctx.registry.phases@[index as int]),
        run::phase_of(ctx, run.top(), phase as int) == Some(index as int),
{
    let reference = ctx.registry.flows@[run.top().flow as int].phase_refs@[phase as int]@;
    assert(ctx.registry.phases.len() == ctx.registry.phases@.len());
    lemma_reference(ctx.registry.phase_refs@, reference);
}

#[verifier::spinoff_prover]
proof fn lemma_later_step(
    ctx: FlowEmitContext,
    run: RunModel,
    phase: usize,
    step: usize,
    block: PhaseBlock,
)
    requires
        in_phase(ctx, run, phase, block),
        run.top().position == (Position::StepStarted { phase, step }),
        step > 0,
    ensures
        if block.instruction_refs@.len() > 0 {
            &&& done(ctx, run, 1) == run.at(Position::Context { phase, step })
            &&& done(ctx, run, 2) == run.at(Position::Delta { phase, step })
            &&& done(ctx, run, 3) == run.at(Position::Message { phase, step })
            &&& done(ctx, run, 4) == run.at(Position::StepEnd { phase, step, closing: false })
        } else {
            done(ctx, run, 1) == run.at(Position::StepEnd { phase, step, closing: false })
        },
{
    lemma_one_more(ctx, run, 0);
    if block.instruction_refs@.len() > 0 {
        lemma_one_more(ctx, run, 1);
        lemma_one_more(ctx, run, 2);
        lemma_one_more(ctx, run, 3);
        lemma_model_is_asked(ctx, run, phase, step);
        lemma_moved_again(
            run,
            Position::Message { phase, step },
            Position::StepEnd { phase, step, closing: false },
        );
    }
}

/// A phase takes all its steps in order, and behind the last the next phase of the flow is
/// entered: none is left out and none comes twice.
#[verifier::spinoff_prover]
pub proof fn law_steps_and_phases_follow(
    ctx: FlowEmitContext,
    run: RunModel,
    phase: usize,
    step: usize,
    index: usize,
)
    requires
        works_at(ctx, run, Position::StepEnd { phase, step, closing: false }),
        run::next_action(ctx, run) == (EngineAction::CompleteStep { phase: index, step }),
    ensures
        ({
            let block = ctx.registry.phases@[index as int];
            let flow = ctx.registry.flows@[run.frames.last().flow as int];
            let next = run::advanced(ctx, run, ReplyModel::Done);
            &&& step + 1 < block.steps@.len() && registry::step_failure(
                ctx.registry,
                block.steps@[step + 1],
            ) is None ==> run::next_action(ctx, next) == (EngineAction::StartStep {
                phase: index,
                step: (step + 1) as usize,
            })
            &&& step + 1 == block.steps@.len() && phase + 1 < flow.phase_refs@.len() ==> enters(
                ctx,
                next,
                flow.phase_refs@[phase + 1]@,
            )
        }),
{
    lemma_stands_in_phase(ctx, run, phase, index);
    let block = ctx.registry.phases@[index as int];
    let flow = ctx.registry.flows@[run.frames.last().flow as int];
    assert(block.steps.len() == block.steps@.len());
    assert(flow.phase_refs.len() == flow.phase_refs@.len());
    if step + 1 < block.steps@.len() && registry::step_failure(ctx.registry, block.steps@[step + 1])
        is None {
        lemma_action_at(ctx, run, Position::StepStarted { phase, step: (step + 1) as usize });
    }
    if step + 1 == block.steps@.len() && phase + 1 < flow.phase_refs@.len() {
        lemma_phase_begins(ctx, run, (phase + 1) as usize);
    }
}

/// Whether a run enters the phase that a reference names, where the registry knows it and
/// nothing is wrong with it.
pub open spec fn enters(ctx: FlowEmitContext, run: RunModel, reference: Seq<char>) -> bool {
    forall|p: int|
        0 <= p < ctx.registry.phases@.len() && (#[trigger] ctx.registry.phase_refs@[p])@ == reference
            && (forall|q: int| 0 <= q < p ==> (#[trigger] ctx.registry.phase_refs@[q])@ != reference)
            && registry::phase_failure(ctx.registry, ctx.registry.phases@[p]) is None
            ==> run::next_action(ctx, run) == (EngineAction::EnterPhase { phase: p as usize })
}

proof fn lemma_first_reference(references: Seq<String>, place: int)
    requires
        0 <= place < references.len(),
        forall|q: int| 0 <= q < place ==> (#[trigger] references[q])@ != references[place]@,
    ensures
        registry::text_position(text::texts_view(references), references[place]@) == Some(place),
{
    let all = text::texts_view(references);
    assert forall|q: int| 0 <= q < place implies #[trigger] all[q] != references[place]@ by {
        assert(all[q] == references[q]@);
    }
    registry::lemma_text_position(all, references[place]@, place);
}

#[verifier::spinoff_prover]
proof fn lemma_phase_begins(ctx: FlowEmitContext, run: RunModel, phase: usize)
    requires
        ctx.registry.wf(),
        run.stage == Stage::Running,
        run.frames.len() > 0,
        phase < ctx.registry.flows@[run.top().flow as int].phase_refs@.len(),
    ensures
        enters(
            ctx,
            run::begin_phase(ctx, run, phase as int),
            ctx.registry.flows@[run.top().flow as int].phase_refs@[phase as int]@,
        ),
{
    let reference = ctx.registry.flows@[run.top().flow as int].phase_refs@[phase as int]@;
    assert(ctx.registry.phases.len() == ctx.registry.phases@.len());
    assert forall|p: int|
        0 <= p < ctx.registry.phases@.len() && (#[trigger] ctx.registry.phase_refs@[p])@ == reference
            && (forall|q: int| 0 <= q < p ==> (#[trigger] ctx.registry.phase_refs@[q])@ != reference)
            && registry::phase_failure(ctx.registry, ctx.registry.phases@[p]) is None
            implies run::next_action(ctx, run::begin_phase(ctx, run, phase as int)) == (
    EngineAction::EnterPhase { phase: p as usize }) by {
        lemma_first_reference(ctx.registry.phase_refs@, p);
        lemma_action_at(ctx, run, Position::Entered { phase });
    }
}

/// A flow that is started enters its first phase, where it has one; a place that it takes
/// up is taken before it starts.
#[verifier::spinoff_prover]
pub proof fn law_flow_begins_with_its_first_phase(ctx: FlowEmitContext, run: RunModel)
    requires
        ctx.wf(),
        run::run_wf(ctx, run),
        run.stage == Stage::Running,
    ensures
        ({
            let flow = ctx.registry.flows@[run.frames.last().flow as int];
            let next = run::advanced(ctx, run, ReplyModel::Done);
            &&& run::next_action(ctx, run) == EngineAction::AcquireSlot ==> run::next_action(
                ctx,
                next,
            ) == (EngineAction::StartFlow { flow: run.frames.last().flow })
            &&& run::next_action(ctx, run) is StartFlow && flow.phase_refs@.len() > 0 ==> enters(
                ctx,
                next,
                flow.phase_refs@[0]@,
            )
        }),
{
    let flow = ctx.registry.flows@[run.frames.last().flow as int];
    assert(flow.phase_refs.len() == flow.phase_refs@.len());
    lemma_action_at(ctx, run, Position::Started);
    if flow.phase_refs@.len() > 0 {
        lemma_phase_begins(ctx, run, 0);
    }
}

/// Whether a run has begun with a flow that a reference names, below the flow that another
/// run worked on: the flow below waits for it, and it is numbered next.
pub open spec fn begins_below(
    ctx: FlowEmitContext,
    waiting: Seq<Frame>,
    invocations: u64,
    run: RunModel,
    subflow: int,
    reference: Seq<char>,
) -> bool {
    forall|f: int|
        0 <= f < ctx.registry.flows@.len() && (#[trigger] ctx.registry.flow_refs@[f])@ == reference && (
        forall|q: int| 0 <= q < f ==> (#[trigger] ctx.registry.flow_refs@[q])@ != reference)
            && waiting.len() < ctx.limits.max_nesting_depth && invocations
            < ctx.limits.max_invocations ==> {
            let top = run.frames.last();
            &&& run.stage == Stage::Running
            &&& run.pending is Nothing
            &&& run.frames.len() == waiting.len() + 1
            &&& run.frames.drop_last().drop_last() == waiting.drop_last()
            &&& run.frames[waiting.len() - 1] == (Frame {
                position: Position::Waiting { subflow: subflow as usize },
                ..waiting.last()
            })
            &&& top.flow == f
            &&& top.parent == Some(waiting.last().invocation)
            &&& top.invocation == invocations + 1
            &&& run.invocations == invocations + 1
            &&& run::next_action(ctx, run) == (if top.occupies {
                EngineAction::AcquireSlot
            } else {
                EngineAction::StartFlow { flow: f as usize }
            })
        }
}

#[verifier::spinoff_prover]
proof fn lemma_subflow_begins(ctx: FlowEmitContext, run: RunModel, subflow: usize)
    requires
        ctx.wf(),
        run.stage == Stage::Running,
        run.pending is Nothing,
        run.frames.len() > 0,
        subflow < ctx.registry.flows@[run.top().flow as int].subflow_refs@.len(),
    ensures
        begins_below(
            ctx,
            run.frames,
            run.invocations,
            run::begin_subflow(ctx, run, subflow as int),
            subflow as int,
            ctx.registry.flows@[run.top().flow as int].subflow_refs@[subflow as int]@,
        ),
{
    let reference = ctx.registry.flows@[run.top().flow as int].subflow_refs@[subflow as int]@;
    let next = run::begin_subflow(ctx, run, subflow as int);
    assert(ctx.registry.flows.len() == ctx.registry.flows@.len());
    assert forall|f: int|
        0 <= f < ctx.registry.flows@.len() && (#[trigger] ctx.registry.flow_refs@[f])@ == reference && (
        forall|q: int| 0 <= q < f ==> (#[trigger] ctx.registry.flow_refs@[q])@ != reference)
            && run.frames.len() < ctx.limits.max_nesting_depth && run.invocations
            < ctx.limits.max_invocations implies {
        let top = next.frames.last();
        &&& next.stage == Stage::Running
        &&& next.pending is Nothing
        &&& next.frames.len() == run.frames.len() + 1
        &&& next.frames.drop_last().drop_last() == run.frames.drop_last()
        &&& next.frames[run.frames.len() - 1] == (Frame {
            position: Position::Waiting { subflow },
            ..run.frames.last()
        })
        &&& top.flow == f
        &&& top.parent == Some(run.frames.last().invocation)
        &&& top.invocation == run.invocations + 1
        &&& next.invocations == run.invocations + 1
        &&& run::next_action(ctx, next) == (if top.occupies {
            EngineAction::AcquireSlot
        } else {
            EngineAction::StartFlow { flow: f as usize }
        })
    } by {
        lemma_first_reference(ctx.registry.flow_refs@, f);
        let waiting = run.at(Position::Waiting { subflow });
        assert(next == run::pushed(ctx, waiting, f, Some(run.top().invocation)));
        assert(next.frames.drop_last().drop_last() =~= run.frames.drop_last());
    }
}

/// The flows below a flow are run in order behind its last phase, and when the last of them
/// has ended the flow is completed; when the root flow is completed, so is the session.
#[verifier::spinoff_prover]
pub proof fn law_subflows_follow(ctx: FlowEmitContext, run: RunModel)
    requires
        ctx.wf(),
        run::run_wf(ctx, run),
        run.stage == Stage::Running,
        run.pending is Nothing,
    ensures
        ({
            let flow = ctx.registry.flows@[run.frames.last().flow as int];
            let next = run::advanced(ctx, run, ReplyModel::Done);
            let phases_are_over = match run.frames.last().position {
                Position::Started => flow.phase_refs@.len() == 0,
                Position::StepEnd { phase, step, .. } => phase + 1 == flow.phase_refs@.len() && step
                    + 1 == run::phase_block_of(ctx, run.frames.last(), phase as int).steps@.len(),
                _ => false,
            };
            &&& phases_are_over && flow.subflow_refs@.len() == 0 ==> run::next_action(ctx, next) == (
            EngineAction::CompleteFlow { flow: run.frames.last().flow })
            &&& phases_are_over && flow.subflow_refs@.len() > 0 ==> begins_below(
                ctx,
                run.frames,
                run.invocations,
                next,
                0,
                flow.subflow_refs@[0]@,
            )
            &&& run::next_action(ctx, run) is CompleteFlow ==> if run.frames.len() == 1 {
                &&& run::next_action(ctx, next) == EngineAction::CompleteSession
                &&& run::advanced(ctx, next, ReplyModel::Done).stage == Stage::Completed
                &&& next.pending is Nothing
            } else {
                let below = run.frames[run.frames.len() - 2];
                let above = ctx.registry.flows@[below.flow as int];
                match below.position {
                    Position::Waiting { subflow } => if subflow + 1 < above.subflow_refs@.len() {
                        begins_below(
                            ctx,
                            run.frames.drop_last(),
                            run.invocations,
                            next,
                            subflow + 1,
                            above.subflow_refs@[subflow + 1]@,
                        )
                    } else {
                        &&& next.frames.len() == run.frames.len() - 1
                        &&& run::next_action(ctx, next) == (EngineAction::CompleteFlow {
                            flow: below.flow,
                        })
                    },
                    _ => false,
                }
            }
        }),
{
    let flow = ctx.registry.flows@[run.frames.last().flow as int];
    assert(flow.phase_refs.len() == flow.phase_refs@.len());
    assert(flow.subflow_refs.len() == flow.subflow_refs@.len());
    if flow.subflow_refs@.len() > 0 {
        lemma_subflow_begins(ctx, run, 0);
    }
    lemma_action_at(ctx, run, Position::Completed);
    if run.frames.len() > 1 {
        let below = RunModel { frames: run.frames.drop_last(), ..run };
        assert(below.top() == run.frames[run.frames.len() - 2]);
        let above = ctx.registry.flows@[below.top().flow as int];
        assert(above.subflow_refs.len() == above.subflow_refs@.len());
        if let Position::Waiting { subflow } = below.top().position {
            if subflow + 1 < above.subflow_refs@.len() {
                lemma_subflow_begins(ctx, below, (subflow + 1) as usize);
            } else {
                lemma_action_at(ctx, below, Position::Completed);
            }
        }
    }
}

/// A session begins with its root flow, which is numbered first and stands below none.
#[verifier::spinoff_prover]
pub proof fn law_session_begins_with_its_root(ctx: FlowEmitContext, run: RunModel)
    requires
        ctx.wf(),
        run::run_wf(ctx, run),
        run.stage == Stage::Opening,
        1 <= ctx.limits.max_nesting_depth,
        1 <= ctx.limits.max_invocations,
    ensures
        ({
            let next = run::advanced(ctx, run, ReplyModel::Done);
            &&& run::next_action(ctx, run) == EngineAction::StartSession
            &&& next.stage == Stage::Running
            &&& next.frames.len() == 1
            &&& next.frames[0].flow == ctx.root_flow
            &&& next.frames[0].invocation == 1
            &&& next.frames[0].parent is None
            &&& next.invocations == 1
            &&& run::next_action(ctx, next) == (if next.frames[0].occupies {
                EngineAction::AcquireSlot
            } else {
                EngineAction::StartFlow { flow: ctx.root_flow }
            })
        }),
{
}

/// Whether two failures are the same, but for whether the event of the tool was written.
pub open spec fn same_failure(left: FailureModel, right: FailureModel) -> bool {
    &&& left.reason == right.reason
    &&& left.message == right.message
    &&& left.data == right.data
    &&& left.tool_id == right.tool_id
    &&& left.phase_id == right.phase_id
}

/// A tool that fails fails its session: the failure is reported of that tool, the step is
/// completed, the failure is reported of the flow, then of each flow above it, and at last
/// of the session. No other tool and no other step follows.
#[verifier::spinoff_prover]
pub proof fn law_failing_tool_fails_the_session(
    ctx: FlowEmitContext,
    run: RunModel,
    used: usize,
    tool: usize,
    found: FailureModel,
)
    requires
        ctx.wf(),
        run::run_wf(ctx, run),
        run.stage == Stage::Running,
        run::next_action(ctx, run) == (EngineAction::RunTool { phase: used, tool }),
    ensures
        ({
            let told = run::advanced(ctx, run, ReplyModel::Failure(found));
            let closed = done(ctx, told, 1);
            let reported = done(ctx, told, 2);
            let above = done(ctx, told, 3);
            &&& run::next_action(ctx, told) == (EngineAction::ReportToolFailure { tool })
            &&& told.pending == PendingModel::Failure(found)
            &&& run::next_action(ctx, closed) == (EngineAction::CompleteStep { phase: used, step: 0 })
            &&& closed.pending matches PendingModel::Failure(kept) && same_failure(kept, found)
                && !kept.emit_tool_failed
            &&& run::next_action(ctx, reported) == (EngineAction::ReportFailure {
                flow: run.frames.last().flow,
            })
            &&& fails_above(ctx, run.frames, above)
        }),
{
    let position = run.top().position;
    let phase = match position {
        Position::Tool { phase, .. } => phase,
        _ => 0,
    };
    let place = match position {
        Position::Tool { tool, .. } => tool,
        _ => 0,
    };
    lemma_failing_tool(ctx, run, phase, place, found);
    lemma_tool_fails(ctx, run, phase, place, found);
    let told = run.with(PendingModel::Failure(found));
    let kept = run.with(
        PendingModel::Failure(FailureModel { emit_tool_failed: false, ..found }),
    );
    lemma_action_at(ctx, told, Position::ToolFailed { phase, tool: place });
    lemma_action_at(ctx, kept, Position::StepEnd { phase, step: 0, closing: true });
    lemma_action_at(ctx, kept, Position::ReportFailure);
}

/// The run behind an action that was done.
#[verifier::opaque]
spec fn stepped(ctx: FlowEmitContext, run: RunModel) -> RunModel {
    run::advanced(ctx, run, ReplyModel::Done)
}

proof fn lemma_one_step(ctx: FlowEmitContext, run: RunModel, count: nat)
    ensures
        done(ctx, run, 0) == run,
        done(ctx, run, count + 1) == stepped(ctx, done(ctx, run, count)),
{
    reveal(done);
    reveal(stepped);
}

proof fn lemma_tool_fails(
    ctx: FlowEmitContext,
    run: RunModel,
    phase: usize,
    tool: usize,
    found: FailureModel,
)
    requires
        run.stage == Stage::Running,
        run.frames.len() > 0,
        run.top().position == (Position::Tool { phase, tool }),
    ensures
        run::advanced(ctx, run, ReplyModel::Failure(found)) == run.with(
            PendingModel::Failure(found),
        ).at(Position::ToolFailed { phase, tool }),
{
}

proof fn lemma_tool_is_reported(
    ctx: FlowEmitContext,
    run: RunModel,
    phase: usize,
    tool: usize,
    found: FailureModel,
)
    requires
        run.stage == Stage::Running,
        run.frames.len() > 0,
    ensures
        stepped(
            ctx,
            run.with(PendingModel::Failure(found)).at(Position::ToolFailed { phase, tool }),
        ) == run.with(
            PendingModel::Failure(FailureModel { emit_tool_failed: false, ..found }),
        ).at(Position::StepEnd { phase, step: 0, closing: true }),
{
    reveal(stepped);
    let failed = Position::ToolFailed { phase, tool };
    let ended = Position::StepEnd { phase, step: 0, closing: true };
    let told = run.with(PendingModel::Failure(found)).at(failed);
    let kept = run.with(PendingModel::Failure(FailureModel { emit_tool_failed: false, ..found }));
    assert(told.top().position == failed);
    assert(told.with(kept.pending).at(ended).frames =~= kept.at(ended).frames);
}

proof fn lemma_step_is_closed(ctx: FlowEmitContext, run: RunModel, phase: usize)
    requires
        run.stage == Stage::Running,
        run.frames.len() > 0,
        run.pending is Failure,
    ensures
        stepped(ctx, run.at(Position::StepEnd { phase, step: 0, closing: true })) == run.at(
            Position::ReportFailure,
        ),
{
    reveal(stepped);
    let ended = Position::StepEnd { phase, step: 0, closing: true };
    assert(run.at(ended).top().position == ended);
    lemma_moved_again(run, ended, Position::ReportFailure);
}

proof fn lemma_failure_is_passed_on(ctx: FlowEmitContext, run: RunModel)
    requires
        run.stage == Stage::Running,
        run.frames.len() > 0,
        run.pending is Failure,
        run.frames.len() > 1 ==> run.frames[run.frames.len() - 2].position is Waiting,
    ensures
        fails_above(ctx, run.frames, stepped(ctx, run.at(Position::ReportFailure))),
{
    reveal(stepped);
    reveal(fails_above);
    let reported = run.at(Position::ReportFailure);
    if run.frames.len() > 1 {
        assert(reported.frames[run.frames.len() - 2] == run.frames[run.frames.len() - 2]);
    }
    lemma_reported_above(ctx, reported);
}

proof fn lemma_failing_tool(
    ctx: FlowEmitContext,
    run: RunModel,
    phase: usize,
    tool: usize,
    found: FailureModel,
)
    requires
        run.stage == Stage::Running,
        run.frames.len() > 0,
        run.frames.len() > 1 ==> run.frames[run.frames.len() - 2].position is Waiting,
    ensures
        ({
            let told = run.with(PendingModel::Failure(found)).at(
                Position::ToolFailed { phase, tool },
            );
            let kept = run.with(
                PendingModel::Failure(FailureModel { emit_tool_failed: false, ..found }),
            );
            &&& done(ctx, told, 1) == kept.at(Position::StepEnd { phase, step: 0, closing: true })
            &&& done(ctx, told, 2) == kept.at(Position::ReportFailure)
            &&& fails_above(ctx, run.frames, done(ctx, told, 3))
        }),
{
    let told = run.with(PendingModel::Failure(found)).at(Position::ToolFailed { phase, tool });
    let kept = run.with(PendingModel::Failure(FailureModel { emit_tool_failed: false, ..found }));
    lemma_one_step(ctx, told, 0);
    lemma_one_step(ctx, told, 1);
    lemma_one_step(ctx, told, 2);
    lemma_tool_is_reported(ctx, run, phase, tool, found);
    lemma_step_is_closed(ctx, kept, phase);
    lemma_failure_is_passed_on(ctx, kept);
}

/// Whether a failure has reached what lies above the topmost of some flows: the flow below
/// it in the stack, or the session where there is none.
#[verifier::opaque]
pub open spec fn fails_above(ctx: FlowEmitContext, frames: Seq<Frame>, run: RunModel) -> bool {
    if frames.len() == 1 {
        &&& run::next_action(ctx, run) == EngineAction::FailSession
        &&& run::advanced(ctx, run, ReplyModel::Done).stage == Stage::Failed
    } else {
        &&& run.frames.len() == frames.len() - 1
        &&& run::next_action(ctx, run) == (EngineAction::ReportFlowFailure {
            flow: frames[frames.len() - 2].flow,
        })
    }
}

proof fn lemma_reported_above(ctx: FlowEmitContext, run: RunModel)
    requires
        run.stage == Stage::Running,
        run.frames.len() > 0,
        run.pending is Failure,
        run.top().position is ReportFailure || run.top().position is ReportFlow,
        run.frames.len() > 1 ==> run.frames[run.frames.len() - 2].position is Waiting,
    ensures
        fails_above(ctx, run.frames, run::advanced(ctx, run, ReplyModel::Done)),
        run::advanced(ctx, run, ReplyModel::Done).pending == run.pending,
{
    reveal(fails_above);
    if run.frames.len() > 1 {
        let below = RunModel { frames: run.frames.drop_last(), ..run };
        assert(below.top() == run.frames[run.frames.len() - 2]);
        lemma_action_at(ctx, below, Position::ReportFlow);
    }
}

/// A failure that was reported of a flow is reported of the flow above it, up to the
/// session.
#[verifier::spinoff_prover]
pub proof fn law_failure_climbs(ctx: FlowEmitContext, run: RunModel)
    requires
        ctx.wf(),
        run::run_wf(ctx, run),
        run.stage == Stage::Running,
        run.pending is Failure,
        run::next_action(ctx, run) is ReportFailure || run::next_action(ctx, run) is ReportFlowFailure,
    ensures
        fails_above(ctx, run.frames, run::advanced(ctx, run, ReplyModel::Done)),
        run::advanced(ctx, run, ReplyModel::Done).pending == run.pending,
{
    lemma_reported_above(ctx, run);
}

/// A sandbox that refuses a phase fails its session without the model being asked and
/// without a tool being run: the step is completed and the failure is reported of the flow.
#[verifier::spinoff_prover]
pub proof fn law_refusing_sandbox_fails_the_session(
    ctx: FlowEmitContext,
    run: RunModel,
    used: usize,
    found: FailureModel,
)
    requires
        ctx.wf(),
        run::run_wf(ctx, run),
        run.stage == Stage::Running,
        run::next_action(ctx, run) == (EngineAction::CheckSandbox { phase: used }),
    ensures
        ({
            let told = run::advanced(ctx, run, ReplyModel::Failure(found));
            let reported = run::advanced(ctx, told, ReplyModel::Done);
            &&& told.pending == PendingModel::Failure(found)
            &&& run::next_action(ctx, told) == (EngineAction::CompleteStep { phase: used, step: 0 })
            &&& run::next_action(ctx, reported) == (EngineAction::ReportFailure {
                flow: run.frames.last().flow,
            })
            &&& reported.pending == PendingModel::Failure(found)
        }),
{
    let phase = match run.top().position {
        Position::Sandbox { phase } => phase,
        _ => 0,
    };
    let failed = run.with(PendingModel::Failure(found));
    let ended = Position::StepEnd { phase, step: 0, closing: true };
    lemma_action_at(ctx, failed, ended);
    lemma_moved_again(failed, ended, Position::ReportFailure);
    lemma_action_at(ctx, failed, Position::ReportFailure);
}

/// An error that a phase meets, and that ends sessions, is reported of the flow; one that a
/// tool meets is first reported of that tool, and the step is completed.
#[verifier::spinoff_prover]
pub proof fn law_error_is_reported(ctx: FlowEmitContext, run: RunModel, error: ErrorModel)
    requires
        ctx.wf(),
        run::run_wf(ctx, run),
        run.stage == Stage::Running,
        ctx.terminal(error),
    ensures
        ({
            let told = run::advanced(ctx, run, ReplyModel::Fault(error));
            let action = run::next_action(ctx, run);
            &&& action is EnterPhase || action is StartStep || action is CompileContext || action
                is EmitMessageDelta || action is CompleteMessage || action is CompleteStep ==> {
                &&& told.pending == PendingModel::Error(error)
                &&& run::next_action(ctx, told) == (EngineAction::ReportError {
                    flow: run.frames.last().flow,
                })
            }
            &&& action is RunTool && (ctx.side_effect_mode is Apply || ctx.side_effect_mode is Resume)
                ==> {
                &&& told.pending == PendingModel::Error(error)
                &&& run::next_action(ctx, told) == (EngineAction::ReportToolFailure {
                    tool: action->RunTool_tool,
                })
            }
        }),
{
    let failed = run.with(PendingModel::Error(error));
    lemma_action_at(ctx, failed, Position::ReportError);
    if let Position::Tool { phase, tool } = run.top().position {
        lemma_action_at(ctx, failed, Position::ToolFailed { phase, tool });
    }
}

/// Flows nest no deeper than they may, and no more of them are started than may be: the one
/// that would be too many is an error that says so.
#[verifier::spinoff_prover]
pub proof fn law_limits_are_kept(ctx: FlowEmitContext, run: RunModel, flow: int, depth: nat)
    requires
        ctx.wf(),
        0 <= flow < ctx.registry.flows@.len(),
        run.invocations <= ctx.limits.max_invocations,
    ensures
        run::start_failure(ctx, run.invocations, flow, depth) is None <==> depth
            <= ctx.limits.max_nesting_depth && run.invocations < ctx.limits.max_invocations,
{
}

/// A session that was run to its end is completed, and one that failed has failed, once that
/// was emitted. Where it cannot be emitted the session is aborted with that error.
pub proof fn law_session_ends_as_it_ran(ctx: FlowEmitContext, run: RunModel, error: ErrorModel)
    ensures
        run.stage == Stage::Completing ==> run::advanced(ctx, run, ReplyModel::Done).stage
            == Stage::Completed,
        run.stage == Stage::Failing ==> run::advanced(ctx, run, ReplyModel::Done).stage
            == Stage::Failed && run::advanced(ctx, run, ReplyModel::Done).pending == run.pending,
        run.stage == Stage::Opening || run.stage == Stage::Completing || run.stage
            == Stage::Failing ==> {
            let next = run::advanced(ctx, run, ReplyModel::Fault(error));
            &&& next.stage == Stage::Aborted
            &&& next.pending == PendingModel::Error(error)
        },
        run.stage == Stage::Opening ==> run::next_action(ctx, run) is StartSession,
        run.stage == Stage::Completing ==> run::next_action(ctx, run) is CompleteSession,
        run.stage == Stage::Failing ==> run::next_action(ctx, run) is FailSession,
{
}

/// A session whose flows have all ended is completed where nothing failed, and fails where
/// something did; an error that does not end sessions for good aborts it instead.
pub proof fn law_outcome_of_a_session(ctx: FlowEmitContext, run: RunModel)
    ensures
        ({
            let ended = run::end_session(ctx, run);
            let written = ctx.side_effect_mode is Apply || ctx.side_effect_mode is Resume;
            &&& ended.pending == run.pending
            &&& run.pending is Nothing ==> ended.stage == Stage::Completing
            &&& run.pending is Failure ==> ended.stage == Stage::Failing
            &&& run.pending is Error ==> {
                let error = run.pending->Error_0;
                &&& error is EventWriter ==> ended.stage == Stage::Aborted
                &&& error is ContextBudgetExceeded ==> ended.stage == Stage::Failing
                &&& !(error is EventWriter) && !(error is ContextBudgetExceeded) && written
                    ==> ended.stage == Stage::Failing
                &&& !(error is EventWriter) && !(error is ContextBudgetExceeded) && !written
                    ==> ended.stage == Stage::Aborted
            }
        }),
{
}

/// A flow that is started is numbered behind those before it and stands below the one that
/// started it. It takes up a place where flows are applied, and where they are resumed unless
/// that very flow had ended before; one that takes none is started at once.
pub proof fn law_started_flow_takes_its_place(
    ctx: FlowEmitContext,
    invocations: u64,
    flow: usize,
    parent: Option<u64>,
)
    requires
        invocations < u64::MAX,
    ensures
        ({
            let frame = run::started(ctx, invocations, flow as int, parent);
            let had_ended = exists|k: int|
                0 <= k < ctx.terminal_flow_ids@.len() && (#[trigger] ctx.terminal_flow_ids@[k])@
                    == "flow-"@ + text::zero_padded(text::decimal((invocations + 1) as nat), 3);
            &&& frame.flow == flow
            &&& frame.invocation == invocations + 1
            &&& frame.parent == parent
            &&& frame.occupies <==> ctx.side_effect_mode is Apply || ctx.side_effect_mode is Resume
                && !had_ended
            &&& frame.occupies ==> frame.position is Acquire
            &&& !frame.occupies ==> frame.position is Started
        }),
{
    let ids = text::texts_view(ctx.terminal_flow_ids@);
    let wanted = "flow-"@ + text::zero_padded(text::decimal((invocations + 1) as nat), 3);
    registry::law_text_is_found_at_its_first_place(ids, wanted);
    assert forall|k: int| 0 <= k < ids.len() implies #[trigger] ids[k]
        == ctx.terminal_flow_ids@[k]@ by {}
    assert forall|k: int| 0 <= k < ids.len() implies (#[trigger] ctx.terminal_flow_ids@[k])@
        == ids[k] by {}
    if let Some(position) = registry::text_position(ids, wanted) {
        assert(ctx.terminal_flow_ids@[position]@ == wanted);
    }
}

/// The places that flows take up are counted flow by flow: one for each that has taken its
/// place.
pub proof fn law_places_are_counted(frames: Seq<run::Frame>, frame: run::Frame)
    ensures
        run::slots_of(frames.push(frame)) == run::slots_of(frames) + (if frame.occupies
            && frame.position !is Acquire {
            1nat
        } else {
            0
        }),
        run::slots_of(Seq::empty()) == 0,
{
    assert(frames.push(frame).drop_last() =~= frames);
}

/// An action tells of the flow, the phase and the step that the run stands at: the phase is
/// the one that the flow names at that place.
pub proof fn law_actions_tell_where_the_run_stands(
    ctx: FlowEmitContext,
    run: RunModel,
    phase: usize,
    step: usize,
    closing: bool,
)
    requires
        ctx.registry.wf(),
        run.stage == Stage::Running,
        phase < run::block_of(ctx, run.top()).phase_refs@.len(),
        run::phase_of(ctx, run.top(), phase as int) is Some,
    ensures
        ({
            let action = run::next_action(ctx, run);
            let flow = run.top().flow;
            let reference = ctx.registry.flows@[flow as int].phase_refs@[phase as int]@;
            let names = |index: usize|
                index < ctx.registry.phases@.len() && ctx.registry.phase_refs@[index as int]@
                    == reference;
            &&& match run.top().position {
                Position::Acquire => action is AcquireSlot,
                Position::Started => action == EngineAction::StartFlow { flow },
                Position::ReportFailure => action == EngineAction::ReportFailure { flow },
                Position::ReportError => action == EngineAction::ReportError { flow },
                Position::ReportFlow => action == EngineAction::ReportFlowFailure { flow },
                Position::Completed => action == EngineAction::CompleteFlow { flow },
                Position::Delta { .. } => action is EmitMessageDelta,
                Position::Message { .. } => action is CompleteMessage,
                _ => true,
            }
            &&& run.top().position == Position::Entered { phase } ==> action is EnterPhase && names(
                action->EnterPhase_phase,
            )
            &&& run.top().position == Position::Sandbox { phase } ==> action is CheckSandbox
                && names(action->CheckSandbox_phase)
            &&& run.top().position == (Position::StepStarted { phase, step }) ==> action
                is StartStep && names(action->StartStep_phase) && action->StartStep_step == step
            &&& run.top().position == (Position::Context { phase, step }) ==> action
                is CompileContext && names(action->CompileContext_phase)
                && action->CompileContext_step == step
            &&& run.top().position == (Position::StepEnd { phase, step, closing }) ==> action
                is CompleteStep && names(action->CompleteStep_phase)
                && action->CompleteStep_step == step
        }),
{
    let reference = run::block_of(ctx, run.top()).phase_refs@[phase as int]@;
    let known = text::texts_view(ctx.registry.phase_refs@);
    registry::law_text_is_found_at_its_first_place(known, reference);
    assert(ctx.registry.phase_refs.len() == ctx.registry.phase_refs@.len());
    let index = run::phase_of(ctx, run.top(), phase as int)->0;
    assert(known[index] == ctx.registry.phase_refs@[index]@);
}

} // verus!

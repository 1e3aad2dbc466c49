//! Which tools a flow would use, looked at before any of them runs.

use crate::engine::events::invocation_budget_exceeded;
use crate::engine::events;
use crate::engine::registry::{command_policy_for_phase, resolve, PhaseBlock, PolicyArtifact, ResolvedRegistry};
use crate::engine::registry;
use crate::error::{protocol, ErrorModel, RuntimeError};
use crate::error;
use crate::text::{append_text, decimal_text, join3};
use crate::text;
use vstd::prelude::*;

verus! {

/// How deep flows may nest and how many may be invoked.
#[derive(Clone, Copy, Debug, PartialEq, Eq, Structural)]
pub struct FlowLimits {
    pub max_nesting_depth: usize,
    pub max_invocations: u64,
}

/// A tool that a phase uses: which tool it is, and in which phase.
#[derive(Clone, Copy, Debug, PartialEq, Eq, Structural)]
pub struct PreflightTool {
    pub phase: usize,
    pub tool: usize,
}

/// What a look at a flow came to: the tools to look at, in order, how many flows were
/// counted, and what is wrong behind the last of these tools, if anything is.
pub struct PreflightModel {
    pub tools: Seq<PreflightTool>,
    pub count: nat,
    pub fault: Option<ErrorModel>,
}

/// What is wrong with a depth.
pub open spec fn depth_failure(flow_id: Seq<char>, depth: nat, maximum: usize) -> Option<
    ErrorModel,
> {
    if depth > maximum {
        error::protocol_failure(
            "flow nesting depth "@ + text::decimal(depth) + " for "@ + flow_id + " exceeds max "@
                + text::decimal(maximum as nat),
        )
    } else {
        None
    }
}

/// The failure of flows that nest too deep.
pub fn depth_exceeded(flow_id: &str, depth: usize, maximum: usize) -> (error: RuntimeError)
    ensures
        error@ == ErrorModel::Protocol(
            "flow nesting depth "@ + text::decimal(depth as nat) + " for "@ + flow_id@
                + " exceeds max "@ + text::decimal(maximum as nat),
        ),
{
    let number = decimal_text(depth as u64);
    let limit = decimal_text(maximum as u64);
    let mut message = join3("flow nesting depth ", number.as_str(), " for ");
    append_text(&mut message, flow_id);
    append_text(&mut message, " exceeds max ");
    append_text(&mut message, limit.as_str());
    protocol(message.as_str())
}

/// What is wrong with a tool that a phase uses.
pub open spec fn tool_use_failure(
    registry: ResolvedRegistry,
    policy: PolicyArtifact,
    phase: PhaseBlock,
    reference: Seq<char>,
) -> Option<ErrorModel> {
    match registry.tool_at(reference) {
        None => registry::missing_failure("tool"@, reference, None),
        Some(tool) => registry::command_failure(policy, phase.id@, registry.tools@[tool].id@),
    }
}

/// Resolves a tool that a phase uses, and finds that the policy lets it.
pub fn use_tool(
    registry: &ResolvedRegistry,
    policy: &PolicyArtifact,
    phase: &PhaseBlock,
    reference: &str,
) -> (result: Result<usize, RuntimeError>)
    requires
        registry.wf(),
    ensures
        error::failure(result) == tool_use_failure(*registry, *policy, *phase, reference@),
        result matches Ok(tool) ==> registry.tool_at(reference@) == Some(tool as int) && tool
            < registry.tools@.len(),
{
    let tool = resolve(&registry.tool_refs, "tool", reference)?;
    let _ = command_policy_for_phase(policy, phase.id.as_str(), &registry.tools[tool])?;
    Ok(tool)
}

/// The tools of a phase, from one of them on, put behind those known already.
pub open spec fn preflight_phase(
    registry: ResolvedRegistry,
    policy: PolicyArtifact,
    phase: usize,
    next: nat,
    tools: Seq<PreflightTool>,
    count: nat,
) -> PreflightModel
    decreases registry.phases@[phase as int].tool_refs@.len() - next,
{
    let block = registry.phases@[phase as int];
    if next >= block.tool_refs@.len() {
        PreflightModel { tools, count, fault: None }
    } else {
        let reference = block.tool_refs@[next as int]@;
        let found = tool_use_failure(registry, policy, block, reference);
        if found is Some {
            PreflightModel { tools, count, fault: found }
        } else {
            let tool = registry.tool_at(reference)->0 as usize;
            preflight_phase(
                registry,
                policy,
                phase,
                next + 1,
                tools.push(PreflightTool { phase, tool }),
                count,
            )
        }
    }
}

/// The phases of a flow, from one of them on.
pub open spec fn preflight_phases(
    registry: ResolvedRegistry,
    policy: PolicyArtifact,
    flow: usize,
    next: nat,
    tools: Seq<PreflightTool>,
    count: nat,
) -> PreflightModel
    decreases registry.flows@[flow as int].phase_refs@.len() - next,
{
    let block = registry.flows@[flow as int];
    if next >= block.phase_refs@.len() {
        PreflightModel { tools, count, fault: None }
    } else {
        let reference = block.phase_refs@[next as int]@;
        match registry.phase_at(reference) {
            None => PreflightModel {
                tools,
                count,
                fault: registry::missing_failure("phase"@, reference, None),
            },
            Some(phase) => {
                let inner = preflight_phase(registry, policy, phase as usize, 0, tools, count);
                if inner.fault is Some {
                    inner
                } else {
                    preflight_phases(registry, policy, flow, next + 1, inner.tools, inner.count)
                }
            },
        }
    }
}

/// A flow at a depth: it counts as an invocation, then come its phases, and then the
/// flows below it.
pub open spec fn preflight_flow(
    registry: ResolvedRegistry,
    policy: PolicyArtifact,
    limits: FlowLimits,
    flow: usize,
    depth: nat,
    tools: Seq<PreflightTool>,
    count: nat,
) -> PreflightModel
    decreases limits.max_nesting_depth + 1 - depth, registry.flows@[flow as int].subflow_refs@.len() + 1,
{
    let block = registry.flows@[flow as int];
    if count >= u64::MAX {
        PreflightModel {
            tools,
            count,
            fault: error::protocol_failure("flow invocation budget counter overflowed"@),
        }
    } else if events::invocation_failure(count, limits.max_invocations) is Some {
        PreflightModel {
            tools,
            count: count + 1,
            fault: events::invocation_failure(count, limits.max_invocations),
        }
    } else if depth_failure(block.id@, depth, limits.max_nesting_depth) is Some {
        PreflightModel {
            tools,
            count: count + 1,
            fault: depth_failure(block.id@, depth, limits.max_nesting_depth),
        }
    } else {
        let phases = preflight_phases(registry, policy, flow, 0, tools, count + 1);
        if phases.fault is Some {
            phases
        } else {
            preflight_subflows(
                registry,
                policy,
                limits,
                flow,
                depth,
                0,
                phases.tools,
                phases.count,
            )
        }
    }
}

/// The flows below a flow, from one of them on.
pub open spec fn preflight_subflows(
    registry: ResolvedRegistry,
    policy: PolicyArtifact,
    limits: FlowLimits,
    flow: usize,
    depth: nat,
    next: nat,
    tools: Seq<PreflightTool>,
    count: nat,
) -> PreflightModel
    decreases
            limits.max_nesting_depth + 1 - depth,
            registry.flows@[flow as int].subflow_refs@.len() - next,
{
    let block = registry.flows@[flow as int];
    if next >= block.subflow_refs@.len() || depth > limits.max_nesting_depth {
        PreflightModel { tools, count, fault: None }
    } else {
        let reference = block.subflow_refs@[next as int]@;
        match registry.flow_at(reference) {
            None => PreflightModel {
                tools,
                count,
                fault: registry::missing_failure("flow"@, reference, None),
            },
            Some(below) => {
                let inner = preflight_flow(
                    registry,
                    policy,
                    limits,
                    below as usize,
                    depth + 1,
                    tools,
                    count,
                );
                if inner.fault is Some {
                    inner
                } else {
                    preflight_subflows(
                        registry,
                        policy,
                        limits,
                        flow,
                        depth,
                        next + 1,
                        inner.tools,
                        inner.count,
                    )
                }
            },
        }
    }
}

/// The tools to look at, and how many flows were counted.
pub struct PreflightWork {
    pub tools: Vec<PreflightTool>,
    pub invocation_count: u64,
}

/// Puts the tools of a phase behind those to look at.
pub fn preflight_phase_tools(
    registry: &ResolvedRegistry,
    policy: &PolicyArtifact,
    phase: usize,
    work: &mut PreflightWork,
) -> (result: Result<(), RuntimeError>)
    requires
        registry.wf(),
        phase < registry.phases@.len(),
    ensures
        ({
            let model = preflight_phase(
                *registry,
                *policy,
                phase,
                0,
                old(work).tools@,
                old(work).invocation_count as nat,
            );
            &&& error::failure(result) == model.fault
            &&& final(work).tools@ == model.tools
            &&& final(work).invocation_count == model.count
        }),
{
    let block = &registry.phases[phase];
    let mut next: usize = 0;
    let ghost model = preflight_phase(
        *registry,
        *policy,
        phase,
        0,
        old(work).tools@,
        old(work).invocation_count as nat,
    );
    while next < block.tool_refs.len()
        invariant
            next <= block.tool_refs.len(),
            registry.wf(),
            phase < registry.phases@.len(),
            *block == registry.phases@[phase as int],
            model == preflight_phase(
                *registry,
                *policy,
                phase,
                0,
                old(work).tools@,
                old(work).invocation_count as nat,
            ),
            model == preflight_phase(
                *registry,
                *policy,
                phase,
                next as nat,
                work.tools@,
                work.invocation_count as nat,
            ),
            work.invocation_count == old(work).invocation_count,
        decreases block.tool_refs.len() - next,
    {
        let tool: usize = use_tool(registry, policy, block, block.tool_refs[next].as_str())?;
        work.tools.push(PreflightTool { phase, tool });
        next = next + 1;
    }
    Ok(())
}

/// Puts the tools of a flow's phases behind those to look at.
fn preflight_phases_tools(
    registry: &ResolvedRegistry,
    policy: &PolicyArtifact,
    flow: usize,
    work: &mut PreflightWork,
) -> (result: Result<(), RuntimeError>)
    requires
        registry.wf(),
        flow < registry.flows@.len(),
    ensures
        ({
            let model = preflight_phases(
                *registry,
                *policy,
                flow,
                0,
                old(work).tools@,
                old(work).invocation_count as nat,
            );
            &&& error::failure(result) == model.fault
            &&& final(work).tools@ == model.tools
            &&& final(work).invocation_count == model.count
        }),
{
    let block = &registry.flows[flow];
    let mut next: usize = 0;
    let ghost model = preflight_phases(
        *registry,
        *policy,
        flow,
        0,
        old(work).tools@,
        old(work).invocation_count as nat,
    );
    while next < block.phase_refs.len()
        invariant
            next <= block.phase_refs.len(),
            registry.wf(),
            flow < registry.flows@.len(),
            *block == registry.flows@[flow as int],
            model == preflight_phases(
                *registry,
                *policy,
                flow,
                0,
                old(work).tools@,
                old(work).invocation_count as nat,
            ),
            model == preflight_phases(
                *registry,
                *policy,
                flow,
                next as nat,
                work.tools@,
                work.invocation_count as nat,
            ),
        decreases block.phase_refs.len() - next,
    {
        let phase: usize = resolve(&registry.phase_refs, "phase", block.phase_refs[next].as_str())?;
        preflight_phase_tools(registry, policy, phase, work)?;
        next = next + 1;
    }
    Ok(())
}

/// Puts the tools of a flow at a depth behind those to look at.
pub fn preflight_flow_tools_at_depth(
    registry: &ResolvedRegistry,
    policy: &PolicyArtifact,
    limits: FlowLimits,
    flow: usize,
    depth: usize,
    work: &mut PreflightWork,
) -> (result: Result<(), RuntimeError>)
    requires
        registry.wf(),
        flow < registry.flows@.len(),
        limits.max_nesting_depth < usize::MAX,
    ensures
        ({
            let model = preflight_flow(
                *registry,
                *policy,
                limits,
                flow,
                depth as nat,
                old(work).tools@,
                old(work).invocation_count as nat,
            );
            &&& error::failure(result) == model.fault
            &&& final(work).tools@ == model.tools
            &&& final(work).invocation_count == model.count
        }),
        result is Ok ==> final(work).invocation_count <= limits.max_invocations,
    decreases limits.max_nesting_depth + 1 - depth,
{
    let block = &registry.flows[flow];
    if work.invocation_count == u64::MAX {
        return Err(protocol("flow invocation budget counter overflowed"));
    }
    work.invocation_count = work.invocation_count + 1;
    if work.invocation_count > limits.max_invocations {
        return Err(invocation_budget_exceeded(work.invocation_count, limits.max_invocations));
    }
    if depth > limits.max_nesting_depth {
        return Err(depth_exceeded(block.id.as_str(), depth, limits.max_nesting_depth));
    }
    let ghost counted = work.invocation_count as nat;
    let ghost model = preflight_flow(
        *registry,
        *policy,
        limits,
        flow,
        depth as nat,
        old(work).tools@,
        old(work).invocation_count as nat,
    );
    preflight_phases_tools(registry, policy, flow, work)?;
    proof {
        lemma_phases_keep_count(*registry, *policy, flow, 0, old(work).tools@, counted);
    }
    let mut next: usize = 0;
    while next < block.subflow_refs.len()
        invariant
            next <= block.subflow_refs.len(),
            registry.wf(),
            flow < registry.flows@.len(),
            *block == registry.flows@[flow as int],
            depth <= limits.max_nesting_depth,
            limits.max_nesting_depth < usize::MAX,
            work.invocation_count <= limits.max_invocations,
            model == preflight_flow(
                *registry,
                *policy,
                limits,
                flow,
                depth as nat,
                old(work).tools@,
                old(work).invocation_count as nat,
            ),
            model == preflight_subflows(
                *registry,
                *policy,
                limits,
                flow,
                depth as nat,
                next as nat,
                work.tools@,
                work.invocation_count as nat,
            ),
        decreases block.subflow_refs.len() - next,
    {
        let below: usize = resolve(
            &registry.flow_refs,
            "flow",
            block.subflow_refs[next].as_str(),
        )?;
        preflight_flow_tools_at_depth(registry, policy, limits, below, depth + 1, work)?;
        next = next + 1;
    }
    Ok(())
}

proof fn lemma_phase_keeps_count(
    registry: ResolvedRegistry,
    policy: PolicyArtifact,
    phase: usize,
    next: nat,
    tools: Seq<PreflightTool>,
    count: nat,
)
    ensures
        preflight_phase(registry, policy, phase, next, tools, count).count == count,
    decreases registry.phases@[phase as int].tool_refs@.len() - next,
{
    let block = registry.phases@[phase as int];
    if next < block.tool_refs@.len() {
        let reference = block.tool_refs@[next as int]@;
        let tool = registry.tool_at(reference)->0 as usize;
        lemma_phase_keeps_count(
            registry,
            policy,
            phase,
            next + 1,
            tools.push(PreflightTool { phase, tool }),
            count,
        );
    }
}

proof fn lemma_phases_keep_count(
    registry: ResolvedRegistry,
    policy: PolicyArtifact,
    flow: usize,
    next: nat,
    tools: Seq<PreflightTool>,
    count: nat,
)
    ensures
        preflight_phases(registry, policy, flow, next, tools, count).count == count,
    decreases registry.flows@[flow as int].phase_refs@.len() - next,
{
    let block = registry.flows@[flow as int];
    if next < block.phase_refs@.len() {
        match registry.phase_at(block.phase_refs@[next as int]@) {
            None => {},
            Some(phase) => {
                lemma_phase_keeps_count(registry, policy, phase as usize, 0, tools, count);
                let inner = preflight_phase(registry, policy, phase as usize, 0, tools, count);
                lemma_phases_keep_count(registry, policy, flow, next + 1, inner.tools, count);
            },
        }
    }
}

/// The tools that a flow would use, in order, and what is wrong behind them, if
/// anything is.
pub fn preflight_flow_tools(
    registry: &ResolvedRegistry,
    policy: &PolicyArtifact,
    limits: FlowLimits,
    flow: usize,
) -> (found: (Vec<PreflightTool>, Result<(), RuntimeError>))
    requires
        registry.wf(),
        flow < registry.flows@.len(),
        limits.max_nesting_depth < usize::MAX,
    ensures
        ({
            let model = preflight_flow(*registry, *policy, limits, flow, 1, Seq::empty(), 0);
            &&& error::failure(found.1) == model.fault
            &&& found.0@ == model.tools
        }),
{
    let mut work = PreflightWork { tools: Vec::new(), invocation_count: 0 };
    let result = preflight_flow_tools_at_depth(registry, policy, limits, flow, 1, &mut work);
    (work.tools, result)
}

/// Every tool that is looked at is one that the policy lets its phase use.
pub open spec fn permitted(
    registry: ResolvedRegistry,
    policy: PolicyArtifact,
    tools: Seq<PreflightTool>,
) -> bool {
    forall|k: int|
        0 <= k < tools.len() ==> registry::command_failure(
            policy,
            registry.phases@[(#[trigger] tools[k]).phase as int].id@,
            registry.tools@[tools[k].tool as int].id@,
        ) is None
}

proof fn lemma_phase_permitted(
    registry: ResolvedRegistry,
    policy: PolicyArtifact,
    phase: usize,
    next: nat,
    tools: Seq<PreflightTool>,
    count: nat,
)
    requires
        registry.wf(),
        registry.tool_refs.len() == registry.tool_refs@.len(),
        permitted(registry, policy, tools),
    ensures
        permitted(registry, policy, preflight_phase(registry, policy, phase, next, tools, count).tools),
    decreases registry.phases@[phase as int].tool_refs@.len() - next,
{
    let block = registry.phases@[phase as int];
    if next < block.tool_refs@.len() {
        let reference = block.tool_refs@[next as int]@;
        let found = tool_use_failure(registry, policy, block, reference);
        if found is None {
            crate::engine::registry::lemma_text_position_bounds(
                text::texts_view(registry.tool_refs@),
                reference,
            );
            let tool = registry.tool_at(reference)->0 as usize;
            let more = tools.push(PreflightTool { phase, tool });
            assert forall|k: int| 0 <= k < more.len() implies registry::command_failure(
                policy,
                registry.phases@[(#[trigger] more[k]).phase as int].id@,
                registry.tools@[more[k].tool as int].id@,
            ) is None by {
                if k < tools.len() {
                    assert(more[k] == tools[k]);
                }
            }
            lemma_phase_permitted(registry, policy, phase, next + 1, more, count);
        }
    }
}

proof fn lemma_phases_permitted(
    registry: ResolvedRegistry,
    policy: PolicyArtifact,
    flow: usize,
    next: nat,
    tools: Seq<PreflightTool>,
    count: nat,
)
    requires
        registry.wf(),
        registry.tool_refs.len() == registry.tool_refs@.len(),
        permitted(registry, policy, tools),
    ensures
        permitted(registry, policy, preflight_phases(registry, policy, flow, next, tools, count).tools),
    decreases registry.flows@[flow as int].phase_refs@.len() - next,
{
    let block = registry.flows@[flow as int];
    if next < block.phase_refs@.len() {
        match registry.phase_at(block.phase_refs@[next as int]@) {
            None => {},
            Some(phase) => {
                lemma_phase_permitted(registry, policy, phase as usize, 0, tools, count);
                let inner = preflight_phase(registry, policy, phase as usize, 0, tools, count);
                lemma_phases_permitted(registry, policy, flow, next + 1, inner.tools, inner.count);
            },
        }
    }
}

proof fn lemma_flow_permitted(
    registry: ResolvedRegistry,
    policy: PolicyArtifact,
    limits: FlowLimits,
    flow: usize,
    depth: nat,
    tools: Seq<PreflightTool>,
    count: nat,
)
    requires
        registry.wf(),
        registry.tool_refs.len() == registry.tool_refs@.len(),
        permitted(registry, policy, tools),
    ensures
        permitted(
            registry,
            policy,
            preflight_flow(registry, policy, limits, flow, depth, tools, count).tools,
        ),
    decreases limits.max_nesting_depth + 1 - depth, registry.flows@[flow as int].subflow_refs@.len() + 1,
{
    let block = registry.flows@[flow as int];
    if count < u64::MAX && events::invocation_failure(count, limits.max_invocations) is None
        && depth_failure(
        block.id@,
        depth,
        limits.max_nesting_depth,
    ) is None {
        lemma_phases_permitted(registry, policy, flow, 0, tools, count + 1);
        let phases = preflight_phases(registry, policy, flow, 0, tools, count + 1);
        if phases.fault is None {
            lemma_subflows_permitted(
                registry,
                policy,
                limits,
                flow,
                depth,
                0,
                phases.tools,
                phases.count,
            );
        }
    }
}

proof fn lemma_subflows_permitted(
    registry: ResolvedRegistry,
    policy: PolicyArtifact,
    limits: FlowLimits,
    flow: usize,
    depth: nat,
    next: nat,
    tools: Seq<PreflightTool>,
    count: nat,
)
    requires
        registry.wf(),
        registry.tool_refs.len() == registry.tool_refs@.len(),
        permitted(registry, policy, tools),
    ensures
        permitted(
            registry,
            policy,
            preflight_subflows(registry, policy, limits, flow, depth, next, tools, count).tools,
        ),
    decreases
            limits.max_nesting_depth + 1 - depth,
            registry.flows@[flow as int].subflow_refs@.len() - next,
{
    let block = registry.flows@[flow as int];
    if next < block.subflow_refs@.len() && depth <= limits.max_nesting_depth {
        match registry.flow_at(block.subflow_refs@[next as int]@) {
            None => {},
            Some(below) => {
                lemma_flow_permitted(
                    registry,
                    policy,
                    limits,
                    below as usize,
                    depth + 1,
                    tools,
                    count,
                );
                let inner = preflight_flow(
                    registry,
                    policy,
                    limits,
                    below as usize,
                    depth + 1,
                    tools,
                    count,
                );
                if inner.fault is None {
                    lemma_subflows_permitted(
                        registry,
                        policy,
                        limits,
                        flow,
                        depth,
                        next + 1,
                        inner.tools,
                        inner.count,
                    );
                }
            },
        }
    }
}

/// A look at a flow never offers a tool that the policy keeps from its phase.
pub proof fn law_preflight_offers_permitted_tools(
    registry: ResolvedRegistry,
    policy: PolicyArtifact,
    limits: FlowLimits,
    flow: usize,
)
    requires
        registry.wf(),
        registry.tool_refs.len() == registry.tool_refs@.len(),
    ensures
        permitted(
            registry,
            policy,
            preflight_flow(registry, policy, limits, flow, 1, Seq::empty(), 0).tools,
        ),
{
    lemma_flow_permitted(registry, policy, limits, flow, 1, Seq::empty(), 0);
}

/// Whether one list of tools goes on from another.
pub open spec fn goes_on(before: Seq<PreflightTool>, after: Seq<PreflightTool>) -> bool {
    before.len() <= after.len() && after.take(before.len() as int) == before
}

proof fn lemma_goes_on(
    first: Seq<PreflightTool>,
    second: Seq<PreflightTool>,
    third: Seq<PreflightTool>,
)
    requires
        goes_on(first, second),
        goes_on(second, third),
    ensures
        goes_on(first, third),
{
    assert(third.take(first.len() as int) =~= second.take(first.len() as int));
}

proof fn lemma_phase_tools(
    registry: ResolvedRegistry,
    policy: PolicyArtifact,
    phase: usize,
    next: nat,
    tools: Seq<PreflightTool>,
    count: nat,
)
    requires
        registry.wf(),
        next <= registry.phases@[phase as int].tool_refs@.len(),
    ensures
        ({
            let refs = registry.phases@[phase as int].tool_refs@;
            let found = preflight_phase(registry, policy, phase, next, tools, count);
            &&& goes_on(tools, found.tools)
            &&& found.count == count
            &&& found.fault is None ==> {
                &&& found.tools.len() == tools.len() + refs.len() - next
                &&& forall|i: int|
                    tools.len() <= i < found.tools.len() ==> is_offer(
                        registry,
                        phase as int,
                        i - tools.len() + next,
                        #[trigger] found.tools[i],
                    )
            }
        }),
    decreases registry.phases@[phase as int].tool_refs@.len() - next,
{
    let block = registry.phases@[phase as int];
    let refs = block.tool_refs@;
    if next >= refs.len() {
        assert(tools.take(tools.len() as int) =~= tools);
    } else {
        let reference = refs[next as int]@;
        if tool_use_failure(registry, policy, block, reference) is Some {
            assert(tools.take(tools.len() as int) =~= tools);
        } else {
            let known = text::texts_view(registry.tool_refs@);
            registry::law_text_is_found_at_its_first_place(known, reference);
            assert(registry.tool_refs.len() == registry.tool_refs@.len());
            let tool = registry.tool_at(reference)->0 as usize;
            assert(known[tool as int] == registry.tool_refs@[tool as int]@);
            let more = tools.push(PreflightTool { phase, tool });
            lemma_phase_tools(registry, policy, phase, next + 1, more, count);
            let found = preflight_phase(registry, policy, phase, next, tools, count);
            assert(found == preflight_phase(registry, policy, phase, next + 1, more, count));
            assert(more.take(tools.len() as int) =~= tools);
            assert(goes_on(tools, more));
            lemma_goes_on(tools, more, found.tools);
            if found.fault is None {
                assert forall|i: int| tools.len() <= i < found.tools.len() implies is_offer(
                    registry,
                    phase as int,
                    i - tools.len() + next,
                    #[trigger] found.tools[i],
                ) by {
                    if i == tools.len() {
                        assert(found.tools.take(more.len() as int)[i] == more[i]);
                    } else {
                        assert(i - more.len() + (next + 1) == i - tools.len() + next);
                    }
                }
            }
        }
    }
}

/// Whether an offered tool is the one that a phase names at a place.
pub open spec fn is_offer(
    registry: ResolvedRegistry,
    phase: int,
    place: int,
    offered: PreflightTool,
) -> bool {
    &&& offered.phase == phase
    &&& offered.tool < registry.tools@.len()
    &&& registry.tool_refs@[offered.tool as int]@ == registry.phases@[phase].tool_refs@[place]@
}

/// Whether the tool that a phase names at a place is among those offered.
pub open spec fn offers_tool(
    registry: ResolvedRegistry,
    phase: int,
    place: int,
    tools: Seq<PreflightTool>,
) -> bool {
    exists|k: int| 0 <= k < tools.len() && is_offer(registry, phase, place, #[trigger] tools[k])
}

/// Whether the tools that a phase names are all offered for it.
pub open spec fn offers_phase(
    registry: ResolvedRegistry,
    phase: int,
    tools: Seq<PreflightTool>,
) -> bool {
    forall|place: int|
        0 <= place < registry.phases@[phase].tool_refs@.len() ==> #[trigger] offers_tool(
            registry,
            phase,
            place,
            tools,
        )
}

proof fn lemma_offers_more(
    registry: ResolvedRegistry,
    phase: int,
    tools: Seq<PreflightTool>,
    more: Seq<PreflightTool>,
)
    requires
        offers_phase(registry, phase, tools),
        goes_on(tools, more),
    ensures
        offers_phase(registry, phase, more),
{
    assert forall|place: int|
        0 <= place < registry.phases@[phase].tool_refs@.len() implies #[trigger] offers_tool(
        registry,
        phase,
        place,
        more,
    ) by {
        assert(offers_tool(registry, phase, place, tools));
        let k = choose|k: int|
            0 <= k < tools.len() && is_offer(registry, phase, place, #[trigger] tools[k]);
        assert(more.take(tools.len() as int)[k] == more[k]);
    }
}

/// A look at a phase that finds no fault offers one tool for each that the phase names, in
/// their order, behind those that were offered before.
pub proof fn law_phase_offers_each_of_its_tools(
    registry: ResolvedRegistry,
    policy: PolicyArtifact,
    phase: usize,
    tools: Seq<PreflightTool>,
    count: nat,
)
    requires
        registry.wf(),
        preflight_phase(registry, policy, phase, 0, tools, count).fault is None,
    ensures
        ({
            let refs = registry.phases@[phase as int].tool_refs@;
            let found = preflight_phase(registry, policy, phase, 0, tools, count).tools;
            &&& found.len() == tools.len() + refs.len()
            &&& found.take(tools.len() as int) == tools
            &&& forall|i: int|
                tools.len() <= i < found.len() ==> {
                    &&& (#[trigger] found[i]).phase == phase
                    &&& found[i].tool < registry.tools@.len()
                    &&& registry.tool_refs@[found[i].tool as int]@ == refs[i - tools.len()]@
                }
            &&& offers_phase(registry, phase as int, found)
        }),
{
    lemma_phase_tools(registry, policy, phase, 0, tools, count);
    let refs = registry.phases@[phase as int].tool_refs@;
    let found = preflight_phase(registry, policy, phase, 0, tools, count).tools;
    assert forall|i: int| tools.len() <= i < found.len() implies {
        &&& (#[trigger] found[i]).phase == phase
        &&& found[i].tool < registry.tools@.len()
        &&& registry.tool_refs@[found[i].tool as int]@ == refs[i - tools.len()]@
    } by {
        assert(is_offer(registry, phase as int, i - tools.len() + 0, found[i]));
    }
    assert forall|place: int| 0 <= place < refs.len() implies #[trigger] offers_tool(
        registry,
        phase as int,
        place,
        found,
    ) by {
        let k = tools.len() + place;
        assert(is_offer(registry, phase as int, place, found[k]));
    }
}

proof fn lemma_phases_tools(
    registry: ResolvedRegistry,
    policy: PolicyArtifact,
    flow: usize,
    next: nat,
    tools: Seq<PreflightTool>,
    count: nat,
)
    requires
        registry.wf(),
        next <= registry.flows@[flow as int].phase_refs@.len(),
    ensures
        ({
            let found = preflight_phases(registry, policy, flow, next, tools, count);
            &&& goes_on(tools, found.tools)
            &&& found.count == count
            &&& found.fault is None ==> forall|place: int|
                next <= place < registry.flows@[flow as int].phase_refs@.len() ==> {
                    let phase = registry.phase_at(
                        (#[trigger] registry.flows@[flow as int].phase_refs@[place])@,
                    );
                    phase is Some && offers_phase(registry, phase->0, found.tools)
                }
        }),
    decreases registry.flows@[flow as int].phase_refs@.len() - next,
{
    let refs = registry.flows@[flow as int].phase_refs@;
    if next >= refs.len() {
        assert(tools.take(tools.len() as int) =~= tools);
    } else {
        let reference = refs[next as int]@;
        match registry.phase_at(reference) {
            None => {
                assert(tools.take(tools.len() as int) =~= tools);
            },
            Some(phase) => {
                registry::law_text_is_found_at_its_first_place(
                    text::texts_view(registry.phase_refs@),
                    reference,
                );
                assert(registry.phase_refs.len() == registry.phase_refs@.len());
                lemma_phase_tools(registry, policy, phase as usize, 0, tools, count);
                let inner = preflight_phase(registry, policy, phase as usize, 0, tools, count);
                if inner.fault is None {
                    law_phase_offers_each_of_its_tools(
                        registry,
                        policy,
                        phase as usize,
                        tools,
                        count,
                    );
                    lemma_phases_tools(
                        registry,
                        policy,
                        flow,
                        next + 1,
                        inner.tools,
                        inner.count,
                    );
                    let found = preflight_phases(registry, policy, flow, next, tools, count);
                    lemma_goes_on(tools, inner.tools, found.tools);
                    lemma_offers_more(registry, phase, inner.tools, found.tools);
                }
            },
        }
    }
}

/// A look at a flow that succeeds, from which a larger one goes on.
spec fn looked(
    registry: ResolvedRegistry,
    policy: PolicyArtifact,
    limits: FlowLimits,
    flow: usize,
    depth: nat,
    tools: Seq<PreflightTool>,
    count: nat,
    seen: Seq<PreflightTool>,
) -> bool {
    let found = preflight_flow(registry, policy, limits, flow, depth, tools, count);
    found.fault is None && goes_on(found.tools, seen)
}

proof fn lemma_flow_goes_on(
    registry: ResolvedRegistry,
    policy: PolicyArtifact,
    limits: FlowLimits,
    flow: usize,
    depth: nat,
    tools: Seq<PreflightTool>,
    count: nat,
)
    requires
        registry.wf(),
    ensures
        goes_on(
            tools,
            preflight_flow(registry, policy, limits, flow, depth, tools, count).tools,
        ),
    decreases limits.max_nesting_depth + 1 - depth, registry.flows@[flow as int].subflow_refs@.len() + 1,
{
    let block = registry.flows@[flow as int];
    assert(tools.take(tools.len() as int) =~= tools);
    if count < u64::MAX && events::invocation_failure(count, limits.max_invocations) is None
        && depth_failure(block.id@, depth, limits.max_nesting_depth) is None {
        lemma_phases_tools(registry, policy, flow, 0, tools, count + 1);
        let phases = preflight_phases(registry, policy, flow, 0, tools, count + 1);
        if phases.fault is None {
            lemma_subflows_go_on(
                registry,
                policy,
                limits,
                flow,
                depth,
                0,
                phases.tools,
                phases.count,
            );
            lemma_goes_on(
                tools,
                phases.tools,
                preflight_flow(registry, policy, limits, flow, depth, tools, count).tools,
            );
        }
    }
}

proof fn lemma_subflows_go_on(
    registry: ResolvedRegistry,
    policy: PolicyArtifact,
    limits: FlowLimits,
    flow: usize,
    depth: nat,
    next: nat,
    tools: Seq<PreflightTool>,
    count: nat,
)
    requires
        registry.wf(),
    ensures
        goes_on(
            tools,
            preflight_subflows(registry, policy, limits, flow, depth, next, tools, count).tools,
        ),
    decreases
            limits.max_nesting_depth + 1 - depth,
            registry.flows@[flow as int].subflow_refs@.len() - next,
{
    let block = registry.flows@[flow as int];
    assert(tools.take(tools.len() as int) =~= tools);
    if next < block.subflow_refs@.len() && depth <= limits.max_nesting_depth {
        match registry.flow_at(block.subflow_refs@[next as int]@) {
            None => {},
            Some(below) => {
                let below = below as usize;
                lemma_flow_goes_on(registry, policy, limits, below, depth + 1, tools, count);
                let inner = preflight_flow(
                    registry,
                    policy,
                    limits,
                    below,
                    depth + 1,
                    tools,
                    count,
                );
                if inner.fault is None {
                    lemma_subflows_go_on(
                        registry,
                        policy,
                        limits,
                        flow,
                        depth,
                        next + 1,
                        inner.tools,
                        inner.count,
                    );
                    lemma_goes_on(
                        tools,
                        inner.tools,
                        preflight_subflows(
                            registry,
                            policy,
                            limits,
                            flow,
                            depth,
                            next,
                            tools,
                            count,
                        ).tools,
                    );
                }
            },
        }
    }
}

proof fn lemma_subflow_is_looked_at(
    registry: ResolvedRegistry,
    policy: PolicyArtifact,
    limits: FlowLimits,
    flow: usize,
    depth: nat,
    next: nat,
    tools: Seq<PreflightTool>,
    count: nat,
    place: int,
) -> (start: (Seq<PreflightTool>, nat))
    requires
        registry.wf(),
        next <= place < registry.flows@[flow as int].subflow_refs@.len(),
        depth <= limits.max_nesting_depth,
        preflight_subflows(registry, policy, limits, flow, depth, next, tools, count).fault is None,
    ensures
        ({
            let below = registry.flow_at(registry.flows@[flow as int].subflow_refs@[place]@);
            &&& below is Some
            &&& looked(
                registry,
                policy,
                limits,
                below->0 as usize,
                depth + 1,
                start.0,
                start.1,
                preflight_subflows(registry, policy, limits, flow, depth, next, tools, count).tools,
            )
        }),
    decreases place - next,
{
    let below = registry.flow_at(registry.flows@[flow as int].subflow_refs@[next as int]@)->0;
    let inner = preflight_flow(registry, policy, limits, below as usize, depth + 1, tools, count);
    if place == next {
        lemma_subflows_go_on(
            registry,
            policy,
            limits,
            flow,
            depth,
            next + 1,
            inner.tools,
            inner.count,
        );
        (tools, count)
    } else {
        lemma_subflow_is_looked_at(
            registry,
            policy,
            limits,
            flow,
            depth,
            next + 1,
            inner.tools,
            inner.count,
            place,
        )
    }
}

/// Whether a flow is named as a subflow at a place of another.
pub open spec fn is_subflow(registry: ResolvedRegistry, flow: usize, place: int, below: usize) -> bool {
    &&& 0 <= place < registry.flows@[flow as int].subflow_refs@.len()
    &&& registry.flow_at(registry.flows@[flow as int].subflow_refs@[place]@) == Some(below as int)
}

/// Whether a flow is a subflow of another.
pub open spec fn lies_below(registry: ResolvedRegistry, flow: usize, below: usize) -> bool {
    exists|place: int| is_subflow(registry, flow, place, below)
}

/// Whether a path goes down at a place: from a flow to one of its subflows.
pub open spec fn goes_down(registry: ResolvedRegistry, path: Seq<usize>, i: int) -> bool {
    lies_below(registry, path[i], path[i + 1])
}

/// Whether each flow of a path is a subflow of the one before it.
pub open spec fn leads_down(registry: ResolvedRegistry, path: Seq<usize>) -> bool {
    forall|i: int| 0 <= i < path.len() - 1 ==> #[trigger] goes_down(registry, path, i)
}

proof fn lemma_look_reaches(
    registry: ResolvedRegistry,
    policy: PolicyArtifact,
    limits: FlowLimits,
    path: Seq<usize>,
    depth: nat,
    tools: Seq<PreflightTool>,
    count: nat,
    place: int,
)
    requires
        registry.wf(),
        path.len() > 0,
        leads_down(registry, path),
        preflight_flow(registry, policy, limits, path[0], depth, tools, count).fault is None,
        0 <= place < registry.flows@[path.last() as int].phase_refs@.len(),
    ensures
        ({
            let found = preflight_flow(registry, policy, limits, path[0], depth, tools, count);
            let phase = registry.phase_at(
                registry.flows@[path.last() as int].phase_refs@[place]@,
            );
            &&& phase is Some
            &&& offers_phase(registry, phase->0, found.tools)
            &&& depth + path.len() - 1 <= limits.max_nesting_depth
        }),
    decreases path.len(),
{
    let flow = path[0];
    let found = preflight_flow(registry, policy, limits, flow, depth, tools, count);
    let phases = preflight_phases(registry, policy, flow, 0, tools, count + 1);
    lemma_phases_tools(registry, policy, flow, 0, tools, count + 1);
    lemma_subflows_go_on(registry, policy, limits, flow, depth, 0, phases.tools, phases.count);
    if path.len() == 1 {
        let phase = registry.phase_at(registry.flows@[flow as int].phase_refs@[place]@)->0;
        lemma_offers_more(registry, phase, phases.tools, found.tools);
    } else {
        assert(goes_down(registry, path, 0));
        assert(lies_below(registry, path[0], path[1]));
        let down = choose|down: int| is_subflow(registry, path[0], down, path[1]);
        let start = lemma_subflow_is_looked_at(
            registry,
            policy,
            limits,
            flow,
            depth,
            0,
            phases.tools,
            phases.count,
            down,
        );
        let rest = path.skip(1);
        assert forall|i: int| 0 <= i < rest.len() - 1 implies #[trigger] goes_down(
            registry,
            rest,
            i,
        ) by {
            assert(goes_down(registry, path, i + 1));
            assert(rest[i] == path[i + 1]);
            assert(rest[i + 1] == path[i + 2]);
        }
        assert(rest[0] == path[1]);
        assert(rest.last() == path.last());
        lemma_look_reaches(registry, policy, limits, rest, depth + 1, start.0, start.1, place);
        let inner = preflight_flow(
            registry,
            policy,
            limits,
            path[1],
            depth + 1,
            start.0,
            start.1,
        );
        let phase = registry.phase_at(registry.flows@[path.last() as int].phase_refs@[place]@)->0;
        lemma_offers_more(registry, phase, inner.tools, found.tools);
    }
}

/// A look at a flow that finds no fault has looked at every flow below it, however deep: it
/// offers each tool of each phase of each of them, and none of them lies deeper than flows
/// may be nested.
pub proof fn law_look_reaches_every_flow_below(
    registry: ResolvedRegistry,
    policy: PolicyArtifact,
    limits: FlowLimits,
    path: Seq<usize>,
    place: int,
)
    requires
        registry.wf(),
        path.len() > 0,
        leads_down(registry, path),
        preflight_flow(registry, policy, limits, path[0], 1, Seq::empty(), 0).fault is None,
        0 <= place < registry.flows@[path.last() as int].phase_refs@.len(),
    ensures
        ({
            let found = preflight_flow(registry, policy, limits, path[0], 1, Seq::empty(), 0);
            &&& path.len() <= limits.max_nesting_depth
            &&& registry.phase_at(
                registry.flows@[path.last() as int].phase_refs@[place]@,
            ) is Some
            &&& offers_phase(
                registry,
                registry.phase_at(registry.flows@[path.last() as int].phase_refs@[place]@)->0,
                found.tools,
            )
        }),
{
    lemma_look_reaches(registry, policy, limits, path, 1, Seq::empty(), 0, place);
}

} // verus!

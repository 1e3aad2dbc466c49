//! Planning an execution, and holding what is carried out to its plan.

use crate::engine::mode::{FlowExecutionOptions, ToolSideEffectMode};
use crate::engine::signature::{FlowExecutionPlan, RuntimeExecution};
use crate::engine::signature;
use crate::error::{protocol, ErrorModel, RuntimeError};
use crate::error;
use vstd::prelude::*;

verus! {

/// What is wrong with planning in a mode.
pub open spec fn planning_failure(mode: ToolSideEffectMode) -> Option<ErrorModel> {
    if mode != ToolSideEffectMode::Plan {
        error::protocol_failure("flow planning requires ToolSideEffectMode::Plan"@)
    } else {
        None
    }
}

/// Accepts the mode in which a plan is made.
pub fn require_planning(mode: ToolSideEffectMode) -> (result: Result<(), RuntimeError>)
    ensures
        error::failure(result) == planning_failure(mode),
{
    if mode != ToolSideEffectMode::Plan {
        return Err(protocol("flow planning requires ToolSideEffectMode::Plan"));
    }
    Ok(())
}

/// Makes a plan of what an execution came to.
pub fn plan_flow_with_sink(
    options: &FlowExecutionOptions,
    executed: Result<RuntimeExecution, RuntimeError>,
) -> (result: Result<FlowExecutionPlan, RuntimeError>)
    ensures
        error::failure(result) == error::first_failure(
            planning_failure(options.side_effect_mode),
            error::failure(executed),
        ),
        result matches Ok(plan) ==> {
            &&& executed == Ok::<RuntimeExecution, RuntimeError>(plan.execution)
            &&& plan.signature@ == signature::plan_signature(plan.execution@)
        },
{
    require_planning(options.side_effect_mode)?;
    let execution = executed?;
    Ok(FlowExecutionPlan::from_execution(execution))
}

/// Makes a plan of what an execution came to that no one listened to.
pub fn plan_flow(
    options: &FlowExecutionOptions,
    executed: Result<RuntimeExecution, RuntimeError>,
) -> (result: Result<FlowExecutionPlan, RuntimeError>)
    ensures
        error::failure(result) == error::first_failure(
            planning_failure(options.side_effect_mode),
            error::failure(executed),
        ),
        result matches Ok(plan) ==> {
            &&& executed == Ok::<RuntimeExecution, RuntimeError>(plan.execution)
            &&& plan.signature@ == signature::plan_signature(plan.execution@)
        },
{
    plan_flow_with_sink(options, executed)
}

/// What is to be carried out, with its plan.
pub struct FlowApplication {
    pub options: FlowExecutionOptions,
    pub plan: FlowExecutionPlan,
}

/// What is wrong with carrying out a plan.
pub open spec fn application_failure(
    mode: ToolSideEffectMode,
    plan: FlowExecutionPlan,
) -> Option<ErrorModel> {
    if mode == ToolSideEffectMode::Plan {
        error::protocol_failure("flow apply cannot use ToolSideEffectMode::Plan"@)
    } else if signature::plan_signature(plan.execution@) != plan.signature@ {
        error::protocol_failure("flow execution plan signature is invalid"@)
    } else {
        None
    }
}

/// What is wrong with what was carried out of a plan.
pub open spec fn applied_failure(
    execution: RuntimeExecution,
    plan: FlowExecutionPlan,
) -> Option<ErrorModel> {
    if !execution.failed && !signature::execution_matches(execution@, plan.execution@, plan.signature@) {
        error::protocol_failure("flow apply did not match its execution plan"@)
    } else {
        None
    }
}

impl FlowApplication {
    /// Accepts a plan that may be carried out.
    pub fn require_sound(&self) -> (result: Result<(), RuntimeError>)
        ensures
            error::failure(result) == application_failure(self.options.side_effect_mode, self.plan),
    {
        if self.options.side_effect_mode == ToolSideEffectMode::Plan {
            return Err(protocol("flow apply cannot use ToolSideEffectMode::Plan"));
        }
        self.plan.validate_integrity()
    }
}

/// Accepts what was carried out: an execution that did not fail is what was planned.
pub fn apply_flow_with_sink(
    application: &FlowApplication,
    executed: Result<RuntimeExecution, RuntimeError>,
) -> (result: Result<RuntimeExecution, RuntimeError>)
    ensures
        error::failure(result) == error::first_failure(
            application_failure(application.options.side_effect_mode, application.plan),
            match executed {
                Ok(execution) => applied_failure(execution, application.plan),
                Err(error) => Some(error@),
            },
        ),
        result matches Ok(execution) ==> executed == Ok::<RuntimeExecution, RuntimeError>(execution),
{
    application.require_sound()?;
    let execution = executed?;
    if !execution.failed && !execution.matches_plan(&application.plan) {
        return Err(protocol("flow apply did not match its execution plan"));
    }
    Ok(execution)
}

/// What a plan is made of can be carried out as planned: the same execution is
/// accepted, in every mode but that of planning.
pub proof fn law_planned_execution_is_accepted(
    plan: FlowExecutionPlan,
    execution: RuntimeExecution,
    mode: ToolSideEffectMode,
)
    requires
        plan.signature@ == signature::plan_signature(plan.execution@),
        execution@ == plan.execution@,
        mode != ToolSideEffectMode::Plan,
    ensures
        application_failure(mode, plan) is None,
        applied_failure(execution, plan) is None,
{
}

/// A flow is planned in the planning mode alone and applied in every other, with a plan whose
/// signature is its own; what was applied without failing must be what was planned.
pub proof fn law_application_keeps_to_its_plan(
    mode: ToolSideEffectMode,
    plan: FlowExecutionPlan,
    execution: RuntimeExecution,
)
    ensures
        planning_failure(mode) is None <==> mode is Plan,
        application_failure(mode, plan) is None <==> mode !is Plan && plan.signature@
            == signature::plan_signature(plan.execution@),
        plan.signature@ == signature::plan_signature(plan.execution@) ==> (applied_failure(
            execution,
            plan,
        ) is None <==> execution.failed || execution@ == plan.execution@),
{
    signature::law_plan_holds_executions_to_it(plan.execution@, execution@);
}

} // verus!

//! What an execution may do, and how many flows may be live.

use crate::error::{protocol, ErrorModel, RuntimeError};
use crate::error;
use crate::text::{decimal_text, join2};
use crate::text;
use vstd::prelude::*;

verus! {

/// What an execution does about the side effects of tools.
#[derive(Clone, Copy, Debug, PartialEq, Eq, Structural)]
pub enum ToolSideEffectMode {
    Apply,
    Plan,
    PreflightResume { prefix_event_count: u64 },
    Resume { prefix_event_count: u64 },
}

impl ToolSideEffectMode {
    /// Whether a flow takes up one of the places for live invocations.
    pub open spec fn occupies(self, terminal_in_prefix: bool) -> bool {
        self is Apply || (self is Resume && !terminal_in_prefix)
    }

    /// Whether a tool is run whose completion would have a sequence number.
    pub open spec fn executes(self, completed_sequence: u64) -> bool {
        match self {
            ToolSideEffectMode::Apply => true,
            ToolSideEffectMode::Resume { prefix_event_count } => completed_sequence
                > prefix_event_count,
            _ => false,
        }
    }

    /// Whether a tool is only looked at before it would be run.
    pub open spec fn preflights(self, completed_sequence: u64) -> bool {
        match self {
            ToolSideEffectMode::PreflightResume { prefix_event_count } => completed_sequence
                > prefix_event_count,
            _ => false,
        }
    }

    /// Whether a flow takes up one of the places for live invocations.
    pub fn occupies_live_invocation_slot(self, terminal_in_prefix: bool) -> (occupies: bool)
        ensures
            occupies == self.occupies(terminal_in_prefix),
    {
        match self {
            ToolSideEffectMode::Apply => true,
            ToolSideEffectMode::Resume { .. } => !terminal_in_prefix,
            _ => false,
        }
    }

    /// Whether a tool is run whose completion would have a sequence number.
    pub fn should_execute_tool(self, completed_sequence: u64) -> (execute: bool)
        ensures
            execute == self.executes(completed_sequence),
    {
        match self {
            ToolSideEffectMode::Apply => true,
            ToolSideEffectMode::Plan => false,
            ToolSideEffectMode::PreflightResume { .. } => false,
            ToolSideEffectMode::Resume { prefix_event_count } => completed_sequence
                > prefix_event_count,
        }
    }

    /// Whether a tool is only looked at before it would be run.
    pub fn should_preflight_tool(self, completed_sequence: u64) -> (preflight: bool)
        ensures
            preflight == self.preflights(completed_sequence),
    {
        match self {
            ToolSideEffectMode::PreflightResume { prefix_event_count } => completed_sequence
                > prefix_event_count,
            _ => false,
        }
    }
}

/// No mode both runs a tool and only looks at it; a plan does neither; and what a
/// resumed execution runs is what its preflight looked at.
pub proof fn law_modes(mode: ToolSideEffectMode, completed_sequence: u64, prefix_event_count: u64)
    ensures
        !(mode.executes(completed_sequence) && mode.preflights(completed_sequence)),
        !ToolSideEffectMode::Plan.executes(completed_sequence),
        !ToolSideEffectMode::Plan.preflights(completed_sequence),
        (ToolSideEffectMode::Resume { prefix_event_count }).executes(completed_sequence) <==> (
        ToolSideEffectMode::PreflightResume { prefix_event_count }).preflights(completed_sequence),
        mode.executes(completed_sequence) ==> mode.occupies(false),
{
}

/// Whether a failure of the runtime ends the session with an event of its own.
pub open spec fn terminalizes_failures(mode: ToolSideEffectMode) -> bool {
    mode is Apply || mode is Resume
}

/// Whether a failure of the runtime ends the session with an event of its own.
pub fn should_terminalize_runtime_error(side_effect_mode: ToolSideEffectMode) -> (terminalize: bool)
    ensures
        terminalize == terminalizes_failures(side_effect_mode),
{
    match side_effect_mode {
        ToolSideEffectMode::Apply | ToolSideEffectMode::Resume { .. } => true,
        _ => false,
    }
}

/// Whether an error ends the session with an event of its own: never one of the
/// event writer, and always an exceeded context budget.
pub open spec fn terminalizes(mode: ToolSideEffectMode, error: ErrorModel) -> bool {
    !(error is EventWriter) && (terminalizes_failures(mode) || error is ContextBudgetExceeded)
}

/// Whether an error ends the session with an event of its own.
pub fn should_terminalize_error(side_effect_mode: ToolSideEffectMode, error: &RuntimeError) -> (
    terminalize: bool)
    ensures
        terminalize == terminalizes(side_effect_mode, error@),
{
    match error {
        RuntimeError::EventWriter(_) => false,
        RuntimeError::ContextBudgetExceeded(_) => true,
        _ => should_terminalize_runtime_error(side_effect_mode),
    }
}

/// The clock that event timestamps are counted from.
#[derive(Clone, Copy, Debug, PartialEq, Eq, Structural)]
pub struct EventClock {
    pub base_unix_seconds: i64,
}

/// How a flow is to be run.
pub struct FlowExecutionOptions {
    pub clock: EventClock,
    pub side_effect_mode: ToolSideEffectMode,
    pub stub_model_fixture_profile: bool,
    pub terminal_flow_ids: Vec<String>,
}

impl FlowExecutionOptions {
    /// Options without flows that have ended already.
    pub fn with_stub_model_fixture_profile(
        clock: EventClock,
        side_effect_mode: ToolSideEffectMode,
        stub_model_fixture_profile: bool,
    ) -> (options: FlowExecutionOptions)
        ensures
            options.clock == clock,
            options.side_effect_mode == side_effect_mode,
            options.stub_model_fixture_profile == stub_model_fixture_profile,
            options.terminal_flow_ids@.len() == 0,
    {
        FlowExecutionOptions {
            clock,
            side_effect_mode,
            stub_model_fixture_profile,
            terminal_flow_ids: Vec::new(),
        }
    }

    /// The same options with flows that have ended already.
    pub fn with_terminal_flow_ids(self, terminal_flow_ids: Vec<String>) -> (options:
        FlowExecutionOptions)
        ensures
            options.clock == self.clock,
            options.side_effect_mode == self.side_effect_mode,
            options.stub_model_fixture_profile == self.stub_model_fixture_profile,
            options.terminal_flow_ids == terminal_flow_ids,
    {
        FlowExecutionOptions {
            clock: self.clock,
            side_effect_mode: self.side_effect_mode,
            stub_model_fixture_profile: self.stub_model_fixture_profile,
            terminal_flow_ids,
        }
    }
}

/// How many flow invocations are live.
#[derive(Debug, PartialEq, Eq, Structural)]
pub struct LiveInvocationCounter {
    pub count: usize,
}

/// The place that one live invocation takes up.
#[derive(Debug, PartialEq, Eq, Structural)]
pub struct LiveInvocationGuard {
    pub place: usize,
}

/// What is wrong with one more live invocation.
pub open spec fn live_failure(count: usize, maximum: usize) -> Option<ErrorModel> {
    if count >= maximum {
        error::protocol_failure(
            "global live flow invocation limit reached: max "@ + text::decimal(maximum as nat),
        )
    } else {
        None
    }
}

impl LiveInvocationCounter {
    /// No invocation is live.
    pub fn new() -> (counter: LiveInvocationCounter)
        ensures
            counter.count == 0,
    {
        LiveInvocationCounter { count: 0 }
    }

    /// The count after one more invocation, where so many were observed and one more
    /// may be.
    pub fn next_count(observed: usize, maximum: usize) -> (result: Result<usize, RuntimeError>)
        ensures
            error::failure(result) == live_failure(observed, maximum),
            result matches Ok(next) ==> next == observed + 1 && next <= maximum,
    {
        if observed >= maximum {
            let limit = decimal_text(maximum as u64);
            let message = join2("global live flow invocation limit reached: max ", limit.as_str());
            return Err(protocol(message.as_str()));
        }
        Ok(observed + 1)
    }

    /// Takes up a place.
    pub fn acquire(&mut self, maximum: usize) -> (result: Result<LiveInvocationGuard, RuntimeError>)
        ensures
            error::failure(result) == live_failure(old(self).count, maximum),
            result matches Ok(guard) ==> final(self).count == old(self).count + 1 && guard.place
                == final(self).count && final(self).count <= maximum,
            result is Err ==> *final(self) == *old(self),
    {
        let next = Self::next_count(self.count, maximum)?;
        self.count = next;
        Ok(LiveInvocationGuard { place: next })
    }

    /// Gives up a place.
    pub fn release(&mut self, guard: LiveInvocationGuard)
        requires
            1 <= guard.place <= old(self).count,
        ensures
            final(self).count == old(self).count - 1,
    {
        self.count = self.count - 1;
    }
}

/// What each mode does. Applying runs every tool; resuming runs exactly those behind the
/// events that are there already, and preflighting a resume looks at exactly those; planning
/// does neither. A session is occupied by applying, and by resuming unless it had ended.
pub proof fn law_what_each_mode_does(
    sequence: u64,
    prefix_event_count: u64,
    terminal_in_prefix: bool,
)
    ensures
        ToolSideEffectMode::Apply.executes(sequence),
        !ToolSideEffectMode::Apply.preflights(sequence),
        ToolSideEffectMode::Apply.occupies(terminal_in_prefix),
        !ToolSideEffectMode::Plan.executes(sequence),
        !ToolSideEffectMode::Plan.preflights(sequence),
        !ToolSideEffectMode::Plan.occupies(terminal_in_prefix),
        ({
            let resume = ToolSideEffectMode::Resume { prefix_event_count };
            &&& resume.executes(sequence) <==> sequence > prefix_event_count
            &&& !resume.preflights(sequence)
            &&& resume.occupies(terminal_in_prefix) <==> !terminal_in_prefix
        }),
        ({
            let preflight = ToolSideEffectMode::PreflightResume { prefix_event_count };
            &&& preflight.preflights(sequence) <==> sequence > prefix_event_count
            &&& !preflight.executes(sequence)
            &&& !preflight.occupies(terminal_in_prefix)
        }),
{
}

/// A failure ends a session for good exactly where the session is written: in applying and in
/// resuming. A failure of the writing itself never does, and a context that is too large
/// always does.
pub proof fn law_which_failures_are_terminal(mode: ToolSideEffectMode, error: ErrorModel)
    ensures
        error is EventWriter ==> !terminalizes(mode, error),
        error is ContextBudgetExceeded ==> terminalizes(mode, error),
        !(error is EventWriter) && !(error is ContextBudgetExceeded) ==> (terminalizes(mode, error)
            <==> mode is Apply || mode is Resume),
{
}

/// A flow may go live exactly where fewer are live than may be.
pub proof fn law_live_flows_are_limited(count: usize, maximum: usize)
    ensures
        live_failure(count, maximum) is None <==> count < maximum,
{
}

} // verus!

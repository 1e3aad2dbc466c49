//! Budgets for the work and the scratch space that validating a history may use.

use crate::error::{protocol, ErrorModel, RuntimeError};
use crate::error;
use vstd::prelude::*;

verus! {

pub const INDEX_MEMORY_LIMIT: u64 = 64 * 1024 * 1024;
pub const INDEX_SCRATCH_PER_ENTRY: u64 = 1024;
pub const INDEX_WORK_RESERVE: u64 = 16 * 1024 * 1024;
pub const INDEX_SORT_BYTES: usize = 16 * 1024 * 1024;
pub const INDEX_MERGE_FAN_IN: u64 = 64;

/// How many steps have been taken, and how many may be.
#[derive(Clone, Copy, Debug, PartialEq, Eq, Structural)]
pub struct WorkBudget {
    pub used: u64,
    pub limit: u64,
}

/// What is wrong with taking some more steps.
pub open spec fn work_failure(budget: WorkBudget, amount: nat) -> Option<ErrorModel> {
    if budget.used + amount > u64::MAX {
        error::protocol_failure("conversation history work count overflow"@)
    } else if budget.used + amount > budget.limit {
        error::protocol_failure("conversation history exceeds its O(n log n) work budget"@)
    } else {
        None
    }
}

/// The budget after an attempt to take some more steps: the count goes up even
/// where it then exceeds the limit, but never overflows.
pub open spec fn work_after(budget: WorkBudget, amount: nat) -> WorkBudget {
    if budget.used + amount > u64::MAX {
        budget
    } else {
        WorkBudget { used: (budget.used + amount) as u64, limit: budget.limit }
    }
}

impl WorkBudget {
    /// Takes some more steps, or says that they are too many.
    pub fn add(&mut self, amount: u64) -> (result: Result<(), RuntimeError>)
        ensures
            error::failure(result) == work_failure(*old(self), amount as nat),
            *final(self) == work_after(*old(self), amount as nat),
            result is Ok ==> final(self).used <= final(self).limit,
    {
        match self.used.checked_add(amount) {
            None => Err(protocol("conversation history work count overflow")),
            Some(used) => {
                self.used = used;
                if self.used > self.limit {
                    return Err(protocol("conversation history exceeds its O(n log n) work budget"));
                }
                Ok(())
            },
        }
    }
}

/// What is wrong with taking some more steps, one at a time.
pub open spec fn spend_failure(budget: WorkBudget, steps: nat) -> Option<ErrorModel> {
    if budget.used + steps <= budget.limit {
        None
    } else if budget.limit == u64::MAX {
        error::protocol_failure("conversation history work count overflow"@)
    } else {
        error::protocol_failure("conversation history exceeds its O(n log n) work budget"@)
    }
}

/// The budget after an attempt to take some more steps, one at a time: the first
/// step beyond the limit is the last that is counted.
pub open spec fn spent(budget: WorkBudget, steps: nat) -> WorkBudget {
    WorkBudget {
        used: if budget.used + steps <= budget.limit {
            (budget.used + steps) as u64
        } else if budget.limit == u64::MAX {
            u64::MAX
        } else {
            (budget.limit + 1) as u64
        },
        limit: budget.limit,
    }
}

/// Adding in two steps is adding at once, wherever the first step is within the
/// budget.
pub proof fn law_work_adds_up(budget: WorkBudget, first: nat, second: nat)
    requires
        work_failure(budget, first) is None,
    ensures
        work_after(work_after(budget, first), second) == work_after(budget, first + second)
            || budget.used + first + second > u64::MAX,
        work_failure(work_after(budget, first), second) == work_failure(budget, first + second),
{
}

/// How many binary digits a number has.
pub open spec fn bit_length(value: nat) -> nat
    decreases value,
{
    if value == 0 {
        0
    } else {
        1 + bit_length(value / 2)
    }
}

/// The logarithm by which a work budget grows: that of the count to base two,
/// rounded up, and at least one.
pub open spec fn budget_logarithm(count: nat) -> nat {
    if count <= 1 {
        1
    } else {
        bit_length((count - 1) as nat)
    }
}

/// The steps that a count of items may take.
pub open spec fn work_limit(count: nat) -> nat {
    (if count < 1 {
        1
    } else {
        count
    }) * (budget_logarithm(count) + 1) * 128
}

fn bit_length_of(value: u64) -> (length: u64)
    ensures
        length == bit_length(value as nat),
        length <= 64,
{
    let mut rest: u64 = value;
    let mut length: u64 = 0;
    let ghost mut bound: nat = 0x1_0000_0000_0000_0000;
    proof {
        vstd::arithmetic::power2::lemma2_to64();
    }
    while rest > 0
        invariant
            length + bit_length(rest as nat) == bit_length(value as nat),
            rest < bound,
            length <= 64,
            bound == vstd::arithmetic::power2::pow2((64 - length) as nat),
        decreases rest,
    {
        proof {
            if length == 64 {
                vstd::arithmetic::power2::lemma2_to64();
                assert(bound == 1);
            }
            vstd::arithmetic::power2::lemma_pow2_unfold((64 - length) as nat);
            bound = vstd::arithmetic::power2::pow2((63 - length) as nat);
        }
        rest = rest / 2;
        length = length + 1;
    }
    length
}

fn work_limit_of(count: u64) -> (limit: Option<u64>)
    ensures
        match limit {
            Some(limit) => limit == work_limit(count as nat),
            None => work_limit(count as nat) > u64::MAX,
        },
{
    let logarithm: u64 = if count <= 1 { 1 } else { bit_length_of(count - 1) };
    let items: u64 = if count < 1 { 1 } else { count };
    match items.checked_mul(logarithm + 1) {
        None => {
            assert(items * (logarithm + 1) * 128 >= items * (logarithm + 1)) by (nonlinear_arith)
                requires
                    items * (logarithm + 1) >= 0,
            ;
            None
        },
        Some(work) => work.checked_mul(128),
    }
}

/// What is wrong with the work budget of a history.
pub open spec fn history_work_failure(entries: nat) -> Option<ErrorModel> {
    if work_limit(entries) > u64::MAX {
        error::protocol_failure("conversation history work budget overflow"@)
    } else {
        None
    }
}

/// The steps that a history of some entries may take.
pub fn history_work_limit(entries: u64) -> (result: Result<u64, RuntimeError>)
    ensures
        error::failure(result) == history_work_failure(entries as nat),
        result matches Ok(limit) ==> limit == work_limit(entries as nat),
{
    match work_limit_of(entries) {
        Some(limit) => Ok(limit),
        None => Err(protocol("conversation history work budget overflow")),
    }
}

/// What is wrong with the scratch budget of a history.
pub open spec fn history_scratch_failure(entries: nat) -> Option<ErrorModel> {
    if entries * INDEX_SCRATCH_PER_ENTRY + INDEX_WORK_RESERVE > u64::MAX {
        error::protocol_failure("conversation history scratch budget overflow"@)
    } else {
        None
    }
}

/// The scratch bytes that a history of some entries may use.
pub fn history_scratch_limit(entries: u64) -> (result: Result<u64, RuntimeError>)
    ensures
        error::failure(result) == history_scratch_failure(entries as nat),
        result matches Ok(limit) ==> limit == entries * INDEX_SCRATCH_PER_ENTRY
            + INDEX_WORK_RESERVE,
{
    match entries.checked_mul(INDEX_SCRATCH_PER_ENTRY) {
        None => Err(protocol("conversation history scratch budget overflow")),
        Some(bytes) => match bytes.checked_add(INDEX_WORK_RESERVE) {
            None => Err(protocol("conversation history scratch budget overflow")),
            Some(limit) => Ok(limit),
        },
    }
}

/// The limits that bound the identifiers of one event stream.
#[derive(Clone, Copy, Debug, PartialEq, Eq, Structural)]
pub struct IdentifierLimits {
    pub max_flow_events: u64,
    pub max_state_identifiers: u64,
    pub max_payload_identifiers: u64,
}

/// How many identifiers the events up to a sequence number hold at most.
pub open spec fn identifier_count(limits: IdentifierLimits, event_sequence: u64) -> nat {
    (if event_sequence < limits.max_flow_events {
        event_sequence
    } else {
        limits.max_flow_events
    }) as nat * limits.max_state_identifiers as nat
}

/// What is wrong with the work budget of an event stream's identifiers.
pub open spec fn identifier_work_failure(
    limits: IdentifierLimits,
    event_sequence: u64,
) -> Option<ErrorModel> {
    let identifiers = identifier_count(limits, event_sequence);
    if identifiers > u64::MAX || work_limit(identifiers) > u64::MAX {
        error::protocol_failure("event identifier work budget overflow"@)
    } else {
        None
    }
}

/// The steps that sorting the identifiers of an event stream may take.
pub fn event_identifier_work_limit(
    limits: IdentifierLimits,
    event_sequence: u64,
) -> (result: Result<u64, RuntimeError>)
    ensures
        error::failure(result) == identifier_work_failure(limits, event_sequence),
        result matches Ok(limit) ==> limit == work_limit(
            identifier_count(limits, event_sequence),
        ),
{
    let events: u64 = if event_sequence < limits.max_flow_events {
        event_sequence
    } else {
        limits.max_flow_events
    };
    match events.checked_mul(limits.max_state_identifiers) {
        None => Err(protocol("event identifier work budget overflow")),
        Some(identifiers) => match work_limit_of(identifiers) {
            Some(limit) => Ok(limit),
            None => Err(protocol("event identifier work budget overflow")),
        },
    }
}

/// The largest figures seen while event pointers were validated.
#[derive(Clone, Copy, Debug, PartialEq, Eq, Structural)]
pub struct EventPointerMetrics {
    pub state_payload_peak: u64,
    pub work: u64,
    pub work_limit: u64,
}

/// The larger of two numbers.
pub open spec fn larger(left: u64, right: u64) -> u64 {
    if left < right {
        right
    } else {
        left
    }
}

impl EventPointerMetrics {
    /// Takes the larger of each figure.
    pub fn merge(&mut self, other: EventPointerMetrics)
        ensures
            final(self).state_payload_peak == larger(
                old(self).state_payload_peak,
                other.state_payload_peak,
            ),
            final(self).work == larger(old(self).work, other.work),
            final(self).work_limit == larger(old(self).work_limit, other.work_limit),
    {
        if self.state_payload_peak < other.state_payload_peak {
            self.state_payload_peak = other.state_payload_peak;
        }
        if self.work < other.work {
            self.work = other.work;
        }
        if self.work_limit < other.work_limit {
            self.work_limit = other.work_limit;
        }
    }
}

} // verus!

//! Attempts: what a run meant to do, written down before it was done, and what came
//! of it.

use crate::contract::{validate_attempt_id, validate_digest, validate_hash, validate_record_schema, validate_timestamp, Checked, CheckedModel, RUN_LOG_RECORD_SCHEMA_V1};
use crate::contract;
use crate::error::{protocol, ErrorModel, RuntimeError};
use crate::error;
use crate::keyed::KeyedList;
use crate::migration::manifest::LegacySourceManifest;
use crate::text::{same_optional, same_text};
use crate::text;
use vstd::prelude::*;

verus! {

/// What an attempt asks: a provider, or a tool.
#[derive(Clone, Copy, Debug, PartialEq, Eq, Structural)]
pub enum RunAttemptKind {
    Provider,
    Tool,
}

/// Whether it is known what came of an attempt.
#[derive(Clone, Copy, Debug, PartialEq, Eq, Structural)]
pub enum RunAttemptLifecycle {
    Completed,
    Uncertain,
}

/// What a tool is to be held to.
pub struct ToolEnforcementExpectation {
    pub applied_policy_digest: String,
    pub max_concurrent_processes_and_threads: u64,
}

/// What a tool is to be held to, by its contents.
pub struct EnforcementModel {
    pub applied_policy_digest: Seq<char>,
    pub max_concurrent_processes_and_threads: u64,
}

impl View for ToolEnforcementExpectation {
    type V = EnforcementModel;

    open spec fn view(&self) -> EnforcementModel {
        EnforcementModel {
            applied_policy_digest: self.applied_policy_digest@,
            max_concurrent_processes_and_threads: self.max_concurrent_processes_and_threads,
        }
    }
}

impl Clone for ToolEnforcementExpectation {
    fn clone(&self) -> (copy: Self)
        ensures
            copy@ == self@,
    {
        ToolEnforcementExpectation {
            applied_policy_digest: self.applied_policy_digest.clone(),
            max_concurrent_processes_and_threads: self.max_concurrent_processes_and_threads,
        }
    }
}

/// An optional expectation, by its contents.
pub open spec fn expectation_view(expectation: Option<ToolEnforcementExpectation>) -> Option<
    EnforcementModel,
> {
    match expectation {
        Some(expectation) => Some(expectation@),
        None => None,
    }
}

/// An optional checked text, by its contents.
pub open spec fn checked_view(checked: Option<Checked>) -> Option<CheckedModel> {
    match checked {
        Some(checked) => Some(checked@),
        None => None,
    }
}

fn clone_expectation(expectation: &Option<ToolEnforcementExpectation>) -> (copy: Option<
    ToolEnforcementExpectation,
>)
    ensures
        expectation_view(copy) == expectation_view(*expectation),
{
    match expectation {
        Some(expectation) => Some(expectation.clone()),
        None => None,
    }
}

/// Another copy of an optional checked text.
pub fn clone_checked(checked: &Option<Checked>) -> (copy: Option<Checked>)
    ensures
        checked_view(copy) == checked_view(*checked),
{
    match checked {
        Some(checked) => Some(checked.clone()),
        None => None,
    }
}

/// What is about to be attempted.
pub struct RunAttemptIntent {
    pub attempt_id: Checked,
    pub attempt_kind: RunAttemptKind,
    pub expected_enforcement: Option<ToolEnforcementExpectation>,
    pub request_hash: String,
    pub timestamp: Checked,
    pub tool_id: Option<Checked>,
}

/// What is about to be attempted, by its contents.
pub struct IntentFacts {
    pub attempt_id: CheckedModel,
    pub attempt_kind: RunAttemptKind,
    pub expected_enforcement: Option<EnforcementModel>,
    pub request_hash: Seq<char>,
    pub timestamp: CheckedModel,
    pub tool_id: Option<CheckedModel>,
}

impl View for RunAttemptIntent {
    type V = IntentFacts;

    open spec fn view(&self) -> IntentFacts {
        IntentFacts {
            attempt_id: self.attempt_id@,
            attempt_kind: self.attempt_kind,
            expected_enforcement: expectation_view(self.expected_enforcement),
            request_hash: self.request_hash@,
            timestamp: self.timestamp@,
            tool_id: checked_view(self.tool_id),
        }
    }
}

impl Clone for RunAttemptIntent {
    fn clone(&self) -> (copy: Self)
        ensures
            copy@ == self@,
    {
        RunAttemptIntent {
            attempt_id: self.attempt_id.clone(),
            attempt_kind: self.attempt_kind,
            expected_enforcement: clone_expectation(&self.expected_enforcement),
            request_hash: self.request_hash.clone(),
            timestamp: self.timestamp.clone(),
            tool_id: clone_checked(&self.tool_id),
        }
    }
}

/// What came of an attempt. The outcome is held by its name, and what the tool gave
/// back in its canonical form.
pub struct RunAttemptResult {
    pub attempt_id: Checked,
    pub attempt_kind: RunAttemptKind,
    pub outcome: String,
    pub classification: Option<String>,
    pub exit_code: Option<i32>,
    pub timestamp: Checked,
    pub durable_output: Option<String>,
}

/// What came of an attempt, with everything that is known of it.
pub struct ResultModel {
    pub attempt_id: Seq<char>,
    pub attempt_kind: RunAttemptKind,
    pub outcome: Seq<char>,
    pub classification: Option<Seq<char>>,
    pub exit_code: Option<i32>,
    pub timestamp: Seq<char>,
    pub durable_output: Option<Seq<char>>,
}

/// What came of an attempt, by its contents.
pub open spec fn result_view(result: RunAttemptResult) -> ResultModel {
    ResultModel {
        attempt_id: result.attempt_id.text@,
        attempt_kind: result.attempt_kind,
        outcome: result.outcome@,
        classification: text::optional_view(result.classification),
        exit_code: result.exit_code,
        timestamp: result.timestamp.text@,
        durable_output: text::optional_view(result.durable_output),
    }
}

/// Another copy of an optional text.
pub fn clone_optional(value: &Option<String>) -> (copy: Option<String>)
    ensures
        text::optional_view(copy) == text::optional_view(*value),
{
    match value {
        Some(value) => Some(value.clone()),
        None => None,
    }
}

impl Clone for RunAttemptResult {
    fn clone(&self) -> (copy: Self)
        ensures
            result_view(copy) == result_view(*self),
            copy@ == self@,
    {
        RunAttemptResult {
            attempt_id: self.attempt_id.clone(),
            attempt_kind: self.attempt_kind,
            outcome: self.outcome.clone(),
            classification: clone_optional(&self.classification),
            exit_code: self.exit_code,
            timestamp: self.timestamp.clone(),
            durable_output: clone_optional(&self.durable_output),
        }
    }
}

/// Whether the same came of two attempts.
pub fn same_result(left: &RunAttemptResult, right: &RunAttemptResult) -> (same: bool)
    ensures
        same == (result_view(*left) == result_view(*right)),
{
    let same_code = match left.exit_code {
        Some(code) => match right.exit_code {
            Some(other) => code == other,
            None => false,
        },
        None => right.exit_code.is_none(),
    };
    same_text(left.attempt_id.text.as_str(), right.attempt_id.text.as_str()) && left.attempt_kind
        == right.attempt_kind && same_text(left.outcome.as_str(), right.outcome.as_str())
        && same_optional(&left.classification, &right.classification) && same_code && same_text(
        left.timestamp.text.as_str(),
        right.timestamp.text.as_str(),
    ) && same_optional(&left.durable_output, &right.durable_output)
}

/// What the log says came of an attempt.
pub struct TerminalRecord {
    pub result: RunAttemptResult,
    pub tool_id: Option<Checked>,
}

/// What came of an attempt, as far as later records go by it.
pub struct ResultFacts {
    pub attempt_id: CheckedModel,
    pub attempt_kind: RunAttemptKind,
    pub outcome: Seq<char>,
    pub timestamp: CheckedModel,
}

impl View for RunAttemptResult {
    type V = ResultFacts;

    open spec fn view(&self) -> ResultFacts {
        ResultFacts {
            attempt_id: self.attempt_id@,
            attempt_kind: self.attempt_kind,
            outcome: self.outcome@,
            timestamp: self.timestamp@,
        }
    }
}

/// What a run executes: recorded once, at the beginning of its log.
pub struct RunDefinition {
    pub flow_definition_id: Checked,
    pub registry_hash: String,
    pub flow_definition_hash: String,
    pub model: Option<String>,
    pub model_profile_id: Option<String>,
    pub model_context_limit: Option<usize>,
    pub output_reserve: Option<usize>,
    pub safety_margin: Option<usize>,
    pub legacy_session_id: Option<String>,
    pub legacy_source_manifest: Option<LegacySourceManifest>,
}

/// A record of a run log.
pub enum RunLogRecord {
    Definition { schema: String, definition: RunDefinition },
    Intent { schema: String, intent: RunAttemptIntent },
    TerminalResult { schema: String, terminal: TerminalRecord },
}

/// A record, as far as the attempts go by it.
pub enum RecordFacts {
    Definition { schema: Seq<char> },
    Intent { schema: Seq<char>, intent: IntentFacts },
    TerminalResult { schema: Seq<char>, result: ResultFacts, tool_id: Option<CheckedModel> },
}

impl View for RunLogRecord {
    type V = RecordFacts;

    open spec fn view(&self) -> RecordFacts {
        match *self {
            RunLogRecord::Definition { schema, .. } => RecordFacts::Definition { schema: schema@ },
            RunLogRecord::Intent { schema, intent } => RecordFacts::Intent {
                schema: schema@,
                intent: intent@,
            },
            RunLogRecord::TerminalResult { schema, terminal } => RecordFacts::TerminalResult {
                schema: schema@,
                result: terminal.result@,
                tool_id: checked_view(terminal.tool_id),
            },
        }
    }
}

/// What is known of an attempt.
pub struct RunAttemptState {
    pub intent: RunAttemptIntent,
    pub lifecycle: RunAttemptLifecycle,
    pub outcome: Option<String>,
}

/// What is known of an attempt, by its contents.
pub struct AttemptModel {
    pub intent: IntentFacts,
    pub lifecycle: RunAttemptLifecycle,
    pub outcome: Option<Seq<char>>,
}

impl View for RunAttemptState {
    type V = AttemptModel;

    open spec fn view(&self) -> AttemptModel {
        AttemptModel {
            intent: self.intent@,
            lifecycle: self.lifecycle,
            outcome: text::optional_view(self.outcome),
        }
    }
}

impl Clone for RunAttemptState {
    fn clone(&self) -> (copy: Self)
        ensures
            copy@ == self@,
    {
        let outcome = match &self.outcome {
            Some(outcome) => Some(outcome.clone()),
            None => None,
        };
        RunAttemptState { intent: self.intent.clone(), lifecycle: self.lifecycle, outcome }
    }
}

/// Every attempt that the log speaks of, and the order in which they were begun.
pub struct AttemptsModel {
    pub states: Map<Seq<char>, AttemptModel>,
    pub order: Seq<Seq<char>>,
}

/// What is wrong with naming a tool in an intent.
pub open spec fn tool_identity_failure(
    kind: RunAttemptKind,
    tool_id: Option<CheckedModel>,
) -> Option<ErrorModel> {
    if (kind == RunAttemptKind::Tool) != (tool_id is Some) {
        error::protocol_failure("Tool intents require tool_id and provider intents omit it"@)
    } else {
        match tool_id {
            Some(id) if !id.valid => error::protocol_failure("Tool intent has an invalid tool_id"@),
            _ => None,
        }
    }
}

/// Accepts the name of a tool in an intent: a tool's has one, a provider's has none.
pub fn validate_attempt_tool_identity(kind: RunAttemptKind, tool_id: &Option<Checked>) -> (result:
    Result<(), RuntimeError>)
    ensures
        error::failure(result) == tool_identity_failure(kind, checked_view(*tool_id)),
{
    let wanted = match kind {
        RunAttemptKind::Tool => true,
        RunAttemptKind::Provider => false,
    };
    match tool_id {
        Some(id) => {
            if !wanted {
                return Err(protocol("Tool intents require tool_id and provider intents omit it"));
            }
            if !id.valid {
                return Err(protocol("Tool intent has an invalid tool_id"));
            }
            Ok(())
        },
        None => {
            if wanted {
                return Err(protocol("Tool intents require tool_id and provider intents omit it"));
            }
            Ok(())
        },
    }
}

/// What is wrong with what a tool is to be held to.
pub open spec fn enforcement_failure(
    kind: RunAttemptKind,
    expectation: Option<EnforcementModel>,
) -> Option<ErrorModel> {
    match (kind, expectation) {
        (RunAttemptKind::Tool, Some(expectation)) => error::first_failure(
            contract::digest_failure(expectation.applied_policy_digest, "Tool intent policy digest"@),
            if expectation.max_concurrent_processes_and_threads == 0 {
                error::protocol_failure("Tool intent process capacity must be positive"@)
            } else {
                None
            },
        ),
        (RunAttemptKind::Provider, None) => None,
        (RunAttemptKind::Tool, None) => error::protocol_failure(
            "Tool intent has no enforcement expectation"@,
        ),
        (RunAttemptKind::Provider, Some(_)) => error::protocol_failure(
            "provider intent has an unexpected enforcement expectation"@,
        ),
    }
}

/// Accepts what a tool is to be held to.
pub fn validate_tool_enforcement_expectation(
    kind: RunAttemptKind,
    expectation: &Option<ToolEnforcementExpectation>,
) -> (result: Result<(), RuntimeError>)
    ensures
        error::failure(result) == enforcement_failure(kind, expectation_view(*expectation)),
{
    match kind {
        RunAttemptKind::Tool => match expectation {
            Some(expectation) => {
                validate_digest(
                    expectation.applied_policy_digest.as_str(),
                    "Tool intent policy digest",
                )?;
                if expectation.max_concurrent_processes_and_threads == 0 {
                    return Err(protocol("Tool intent process capacity must be positive"));
                }
                Ok(())
            },
            None => Err(protocol("Tool intent has no enforcement expectation")),
        },
        RunAttemptKind::Provider => match expectation {
            Some(_) => Err(
                protocol("provider intent has an unexpected enforcement expectation"),
            ),
            None => Ok(()),
        },
    }
}

/// What is wrong with the parts of an intent, in the order in which the log's reader
/// looks at them.
pub open spec fn intent_failure(intent: IntentFacts) -> Option<ErrorModel> {
    error::first_failure(
        contract::hash_failure(intent.request_hash, "run attempt request hash"@),
        error::first_failure(
            contract::id_failure(intent.attempt_id, "run attempt"@),
            error::first_failure(
                contract::timestamp_failure(intent.timestamp),
                error::first_failure(
                    tool_identity_failure(intent.attempt_kind, intent.tool_id),
                    enforcement_failure(intent.attempt_kind, intent.expected_enforcement),
                ),
            ),
        ),
    )
}

/// What is wrong with an identifier that is used already.
pub open spec fn duplicate_failure(model: AttemptsModel, id: Seq<char>) -> Option<ErrorModel> {
    if model.states.dom().contains(id) {
        error::protocol_failure("run attempt id is duplicated"@)
    } else {
        None
    }
}

/// What is wrong with a result, beside its own parts.
pub open spec fn contradiction(
    model: AttemptsModel,
    result: ResultFacts,
    tool_id: Option<CheckedModel>,
) -> Option<ErrorModel> {
    if !model.states.dom().contains(result.attempt_id.text) {
        error::protocol_failure("run attempt result has no durable intent"@)
    } else {
        let prior = model.states[result.attempt_id.text];
        if prior.intent.attempt_kind != result.attempt_kind || prior.lifecycle
            != RunAttemptLifecycle::Uncertain || tool_text(prior.intent.tool_id) != tool_text(
            tool_id,
        ) {
            error::protocol_failure("run attempt result contradicts its durable intent"@)
        } else {
            None
        }
    }
}

/// The name of a tool, whatever its grammar says of it.
pub open spec fn tool_text(tool_id: Option<CheckedModel>) -> Option<Seq<char>> {
    match tool_id {
        Some(id) => Some(id.text),
        None => None,
    }
}

/// What is wrong with a record behind the first.
pub open spec fn record_failure(model: AttemptsModel, record: RecordFacts) -> Option<ErrorModel> {
    match record {
        RecordFacts::Definition { .. } => error::protocol_failure(
            "run log contains more than one definition"@,
        ),
        RecordFacts::Intent { schema, intent } => error::first_failure(
            contract::record_schema_failure(schema),
            error::first_failure(
                intent_failure(intent),
                duplicate_failure(model, intent.attempt_id.text),
            ),
        ),
        RecordFacts::TerminalResult { schema, result, tool_id } => error::first_failure(
            contract::record_schema_failure(schema),
            error::first_failure(
                contract::timestamp_failure(result.timestamp),
                contradiction(model, result, tool_id),
            ),
        ),
    }
}

/// The attempts after one was begun.
pub open spec fn begun(model: AttemptsModel, intent: IntentFacts) -> AttemptsModel {
    AttemptsModel {
        states: model.states.insert(
            intent.attempt_id.text,
            AttemptModel { intent, lifecycle: RunAttemptLifecycle::Uncertain, outcome: None },
        ),
        order: model.order.push(intent.attempt_id.text),
    }
}

/// The attempts after it became known what came of one.
pub open spec fn ended(model: AttemptsModel, result: ResultFacts) -> AttemptsModel {
    let prior = model.states[result.attempt_id.text];
    AttemptsModel {
        states: model.states.insert(
            result.attempt_id.text,
            AttemptModel {
                intent: prior.intent,
                lifecycle: RunAttemptLifecycle::Completed,
                outcome: Some(result.outcome),
            },
        ),
        order: model.order,
    }
}

/// The attempts after a record that nothing is wrong with.
pub open spec fn recorded(model: AttemptsModel, record: RecordFacts) -> AttemptsModel {
    match record {
        RecordFacts::Definition { .. } => model,
        RecordFacts::Intent { intent, .. } => begun(model, intent),
        RecordFacts::TerminalResult { result, .. } => ended(model, result),
    }
}

/// Every attempt that the log speaks of.
pub struct AttemptStates {
    pub states: KeyedList<RunAttemptState>,
    pub order: Vec<String>,
}

/// The attempts under each identifier, by their contents.
pub open spec fn states_view(states: Map<Seq<char>, RunAttemptState>) -> Map<
    Seq<char>,
    AttemptModel,
> {
    states.map_values(|state: RunAttemptState| state@)
}

impl View for AttemptStates {
    type V = AttemptsModel;

    open spec fn view(&self) -> AttemptsModel {
        AttemptsModel { states: states_view(self.states@), order: text::texts_view(self.order@) }
    }
}

/// The order names every attempt, and each under the identifier that it has.
pub open spec fn attempts_wf(model: AttemptsModel) -> bool {
    &&& forall|k: int| 0 <= k < model.order.len() ==> model.states.dom().contains(
        #[trigger] model.order[k],
    )
    &&& forall|id: Seq<char>| #[trigger]
        model.states.dom().contains(id) ==> model.states[id].intent.attempt_id.text == id
}

impl AttemptStates {
    /// Each attempt stands once, under its own identifier.
    pub open spec fn wf(self) -> bool {
        &&& self.states.wf()
        &&& attempts_wf(self@)
    }

    /// No attempts.
    pub fn new() -> (attempts: AttemptStates)
        ensures
            attempts.wf(),
            attempts@ == no_attempts(),
    {
        let attempts = AttemptStates { states: KeyedList::new(), order: Vec::new() };
        assert(attempts@.states =~= no_attempts().states);
        assert(attempts@.order =~= no_attempts().order);
        attempts
    }

    fn begin(&mut self, intent: &RunAttemptIntent)
        requires
            old(self).wf(),
        ensures
            final(self).wf(),
            final(self)@ == begun(old(self)@, intent@),
    {
        let ghost before = self@;
        self.order.push(intent.attempt_id.text.clone());
        let state = RunAttemptState {
            intent: intent.clone(),
            lifecycle: RunAttemptLifecycle::Uncertain,
            outcome: None,
        };
        self.states.insert(intent.attempt_id.text.clone(), state);
        proof {
            let after = begun(before, intent@);
            assert(self@.states =~= after.states);
            assert(self@.order =~= after.order);
            assert forall|k: int| 0 <= k < after.order.len() implies after.states.dom().contains(
                #[trigger] after.order[k],
            ) by {
                if k < before.order.len() {
                    assert(after.order[k] == before.order[k]);
                }
            }
        }
    }

    fn end(&mut self, result: &RunAttemptResult)
        requires
            old(self).wf(),
            old(self)@.states.dom().contains(result.attempt_id.text@),
        ensures
            final(self).wf(),
            final(self)@ == ended(old(self)@, result@),
    {
        let ghost before = self@;
        let intent = match self.states.get(result.attempt_id.text.as_str()) {
            Some(prior) => prior.intent.clone(),
            None => {
                return ;
            },
        };
        let state = RunAttemptState {
            intent,
            lifecycle: RunAttemptLifecycle::Completed,
            outcome: Some(result.outcome.clone()),
        };
        self.states.insert(result.attempt_id.text.clone(), state);
        proof {
            let after = ended(before, result@);
            assert(self@.states =~= after.states);
        }
    }

    fn check_result(&self, result: &RunAttemptResult, tool_id: &Option<Checked>) -> (checked: Result<
        (),
        RuntimeError,
    >)
        ensures
            error::failure(checked) == contradiction(self@, result@, checked_view(*tool_id)),
    {
        match self.states.get(result.attempt_id.text.as_str()) {
            None => Err(protocol("run attempt result has no durable intent")),
            Some(prior) => {
                let same_tool = match &prior.intent.tool_id {
                    Some(known) => match tool_id {
                        Some(given) => same_text(known.text.as_str(), given.text.as_str()),
                        None => false,
                    },
                    None => tool_id.is_none(),
                };
                if prior.intent.attempt_kind != result.attempt_kind || prior.lifecycle
                    != RunAttemptLifecycle::Uncertain || !same_tool {
                    return Err(protocol("run attempt result contradicts its durable intent"));
                }
                Ok(())
            },
        }
    }

    /// Takes a record behind the first of a log.
    pub fn apply_run_attempt_record(&mut self, record: &RunLogRecord) -> (result: Result<
        (),
        RuntimeError,
    >)
        requires
            old(self).wf(),
        ensures
            error::failure(result) == record_failure(old(self)@, record@),
            final(self).wf(),
            result is Err ==> *final(self) == *old(self),
            result is Ok ==> final(self)@ == recorded(old(self)@, record@),
    {
        match record {
            RunLogRecord::Definition { .. } => {
                Err(protocol("run log contains more than one definition"))
            },
            RunLogRecord::Intent { schema, intent } => {
                validate_record_schema(schema.as_str())?;
                validate_hash(intent.request_hash.as_str(), "run attempt request hash")?;
                validate_attempt_id(&intent.attempt_id)?;
                validate_timestamp(&intent.timestamp)?;
                validate_attempt_tool_identity(intent.attempt_kind, &intent.tool_id)?;
                validate_tool_enforcement_expectation(
                    intent.attempt_kind,
                    &intent.expected_enforcement,
                )?;
                if self.states.get(intent.attempt_id.text.as_str()).is_some() {
                    return Err(protocol("run attempt id is duplicated"));
                }
                self.begin(intent);
                Ok(())
            },
            RunLogRecord::TerminalResult { schema, terminal } => {
                validate_record_schema(schema.as_str())?;
                validate_timestamp(&terminal.result.timestamp)?;
                self.check_result(&terminal.result, &terminal.tool_id)?;
                self.end(&terminal.result);
                Ok(())
            },
        }
    }
}

/// No attempts.
pub open spec fn no_attempts() -> AttemptsModel {
    AttemptsModel { states: Map::empty(), order: Seq::empty() }
}

/// What is wrong with the first record of a log.
pub open spec fn definition_failure(first: Option<RecordFacts>) -> Option<ErrorModel> {
    match first {
        Some(RecordFacts::Definition { schema }) => if schema == RUN_LOG_RECORD_SCHEMA_V1@ {
            None
        } else {
            error::protocol_failure("run log definition has an unsupported schema"@)
        },
        _ => error::protocol_failure("run log must begin with a definition record"@),
    }
}

/// Accepts the first record of a log.
pub fn check_definition(first: &RunLogRecord) -> (result: Result<(), RuntimeError>)
    ensures
        error::failure(result) == definition_failure(Some(first@)),
{
    match first {
        RunLogRecord::Definition { schema, .. } => {
            if same_text(schema.as_str(), RUN_LOG_RECORD_SCHEMA_V1) {
                Ok(())
            } else {
                Err(protocol("run log definition has an unsupported schema"))
            }
        },
        _ => Err(protocol("run log must begin with a definition record")),
    }
}

/// Records by what the attempts go by.
pub open spec fn records_view(records: Seq<RunLogRecord>) -> Seq<RecordFacts> {
    records.map_values(|record: RunLogRecord| record@)
}

/// What is wrong with the records of a log, read one after the other.
pub open spec fn records_failure(model: AttemptsModel, records: Seq<RecordFacts>) -> Option<
    ErrorModel,
>
    decreases records.len(),
{
    if records.len() == 0 {
        None
    } else if record_failure(model, records[0]) is Some {
        record_failure(model, records[0])
    } else {
        records_failure(recorded(model, records[0]), records.skip(1))
    }
}

/// The attempts after the records of a log.
pub open spec fn all_recorded(model: AttemptsModel, records: Seq<RecordFacts>) -> AttemptsModel
    decreases records.len(),
{
    if records.len() == 0 {
        model
    } else {
        all_recorded(recorded(model, records[0]), records.skip(1))
    }
}

/// Reads the attempts off a log, in the order in which they were begun.
pub fn inspect_run_attempts(records: &Vec<RunLogRecord>) -> (result: Result<
    Vec<RunAttemptState>,
    RuntimeError,
>)
    ensures
        ({
            let facts = records_view(records@);
            let first = if facts.len() == 0 {
                None
            } else {
                Some(facts[0])
            };
            let model = all_recorded(no_attempts(), facts.skip(1));
            &&& error::failure(result) == error::first_failure(
                definition_failure(first),
                records_failure(no_attempts(), facts.skip(1)),
            )
            &&& result matches Ok(attempts) ==> {
                &&& attempts@.len() == model.order.len()
                &&& forall|k: int|
                    0 <= k < attempts@.len() ==> (#[trigger] attempts@[k])@
                        == model.states[model.order[k]]
            }
        }),
{
    let ghost facts = records_view(records@);
    if records.len() == 0 {
        return Err(protocol("run log must begin with a definition record"));
    }
    assert(facts[0] == records@[0]@);
    check_definition(&records[0])?;
    let mut attempts = AttemptStates::new();
    let mut i: usize = 1;
    while i < records.len()
        invariant
            1 <= i <= records.len(),
            attempts.wf(),
            facts == records_view(records@),
            records_failure(no_attempts(), facts.skip(1)) == records_failure(
                attempts@,
                facts.skip(i as int),
            ),
            all_recorded(no_attempts(), facts.skip(1)) == all_recorded(
                attempts@,
                facts.skip(i as int),
            ),
            definition_failure(Some(facts[0])) is None,
        decreases records.len() - i,
    {
        let ghost rest = facts.skip(i as int);
        assert(rest[0] == records@[i as int]@);
        assert(rest.skip(1) =~= facts.skip(i + 1));
        attempts.apply_run_attempt_record(&records[i])?;
        i = i + 1;
    }
    let ghost model = attempts@;
    let mut found: Vec<RunAttemptState> = Vec::new();
    let mut k: usize = 0;
    while k < attempts.order.len()
        invariant
            k <= attempts.order.len(),
            attempts.wf(),
            model == attempts@,
            found@.len() == k,
            forall|j: int|
                0 <= j < k ==> (#[trigger] found@[j])@ == model.states[model.order[j]],
        decreases attempts.order.len() - k,
    {
        assert(model.order[k as int] == attempts.order@[k as int]@);
        assert(model.states.dom().contains(model.order[k as int]));
        match attempts.states.get(attempts.order[k].as_str()) {
            Some(state) => {
                found.push(state.clone());
            },
            None => {},
        }
        k = k + 1;
    }
    Ok(found)
}

/// The attempts of one run, kept beside its log.
pub struct RunAttemptLedger {
    pub attempts: AttemptStates,
}

/// What is wrong with an intent that is about to be written down.
pub open spec fn new_intent_failure(model: AttemptsModel, intent: IntentFacts) -> Option<ErrorModel> {
    error::first_failure(
        contract::id_failure(intent.attempt_id, "run attempt"@),
        error::first_failure(
            contract::hash_failure(intent.request_hash, "run attempt request hash"@),
            error::first_failure(
                contract::timestamp_failure(intent.timestamp),
                error::first_failure(
                    tool_identity_failure(intent.attempt_kind, intent.tool_id),
                    error::first_failure(
                        enforcement_failure(intent.attempt_kind, intent.expected_enforcement),
                        duplicate_failure(model, intent.attempt_id.text),
                    ),
                ),
            ),
        ),
    )
}

/// What is wrong with a result that is about to be written down.
pub open spec fn new_result_failure(model: AttemptsModel, result: ResultFacts) -> Option<ErrorModel> {
    error::first_failure(
        contract::id_failure(result.attempt_id, "run attempt"@),
        error::first_failure(
            contract::timestamp_failure(result.timestamp),
            contradiction(
                model,
                result,
                if model.states.dom().contains(result.attempt_id.text) {
                    model.states[result.attempt_id.text].intent.tool_id
                } else {
                    None
                },
            ),
        ),
    )
}

impl RunAttemptLedger {
    /// The record of an intent, where it may be written down.
    pub fn intent_record(&self, intent: &RunAttemptIntent) -> (result: Result<
        RunLogRecord,
        RuntimeError,
    >)
        requires
            self.attempts.wf(),
        ensures
            error::failure(result) == new_intent_failure(self.attempts@, intent@),
            result matches Ok(record) ==> record@ == (RecordFacts::Intent {
                schema: RUN_LOG_RECORD_SCHEMA_V1@,
                intent: intent@,
            }),
    {
        validate_attempt_id(&intent.attempt_id)?;
        validate_hash(intent.request_hash.as_str(), "run attempt request hash")?;
        validate_timestamp(&intent.timestamp)?;
        validate_attempt_tool_identity(intent.attempt_kind, &intent.tool_id)?;
        validate_tool_enforcement_expectation(intent.attempt_kind, &intent.expected_enforcement)?;
        if self.attempts.states.get(intent.attempt_id.text.as_str()).is_some() {
            return Err(protocol("run attempt id is duplicated"));
        }
        Ok(
            RunLogRecord::Intent {
                schema: RUN_LOG_RECORD_SCHEMA_V1.to_owned(),
                intent: intent.clone(),
            },
        )
    }

    /// Takes note of an intent that was written down.
    pub fn append_intent(&mut self, intent: &RunAttemptIntent)
        requires
            old(self).attempts.wf(),
        ensures
            final(self).attempts.wf(),
            final(self).attempts@ == begun(old(self).attempts@, intent@),
    {
        self.attempts.begin(intent);
    }

    /// The record of a result, where it may be written down: it names the tool that
    /// the intent named.
    pub fn result_record(&self, given: RunAttemptResult) -> (result: Result<
        RunLogRecord,
        RuntimeError,
    >)
        requires
            self.attempts.wf(),
        ensures
            error::failure(result) == new_result_failure(self.attempts@, given@),
            result matches Ok(record) ==> record@ == (RecordFacts::TerminalResult {
                schema: RUN_LOG_RECORD_SCHEMA_V1@,
                result: given@,
                tool_id: self.attempts@.states[given.attempt_id.text@].intent.tool_id,
            }),
            result matches Ok(RunLogRecord::TerminalResult { terminal, .. }) ==> terminal.result
                == given,
    {
        validate_attempt_id(&given.attempt_id)?;
        validate_timestamp(&given.timestamp)?;
        let tool_id = match self.attempts.states.get(given.attempt_id.text.as_str()) {
            Some(prior) => clone_checked(&prior.intent.tool_id),
            None => None,
        };
        self.attempts.check_result(&given, &tool_id)?;
        Ok(
            RunLogRecord::TerminalResult {
                schema: RUN_LOG_RECORD_SCHEMA_V1.to_owned(),
                terminal: TerminalRecord { result: given, tool_id },
            },
        )
    }

    /// Takes note of a result that was written down.
    pub fn append_result(&mut self, given: &RunAttemptResult)
        requires
            old(self).attempts.wf(),
            old(self).attempts@.states.dom().contains(given.attempt_id.text@),
        ensures
            final(self).attempts.wf(),
            final(self).attempts@ == ended(old(self).attempts@, given@),
    {
        self.attempts.end(given);
    }
}

/// What the ledger writes down is what the log's reader reads: a record of an intent
/// or a result that may be written is accepted behind what was written before, and
/// leads to the same attempts.
pub proof fn law_written_records_are_read(
    model: AttemptsModel,
    intent: IntentFacts,
    result: ResultFacts,
)
    ensures
        new_intent_failure(model, intent) is None ==> {
            let record = RecordFacts::Intent { schema: RUN_LOG_RECORD_SCHEMA_V1@, intent };
            &&& record_failure(model, record) is None
            &&& recorded(model, record) == begun(model, intent)
        },
        new_result_failure(model, result) is None ==> {
            let record = RecordFacts::TerminalResult {
                schema: RUN_LOG_RECORD_SCHEMA_V1@,
                result,
                tool_id: model.states[result.attempt_id.text].intent.tool_id,
            };
            &&& record_failure(model, record) is None
            &&& recorded(model, record) == ended(model, result)
        },
{
}

/// It becomes known once what came of an attempt: behind an accepted result every
/// other result of the same attempt is refused, and so is another intent of it.
pub proof fn law_attempt_ends_once(
    model: AttemptsModel,
    schema: Seq<char>,
    first: ResultFacts,
    second: ResultFacts,
    tool_id: Option<CheckedModel>,
    other_tool_id: Option<CheckedModel>,
    intent: IntentFacts,
)
    requires
        record_failure(model, RecordFacts::TerminalResult { schema, result: first, tool_id }) is None,
        second.attempt_id.text == first.attempt_id.text,
        intent.attempt_id.text == first.attempt_id.text,
    ensures
        record_failure(
            ended(model, first),
            RecordFacts::TerminalResult { schema, result: second, tool_id: other_tool_id },
        ) is Some,
        record_failure(ended(model, first), RecordFacts::Intent { schema, intent }) is Some,
{
}

proof fn lemma_one_more_recorded(
    model: AttemptsModel,
    records: Seq<RecordFacts>,
    record: RecordFacts,
)
    ensures
        all_recorded(model, records.push(record)) == recorded(all_recorded(model, records), record),
        records_failure(model, records.push(record)) is None <==> records_failure(model, records)
            is None && record_failure(all_recorded(model, records), record) is None,
    decreases records.len(),
{
    let more = records.push(record);
    if records.len() == 0 {
        assert(more.skip(1) =~= Seq::<RecordFacts>::empty());
        assert(all_recorded(recorded(model, record), more.skip(1)) == recorded(model, record));
        assert(records_failure(recorded(model, record), more.skip(1)) is None);
    } else {
        assert(more.skip(1) =~= records.skip(1).push(record));
        lemma_one_more_recorded(recorded(model, records[0]), records.skip(1), record);
    }
}

/// Whether a record begins an attempt.
pub open spec fn begins(record: RecordFacts, id: Seq<char>) -> bool {
    record is Intent && record->intent.attempt_id.text == id
}

/// Whether a record ends an attempt.
pub open spec fn ends(record: RecordFacts, id: Seq<char>) -> bool {
    record is TerminalResult && record->result.attempt_id.text == id
}

/// What a log tells of an attempt.
pub open spec fn told(records: Seq<RecordFacts>, id: Seq<char>, model: AttemptsModel) -> bool {
    &&& model.states.dom().contains(id) <==> exists|k: int|
        0 <= k < records.len() && begins(#[trigger] records[k], id)
    &&& forall|k: int|
        0 <= k < records.len() && begins(#[trigger] records[k], id) ==> model.states[id].intent
            == records[k]->intent
    &&& (exists|k: int| 0 <= k < records.len() && ends(#[trigger] records[k], id))
        ==> model.states.dom().contains(id) && model.states[id].lifecycle
        == RunAttemptLifecycle::Completed
    &&& model.states.dom().contains(id) && !(exists|k: int|
        0 <= k < records.len() && ends(#[trigger] records[k], id)) ==> model.states[id].lifecycle
        == RunAttemptLifecycle::Uncertain && model.states[id].outcome is None
    &&& forall|k: int|
        0 <= k < records.len() && ends(#[trigger] records[k], id) ==> model.states[id].outcome
            == Some(records[k]->result.outcome)
    &&& model.order.contains(id) == model.states.dom().contains(id)
}

proof fn lemma_told(
    records: Seq<RecordFacts>,
    record: RecordFacts,
    id: Seq<char>,
    model: AttemptsModel,
)
    requires
        told(records, id, model),
        record_failure(model, record) is None,
    ensures
        told(records.push(record), id, recorded(model, record)),
{
    let more = records.push(record);
    let after = recorded(model, record);
    let last = records.len() as int;
    assert(more[last] == record);
    assert forall|k: int| 0 <= k < records.len() implies #[trigger] more[k] == records[k] by {}
    assert forall|k: int| 0 <= k < records.len() implies #[trigger] records[k] == more[k] by {}
    if record is Intent {
        let begun_id = record->intent.attempt_id.text;
        assert(after.order == model.order.push(begun_id));
        if after.order.contains(id) && id != begun_id {
            let k = choose|k: int| 0 <= k < after.order.len() && after.order[k] == id;
            assert(model.order[k] == id);
        }
        if model.order.contains(id) {
            let k = choose|k: int| 0 <= k < model.order.len() && model.order[k] == id;
            assert(after.order[k] == id);
        }
        assert(after.order[model.order.len() as int] == begun_id);
    }
    if exists|k: int| 0 <= k < records.len() && begins(#[trigger] records[k], id) {
        let k = choose|k: int| 0 <= k < records.len() && begins(#[trigger] records[k], id);
        assert(begins(more[k], id));
    }
    if exists|k: int| 0 <= k < records.len() && ends(#[trigger] records[k], id) {
        let k = choose|k: int| 0 <= k < records.len() && ends(#[trigger] records[k], id);
        assert(ends(more[k], id));
    }
}

/// A log tells of exactly the attempts that its intents begin, each with its intent. An
/// attempt is completed exactly where a result in the log ends it, with the outcome of that
/// result, and uncertain otherwise.
pub proof fn law_log_tells_every_attempt(records: Seq<RecordFacts>, id: Seq<char>)
    requires
        records_failure(no_attempts(), records) is None,
    ensures
        ({
            let model = all_recorded(no_attempts(), records);
            &&& model.states.dom().contains(id) <==> exists|k: int|
                0 <= k < records.len() && (#[trigger] records[k]) is Intent
                    && records[k]->intent.attempt_id.text == id
            &&& forall|k: int|
                0 <= k < records.len() && (#[trigger] records[k]) is Intent
                    && records[k]->intent.attempt_id.text == id ==> model.states[id].intent
                    == records[k]->intent
            &&& model.states.dom().contains(id) ==> (model.states[id].lifecycle
                == RunAttemptLifecycle::Completed <==> exists|k: int|
                0 <= k < records.len() && (#[trigger] records[k]) is TerminalResult
                    && records[k]->result.attempt_id.text == id)
            &&& model.states.dom().contains(id) && model.states[id].lifecycle
                != RunAttemptLifecycle::Completed ==> model.states[id].lifecycle
                == RunAttemptLifecycle::Uncertain && model.states[id].outcome is None
            &&& forall|k: int|
                0 <= k < records.len() && (#[trigger] records[k]) is TerminalResult
                    && records[k]->result.attempt_id.text == id ==> model.states.dom().contains(id)
                    && model.states[id].outcome == Some(records[k]->result.outcome)
            &&& model.order.contains(id) <==> model.states.dom().contains(id)
        }),
{
    lemma_log_tells(records, id);
    let model = all_recorded(no_attempts(), records);
    assert forall|k: int|
        0 <= k < records.len() && (#[trigger] records[k]) is Intent
            && records[k]->intent.attempt_id.text == id implies begins(records[k], id) by {}
    assert forall|k: int|
        0 <= k < records.len() && (#[trigger] records[k]) is TerminalResult
            && records[k]->result.attempt_id.text == id implies ends(records[k], id) by {}
    if model.states.dom().contains(id) {
        let k = choose|k: int| 0 <= k < records.len() && begins(#[trigger] records[k], id);
        assert(records[k] is Intent);
        if exists|k: int| 0 <= k < records.len() && ends(#[trigger] records[k], id) {
            let k = choose|k: int| 0 <= k < records.len() && ends(#[trigger] records[k], id);
            assert(records[k] is TerminalResult);
        }
    }
}

proof fn lemma_log_tells(records: Seq<RecordFacts>, id: Seq<char>)
    requires
        records_failure(no_attempts(), records) is None,
    ensures
        told(records, id, all_recorded(no_attempts(), records)),
    decreases records.len(),
{
    if records.len() > 0 {
        let rest = records.drop_last();
        assert(records =~= rest.push(records.last()));
        lemma_one_more_recorded(no_attempts(), rest, records.last());
        lemma_log_tells(rest, id);
        lemma_told(rest, records.last(), id, all_recorded(no_attempts(), rest));
    }
}

/// The attempts of a log stand in the order of their intents, each once: with one intent more
/// the log tells of the same attempts and behind them of the new one, and with one result more
/// of the same attempts in the same order.
pub proof fn law_attempts_stand_in_order(records: Seq<RecordFacts>, record: RecordFacts)
    requires
        records_failure(no_attempts(), records.push(record)) is None,
    ensures
        ({
            let before = all_recorded(no_attempts(), records).order;
            let after = all_recorded(no_attempts(), records.push(record)).order;
            &&& record is Intent ==> after == before.push(record->intent.attempt_id.text)
                && !before.contains(record->intent.attempt_id.text)
            &&& record !is Intent ==> after == before
        }),
{
    lemma_one_more_recorded(no_attempts(), records, record);
    if record is Intent {
        lemma_log_tells(records, record->intent.attempt_id.text);
    }
}

/// A result is taken exactly where the log holds the intent of its attempt, of the same kind
/// and with the same tool, and no result of it yet.
pub proof fn law_results_answer_intents(
    records: Seq<RecordFacts>,
    schema: Seq<char>,
    result: ResultFacts,
    tool_id: Option<CheckedModel>,
)
    requires
        records_failure(no_attempts(), records) is None,
        contract::record_schema_failure(schema) is None,
        contract::timestamp_failure(result.timestamp) is None,
    ensures
        record_failure(
            all_recorded(no_attempts(), records),
            RecordFacts::TerminalResult { schema, result, tool_id },
        ) is None <==> {
            &&& exists|k: int|
                #![trigger records[k]]
                {
                    let begun = records[k]->intent;
                    &&& 0 <= k < records.len()
                    &&& records[k] is Intent
                    &&& begun.attempt_id.text == result.attempt_id.text
                    &&& begun.attempt_kind == result.attempt_kind
                    &&& (begun.tool_id is Some) == (tool_id is Some)
                    &&& tool_id is Some ==> begun.tool_id->0.text == tool_id->0.text
                }
            &&& forall|k: int|
                0 <= k < records.len() && (#[trigger] records[k]) is TerminalResult
                    ==> records[k]->result.attempt_id.text != result.attempt_id.text
        },
{
    let id = result.attempt_id.text;
    law_log_tells_every_attempt(records, id);
    let model = all_recorded(no_attempts(), records);
    let failure = record_failure(model, RecordFacts::TerminalResult { schema, result, tool_id });
    assert(failure == contradiction(model, result, tool_id));
    if failure is None {
        let k = choose|k: int|
            0 <= k < records.len() && (#[trigger] records[k]) is Intent
                && records[k]->intent.attempt_id.text == id;
        assert(model.states[id].intent == records[k]->intent);
    }
}

} // verus!

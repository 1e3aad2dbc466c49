//! What the events of a finished session show of its tools: each start, and what came
//! of it.

use crate::contract::RUN_LOG_RECORD_SCHEMA_V1;
use crate::digest::sha256_hex;
use crate::digest;
use crate::error::{protocol, ErrorModel, RuntimeError};
use crate::error;
use crate::keyed::KeyedList;
use crate::text::{append_text, decimal_text, join2, same_optional, same_text};
use crate::text;
use vstd::prelude::*;
use vstd::utf8::*;

verus! {

/// What came of a tool that was started.
#[derive(Clone, Copy, Debug, PartialEq, Eq, Structural)]
pub enum LegacyToolObservationOutcome {
    Completed,
    Failed,
    TimedOut,
    Uncertain,
}

/// What an event is, as far as tools go by it.
#[derive(Clone, Copy, Debug, PartialEq, Eq, Structural)]
pub enum ObservedKind {
    PhaseEntered,
    /// A phase was completed, or failed.
    PhaseEnded,
    ToolStarted,
    ToolCompleted,
    ToolFailed,
    ToolTimedOut,
    Other,
}

/// An event, as far as tools go by it.
pub struct ObservedEvent {
    pub kind: ObservedKind,
    pub flow_id: Option<String>,
    pub phase_id: Option<String>,
    pub tool_id: Option<String>,
    pub exit_code: Option<i64>,
    pub sequence: u64,
    pub timestamp: String,
}

/// A tool that was started.
pub struct LegacyToolObservationDraft {
    pub flow_id: String,
    pub phase_id: Option<String>,
    pub tool_id: String,
    pub start_sequence: u64,
    pub terminal_sequence: Option<u64>,
    pub outcome: LegacyToolObservationOutcome,
    pub exit_code: Option<i32>,
    pub timestamp: String,
}

/// A tool that was started, by its contents.
pub struct DraftModel {
    pub flow_id: Seq<char>,
    pub phase_id: Option<Seq<char>>,
    pub tool_id: Seq<char>,
    pub start_sequence: u64,
    pub terminal_sequence: Option<u64>,
    pub outcome: LegacyToolObservationOutcome,
    pub exit_code: Option<i32>,
    pub timestamp: Seq<char>,
}

impl View for LegacyToolObservationDraft {
    type V = DraftModel;

    open spec fn view(&self) -> DraftModel {
        DraftModel {
            flow_id: self.flow_id@,
            phase_id: text::optional_view(self.phase_id),
            tool_id: self.tool_id@,
            start_sequence: self.start_sequence,
            terminal_sequence: self.terminal_sequence,
            outcome: self.outcome,
            exit_code: self.exit_code,
            timestamp: self.timestamp@,
        }
    }
}

/// Tools that were started, by their contents.
pub open spec fn drafts_view(drafts: Seq<LegacyToolObservationDraft>) -> Seq<DraftModel> {
    drafts.map_values(|draft: LegacyToolObservationDraft| draft@)
}

/// What the events up to one show.
pub struct LegacyToolObservationBuilder {
    /// The phase that each flow is in.
    pub active_phases: KeyedList<String>,
    pub drafts: Vec<LegacyToolObservationDraft>,
}

/// What the events up to one show, by its contents.
pub struct ObservationsModel {
    pub phases: Map<Seq<char>, String>,
    pub drafts: Seq<DraftModel>,
}

/// Whether a tool runs that was started so.
pub open spec fn runs(draft: DraftModel, flow_id: Seq<char>, tool_id: Seq<char>) -> bool {
    draft.terminal_sequence is None && draft.flow_id == flow_id && draft.tool_id == tool_id
}

/// Where the start of a tool stands that runs.
pub open spec fn running(drafts: Seq<DraftModel>, flow_id: Seq<char>, tool_id: Seq<char>) -> Option<int>
    decreases drafts.len(),
{
    if drafts.len() == 0 {
        None
    } else if runs(drafts.last(), flow_id, tool_id) {
        Some(drafts.len() - 1)
    } else {
        running(drafts.drop_last(), flow_id, tool_id)
    }
}

/// What came of a tool, by the event that ended it.
pub open spec fn outcome_of(kind: ObservedKind) -> LegacyToolObservationOutcome {
    match kind {
        ObservedKind::ToolCompleted => LegacyToolObservationOutcome::Completed,
        ObservedKind::ToolFailed => LegacyToolObservationOutcome::Failed,
        ObservedKind::ToolTimedOut => LegacyToolObservationOutcome::TimedOut,
        _ => LegacyToolObservationOutcome::Uncertain,
    }
}

/// Whether an event ends a tool.
pub open spec fn ends_tool(kind: ObservedKind) -> bool {
    kind == ObservedKind::ToolCompleted || kind == ObservedKind::ToolFailed || kind
        == ObservedKind::ToolTimedOut
}

/// The exit code that is recorded: nothing where it does not fit.
pub open spec fn recorded_code(code: Option<i64>) -> Option<i32> {
    match code {
        Some(code) => if i32::MIN <= code <= i32::MAX {
            Some(code as i32)
        } else {
            None
        },
        None => None,
    }
}

/// What is wrong with an event behind the others.
pub open spec fn observe_failure(seen: ObservationsModel, event: ObservedEvent) -> Option<
    ErrorModel,
> {
    if event.kind == ObservedKind::ToolStarted {
        if event.flow_id is None {
            error::protocol_failure("legacy tool observation lacks flow_id"@)
        } else if event.tool_id is None {
            error::protocol_failure("legacy tool observation lacks tool_id"@)
        } else if running(seen.drafts, event.flow_id->0@, event.tool_id->0@) is Some {
            error::protocol_failure("legacy tool observation starts twice"@)
        } else {
            None
        }
    } else if ends_tool(event.kind) {
        if event.flow_id is None {
            error::protocol_failure("legacy Tool terminal observation lacks flow_id"@)
        } else if event.tool_id is None {
            error::protocol_failure("legacy Tool terminal observation lacks tool_id"@)
        } else if running(seen.drafts, event.flow_id->0@, event.tool_id->0@) is None {
            error::protocol_failure("legacy Tool terminal observation has no start"@)
        } else {
            None
        }
    } else {
        None
    }
}

/// The phase that a flow is in.
pub open spec fn phase_of(phases: Map<Seq<char>, String>, flow_id: Seq<char>) -> Option<Seq<char>> {
    if phases.dom().contains(flow_id) {
        Some(phases[flow_id]@)
    } else {
        None
    }
}

/// What the events show with one more.
pub open spec fn observed(seen: ObservationsModel, event: ObservedEvent) -> ObservationsModel {
    match event.kind {
        ObservedKind::PhaseEntered => if event.flow_id is Some && event.phase_id is Some {
            ObservationsModel {
                phases: seen.phases.insert(event.flow_id->0@, event.phase_id->0),
                ..seen
            }
        } else {
            seen
        },
        ObservedKind::PhaseEnded => if event.flow_id is Some {
            ObservationsModel { phases: seen.phases.remove(event.flow_id->0@), ..seen }
        } else {
            seen
        },
        ObservedKind::ToolStarted => ObservationsModel {
            drafts: seen.drafts.push(
                DraftModel {
                    flow_id: event.flow_id->0@,
                    phase_id: phase_of(seen.phases, event.flow_id->0@),
                    tool_id: event.tool_id->0@,
                    start_sequence: event.sequence,
                    terminal_sequence: None,
                    outcome: LegacyToolObservationOutcome::Uncertain,
                    exit_code: None,
                    timestamp: event.timestamp@,
                },
            ),
            ..seen
        },
        ObservedKind::Other => seen,
        _ => {
            let place = running(seen.drafts, event.flow_id->0@, event.tool_id->0@)->0;
            ObservationsModel {
                drafts: seen.drafts.update(
                    place,
                    DraftModel {
                        terminal_sequence: Some(event.sequence),
                        outcome: outcome_of(event.kind),
                        exit_code: recorded_code(event.exit_code),
                        ..seen.drafts[place]
                    },
                ),
                ..seen
            }
        },
    }
}

proof fn lemma_running(drafts: Seq<DraftModel>, flow_id: Seq<char>, tool_id: Seq<char>)
    ensures
        match running(drafts, flow_id, tool_id) {
            Some(place) => 0 <= place < drafts.len() && runs(drafts[place], flow_id, tool_id)
                && forall|k: int|
                place < k < drafts.len() ==> !runs(#[trigger] drafts[k], flow_id, tool_id),
            None => forall|k: int|
                0 <= k < drafts.len() ==> !runs(#[trigger] drafts[k], flow_id, tool_id),
        },
    decreases drafts.len(),
{
    if drafts.len() > 0 && !runs(drafts.last(), flow_id, tool_id) {
        lemma_running(drafts.drop_last(), flow_id, tool_id);
        assert forall|k: int| 0 <= k < drafts.len() - 1 implies #[trigger] drafts[k]
            == drafts.drop_last()[k] by {
        }
    }
}

/// A tool's outcome is uncertain exactly as long as it has not ended, and a tool that
/// runs does not start again.
pub open spec fn sound(drafts: Seq<DraftModel>) -> bool {
    &&& forall|k: int|
        0 <= k < drafts.len() ==> ((#[trigger] drafts[k]).terminal_sequence is None <==> drafts[k].outcome
            == LegacyToolObservationOutcome::Uncertain)
    &&& forall|i: int, j: int|
        0 <= i < j < drafts.len() && (#[trigger] drafts[i]).terminal_sequence is None && (
        #[trigger] drafts[j]).terminal_sequence is None ==> drafts[i].flow_id != drafts[j].flow_id
            || drafts[i].tool_id != drafts[j].tool_id
}

/// Whatever events are taken, a tool's outcome is uncertain exactly as long as it has not
/// ended, and no tool runs twice in a flow.
pub proof fn law_uncertain_until_ended(seen: ObservationsModel, event: ObservedEvent)
    requires
        sound(seen.drafts),
        observe_failure(seen, event) is None,
    ensures
        sound(observed(seen, event).drafts),
{
    let after = observed(seen, event).drafts;
    if event.kind == ObservedKind::ToolStarted {
        lemma_running(seen.drafts, event.flow_id->0@, event.tool_id->0@);
        assert forall|i: int, j: int|
            0 <= i < j < after.len() && (#[trigger] after[i]).terminal_sequence is None && (
            #[trigger] after[j]).terminal_sequence is None implies after[i].flow_id
            != after[j].flow_id || after[i].tool_id != after[j].tool_id by {
            assert(after[i] == seen.drafts[i]);
            if j < seen.drafts.len() {
                assert(after[j] == seen.drafts[j]);
            } else {
                assert(!runs(seen.drafts[i], event.flow_id->0@, event.tool_id->0@));
            }
        }
    } else if ends_tool(event.kind) {
        lemma_running(seen.drafts, event.flow_id->0@, event.tool_id->0@);
        let place = running(seen.drafts, event.flow_id->0@, event.tool_id->0@)->0;
        assert forall|i: int, j: int|
            0 <= i < j < after.len() && (#[trigger] after[i]).terminal_sequence is None && (
            #[trigger] after[j]).terminal_sequence is None implies after[i].flow_id
            != after[j].flow_id || after[i].tool_id != after[j].tool_id by {
            assert(after[i] == seen.drafts[i]);
            assert(after[j] == seen.drafts[j]);
        }
    }
}

impl LegacyToolObservationBuilder {
    /// What the events show.
    pub open spec fn model(self) -> ObservationsModel {
        ObservationsModel { phases: self.active_phases@, drafts: drafts_view(self.drafts@) }
    }

    /// The phases stand once each, and the tools are sound.
    pub open spec fn wf(self) -> bool {
        self.active_phases.wf() && sound(self.model().drafts)
    }

    /// What no event shows.
    pub fn new() -> (builder: LegacyToolObservationBuilder)
        ensures
            builder.wf(),
            builder.model().drafts == Seq::<DraftModel>::empty(),
            builder.model().phases == Map::<Seq<char>, String>::empty(),
    {
        let builder = LegacyToolObservationBuilder {
            active_phases: KeyedList::new(),
            drafts: Vec::new(),
        };
        assert(builder.model().drafts =~= Seq::<DraftModel>::empty());
        builder
    }

    fn find_running(&self, flow_id: &str, tool_id: &str) -> (place: Option<usize>)
        ensures
            match place {
                Some(place) => running(self.model().drafts, flow_id@, tool_id@) == Some(
                    place as int,
                ) && place < self.drafts.len(),
                None => running(self.model().drafts, flow_id@, tool_id@) is None,
            },
    {
        let ghost all = self.model().drafts;
        let mut i: usize = self.drafts.len();
        assert(all.take(i as int) =~= all);
        while i > 0
            invariant
                i <= self.drafts.len(),
                all == self.model().drafts,
                running(all, flow_id@, tool_id@) == running(
                    all.take(i as int),
                    flow_id@,
                    tool_id@,
                ),
            decreases i,
        {
            assert(all.take(i as int).drop_last() =~= all.take(i - 1));
            assert(all.take(i as int).last() == self.drafts@[i - 1]@);
            let draft = &self.drafts[i - 1];
            if draft.terminal_sequence.is_none() && same_text(draft.flow_id.as_str(), flow_id)
                && same_text(draft.tool_id.as_str(), tool_id) {
                return Some(i - 1);
            }
            i = i - 1;
        }
        None
    }

    fn start_tool(&mut self, event: &ObservedEvent) -> (result: Result<(), RuntimeError>)
        requires
            old(self).wf(),
            event.kind == ObservedKind::ToolStarted,
        ensures
            error::failure(result) == observe_failure(old(self).model(), *event),
            final(self).active_phases == old(self).active_phases,
            final(self).model() == (if result is Ok {
                observed(old(self).model(), *event)
            } else {
                old(self).model()
            }),
    {
        let flow_id = match &event.flow_id {
            Some(flow_id) => flow_id,
            None => {
                return Err(protocol("legacy tool observation lacks flow_id"));
            },
        };
        let tool_id = match &event.tool_id {
            Some(tool_id) => tool_id,
            None => {
                return Err(protocol("legacy tool observation lacks tool_id"));
            },
        };
        if self.find_running(flow_id.as_str(), tool_id.as_str()).is_some() {
            return Err(protocol("legacy tool observation starts twice"));
        }
        let ghost before = drafts_view(self.drafts@);
        let phase_id = match self.active_phases.get(flow_id.as_str()) {
            Some(phase) => Some(phase.clone()),
            None => None,
        };
        let draft = LegacyToolObservationDraft {
            flow_id: flow_id.clone(),
            phase_id,
            tool_id: tool_id.clone(),
            start_sequence: event.sequence,
            terminal_sequence: None,
            outcome: LegacyToolObservationOutcome::Uncertain,
            exit_code: None,
            timestamp: event.timestamp.clone(),
        };
        let ghost model = draft@;
        self.drafts.push(draft);
        assert(drafts_view(self.drafts@) =~= before.push(model));
        Ok(())
    }

    fn end_tool(&mut self, event: &ObservedEvent) -> (result: Result<(), RuntimeError>)
        requires
            old(self).wf(),
            ends_tool(event.kind),
        ensures
            error::failure(result) == observe_failure(old(self).model(), *event),
            final(self).active_phases == old(self).active_phases,
            final(self).model() == (if result is Ok {
                observed(old(self).model(), *event)
            } else {
                old(self).model()
            }),
    {
        let flow_id = match &event.flow_id {
            Some(flow_id) => flow_id,
            None => {
                return Err(protocol("legacy Tool terminal observation lacks flow_id"));
            },
        };
        let tool_id = match &event.tool_id {
            Some(tool_id) => tool_id,
            None => {
                return Err(protocol("legacy Tool terminal observation lacks tool_id"));
            },
        };
        let place = match self.find_running(flow_id.as_str(), tool_id.as_str()) {
            Some(place) => place,
            None => {
                return Err(protocol("legacy Tool terminal observation has no start"));
            },
        };
        let ghost before = drafts_view(self.drafts@);
        let outcome = match event.kind {
            ObservedKind::ToolCompleted => LegacyToolObservationOutcome::Completed,
            ObservedKind::ToolFailed => LegacyToolObservationOutcome::Failed,
            _ => LegacyToolObservationOutcome::TimedOut,
        };
        let exit_code: Option<i32> = match event.exit_code {
            Some(code) => {
                if code >= -2_147_483_648 && code <= 2_147_483_647 {
                    Some(code as i32)
                } else {
                    None
                }
            },
            None => None,
        };
        let phase_id = match &self.drafts[place].phase_id {
            Some(phase) => Some(phase.clone()),
            None => None,
        };
        let draft = LegacyToolObservationDraft {
            flow_id: self.drafts[place].flow_id.clone(),
            phase_id,
            tool_id: self.drafts[place].tool_id.clone(),
            start_sequence: self.drafts[place].start_sequence,
            terminal_sequence: Some(event.sequence),
            outcome,
            exit_code,
            timestamp: self.drafts[place].timestamp.clone(),
        };
        let ghost model = draft@;
        assert(before[place as int] == self.drafts@[place as int]@);
        self.drafts.set(place, draft);
        assert(drafts_view(self.drafts@) =~= before.update(place as int, model));
        Ok(())
    }

    /// Takes one more event.
    pub fn observe(&mut self, event: &ObservedEvent) -> (result: Result<(), RuntimeError>)
        requires
            old(self).wf(),
        ensures
            final(self).wf(),
            error::failure(result) == observe_failure(old(self).model(), *event),
            final(self).model() == (if result is Ok {
                observed(old(self).model(), *event)
            } else {
                old(self).model()
            }),
    {
        proof {
            if observe_failure(self.model(), *event) is None {
                law_uncertain_until_ended(self.model(), *event);
            }
        }
        match event.kind {
            ObservedKind::PhaseEntered => {
                if let Some(flow_id) = &event.flow_id {
                    if let Some(phase_id) = &event.phase_id {
                        self.active_phases.insert(flow_id.clone(), phase_id.clone());
                    }
                }
                Ok(())
            },
            ObservedKind::PhaseEnded => {
                if let Some(flow_id) = &event.flow_id {
                    self.active_phases.remove(flow_id.as_str());
                }
                Ok(())
            },
            ObservedKind::ToolStarted => self.start_tool(event),
            ObservedKind::Other => Ok(()),
            _ => self.end_tool(event),
        }
    }
}

/// A record of a tool that was started.
pub struct LegacyToolObservation {
    pub schema: String,
    pub observation_id: String,
    pub flow_id: String,
    pub phase_id: Option<String>,
    pub tool_id: String,
    pub start_sequence: u64,
    pub terminal_sequence: Option<u64>,
    pub outcome: LegacyToolObservationOutcome,
    pub exit_code: Option<i32>,
    pub timestamp: String,
}

/// A record of a tool that was started, by its contents.
pub struct ObservationModel {
    pub schema: Seq<char>,
    pub observation_id: Seq<char>,
    pub draft: DraftModel,
}

impl View for LegacyToolObservation {
    type V = ObservationModel;

    open spec fn view(&self) -> ObservationModel {
        ObservationModel {
            schema: self.schema@,
            observation_id: self.observation_id@,
            draft: DraftModel {
                flow_id: self.flow_id@,
                phase_id: text::optional_view(self.phase_id),
                tool_id: self.tool_id@,
                start_sequence: self.start_sequence,
                terminal_sequence: self.terminal_sequence,
                outcome: self.outcome,
                exit_code: self.exit_code,
                timestamp: self.timestamp@,
            },
        }
    }
}

/// Records by their contents.
pub open spec fn observations_view(observations: Seq<LegacyToolObservation>) -> Seq<ObservationModel> {
    observations.map_values(|observation: LegacyToolObservation| observation@)
}

/// What a record's identifier is taken over.
pub open spec fn observation_identity(draft: DraftModel) -> Seq<char> {
    draft.flow_id + "\0"@ + (match draft.phase_id {
        Some(phase) => phase,
        None => Seq::empty(),
    }) + "\0"@ + draft.tool_id + "\0"@ + text::decimal(draft.start_sequence as nat)
}

/// The record of a tool that was started.
pub open spec fn record_of(draft: DraftModel) -> ObservationModel {
    ObservationModel {
        schema: RUN_LOG_RECORD_SCHEMA_V1@,
        observation_id: "legacy-tool-"@ + digest::digest_text(encode_utf8(observation_identity(draft))),
        draft,
    }
}

/// The records of tools that were started.
pub open spec fn records_of(drafts: Seq<DraftModel>) -> Seq<ObservationModel> {
    drafts.map_values(|draft: DraftModel| record_of(draft))
}

fn observation_record(draft: &LegacyToolObservationDraft) -> (record: LegacyToolObservation)
    ensures
        record@ == record_of(draft@),
{
    let mut identity = draft.flow_id.clone();
    append_text(&mut identity, "\0");
    if let Some(phase) = &draft.phase_id {
        append_text(&mut identity, phase.as_str());
    }
    append_text(&mut identity, "\0");
    append_text(&mut identity, draft.tool_id.as_str());
    append_text(&mut identity, "\0");
    let start = decimal_text(draft.start_sequence);
    append_text(&mut identity, start.as_str());
    assert(identity@ =~= observation_identity(draft@));
    let digest = sha256_hex(identity.as_str().as_bytes());
    let phase_id = match &draft.phase_id {
        Some(phase) => Some(phase.clone()),
        None => None,
    };
    LegacyToolObservation {
        schema: RUN_LOG_RECORD_SCHEMA_V1.to_owned(),
        observation_id: join2("legacy-tool-", digest.as_str()),
        flow_id: draft.flow_id.clone(),
        phase_id,
        tool_id: draft.tool_id.clone(),
        start_sequence: draft.start_sequence,
        terminal_sequence: draft.terminal_sequence,
        outcome: draft.outcome,
        exit_code: draft.exit_code,
        timestamp: draft.timestamp.clone(),
    }
}

impl LegacyToolObservationBuilder {
    /// The records of the tools that were started, in the order of their starts.
    pub fn finish(&self) -> (records: Vec<LegacyToolObservation>)
        ensures
            observations_view(records@) == records_of(self.model().drafts),
    {
        let ghost all = self.model().drafts;
        let mut records: Vec<LegacyToolObservation> = Vec::new();
        let mut i: usize = 0;
        assert(observations_view(records@) =~= records_of(all.take(0)));
        while i < self.drafts.len()
            invariant
                i <= self.drafts.len(),
                all == self.model().drafts,
                observations_view(records@) == records_of(all.take(i as int)),
            decreases self.drafts.len() - i,
        {
            let ghost before = observations_view(records@);
            let record = observation_record(&self.drafts[i]);
            let ghost model = record@;
            records.push(record);
            proof {
                assert(observations_view(records@) =~= before.push(model));
                assert(all.take(i + 1) =~= all.take(i as int).push(self.drafts@[i as int]@));
                assert(records_of(all.take(i + 1)) =~= records_of(all.take(i as int)).push(model));
            }
            i = i + 1;
        }
        assert(all.take(i as int) =~= all);
        records
    }
}

/// How many of the tools that were started have an uncertain outcome.
pub open spec fn uncertain_count(records: Seq<ObservationModel>) -> nat
    decreases records.len(),
{
    if records.len() == 0 {
        0
    } else {
        uncertain_count(records.drop_last()) + (if records.last().draft.outcome
            == LegacyToolObservationOutcome::Uncertain {
            1nat
        } else {
            0
        })
    }
}

/// How many of the tools that were started have an uncertain outcome.
pub fn legacy_uncertain_attempt_count(records: &Vec<LegacyToolObservation>) -> (count: u64)
    ensures
        count == uncertain_count(observations_view(records@)),
{
    let ghost all = observations_view(records@);
    let mut count: u64 = 0;
    let mut i: usize = 0;
    assert(all.take(0) =~= Seq::<ObservationModel>::empty());
    while i < records.len()
        invariant
            i <= records.len(),
            all == observations_view(records@),
            count == uncertain_count(all.take(i as int)),
            count <= i,
        decreases records.len() - i,
    {
        proof {
            assert(all.take(i + 1).drop_last() =~= all.take(i as int));
            assert(all.take(i + 1).last() == records@[i as int]@);
        }
        if records[i].outcome == LegacyToolObservationOutcome::Uncertain {
            count = count + 1;
        }
        i = i + 1;
    }
    assert(all.take(i as int) =~= all);
    count
}

/// Whether two records say the same.
pub fn same_observation(left: &LegacyToolObservation, right: &LegacyToolObservation) -> (same: bool)
    ensures
        same == (left@ == right@),
{
    let same_terminal = match (left.terminal_sequence, right.terminal_sequence) {
        (Some(left), Some(right)) => left == right,
        (None, None) => true,
        _ => false,
    };
    let same_code = match (left.exit_code, right.exit_code) {
        (Some(left), Some(right)) => left == right,
        (None, None) => true,
        _ => false,
    };
    same_text(left.schema.as_str(), right.schema.as_str()) && same_text(
        left.observation_id.as_str(),
        right.observation_id.as_str(),
    ) && same_text(left.flow_id.as_str(), right.flow_id.as_str()) && same_optional(
        &left.phase_id,
        &right.phase_id,
    ) && same_text(left.tool_id.as_str(), right.tool_id.as_str()) && left.start_sequence
        == right.start_sequence && same_terminal && left.outcome == right.outcome && same_code
        && same_text(left.timestamp.as_str(), right.timestamp.as_str())
}

/// Whether two lists of records say the same.
pub fn same_observations(
    left: &Vec<LegacyToolObservation>,
    right: &Vec<LegacyToolObservation>,
) -> (same: bool)
    ensures
        same == (observations_view(left@) == observations_view(right@)),
{
    if left.len() != right.len() {
        assert(observations_view(left@).len() != observations_view(right@).len());
        return false;
    }
    let mut i: usize = 0;
    while i < left.len()
        invariant
            i <= left.len(),
            left.len() == right.len(),
            forall|k: int| 0 <= k < i ==> (#[trigger] left@[k])@ == right@[k]@,
        decreases left.len() - i,
    {
        if !same_observation(&left[i], &right[i]) {
            assert(observations_view(left@)[i as int] != observations_view(right@)[i as int]);
            return false;
        }
        i = i + 1;
    }
    assert(observations_view(left@) =~= observations_view(right@));
    true
}

/// An event that ends a tool ends exactly one observation: the one that was started in the
/// same flow for the same tool and has not ended. Its outcome is that of the event, completed
/// exactly where a completion ended it, failed exactly where a failure did, and timed out
/// exactly where a timeout did; it ends at the event's sequence with the event's exit code,
/// and everything else stays as it was.
pub proof fn law_ended_observation_has_the_outcome_of_its_event(
    seen: ObservationsModel,
    event: ObservedEvent,
)
    requires
        sound(seen.drafts),
        observe_failure(seen, event) is None,
        event.kind == ObservedKind::ToolCompleted || event.kind == ObservedKind::ToolFailed
            || event.kind == ObservedKind::ToolTimedOut,
    ensures
        event.flow_id is Some,
        event.tool_id is Some,
        observed(seen, event).phases == seen.phases,
        observed(seen, event).drafts.len() == seen.drafts.len(),
        exists|place: int|
            #![trigger seen.drafts[place]]
            {
                let before = seen.drafts[place];
                let after = observed(seen, event).drafts[place];
                &&& 0 <= place < seen.drafts.len()
                &&& before.terminal_sequence is None
                &&& before.flow_id == event.flow_id->0@
                &&& before.tool_id == event.tool_id->0@
                &&& after.terminal_sequence == Some(event.sequence)
                &&& after.outcome == LegacyToolObservationOutcome::Completed <==> event.kind
                    == ObservedKind::ToolCompleted
                &&& after.outcome == LegacyToolObservationOutcome::Failed <==> event.kind
                    == ObservedKind::ToolFailed
                &&& after.outcome == LegacyToolObservationOutcome::TimedOut <==> event.kind
                    == ObservedKind::ToolTimedOut
                &&& after.outcome != LegacyToolObservationOutcome::Uncertain
                &&& event.exit_code is None ==> after.exit_code is None
                &&& event.exit_code is Some ==> match after.exit_code {
                    Some(code) => code == event.exit_code->0,
                    None => event.exit_code->0 < i32::MIN || event.exit_code->0 > i32::MAX,
                }
                &&& after.flow_id == before.flow_id
                &&& after.phase_id == before.phase_id
                &&& after.tool_id == before.tool_id
                &&& after.start_sequence == before.start_sequence
                &&& after.timestamp == before.timestamp
                &&& forall|k: int|
                    0 <= k < seen.drafts.len() && k != place ==> #[trigger] observed(
                        seen,
                        event,
                    ).drafts[k] == seen.drafts[k]
            },
{
    let (flow, tool) = (event.flow_id->0@, event.tool_id->0@);
    lemma_running(seen.drafts, flow, tool);
    let place = running(seen.drafts, flow, tool)->0;
    assert(runs(seen.drafts[place], flow, tool));
}

/// An event that starts a tool adds exactly one observation behind the others: of its flow
/// and tool, in the phase that the flow is in, at its sequence and time, and uncertain; the
/// others stay as they were.
pub proof fn law_started_tool_is_observed(seen: ObservationsModel, event: ObservedEvent)
    requires
        observe_failure(seen, event) is None,
        event.kind == ObservedKind::ToolStarted,
    ensures
        ({
            let after = observed(seen, event).drafts;
            let draft = after.last();
            &&& event.flow_id is Some && event.tool_id is Some
            &&& after.len() == seen.drafts.len() + 1
            &&& after.drop_last() == seen.drafts
            &&& draft.flow_id == event.flow_id->0@
            &&& draft.tool_id == event.tool_id->0@
            &&& draft.phase_id == (if seen.phases.dom().contains(event.flow_id->0@) {
                Some(seen.phases[event.flow_id->0@]@)
            } else {
                None
            })
            &&& draft.start_sequence == event.sequence
            &&& draft.timestamp == event.timestamp@
            &&& draft.terminal_sequence is None
            &&& draft.exit_code is None
            &&& draft.outcome == LegacyToolObservationOutcome::Uncertain
            &&& observed(seen, event).phases == seen.phases
        }),
{
    assert(observed(seen, event).drafts.drop_last() =~= seen.drafts);
}

/// A flow is in the phase that it entered last, until that phase ends; no other event tells
/// of phases, and none of these of tools.
pub proof fn law_phases_are_followed(seen: ObservationsModel, event: ObservedEvent, flow: Seq<char>)
    requires
        observe_failure(seen, event) is None,
    ensures
        ({
            let after = observed(seen, event);
            let concerned = event.flow_id is Some && event.flow_id->0@ == flow;
            &&& event.kind == ObservedKind::PhaseEntered && concerned && event.phase_id is Some
                ==> after.phases.dom().contains(flow) && after.phases[flow] == event.phase_id->0
            &&& event.kind == ObservedKind::PhaseEnded && concerned ==> !after.phases.dom().contains(
                flow,
            )
            &&& !concerned || !(event.kind == ObservedKind::PhaseEntered || event.kind
                == ObservedKind::PhaseEnded) ==> {
                &&& after.phases.dom().contains(flow) == seen.phases.dom().contains(flow)
                &&& seen.phases.dom().contains(flow) ==> after.phases[flow] == seen.phases[flow]
            }
            &&& event.kind == ObservedKind::PhaseEntered || event.kind == ObservedKind::PhaseEnded
                || event.kind == ObservedKind::Other ==> after.drafts == seen.drafts
        }),
{
}

/// A tool is refused that starts while it runs, or ends while it does not: whether it runs is
/// told by an observation of its flow and tool that has not ended.
pub proof fn law_tools_start_and_end_in_turn(seen: ObservationsModel, event: ObservedEvent)
    requires
        event.flow_id is Some,
        event.tool_id is Some,
    ensures
        ({
            let is_running = exists|k: int|
                0 <= k < seen.drafts.len() && (#[trigger] seen.drafts[k]).terminal_sequence is None
                    && seen.drafts[k].flow_id == event.flow_id->0@ && seen.drafts[k].tool_id
                    == event.tool_id->0@;
            &&& event.kind == ObservedKind::ToolStarted ==> (observe_failure(seen, event) is None
                <==> !is_running)
            &&& event.kind == ObservedKind::ToolCompleted || event.kind == ObservedKind::ToolFailed
                || event.kind == ObservedKind::ToolTimedOut ==> (observe_failure(seen, event) is None
                <==> is_running)
        }),
{
    let (flow, tool) = (event.flow_id->0@, event.tool_id->0@);
    lemma_running(seen.drafts, flow, tool);
    if running(seen.drafts, flow, tool) is Some {
        let place = running(seen.drafts, flow, tool)->0;
        assert(runs(seen.drafts[place], flow, tool));
        assert(seen.drafts[place].terminal_sequence is None);
    } else {
        assert forall|k: int| 0 <= k < seen.drafts.len() implies !((
        #[trigger] seen.drafts[k]).terminal_sequence is None && seen.drafts[k].flow_id == flow
            && seen.drafts[k].tool_id == tool) by {
            assert(!runs(seen.drafts[k], flow, tool));
        }
    }
}

/// Every observation is recorded, in the order of the starts, with what was observed and an
/// identifier of its own; as many attempts are uncertain as observations have not ended.
pub proof fn law_observations_are_recorded(drafts: Seq<DraftModel>, k: int)
    requires
        0 <= k < drafts.len(),
    ensures
        records_of(drafts).len() == drafts.len(),
        records_of(drafts)[k].draft == drafts[k],
        records_of(drafts)[k].schema == RUN_LOG_RECORD_SCHEMA_V1@,
        records_of(drafts)[k].observation_id == "legacy-tool-"@ + digest::digest_text(
            encode_utf8(
                drafts[k].flow_id + "\0"@ + (if drafts[k].phase_id is Some {
                    drafts[k].phase_id->0
                } else {
                    Seq::empty()
                }) + "\0"@ + drafts[k].tool_id + "\0"@ + text::decimal(
                    drafts[k].start_sequence as nat,
                ),
            ),
        ),
{
}

proof fn lemma_uncertain_of_parts(left: Seq<ObservationModel>, right: Seq<ObservationModel>)
    ensures
        uncertain_count(left + right) == uncertain_count(left) + uncertain_count(right),
    decreases right.len(),
{
    if right.len() == 0 {
        assert(left + right =~= left);
    } else {
        assert((left + right).drop_last() =~= left + right.drop_last());
        lemma_uncertain_of_parts(left, right.drop_last());
    }
}

/// The uncertain attempts are counted one by one: those before any observation, itself where
/// it is uncertain, and those behind it.
pub proof fn law_uncertain_observations_are_counted(records: Seq<ObservationModel>, k: int)
    requires
        0 <= k < records.len(),
    ensures
        uncertain_count(records) == uncertain_count(records.take(k)) + (if records[k].draft.outcome
            == LegacyToolObservationOutcome::Uncertain {
            1nat
        } else {
            0
        }) + uncertain_count(records.skip(k + 1)),
        uncertain_count(Seq::<ObservationModel>::empty()) == 0,
{
    let (head, one, tail) = (records.take(k), seq![records[k]], records.skip(k + 1));
    assert(records =~= (head + one) + tail);
    lemma_uncertain_of_parts(head + one, tail);
    lemma_uncertain_of_parts(head, one);
    assert(one.drop_last() =~= Seq::<ObservationModel>::empty());
    assert(uncertain_count(one.drop_last()) == 0);
}

} // verus!

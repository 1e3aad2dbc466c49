//! What an execution keeps while it emits events: numbers, budgets, signatures and
//! what went wrong.

use crate::engine::mode::EventClock;
use crate::engine::registry::StepPayload;
use crate::engine::signature::{IntentModel, PlannedToolIntent, RuntimeExecution, RuntimeStreamSignatureBuilder, CONTEXT_PLAN_DOMAIN, EVENT_PLAN_DOMAIN};
use crate::engine::signature;
use crate::error::{protocol, ErrorModel, RuntimeError};
use crate::error;
use crate::keyed::KeyedList;
use crate::text::{append_text, decimal_text, join2, join3, padded_decimal_text};
use crate::text;
use vstd::prelude::*;
use vstd::utf8::*;

verus! {

/// One run of a flow.
pub struct FlowInvocation {
    pub flow_id: String,
    pub parent_flow_id: Option<String>,
}

/// What an event is about, as far as an execution goes by it.
#[derive(Clone, Copy, Debug, PartialEq, Eq, Structural)]
pub enum EventKind {
    Error,
    FlowCompleted,
    FlowStarted,
    MessageCompleted,
    MessageDelta,
    PhaseEntered,
    SessionCompleted,
    SessionFailed,
    SessionStarted,
    StepCompleted,
    StepStarted,
    Other,
}

/// What the payload of an event holds of a failure.
pub struct FailureFacts {
    pub code: Option<String>,
    pub message: Option<String>,
    pub reason: Option<String>,
}

/// A context manifest, to be stored with the message that it was compiled for.
pub struct ContextManifestCheckpoint {
    pub line: String,
    pub ordinal: usize,
}

/// The number and the name of the next event.
pub struct NextEvent {
    pub sequence: u64,
    pub event_id: String,
}

/// The reason for which a session failed, with the message known for it.
pub struct SessionFailure {
    pub reason: String,
    pub message: Option<String>,
}

/// What an execution keeps while it emits events.
pub struct RuntimeEventBuilder {
    pub active_step_payloads: KeyedList<StepPayload>,
    pub clock: EventClock,
    pub context_manifests: RuntimeStreamSignatureBuilder,
    pub events: RuntimeStreamSignatureBuilder,
    pub failure_messages: KeyedList<String>,
    pub session_failure: Option<SessionFailure>,
    pub flow_counter: u64,
    pub message_counter: u64,
    pub sequence: u64,
    pub session_id: String,
    pub pending_context_manifest: Option<String>,
    pub tool_intents: Vec<PlannedToolIntent>,
    pub validates: bool,
    /// The lines of the events emitted.
    pub event_lines: Ghost<Seq<Seq<u8>>>,
    /// The lines of the context manifests stored.
    pub manifest_lines: Ghost<Seq<Seq<u8>>>,
}

/// A name made of a prefix and a number of at least three digits.
pub open spec fn numbered(prefix: Seq<char>, number: nat) -> Seq<char> {
    prefix + text::zero_padded(text::decimal(number), 3)
}

pub fn numbered_text(prefix: &str, number: u64) -> (name: String)
    ensures
        name@ == numbered(prefix@, number as nat),
{
    let digits = padded_decimal_text(number, 3);
    join2(prefix, digits.as_str())
}

/// Two numbered names with the same prefix are the same only for the same number.
pub proof fn law_numbered_names_differ(prefix: Seq<char>, left: nat, right: nat)
    requires
        numbered(prefix, left) == numbered(prefix, right),
    ensures
        left == right,
{
    let a = text::zero_padded(text::decimal(left), 3);
    let b = text::zero_padded(text::decimal(right), 3);
    assert(a =~= numbered(prefix, left).skip(prefix.len() as int));
    assert(b =~= numbered(prefix, right).skip(prefix.len() as int));
    crate::text::lemma_positional(left, 10);
    crate::text::lemma_positional(right, 10);
    crate::text::lemma_zero_padded(text::decimal(left), 3, 10);
    crate::text::lemma_zero_padded(text::decimal(right), 3, 10);
}

/// What is wrong with one more invocation.
pub open spec fn invocation_failure(counter: nat, maximum: u64) -> Option<ErrorModel> {
    if counter + 1 > maximum {
        error::protocol_failure(
            "flow invocation budget exceeded: next invocation "@ + text::decimal(counter + 1)
                + " exceeds max "@ + text::decimal(maximum as nat),
        )
    } else {
        None
    }
}

/// The failure of one invocation too many.
pub fn invocation_budget_exceeded(next: u64, maximum: u64) -> (error: RuntimeError)
    ensures
        error@ == ErrorModel::Protocol(
            "flow invocation budget exceeded: next invocation "@ + text::decimal(next as nat)
                + " exceeds max "@ + text::decimal(maximum as nat),
        ),
{
    let number = decimal_text(next);
    let limit = decimal_text(maximum);
    let mut message = join3(
        "flow invocation budget exceeded: next invocation ",
        number.as_str(),
        " exceeds max ",
    );
    append_text(&mut message, limit.as_str());
    protocol(message.as_str())
}

/// What is wrong with one more event.
pub open spec fn event_failure(sequence: nat, maximum: u64) -> Option<ErrorModel> {
    if sequence + 1 > maximum {
        error::protocol_failure(
            "runtime event budget exceeded: next event "@ + text::decimal(sequence + 1)
                + " exceeds max "@ + text::decimal(maximum as nat),
        )
    } else {
        None
    }
}

/// The reason for which a session failed, by its contents.
pub open spec fn session_failure_view(found: Option<SessionFailure>) -> Option<
    (Seq<char>, Option<Seq<char>>),
> {
    match found {
        Some(found) => Some((found.reason@, text::optional_view(found.message))),
        None => None,
    }
}

impl RuntimeEventBuilder {
    /// The signatures are those of the lines kept, and no key stands twice.
    pub open spec fn wf(self) -> bool {
        &&& self.events.holds(encode_utf8(EVENT_PLAN_DOMAIN@), self.event_lines@)
        &&& self.context_manifests.holds(encode_utf8(CONTEXT_PLAN_DOMAIN@), self.manifest_lines@)
        &&& self.active_step_payloads.wf()
        &&& self.failure_messages.wf()
        &&& self.message_counter < u64::MAX
        &&& self.sequence < u64::MAX
        &&& self.flow_counter < u64::MAX
    }

    /// A builder that has emitted nothing.
    pub fn with_clock(session_id: &str, clock: EventClock, validate_plan: bool) -> (builder:
        RuntimeEventBuilder)
        ensures
            builder.wf(),
            builder.session_id@ == session_id@,
            builder.clock == clock,
            builder.validates == validate_plan,
            builder.event_lines@ == Seq::<Seq<u8>>::empty(),
            builder.manifest_lines@ == Seq::<Seq<u8>>::empty(),
            builder.sequence == 0,
            builder.flow_counter == 0,
            builder.message_counter == 0,
            builder.session_failure is None,
            builder.pending_context_manifest is None,
            builder.tool_intents@.len() == 0,
            builder.failure_messages@ == Map::<Seq<char>, String>::empty(),
            builder.active_step_payloads@ == Map::<Seq<char>, StepPayload>::empty(),
    {
        RuntimeEventBuilder {
            active_step_payloads: KeyedList::new(),
            clock,
            context_manifests: RuntimeStreamSignatureBuilder::new(CONTEXT_PLAN_DOMAIN),
            events: RuntimeStreamSignatureBuilder::new(EVENT_PLAN_DOMAIN),
            failure_messages: KeyedList::new(),
            session_failure: None,
            flow_counter: 0,
            message_counter: 0,
            sequence: 0,
            session_id: session_id.to_owned(),
            pending_context_manifest: None,
            tool_intents: Vec::new(),
            validates: validate_plan,
            event_lines: Ghost(Seq::empty()),
            manifest_lines: Ghost(Seq::empty()),
        }
    }

    /// Numbers one more invocation.
    pub fn next_flow_invocation(&mut self, parent_flow_id: Option<String>, maximum: u64) -> (result:
        Result<FlowInvocation, RuntimeError>)
        requires
            old(self).wf(),
            maximum < u64::MAX,
        ensures
            error::failure(result) == invocation_failure(old(self).flow_counter as nat, maximum),
            result is Err ==> *final(self) == *old(self),
            result matches Ok(invocation) ==> {
                &&& final(self).wf()
                &&& *final(self) == (RuntimeEventBuilder {
                    flow_counter: (old(self).flow_counter + 1) as u64,
                    ..*old(self)
                })
                &&& invocation.flow_id@ == numbered(
                    "flow-"@,
                    (old(self).flow_counter + 1) as nat,
                )
                &&& text::optional_view(invocation.parent_flow_id) == text::optional_view(parent_flow_id)
            },
    {
        let next: u64 = self.flow_counter + 1;
        if next > maximum {
            return Err(invocation_budget_exceeded(next, maximum));
        }
        self.flow_counter = next;
        Ok(FlowInvocation { flow_id: numbered_text("flow-", next), parent_flow_id })
    }

    /// Names one more message.
    pub fn next_message_id(&mut self) -> (message_id: String)
        requires
            old(self).wf(),
            old(self).message_counter + 1 < u64::MAX,
        ensures
            final(self).wf(),
            message_id@ == numbered("msg-"@, (old(self).message_counter + 1) as nat),
            *final(self) == (RuntimeEventBuilder {
                message_counter: (old(self).message_counter + 1) as u64,
                ..*old(self)
            }),
    {
        self.message_counter = self.message_counter + 1;
        numbered_text("msg-", self.message_counter)
    }

    /// Keeps a planned tool call, given its canonical form or why it has none.
    pub fn record_tool_intent(
        &mut self,
        invocation: &FlowInvocation,
        tool_id: &str,
        canonical: Result<String, String>,
    ) -> (result: Result<(), RuntimeError>)
        requires
            old(self).wf(),
        ensures
            error::failure(result) == (match canonical {
                Ok(_) => None,
                Err(words) => error::protocol_failure(
                    "failed to serialize tool intent "@ + tool_id@ + ": "@ + words@,
                ),
            }),
            result is Err ==> *final(self) == *old(self),
            final(self).wf(),
            result is Ok ==> {
                &&& signature::intents_view(final(self).tool_intents@) == signature::intents_view(
                    old(self).tool_intents@,
                ).push(
                    IntentModel {
                        canonical: canonical->Ok_0@,
                        flow_id: invocation.flow_id@,
                        tool_id: tool_id@,
                    },
                )
                &&& *final(self) == (RuntimeEventBuilder {
                    tool_intents: final(self).tool_intents,
                    ..*old(self)
                })
            },
    {
        match canonical {
            Ok(canonical) => {
                let ghost before = self.tool_intents@;
                self.tool_intents.push(
                    PlannedToolIntent {
                        canonical,
                        flow_id: invocation.flow_id.clone(),
                        tool_id: tool_id.to_owned(),
                    },
                );
                assert(signature::intents_view(self.tool_intents@) =~= signature::intents_view(before).push(
                    self.tool_intents@.last()@,
                ));
                Ok(())
            },
            Err(words) => {
                let mut message = join3("failed to serialize tool intent ", tool_id, ": ");
                append_text(&mut message, words.as_str());
                Err(protocol(message.as_str()))
            },
        }
    }

    /// Keeps the context manifest of the message to come, where the stream of
    /// manifests may still grow by it.
    pub fn record_context_manifest(&mut self, line: String, growth: Result<(), RuntimeError>) -> (result:
        Result<(), RuntimeError>)
        requires
            old(self).wf(),
        ensures
            error::failure(result) == error::failure(growth),
            final(self).wf(),
            result is Err ==> *final(self) == *old(self),
            result is Ok ==> *final(self) == (RuntimeEventBuilder {
                pending_context_manifest: Some(line),
                ..*old(self)
            }),
    {
        growth?;
        self.pending_context_manifest = Some(line);
        Ok(())
    }

    /// The number and the name of the next event.
    pub fn next_event(&self, maximum: u64) -> (result: Result<NextEvent, RuntimeError>)
        requires
            self.wf(),
        ensures
            error::failure(result) == event_failure(self.sequence as nat, maximum),
            result matches Ok(next) ==> {
                &&& next.sequence == self.sequence + 1
                &&& next.sequence <= maximum
                &&& next.event_id@ == numbered("evt-"@, (self.sequence + 1) as nat)
            },
    {
        let sequence: u64 = self.sequence + 1;
        if sequence > maximum {
            let number = decimal_text(sequence);
            let limit = decimal_text(maximum);
            let mut message = join3(
                "runtime event budget exceeded: next event ",
                number.as_str(),
                " exceeds max ",
            );
            append_text(&mut message, limit.as_str());
            return Err(protocol(message.as_str()));
        }
        Ok(NextEvent { sequence, event_id: numbered_text("evt-", sequence) })
    }

    /// What is wrong with the context manifest of an event.
    pub open spec fn checkpoint_failure(self, kind: EventKind) -> Option<ErrorModel> {
        if kind == EventKind::MessageCompleted && self.pending_context_manifest is None {
            error::protocol_failure("message.completed has no compiled context manifest"@)
        } else {
            None
        }
    }

    /// Takes the context manifest that belongs to an event: a completed message has
    /// one, and no other event does.
    pub fn take_checkpoint(&mut self, kind: EventKind) -> (result: Result<
        Option<ContextManifestCheckpoint>,
        RuntimeError,
    >)
        requires
            old(self).wf(),
        ensures
            error::failure(result) == old(self).checkpoint_failure(kind),
            final(self).wf(),
            result is Err ==> *final(self) == *old(self),
            result matches Ok(checkpoint) ==> if kind == EventKind::MessageCompleted {
                &&& checkpoint matches Some(checkpoint)
                &&& old(self).pending_context_manifest == Some(checkpoint.line)
                &&& old(self).manifest_lines@.len() < usize::MAX ==> checkpoint.ordinal == old(
                    self,
                ).manifest_lines@.len() + 1
                &&& *final(self) == (RuntimeEventBuilder {
                    pending_context_manifest: None,
                    ..*old(self)
                })
            } else {
                checkpoint is None && *final(self) == *old(self)
            },
    {
        if kind != EventKind::MessageCompleted {
            return Ok(None);
        }
        let mut pending: Option<String> = None;
        std::mem::swap(&mut pending, &mut self.pending_context_manifest);
        match pending {
            Some(line) => Ok(
                Some(
                    ContextManifestCheckpoint {
                        line,
                        ordinal: self.context_manifests.record_count.saturating_add(1),
                    },
                ),
            ),
            None => Err(protocol("message.completed has no compiled context manifest")),
        }
    }

    /// The messages kept after an event.
    pub open spec fn messages_after(self, kind: EventKind, facts: FailureFacts) -> Map<
        Seq<char>,
        String,
    > {
        match (kind, facts.code, facts.message) {
            (EventKind::Error, Some(code), Some(message)) => self.failure_messages@.insert(
                code@,
                message,
            ),
            _ => self.failure_messages@,
        }
    }

    /// The failure kept after an event.
    pub open spec fn failure_after(self, kind: EventKind, facts: FailureFacts) -> Option<
        (Seq<char>, Option<Seq<char>>),
    > {
        match (kind, facts.reason) {
            (EventKind::SessionFailed, Some(reason)) => Some(
                (
                    reason@,
                    if self.failure_messages@.dom().contains(reason@) {
                        Some(self.failure_messages@[reason@]@)
                    } else {
                        None
                    },
                ),
            ),
            _ => session_failure_view(self.session_failure),
        }
    }

    /// Keeps an event that is about to be committed: its line is signed, and what it
    /// says of a failure is remembered.
    pub fn record_event(
        &mut self,
        kind: EventKind,
        facts: FailureFacts,
        event_line: &str,
        checkpoint: &Option<ContextManifestCheckpoint>,
    )
        requires
            old(self).wf(),
        ensures
            final(self).wf(),
            final(self).failure_messages@ == old(self).messages_after(kind, facts),
            session_failure_view(final(self).session_failure) == old(self).failure_after(kind, facts),
            final(self).event_lines@ == old(self).event_lines@.push(encode_utf8(event_line@)),
            final(self).manifest_lines@ == (match checkpoint {
                Some(checkpoint) => old(self).manifest_lines@.push(encode_utf8(checkpoint.line@)),
                None => old(self).manifest_lines@,
            }),
            *final(self) == (RuntimeEventBuilder {
                failure_messages: final(self).failure_messages,
                session_failure: final(self).session_failure,
                events: final(self).events,
                event_lines: final(self).event_lines,
                context_manifests: final(self).context_manifests,
                manifest_lines: final(self).manifest_lines,
                ..*old(self)
            }),
    {
        let FailureFacts { code, message, reason } = facts;
        match kind {
            EventKind::Error => {
                if let Some(code) = code {
                    if let Some(message) = message {
                        self.failure_messages.insert(code, message);
                    }
                }
            },
            EventKind::SessionFailed => {
                if let Some(reason) = reason {
                    let known = match self.failure_messages.get(reason.as_str()) {
                        Some(message) => Some(message.clone()),
                        None => None,
                    };
                    self.session_failure = Some(SessionFailure { reason, message: known });
                }
            },
            _ => {},
        }
        let ghost lines = self.event_lines@;
        self.events.push(event_line.as_bytes());
        self.event_lines = Ghost(lines.push(encode_utf8(event_line@)));
        proof {
            assert(self.events.holds(encode_utf8(EVENT_PLAN_DOMAIN@), self.event_lines@));
        }
        if let Some(checkpoint) = checkpoint {
            let ghost manifests = self.manifest_lines@;
            self.context_manifests.push(checkpoint.line.as_str().as_bytes());
            self.manifest_lines = Ghost(manifests.push(encode_utf8(checkpoint.line@)));
            proof {
                assert(self.context_manifests.holds(
                    encode_utf8(CONTEXT_PLAN_DOMAIN@),
                    self.manifest_lines@,
                ));
            }
        }
    }

    /// The steps that are under way after an event was committed.
    pub open spec fn steps_after(
        self,
        kind: EventKind,
        flow_id: Option<Seq<char>>,
        payload: Option<StepPayload>,
    ) -> Map<Seq<char>, StepPayload> {
        match (kind, flow_id, payload) {
            (EventKind::StepStarted, Some(flow_id), Some(payload)) =>
                self.active_step_payloads@.insert(flow_id, payload),
            (EventKind::StepCompleted, Some(flow_id), _) => self.active_step_payloads@.remove(
                flow_id,
            ),
            _ => self.active_step_payloads@,
        }
    }

    /// Takes note that an event was committed.
    pub fn commit_event(
        &mut self,
        sequence: u64,
        kind: EventKind,
        flow_id: Option<String>,
        payload: Option<StepPayload>,
    )
        requires
            old(self).wf(),
            sequence < u64::MAX,
        ensures
            final(self).wf(),
            final(self).sequence == sequence,
            final(self).active_step_payloads@ == old(self).steps_after(
                kind,
                text::optional_view(flow_id),
                payload,
            ),
            *final(self) == (RuntimeEventBuilder {
                sequence,
                active_step_payloads: final(self).active_step_payloads,
                ..*old(self)
            }),
    {
        self.sequence = sequence;
        if let Some(flow_id) = flow_id {
            match kind {
                EventKind::StepStarted => {
                    if let Some(payload) = payload {
                        self.active_step_payloads.insert(flow_id, payload);
                    }
                },
                EventKind::StepCompleted => {
                    self.active_step_payloads.remove(flow_id.as_str());
                },
                _ => {},
            }
        }
    }

    /// What is wrong with an event before it is checked, given its line or why it has
    /// none.
    pub open spec fn unchecked_failure(
        self,
        maximum: u64,
        kind: EventKind,
        line: Result<String, String>,
    ) -> Option<ErrorModel> {
        error::first_failure(
            event_failure(self.sequence as nat, maximum),
            error::first_failure(
                match line {
                    Ok(_) => None,
                    Err(words) => error::protocol_failure(
                        "failed to serialize runtime event: "@ + words@,
                    ),
                },
                self.checkpoint_failure(kind),
            ),
        )
    }

    /// What is wrong with an event that is to be emitted, given also what checking it gave.
    pub open spec fn emit_failure(
        self,
        maximum: u64,
        kind: EventKind,
        line: Result<String, String>,
        checked: Result<(), RuntimeError>,
    ) -> Option<ErrorModel> {
        error::first_failure(
            self.unchecked_failure(maximum, kind, line),
            if self.validates {
                error::failure(checked)
            } else {
                None
            },
        )
    }

    /// The builder after the context manifest of an event was taken.
    pub open spec fn taken(self, kind: EventKind) -> RuntimeEventBuilder {
        if kind == EventKind::MessageCompleted {
            RuntimeEventBuilder { pending_context_manifest: None, ..self }
        } else {
            self
        }
    }

    /// Emits an event up to where it is committed: the budget, its line, its context
    /// manifest and the checks on it come first, and only what passes them is signed.
    /// Gives the context manifest that is committed with it.
    pub fn emit(
        &mut self,
        maximum: u64,
        kind: EventKind,
        facts: FailureFacts,
        line: Result<String, String>,
        checked: Result<(), RuntimeError>,
    ) -> (result: Result<Option<ContextManifestCheckpoint>, RuntimeError>)
        requires
            old(self).wf(),
        ensures
            error::failure(result) == old(self).emit_failure(maximum, kind, line, checked),
            final(self).wf(),
            result is Err ==> *final(self) == (if old(self).unchecked_failure(
                maximum,
                kind,
                line,
            ) is Some {
                *old(self)
            } else {
                old(self).taken(kind)
            }),
            result matches Ok(checkpoint) ==> {
                &&& (kind == EventKind::MessageCompleted) == (checkpoint is Some)
                &&& checkpoint matches Some(checkpoint) ==> {
                    &&& old(self).pending_context_manifest == Some(checkpoint.line)
                    &&& old(self).manifest_lines@.len() < usize::MAX ==> checkpoint.ordinal
                        == old(self).manifest_lines@.len() + 1
                }
                &&& *final(self) == (RuntimeEventBuilder {
                    failure_messages: final(self).failure_messages,
                    session_failure: final(self).session_failure,
                    events: final(self).events,
                    event_lines: final(self).event_lines,
                    context_manifests: final(self).context_manifests,
                    manifest_lines: final(self).manifest_lines,
                    ..old(self).taken(kind)
                })
                &&& final(self).failure_messages@ == old(self).messages_after(kind, facts)
                &&& session_failure_view(final(self).session_failure) == old(self).failure_after(
                    kind,
                    facts,
                )
                &&& final(self).event_lines@ == old(self).event_lines@.push(
                    encode_utf8(line->Ok_0@),
                )
                &&& final(self).manifest_lines@ == (match checkpoint {
                    Some(checkpoint) => old(self).manifest_lines@.push(
                        encode_utf8(checkpoint.line@),
                    ),
                    None => old(self).manifest_lines@,
                })
            },
    {
        self.next_event(maximum)?;
        let line = match line {
            Ok(line) => line,
            Err(words) => {
                let message = join2("failed to serialize runtime event: ", words.as_str());
                return Err(protocol(message.as_str()));
            },
        };
        let checkpoint = self.take_checkpoint(kind)?;
        if self.validates {
            checked?;
        }
        self.record_event(kind, facts, line.as_str(), &checkpoint);
        Ok(checkpoint)
    }

    /// Goes on by what came of committing an event that was emitted: what was not
    /// committed is not counted.
    pub fn emitted(
        &mut self,
        committed: Result<(), RuntimeError>,
        kind: EventKind,
        flow_id: Option<String>,
        payload: Option<StepPayload>,
    ) -> (result: Result<(), RuntimeError>)
        requires
            old(self).wf(),
            old(self).sequence + 1 < u64::MAX,
        ensures
            error::failure(result) == error::failure(committed),
            final(self).wf(),
            result is Err ==> *final(self) == *old(self),
            result is Ok ==> {
                &&& final(self).sequence == old(self).sequence + 1
                &&& final(self).active_step_payloads@ == old(self).steps_after(
                    kind,
                    text::optional_view(flow_id),
                    payload,
                )
                &&& *final(self) == (RuntimeEventBuilder {
                    sequence: final(self).sequence,
                    active_step_payloads: final(self).active_step_payloads,
                    ..*old(self)
                })
            },
    {
        committed?;
        self.commit_event(self.sequence + 1, kind, flow_id, payload);
        Ok(())
    }

    /// What the execution came to, given the words for its failure.
    pub fn into_execution(
        self,
        failed: bool,
        failure_status: Option<String>,
        terminal_error: Option<RuntimeError>,
    ) -> (execution: RuntimeExecution)
        requires
            self.wf(),
        ensures
            execution.events@ == signature::stream_signature(
                encode_utf8(EVENT_PLAN_DOMAIN@),
                self.event_lines@,
            ),
            execution.context_manifests@ == signature::stream_signature(
                encode_utf8(CONTEXT_PLAN_DOMAIN@),
                self.manifest_lines@,
            ),
            execution.failed == failed,
            execution.failure_status == failure_status,
            execution.terminal_error == terminal_error,
            execution.tool_intents == self.tool_intents,
    {
        RuntimeExecution {
            context_manifests: self.context_manifests.signature(),
            events: self.events.signature(),
            failed,
            failure_status,
            terminal_error,
            tool_intents: self.tool_intents,
        }
    }
}

/// A budget is spent exactly where as many were counted as there may be: the next invocation
/// fails, and the next event.
pub proof fn law_budgets_are_spent_to_the_last(counter: nat, maximum: u64)
    ensures
        invocation_failure(counter, maximum) is None <==> counter < maximum,
        event_failure(counter, maximum) is None <==> counter < maximum,
{
}

/// A failed session is told with its reason, and with the message of the error that was last
/// emitted under that reason; errors of other codes do not change it, nor do other events.
pub proof fn law_failed_session_tells_its_error(
    before: RuntimeEventBuilder,
    after: RuntimeEventBuilder,
    kind: EventKind,
    error: FailureFacts,
    end: FailureFacts,
)
    requires
        after.failure_messages@ == before.messages_after(kind, error),
        end.reason is Some,
    ensures
        after.failure_after(EventKind::SessionFailed, end) is Some,
        ({
            let (reason, message) = after.failure_after(EventKind::SessionFailed, end)->0;
            &&& reason == end.reason->0@
            &&& kind == EventKind::Error && error.code is Some && error.message is Some
                && error.code->0@ == end.reason->0@ ==> message == Some(error.message->0@)
        }),
        kind != EventKind::Error || error.code is None || error.message is None
            || error.code->0@ != end.reason->0@ ==> after.failure_after(
            EventKind::SessionFailed,
            end,
        ) == before.failure_after(EventKind::SessionFailed, end),
        forall|other: EventKind|
            other != EventKind::SessionFailed ==> #[trigger] after.failure_after(other, end)
                == session_failure_view(after.session_failure),
{
}

/// A flow has the step that it started last, until that step is completed; the steps of other
/// flows stay, and no other event tells of steps.
pub proof fn law_active_step_is_the_last_started(
    builder: RuntimeEventBuilder,
    kind: EventKind,
    flow_id: Seq<char>,
    payload: StepPayload,
    other: Seq<char>,
)
    requires
        other != flow_id,
    ensures
        ({
            let started = builder.steps_after(EventKind::StepStarted, Some(flow_id), Some(payload));
            let completed = builder.steps_after(EventKind::StepCompleted, Some(flow_id), None);
            let steps = builder.active_step_payloads@;
            &&& started.dom().contains(flow_id)
            &&& started[flow_id] == payload
            &&& started.dom().contains(other) == steps.dom().contains(other)
            &&& steps.dom().contains(other) ==> started[other] == steps[other]
            &&& !completed.dom().contains(flow_id)
            &&& completed.dom().contains(other) == steps.dom().contains(other)
            &&& steps.dom().contains(other) ==> completed[other] == steps[other]
            &&& kind != EventKind::StepStarted && kind != EventKind::StepCompleted
                ==> builder.steps_after(kind, Some(flow_id), Some(payload)) == steps
        }),
{
}

} // verus!

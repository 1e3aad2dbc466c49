//! Signatures over streams of records, and the plan that an execution is held to.

use crate::digest::{hasher_clone, hasher_digest, hasher_new, hasher_update};
use crate::digest;
use crate::error::{protocol, RuntimeError};
use crate::error;
use crate::text::{same_bytes, same_optional, same_text};
use crate::text;
use crate::wire::u64_be_bytes;
use crate::wire;
use vstd::array::*;
use vstd::prelude::*;
use vstd::utf8::*;

verus! {

pub const EVENT_PLAN_DOMAIN: &'static str = "watershed.runtime.event-plan.v1";
pub const CONTEXT_PLAN_DOMAIN: &'static str = "watershed.runtime.context-plan.v1";
pub const FLOW_EXECUTION_PLAN_DOMAIN: &'static str = "watershed.runtime.flow-execution-plan.v1";

/// Bytes with their length before them, so that records cannot run together.
pub open spec fn framed(bytes: Seq<u8>) -> Seq<u8> {
    wire::be_bytes(bytes.len()) + bytes
}

/// Records, each framed, one behind the other.
pub open spec fn framed_all(records: Seq<Seq<u8>>) -> Seq<u8>
    decreases records.len(),
{
    if records.len() == 0 {
        Seq::empty()
    } else {
        framed_all(records.drop_last()) + framed(records.last())
    }
}

/// What the signature of a stream of records is the digest of.
pub open spec fn stream_material(domain: Seq<u8>, records: Seq<Seq<u8>>) -> Seq<u8> {
    framed(domain) + framed_all(records)
}

/// How many bytes some records have together.
pub open spec fn bytes_of(records: Seq<Seq<u8>>) -> nat
    decreases records.len(),
{
    if records.len() == 0 {
        0
    } else {
        bytes_of(records.drop_last()) + records.last().len()
    }
}

/// A count as far as a word can hold it.
pub open spec fn saturated(count: nat) -> usize {
    if count > usize::MAX {
        usize::MAX
    } else {
        count as usize
    }
}

/// What a stream of records comes to.
pub struct RuntimeStreamSignature {
    pub byte_count: usize,
    pub digest: [u8; 32],
    pub record_count: usize,
}

/// A signature with its digest taken as a sequence.
pub struct SignatureModel {
    pub byte_count: usize,
    pub digest: Seq<u8>,
    pub record_count: usize,
}

impl View for RuntimeStreamSignature {
    type V = SignatureModel;

    open spec fn view(&self) -> SignatureModel {
        SignatureModel {
            byte_count: self.byte_count,
            digest: self.digest@,
            record_count: self.record_count,
        }
    }
}

/// The signature of a stream of records under a domain.
pub open spec fn stream_signature(domain: Seq<u8>, records: Seq<Seq<u8>>) -> SignatureModel {
    SignatureModel {
        byte_count: saturated(bytes_of(records)),
        digest: digest::sha256(stream_material(domain, records)),
        record_count: saturated(records.len()),
    }
}

/// Whether two signatures are the same.
pub fn same_signature(left: &RuntimeStreamSignature, right: &RuntimeStreamSignature) -> (same: bool)
    ensures
        same == (left@ == right@),
{
    left.byte_count == right.byte_count && left.record_count == right.record_count && same_bytes(
        array_as_slice(&left.digest),
        array_as_slice(&right.digest),
    )
}

impl Clone for RuntimeStreamSignature {
    fn clone(&self) -> (copy: Self)
        ensures
            copy@ == self@,
    {
        RuntimeStreamSignature {
            byte_count: self.byte_count,
            digest: self.digest,
            record_count: self.record_count,
        }
    }
}

/// A signature that is being made.
pub struct RuntimeStreamSignatureBuilder {
    pub byte_count: usize,
    pub hasher: sha2::Sha256,
    pub record_count: usize,
}

impl RuntimeStreamSignatureBuilder {
    /// Whether the builder has taken exactly these records under a domain.
    pub open spec fn holds(self, domain: Seq<u8>, records: Seq<Seq<u8>>) -> bool {
        &&& self.byte_count == saturated(bytes_of(records))
        &&& self.record_count == saturated(records.len())
        &&& digest::hasher_input(self.hasher) == stream_material(domain, records)
    }

    /// A builder that has taken no records.
    pub fn new(domain: &str) -> (builder: RuntimeStreamSignatureBuilder)
        ensures
            builder.holds(encode_utf8(domain@), Seq::empty()),
    {
        let mut hasher = hasher_new();
        let bytes = domain.as_bytes();
        let length = u64_be_bytes(bytes.len() as u64);
        hasher_update(&mut hasher, length.as_slice());
        hasher_update(&mut hasher, bytes);
        let ghost none: Seq<Seq<u8>> = Seq::empty();
        assert(digest::hasher_input(hasher) =~= stream_material(encode_utf8(domain@), none));
        RuntimeStreamSignatureBuilder { byte_count: 0, hasher, record_count: 0 }
    }

    /// Takes a record.
    pub fn push(&mut self, record: &[u8])
        ensures
            digest::hasher_input(final(self).hasher) == digest::hasher_input(old(self).hasher) + framed(record@),
            forall|domain: Seq<u8>, records: Seq<Seq<u8>>| #[trigger]
                old(self).holds(domain, records) ==> final(self).holds(domain, records.push(record@)),
    {
        let length = u64_be_bytes(record.len() as u64);
        hasher_update(&mut self.hasher, length.as_slice());
        hasher_update(&mut self.hasher, record);
        self.byte_count = self.byte_count.saturating_add(record.len());
        self.record_count = self.record_count.saturating_add(1);
        assert(digest::hasher_input(self.hasher) =~= digest::hasher_input(old(self).hasher) + framed(record@));
        proof {
            assert forall|domain: Seq<u8>, records: Seq<Seq<u8>>| #[trigger]
                old(self).holds(domain, records) implies self.holds(domain, records.push(record@)) by {
                let more = records.push(record@);
                assert(more.drop_last() =~= records);
                assert(more.last() == record@);
                assert(stream_material(domain, more) =~= stream_material(domain, records) + framed(
                    record@,
                ));
            }
        }
    }

    /// Another builder that has taken the same records.
    pub fn duplicate(&self) -> (copy: RuntimeStreamSignatureBuilder)
        ensures
            copy.byte_count == self.byte_count,
            copy.record_count == self.record_count,
            forall|domain: Seq<u8>, records: Seq<Seq<u8>>| #[trigger]
                self.holds(domain, records) ==> copy.holds(domain, records),
    {
        RuntimeStreamSignatureBuilder {
            byte_count: self.byte_count,
            hasher: hasher_clone(&self.hasher),
            record_count: self.record_count,
        }
    }

    /// The signature of the records taken so far.
    pub fn signature(&self) -> (signature: RuntimeStreamSignature)
        ensures
            signature.byte_count == self.byte_count,
            signature.record_count == self.record_count,
            signature.digest@ == digest::sha256(digest::hasher_input(self.hasher)),
            forall|domain: Seq<u8>, records: Seq<Seq<u8>>| #[trigger]
                self.holds(domain, records) ==> signature@ == stream_signature(domain, records),
    {
        RuntimeStreamSignature {
            byte_count: self.byte_count,
            digest: hasher_digest(&self.hasher),
            record_count: self.record_count,
        }
    }
}

/// A tool call that a plan holds.
pub struct PlannedToolIntent {
    pub canonical: String,
    pub flow_id: String,
    pub tool_id: String,
}

/// A planned tool call with its texts taken as character sequences.
pub struct IntentModel {
    pub canonical: Seq<char>,
    pub flow_id: Seq<char>,
    pub tool_id: Seq<char>,
}

impl View for PlannedToolIntent {
    type V = IntentModel;

    open spec fn view(&self) -> IntentModel {
        IntentModel {
            canonical: self.canonical@,
            flow_id: self.flow_id@,
            tool_id: self.tool_id@,
        }
    }
}

/// Planned tool calls by their contents.
pub open spec fn intents_view(intents: Seq<PlannedToolIntent>) -> Seq<IntentModel> {
    intents.map_values(|intent: PlannedToolIntent| intent@)
}

fn same_intents(left: &Vec<PlannedToolIntent>, right: &Vec<PlannedToolIntent>) -> (same: bool)
    ensures
        same == (intents_view(left@) == intents_view(right@)),
{
    if left.len() != right.len() {
        assert(intents_view(left@).len() != intents_view(right@).len());
        return false;
    }
    let mut i: usize = 0;
    while i < left.len()
        invariant
            i <= left.len(),
            left.len() == right.len(),
            forall|k: int| 0 <= k < i ==> (#[trigger] left@[k])@ == right@[k]@,
        decreases left.len() - i,
    {
        let here = same_text(left[i].canonical.as_str(), right[i].canonical.as_str()) && same_text(
            left[i].flow_id.as_str(),
            right[i].flow_id.as_str(),
        ) && same_text(left[i].tool_id.as_str(), right[i].tool_id.as_str());
        if !here {
            assert(intents_view(left@)[i as int] == left@[i as int]@);
            assert(intents_view(right@)[i as int] == right@[i as int]@);
            assert(left@[i as int]@ != right@[i as int]@);
            return false;
        }
        i = i + 1;
    }
    assert(intents_view(left@) =~= intents_view(right@));
    true
}

/// What running a flow came to.
pub struct RuntimeExecution {
    pub context_manifests: RuntimeStreamSignature,
    pub events: RuntimeStreamSignature,
    pub failed: bool,
    pub failure_status: Option<String>,
    pub terminal_error: Option<RuntimeError>,
    pub tool_intents: Vec<PlannedToolIntent>,
}

/// What a plan keeps of an execution.
pub struct ExecutionModel {
    pub context_manifests: SignatureModel,
    pub events: SignatureModel,
    pub failed: bool,
    pub failure_status: Option<Seq<char>>,
    pub tool_intents: Seq<IntentModel>,
}

impl View for RuntimeExecution {
    type V = ExecutionModel;

    open spec fn view(&self) -> ExecutionModel {
        ExecutionModel {
            context_manifests: self.context_manifests@,
            events: self.events@,
            failed: self.failed,
            failure_status: text::optional_view(self.failure_status),
            tool_intents: intents_view(self.tool_intents@),
        }
    }
}

/// The records that a plan signs: the two digests, the two counts as eight bytes
/// each, whether the execution failed, its failure status, and each tool call.
pub open spec fn plan_records(execution: ExecutionModel) -> Seq<Seq<u8>> {
    seq![
        execution.events.digest,
        execution.context_manifests.digest,
        wire::be_bytes(execution.events.record_count as nat),
        wire::be_bytes(execution.context_manifests.record_count as nat),
        seq![
            if execution.failed {
                1u8
            } else {
                0u8
            },
        ],
        encode_utf8(
            match execution.failure_status {
                Some(status) => status,
                None => Seq::empty(),
            },
        ),
    ] + execution.tool_intents.map_values(|intent: IntentModel| encode_utf8(intent.canonical))
}

/// The signature of a plan.
pub open spec fn plan_signature(execution: ExecutionModel) -> SignatureModel {
    stream_signature(encode_utf8(FLOW_EXECUTION_PLAN_DOMAIN@), plan_records(execution))
}

/// An execution that was planned, with its signature.
pub struct FlowExecutionPlan {
    pub execution: RuntimeExecution,
    pub signature: RuntimeStreamSignature,
}

impl FlowExecutionPlan {
    /// The plan of an execution.
    pub fn from_execution(execution: RuntimeExecution) -> (plan: FlowExecutionPlan)
        ensures
            plan.execution == execution,
            plan.signature@ == plan_signature(execution@),
    {
        let signature = Self::signature_for(&execution);
        FlowExecutionPlan { execution, signature }
    }

    /// Signs an execution.
    pub fn signature_for(execution: &RuntimeExecution) -> (signature: RuntimeStreamSignature)
        ensures
            signature@ == plan_signature(execution@),
    {
        let mut builder = RuntimeStreamSignatureBuilder::new(FLOW_EXECUTION_PLAN_DOMAIN);
        let ghost domain = encode_utf8(FLOW_EXECUTION_PLAN_DOMAIN@);
        let ghost mut records: Seq<Seq<u8>> = Seq::empty();
        builder.push(array_as_slice(&execution.events.digest));
        builder.push(array_as_slice(&execution.context_manifests.digest));
        let event_count = u64_be_bytes(execution.events.record_count as u64);
        builder.push(event_count.as_slice());
        let context_count = u64_be_bytes(execution.context_manifests.record_count as u64);
        builder.push(context_count.as_slice());
        let flag: [u8; 1] = [if execution.failed {
            1u8
        } else {
            0u8
        }];
        builder.push(array_as_slice(&flag));
        match &execution.failure_status {
            Some(status) => {
                builder.push(status.as_str().as_bytes());
            },
            None => {
                let empty: Vec<u8> = Vec::new();
                assert(encode_utf8(Seq::<char>::empty()) =~= empty@);
                builder.push(empty.as_slice());
            },
        }
        proof {
            records = records.push(execution@.events.digest);
            records = records.push(execution@.context_manifests.digest);
            records = records.push(wire::be_bytes(execution@.events.record_count as nat));
            records = records.push(wire::be_bytes(execution@.context_manifests.record_count as nat));
            records = records.push(flag@);
            records = records.push(
                encode_utf8(
                    match execution@.failure_status {
                        Some(status) => status,
                        None => Seq::empty(),
                    },
                ),
            );
            assert(builder.holds(domain, records));
        }
        let ghost head = records;
        let ghost calls = execution@.tool_intents.map_values(
            |intent: IntentModel| encode_utf8(intent.canonical),
        );
        let mut i: usize = 0;
        assert(head + calls.take(0) =~= head);
        while i < execution.tool_intents.len()
            invariant
                i <= execution.tool_intents.len(),
                calls == execution@.tool_intents.map_values(
                    |intent: IntentModel| encode_utf8(intent.canonical),
                ),
                builder.holds(domain, head + calls.take(i as int)),
            decreases execution.tool_intents.len() - i,
        {
            let ghost before = head + calls.take(i as int);
            builder.push(execution.tool_intents[i].canonical.as_str().as_bytes());
            assert(calls[i as int] == encode_utf8(execution.tool_intents@[i as int].canonical@));
            assert(before.push(calls[i as int]) =~= head + calls.take(i + 1));
            i = i + 1;
        }
        assert(flag@ =~= seq![
            if execution@.failed {
                1u8
            } else {
                0u8
            },
        ]);
        assert(head + calls.take(i as int) =~= plan_records(execution@));
        builder.signature()
    }

    /// Accepts a plan whose signature is that of its execution.
    pub fn validate_integrity(&self) -> (result: Result<(), RuntimeError>)
        ensures
            error::failure(result) == (if plan_signature(self.execution@) != self.signature@ {
                error::protocol_failure("flow execution plan signature is invalid"@)
            } else {
                None
            }),
    {
        let signature = Self::signature_for(&self.execution);
        if !same_signature(&signature, &self.signature) {
            return Err(protocol("flow execution plan signature is invalid"));
        }
        Ok(())
    }
}

/// Whether an execution is what a plan promised.
pub open spec fn execution_matches(
    execution: ExecutionModel,
    planned: ExecutionModel,
    signature: SignatureModel,
) -> bool {
    &&& execution.events == planned.events
    &&& execution.context_manifests == planned.context_manifests
    &&& execution.failed == planned.failed
    &&& execution.failure_status == planned.failure_status
    &&& execution.tool_intents == planned.tool_intents
    &&& plan_signature(execution) == signature
}

impl RuntimeExecution {
    /// Whether this execution is what a plan promised.
    pub fn matches_plan(&self, plan: &FlowExecutionPlan) -> (matches: bool)
        ensures
            matches == execution_matches(self@, plan.execution@, plan.signature@),
    {
        if !(same_signature(&self.events, &plan.execution.events) && same_signature(
            &self.context_manifests,
            &plan.execution.context_manifests,
        ) && self.failed == plan.execution.failed && same_optional(
            &self.failure_status,
            &plan.execution.failure_status,
        ) && same_intents(&self.tool_intents, &plan.execution.tool_intents)) {
            return false;
        }
        let signature = FlowExecutionPlan::signature_for(self);
        same_signature(&signature, &plan.signature)
    }
}

/// A plan that is made from an execution is sound, and an execution with the same
/// contents matches it; one with other contents does not.
pub proof fn law_plan_holds_executions_to_it(planned: ExecutionModel, execution: ExecutionModel)
    ensures
        execution_matches(planned, planned, plan_signature(planned)),
        execution_matches(execution, planned, plan_signature(planned)) <==> execution == planned,
{
    if execution_matches(execution, planned, plan_signature(planned)) {
        assert(execution.tool_intents =~= planned.tool_intents);
    }
}

proof fn lemma_length_is_read(left: nat, right: nat)
    requires
        left <= u64::MAX,
        right <= u64::MAX,
        wire::be_bytes(left) == wire::be_bytes(right),
    ensures
        left == right,
{
    wire::law_le_round_trip(left as u64);
    wire::law_le_round_trip(right as u64);
}

proof fn lemma_frame_is_split(a: Seq<u8>, x: Seq<u8>, b: Seq<u8>, y: Seq<u8>)
    requires
        a.len() <= u64::MAX,
        b.len() <= u64::MAX,
        framed(a) + x == framed(b) + y,
    ensures
        a == b,
        x == y,
{
    let (m, n) = (wire::be_bytes(a.len()), wire::be_bytes(b.len()));
    assert(m.len() == 8 && n.len() == 8);
    let whole = (m + a) + x;
    assert(whole == (n + b) + y);
    assert(whole.take(8) =~= m);
    assert(whole.take(8) =~= n);
    lemma_length_is_read(a.len(), b.len());
    let end = 8 + a.len() as int;
    assert(whole.subrange(8, end) =~= a);
    assert(whole.subrange(8, end) =~= b);
    assert(whole.skip(end) =~= x);
    assert(whole.skip(end) =~= y);
}

proof fn lemma_framed_first(records: Seq<Seq<u8>>)
    requires
        records.len() > 0,
    ensures
        framed_all(records) == framed(records[0]) + framed_all(records.skip(1)),
    decreases records.len(),
{
    if records.len() == 1 {
        reveal_with_fuel(framed_all, 2);
        assert(records.drop_last() =~= Seq::<Seq<u8>>::empty());
        assert(records.skip(1) =~= Seq::<Seq<u8>>::empty());
        assert(framed_all(records) =~= framed(records[0]) + framed_all(records.skip(1)));
    } else {
        lemma_framed_first(records.drop_last());
        assert(records.drop_last().skip(1) =~= records.skip(1).drop_last());
        assert(framed_all(records) =~= framed(records[0]) + framed_all(records.skip(1)));
    }
}

/// Framing loses nothing: as many records that come to the same bytes are the same records.
pub proof fn law_framed_records_differ(left: Seq<Seq<u8>>, right: Seq<Seq<u8>>)
    requires
        left.len() == right.len(),
        forall|i: int| 0 <= i < left.len() ==> (#[trigger] left[i]).len() <= u64::MAX,
        forall|i: int| 0 <= i < right.len() ==> (#[trigger] right[i]).len() <= u64::MAX,
        framed_all(left) == framed_all(right),
    ensures
        left == right,
    decreases left.len(),
{
    if left.len() > 0 {
        lemma_framed_first(left);
        lemma_framed_first(right);
        let (a, b) = (left[0], right[0]);
        lemma_frame_is_split(a, framed_all(left.skip(1)), b, framed_all(right.skip(1)));
        assert forall|i: int| 0 <= i < left.skip(1).len() implies (#[trigger] left.skip(
            1,
        )[i]).len() <= u64::MAX by {
            assert(left[i + 1].len() <= u64::MAX);
        }
        assert forall|i: int| 0 <= i < right.skip(1).len() implies (#[trigger] right.skip(
            1,
        )[i]).len() <= u64::MAX by {
            assert(right[i + 1].len() <= u64::MAX);
        }
        law_framed_records_differ(left.skip(1), right.skip(1));
        assert(left =~= seq![a] + left.skip(1));
        assert(right =~= seq![b] + right.skip(1));
    } else {
        assert(left =~= right);
    }
}

/// Whether two different texts have the same digest.
pub open spec fn digests_collide(left: Seq<u8>, right: Seq<u8>) -> bool {
    left != right && digest::sha256(left) == digest::sha256(right)
}

/// Streams of as many records have different signatures where the records differ, unless
/// what is digested are two different texts with the same digest.
pub proof fn law_changed_records_change_the_signature(
    domain: Seq<u8>,
    left: Seq<Seq<u8>>,
    right: Seq<Seq<u8>>,
)
    requires
        left.len() == right.len(),
        left != right,
        forall|i: int| 0 <= i < left.len() ==> (#[trigger] left[i]).len() <= u64::MAX,
        forall|i: int| 0 <= i < right.len() ==> (#[trigger] right[i]).len() <= u64::MAX,
    ensures
        stream_signature(domain, left) == stream_signature(domain, right) ==> digests_collide(
            stream_material(domain, left),
            stream_material(domain, right),
        ),
{
    let (one, other) = (stream_material(domain, left), stream_material(domain, right));
    if one == other {
        let length = framed(domain).len() as int;
        assert(one.skip(length) =~= framed_all(left));
        assert(other.skip(length) =~= framed_all(right));
        law_framed_records_differ(left, right);
    }
}

} // verus!

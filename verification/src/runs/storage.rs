//! What the directories of a conversation must hold, and how much a run may write.

use crate::contract::{validate_id, Checked};
use crate::contract;
use crate::error::{protocol, ErrorModel, RuntimeError};
use crate::error;
use crate::runs::objects::RunObjectUsageSnapshot;
use crate::stream::writer::CanonicalForm;
use crate::text::{join2, same_text};
use crate::text;
use vstd::prelude::*;

verus! {

/// What is wrong with something that must be there.
pub open spec fn required_failure(found: bool, label: Seq<char>) -> Option<ErrorModel> {
    if found {
        None
    } else {
        error::protocol_failure(label + " does not exist"@)
    }
}

/// Accepts something that must be there.
pub fn required_child(found: bool, label: &str) -> (result: Result<(), RuntimeError>)
    ensures
        error::failure(result) == required_failure(found, label@),
{
    if !found {
        let message = join2(label, " does not exist");
        return Err(protocol(message.as_str()));
    }
    Ok(())
}

/// What is found of a run, in the order in which it is looked for.
#[derive(Clone, Copy, Debug, PartialEq, Eq, Structural)]
pub struct RunPlace {
    pub conversation: bool,
    pub runs: bool,
    pub run: bool,
}

/// What is wrong with the place of a conversation.
pub open spec fn conversation_failure(id: Checked, found: bool) -> Option<ErrorModel> {
    error::first_failure(contract::id_failure(id@, "conversation"@), required_failure(found, "conversation"@))
}

/// Accepts a conversation that is there.
pub fn existing_anchored_conversation(id: &Checked, found: bool) -> (result: Result<
    (),
    RuntimeError,
>)
    ensures
        error::failure(result) == conversation_failure(*id, found),
{
    validate_id(id, "conversation")?;
    required_child(found, "conversation")
}

/// What is wrong with the place of a run.
pub open spec fn run_place_failure(
    conversation_id: Checked,
    run_session_id: Checked,
    place: RunPlace,
) -> Option<ErrorModel> {
    error::first_failure(
        contract::id_failure(run_session_id@, "run session"@),
        error::first_failure(
            conversation_failure(conversation_id, place.conversation),
            error::first_failure(
                required_failure(place.runs, "conversation runs directory"@),
                required_failure(place.run, "conversation run"@),
            ),
        ),
    )
}

/// Accepts a run that is there.
pub fn existing_anchored_run(
    conversation_id: &Checked,
    run_session_id: &Checked,
    place: RunPlace,
) -> (result: Result<(), RuntimeError>)
    ensures
        error::failure(result) == run_place_failure(*conversation_id, *run_session_id, place),
{
    validate_id(run_session_id, "run session")?;
    existing_anchored_conversation(conversation_id, place.conversation)?;
    required_child(place.runs, "conversation runs directory")?;
    required_child(place.run, "conversation run")
}

/// Names of files, no more than a few too many.
pub struct BoundedNames {
    pub names: Vec<String>,
    pub maximum: usize,
}

/// The names with one more, unless it is among them.
pub open spec fn with_name(names: Seq<Seq<char>>, name: Seq<char>) -> Seq<Seq<char>> {
    if names.contains(name) {
        names
    } else {
        names.push(name)
    }
}

impl BoundedNames {
    /// No names.
    pub fn new(maximum: usize) -> (collected: BoundedNames)
        ensures
            text::texts_view(collected.names@) == Seq::<Seq<char>>::empty(),
            collected.maximum == maximum,
    {
        let collected = BoundedNames { names: Vec::new(), maximum };
        assert(text::texts_view(collected.names@) =~= Seq::<Seq<char>>::empty());
        collected
    }

    /// Takes one more name, nothing where it is not valid UTF-8; says whether there are
    /// too many now.
    pub fn add_name(&mut self, name: Option<String>, kind: &str) -> (result: Result<bool, RuntimeError>)
        ensures
            error::failure(result) == (if name is None {
                error::protocol_failure(kind@ + " name must be UTF-8"@)
            } else {
                None
            }),
            final(self).maximum == old(self).maximum,
            result is Err ==> final(self).names@ == old(self).names@,
            result matches Ok(exceeded) ==> {
                &&& text::texts_view(final(self).names@) == with_name(
                    text::texts_view(old(self).names@),
                    name->0@,
                )
                &&& exceeded == (final(self).names@.len() > old(self).maximum)
            },
    {
        match name {
            None => {
                let message = join2(kind, " name must be UTF-8");
                Err(protocol(message.as_str()))
            },
            Some(name) => {
                let ghost before = text::texts_view(self.names@);
                if !holds_text(&self.names, name.as_str()) {
                    self.names.push(name);
                    assert(text::texts_view(self.names@) =~= before.push(name@));
                }
                Ok(self.names.len() > self.maximum)
            },
        }
    }
}

/// Whether a list holds a text.
pub fn holds_text(texts: &Vec<String>, wanted: &str) -> (holds: bool)
    ensures
        holds == text::texts_view(texts@).contains(wanted@),
{
    let ghost all = text::texts_view(texts@);
    let mut i: usize = 0;
    while i < texts.len()
        invariant
            i <= texts.len(),
            all == text::texts_view(texts@),
            forall|k: int| 0 <= k < i ==> #[trigger] all[k] != wanted@,
        decreases texts.len() - i,
    {
        assert(all[i as int] == texts@[i as int]@);
        if same_text(texts[i].as_str(), wanted) {
            return true;
        }
        i = i + 1;
    }
    false
}

/// The canonical form of a record that is about to be written.
pub fn canonical_json(form: CanonicalForm, words: &str) -> (result: Result<String, RuntimeError>)
    ensures
        error::failure(result) == (match form {
            CanonicalForm::NotJson => Some(ErrorModel::Json(words@)),
            CanonicalForm::Invalid(error) => error::protocol_failure(
                "record cannot be canonicalized: "@ + error@,
            ),
            CanonicalForm::Text(_) => None,
        }),
        result matches Ok(canonical) ==> form == CanonicalForm::Text(canonical),
{
    match form {
        CanonicalForm::NotJson => Err(RuntimeError::Json(words.to_owned())),
        CanonicalForm::Invalid(error) => {
            let message = join2("record cannot be canonicalized: ", error.as_str());
            Err(protocol(message.as_str()))
        },
        CanonicalForm::Text(canonical) => Ok(canonical),
    }
}

/// How much a stream holds.
#[derive(Clone, Copy, Debug, PartialEq, Eq, Structural)]
pub struct StreamInventory {
    pub total_bytes: u64,
    pub current_ordinal: u64,
    pub current_bytes: u64,
}

/// How much a run holds.
#[derive(Clone, Copy, Debug, PartialEq, Eq, Structural)]
pub struct ProductiveStorageUsage {
    pub context_bytes: u64,
    pub context_segment_count: u64,
    pub context_tail_bytes: u64,
    pub event_bytes: u64,
    pub event_count: u64,
    pub event_segment_count: u64,
    pub event_tail_bytes: u64,
    pub metadata_bytes: u64,
    pub object_bytes: u64,
    pub object_count: usize,
}

/// What is wrong with how much a run has written beside its streams.
pub open spec fn metadata_failure(run_log_bytes: u64, recovery_bytes: u64, maximum: u64) -> Option<
    ErrorModel,
> {
    if run_log_bytes + recovery_bytes > u64::MAX {
        error::protocol_failure("productive metadata byte count overflow"@)
    } else if run_log_bytes + recovery_bytes > maximum {
        error::protocol_failure("productive metadata exceeds its byte limit"@)
    } else {
        None
    }
}

/// How much a run has written beside its streams; the recovery snapshot may be
/// missing, and then counts nothing.
pub fn productive_metadata_bytes(run_log_bytes: u64, recovery_bytes: Option<u64>, maximum: u64) -> (result:
    Result<u64, RuntimeError>)
    ensures
        ({
            let recovery = match recovery_bytes {
                Some(bytes) => bytes,
                None => 0,
            };
            &&& error::failure(result) == metadata_failure(run_log_bytes, recovery, maximum)
            &&& result matches Ok(bytes) ==> bytes == run_log_bytes + recovery
        }),
{
    let recovery: u64 = match recovery_bytes {
        Some(bytes) => bytes,
        None => 0,
    };
    match run_log_bytes.checked_add(recovery) {
        None => Err(protocol("productive metadata byte count overflow")),
        Some(bytes) => {
            if bytes > maximum {
                return Err(protocol("productive metadata exceeds its byte limit"));
            }
            Ok(bytes)
        },
    }
}

/// How much a run holds, all counted together.
pub fn productive_storage_usage(
    events: StreamInventory,
    contexts: StreamInventory,
    metadata_bytes: u64,
    event_count: usize,
    objects: RunObjectUsageSnapshot,
) -> (usage: ProductiveStorageUsage)
    ensures
        usage == (ProductiveStorageUsage {
            context_bytes: contexts.total_bytes,
            context_segment_count: contexts.current_ordinal,
            context_tail_bytes: contexts.current_bytes,
            event_bytes: events.total_bytes,
            event_count: event_count as u64,
            event_segment_count: events.current_ordinal,
            event_tail_bytes: events.current_bytes,
            metadata_bytes,
            object_bytes: objects.object_bytes,
            object_count: objects.object_count,
        }),
{
    ProductiveStorageUsage {
        context_bytes: contexts.total_bytes,
        context_segment_count: contexts.current_ordinal,
        context_tail_bytes: contexts.current_bytes,
        event_bytes: events.total_bytes,
        event_count: event_count as u64,
        event_segment_count: events.current_ordinal,
        event_tail_bytes: events.current_bytes,
        metadata_bytes,
        object_bytes: objects.object_bytes,
        object_count: objects.object_count,
    }
}

/// What is wrong with writing so many bytes more beside the streams.
pub open spec fn growth_failure(current: u64, appended: nat, maximum: u64) -> Option<ErrorModel> {
    if current + appended > maximum {
        error::protocol_failure("productive metadata append exceeds its byte limit"@)
    } else {
        None
    }
}

/// Accepts so many bytes more beside the streams.
pub fn ensure_productive_metadata_growth(current: u64, appended_bytes: usize, maximum: u64) -> (result:
    Result<(), RuntimeError>)
    ensures
        error::failure(result) == growth_failure(current, appended_bytes as nat, maximum),
{
    let exceeded = match current.checked_add(appended_bytes as u64) {
        Some(prospective) => prospective > maximum,
        None => true,
    };
    if exceeded {
        return Err(protocol("productive metadata append exceeds its byte limit"));
    }
    Ok(())
}

/// A run is where it should be exactly where both identifiers are valid and the conversation,
/// its runs and the run are there.
pub proof fn law_run_is_in_its_place(
    conversation_id: Checked,
    run_session_id: Checked,
    place: RunPlace,
)
    ensures
        run_place_failure(conversation_id, run_session_id, place) is None <==> {
            &&& conversation_id.valid
            &&& run_session_id.valid
            &&& place.conversation
            &&& place.runs
            &&& place.run
        },
{
}

/// Metadata are taken exactly where log and recovery together are no longer than they may be,
/// and grow exactly as long as they are.
pub proof fn law_metadata_are_bounded(
    run_log_bytes: u64,
    recovery_bytes: u64,
    appended: nat,
    maximum: u64,
)
    ensures
        metadata_failure(run_log_bytes, recovery_bytes, maximum) is None <==> run_log_bytes
            + recovery_bytes <= maximum,
        growth_failure(run_log_bytes, appended, maximum) is None <==> run_log_bytes + appended
            <= maximum,
{
}

/// A name is among names once it was put there, the others stay, and none comes twice.
pub proof fn law_name_is_put_among_names(
    names: Seq<Seq<char>>,
    name: Seq<char>,
    other: Seq<char>,
)
    ensures
        with_name(names, name).contains(name),
        names.contains(other) ==> with_name(names, name).contains(other),
        with_name(names, name).contains(other) ==> names.contains(other) || other == name,
        names.no_duplicates() ==> with_name(names, name).no_duplicates(),
{
    let more = with_name(names, name);
    if !names.contains(name) {
        assert(more[names.len() as int] == name);
        if names.contains(other) {
            let k = choose|k: int| 0 <= k < names.len() && names[k] == other;
            assert(more[k] == other);
        }
        if more.contains(other) && other != name {
            let k = choose|k: int| 0 <= k < more.len() && more[k] == other;
            assert(names[k] == other);
        }
        if names.no_duplicates() {
            assert forall|i: int, j: int|
                0 <= i < more.len() && 0 <= j < more.len() && i != j implies more[i]
                != more[j] by {
                if i == names.len() {
                    assert(names[j] == more[j]);
                } else if j == names.len() {
                    assert(names[i] == more[i]);
                }
            }
        }
    }
}

} // verus!

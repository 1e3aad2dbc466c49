//! Finishing what was interrupted: a conversation that holds a marker of its own was
//! being made or taken back, and goes away with all it holds.

use crate::contract::{conversation_lifecycle_identity_marker_name, is_conversation_lifecycle_identity_marker_name, run_creation_identity_marker_name, validate_digest, DirectoryIdentity, CONVERSATION_HISTORY_LEAF, CONVERSATION_LIFECYCLE_MARKER_PREFIX, CONVERSATION_RUNS_DIR, CONVERSATION_STATUS_LEAF, RUN_CONTEXTS_LEAF, RUN_CREATION_STAGE_MARKER_PREFIX, RUN_EVENTS_LEAF, RUN_LOG_LEAF, RUN_OBJECTS_DIR, RUN_RECOVERY_LEAF, RUN_SESSION_LOCK_LEAF, UNPUBLISHED_PRODUCTIVE_RUN_MARKER};
use crate::contract;
use crate::digest::is_lowercase_sha256_hex;
use crate::digest;
use crate::error::{protocol, ErrorModel, RuntimeError};
use crate::error;
use crate::listing::{all_among, bounded_names, leaves_without, reversed, ListedName};
use crate::listing;
use crate::names::SortedNames;
use crate::names;
use crate::status::run_mutation;
use crate::status::transaction::{STATUS_SUMMARY_STAGE_LEAF, STATUS_TRANSACTION_LEAF, STATUS_TRANSACTION_STAGE_LEAF};
use crate::status::transaction;
use crate::text::{chars_of, head_of, join2, same_text, string_of, strip_prefix, strip_suffix, tail_of};
use crate::text;
use vstd::prelude::*;

verus! {

pub const MAX_CONVERSATION_LIFECYCLE_ROOT_ENTRIES: usize = 7;
pub const MAX_CONVERSATION_LIFECYCLE_RUN_ENTRIES: usize = 9;

/// The marker of a conversation that is being made or taken back.
pub open spec fn lifecycle_marker(identity: DirectoryIdentity) -> Seq<char> {
    contract::identity_marker(CONVERSATION_LIFECYCLE_MARKER_PREFIX@, identity)
}

/// What is found under the name of a marker that is about to be put there.
pub enum MarkerLook {
    Found,
    Missing,
    Failed(RuntimeError),
}

/// The marker that a conversation is about to get; it must not be there.
pub fn prepare_conversation_lifecycle_marker(
    identity: Result<DirectoryIdentity, RuntimeError>,
    look: MarkerLook,
) -> (result: Result<String, RuntimeError>)
    ensures
        error::failure(result) == error::first_failure(
            error::failure(identity),
            match look {
                MarkerLook::Found => error::protocol_failure(
                    "conversation lifecycle marker already exists"@,
                ),
                MarkerLook::Missing => None,
                MarkerLook::Failed(error) => Some(error@),
            },
        ),
        result matches Ok(marker) ==> marker@ == lifecycle_marker(identity->Ok_0),
{
    let marker = conversation_lifecycle_identity_marker_name(identity?);
    match look {
        MarkerLook::Found => Err(protocol("conversation lifecycle marker already exists")),
        MarkerLook::Missing => Ok(marker),
        MarkerLook::Failed(error) => Err(error),
    }
}

/// Accepts the marker that is about to be taken from a conversation: it is its own.
pub fn clear_conversation_lifecycle_marker(
    identity: Result<DirectoryIdentity, RuntimeError>,
    marker: &str,
) -> (result: Result<(), RuntimeError>)
    ensures
        error::failure(result) == error::first_failure(
            error::failure(identity),
            if marker@ != lifecycle_marker(identity->Ok_0) {
                error::protocol_failure("conversation lifecycle directory identity changed"@)
            } else {
                None
            },
        ),
{
    let expected = conversation_lifecycle_identity_marker_name(identity?);
    if !same_text(marker, expected.as_str()) {
        return Err(protocol("conversation lifecycle directory identity changed"));
    }
    Ok(())
}

/// What is wrong with what a directory of a conversation lists.
pub open spec fn entries_failure(listed: Seq<ListedName>, maximum: usize, label: Seq<char>) -> Option<
    ErrorModel,
> {
    listing::listing_failure(
        listed,
        maximum,
        label + " entry name must be UTF-8"@,
        label + " has too many entries"@,
    )
}

/// The names that a directory of a conversation lists, in order; no more than so many.
pub fn bounded_entries(listed: Vec<ListedName>, maximum: usize, label: &str) -> (result: Result<
    SortedNames,
    RuntimeError,
>)
    ensures
        error::failure(result) == entries_failure(listed@, maximum, label@),
        result matches Ok(names) ==> names.wf() && names@.to_set() == listing::names_of(listed@),
{
    let not_text = join2(label, " entry name must be UTF-8");
    let too_many = join2(label, " has too many entries");
    bounded_names(listed, maximum, not_text.as_str(), too_many.as_str())
}

/// The markers among names, in order.
pub open spec fn markers_among(names: Seq<Seq<char>>) -> Seq<Seq<char>>
    decreases names.len(),
{
    if names.len() == 0 {
        Seq::empty()
    } else if contract::is_identity_marker(names.last(), CONVERSATION_LIFECYCLE_MARKER_PREFIX@) {
        markers_among(names.drop_last()).push(names.last())
    } else {
        markers_among(names.drop_last())
    }
}

fn collect_markers(names: &SortedNames) -> (markers: Vec<String>)
    ensures
        text::texts_view(markers@) == markers_among(names@),
{
    let ghost all = names@;
    let mut markers: Vec<String> = Vec::new();
    let mut i: usize = 0;
    proof {
        assert(all.take(0) =~= Seq::<Seq<char>>::empty());
        assert(text::texts_view(markers@) =~= markers_among(all.take(0)));
    }
    while i < names.names.len()
        invariant
            i <= names.names.len(),
            all == names@,
            text::texts_view(markers@) == markers_among(all.take(i as int)),
        decreases names.names.len() - i,
    {
        let ghost before = text::texts_view(markers@);
        proof {
            assert(all.take(i + 1).drop_last() =~= all.take(i as int));
            assert(all.take(i + 1).last() == names.names@[i as int]@);
        }
        if is_conversation_lifecycle_identity_marker_name(names.names[i].as_str()) {
            markers.push(names.names[i].clone());
            assert(text::texts_view(markers@) =~= before.push(names.names@[i as int]@));
        }
        i = i + 1;
    }
    assert(all.take(i as int) =~= all);
    markers
}

/// How far a conversation has come.
pub enum LifecycleState {
    /// It holds nothing: it goes.
    Empty,
    /// It holds no marker: it stays.
    Settled,
    /// It holds its marker: it goes with all it holds.
    Incomplete { entries: SortedNames, marker: String },
}

/// What a conversation may hold while it is made or taken back.
pub open spec fn lifecycle_leaves(marker: Seq<char>) -> Seq<Seq<char>> {
    seq![
        marker,
        CONVERSATION_HISTORY_LEAF@,
        CONVERSATION_RUNS_DIR@,
        CONVERSATION_STATUS_LEAF@,
        STATUS_SUMMARY_STAGE_LEAF@,
        STATUS_TRANSACTION_LEAF@,
        STATUS_TRANSACTION_STAGE_LEAF@,
    ]
}

fn lifecycle_leaf_names(marker: &str) -> (leaves: Vec<String>)
    ensures
        text::texts_view(leaves@) == lifecycle_leaves(marker@),
{
    let mut leaves: Vec<String> = Vec::new();
    leaves.push(marker.to_owned());
    leaves.push(CONVERSATION_HISTORY_LEAF.to_owned());
    leaves.push(CONVERSATION_RUNS_DIR.to_owned());
    leaves.push(CONVERSATION_STATUS_LEAF.to_owned());
    leaves.push(STATUS_SUMMARY_STAGE_LEAF.to_owned());
    leaves.push(STATUS_TRANSACTION_LEAF.to_owned());
    leaves.push(STATUS_TRANSACTION_STAGE_LEAF.to_owned());
    assert(text::texts_view(leaves@) =~= lifecycle_leaves(marker@));
    leaves
}

/// What is wrong with a conversation whose names stand in order: its markers, or what
/// it holds beside them.
pub open spec fn root_failure(names: Seq<Seq<char>>, identity: DirectoryIdentity) -> Option<
    ErrorModel,
> {
    if names.len() == 0 || markers_among(names).len() == 0 {
        None
    } else if markers_among(names) != seq![lifecycle_marker(identity)] {
        error::protocol_failure("conversation lifecycle marker identity is invalid"@)
    } else if !names.to_set().subset_of(lifecycle_leaves(lifecycle_marker(identity)).to_set()) {
        error::protocol_failure("conversation lifecycle root contains an unknown entry"@)
    } else {
        None
    }
}

/// Whether what was interrupted has to be finished, and what the conversation holds.
pub fn finish_incomplete_conversation_lifecycle(identity: DirectoryIdentity, listed: Vec<ListedName>) -> (result:
    Result<LifecycleState, RuntimeError>)
    ensures
        entries_failure(
            listed@,
            MAX_CONVERSATION_LIFECYCLE_ROOT_ENTRIES,
            "conversation lifecycle root"@,
        ) is Some ==> error::failure(result) == entries_failure(
            listed@,
            MAX_CONVERSATION_LIFECYCLE_ROOT_ENTRIES,
            "conversation lifecycle root"@,
        ),
        entries_failure(
            listed@,
            MAX_CONVERSATION_LIFECYCLE_ROOT_ENTRIES,
            "conversation lifecycle root"@,
        ) is None ==> exists|names: Seq<Seq<char>>|
            {
                &&& #[trigger] names::in_order(names)
                &&& names.to_set() == listing::names_of(listed@)
                &&& error::failure(result) == root_failure(names, identity)
                &&& result matches Ok(state) ==> match state {
                    LifecycleState::Empty => names.len() == 0,
                    LifecycleState::Settled => names.len() > 0 && markers_among(names).len() == 0,
                    LifecycleState::Incomplete { entries, marker } => {
                        &&& markers_among(names).len() > 0
                        &&& entries@ == names
                        &&& entries.wf()
                        &&& marker@ == lifecycle_marker(identity)
                    },
                }
            },
{
    let entries = bounded_entries(
        listed,
        MAX_CONVERSATION_LIFECYCLE_ROOT_ENTRIES,
        "conversation lifecycle root",
    )?;
    assert(names::in_order(entries@));
    if entries.len() == 0 {
        return Ok(LifecycleState::Empty);
    }
    let markers = collect_markers(&entries);
    let ghost marked = markers_among(entries@);
    assert(marked.len() == markers@.len());
    if markers.len() == 0 {
        return Ok(LifecycleState::Settled);
    }
    let expected = conversation_lifecycle_identity_marker_name(identity);
    assert(marked[0] == markers@[0]@);
    if markers.len() != 1 || !same_text(markers[0].as_str(), expected.as_str()) {
        return Err(protocol("conversation lifecycle marker identity is invalid"));
    }
    assert(marked =~= seq![lifecycle_marker(identity)]);
    let allowed = lifecycle_leaf_names(expected.as_str());
    if !all_among(&entries, &allowed) {
        return Err(protocol("conversation lifecycle root contains an unknown entry"));
    }
    Ok(LifecycleState::Incomplete { entries, marker: expected })
}

/// What is wrong with a file that must be one; a refusal to open it tells no more than
/// that.
pub open spec fn real_file_failure(opened: Result<(), RuntimeError>, label: Seq<char>) -> Option<
    ErrorModel,
> {
    match opened {
        Ok(_) => None,
        Err(RuntimeError::Protocol(_)) => error::protocol_failure(label + " must be a real file"@),
        Err(error) => Some(error@),
    }
}

/// Accepts a file that must be one.
pub fn validate_real_file(opened: Result<(), RuntimeError>, label: &str) -> (result: Result<
    (),
    RuntimeError,
>)
    ensures
        error::failure(result) == real_file_failure(opened, label@),
{
    match opened {
        Ok(()) => Ok(()),
        Err(RuntimeError::Protocol(_)) => {
            let message = join2(label, " must be a real file");
            Err(protocol(message.as_str()))
        },
        Err(error) => Err(error),
    }
}

/// The last place where a character stands in a text.
pub open spec fn last_position(text: Seq<char>, c: char) -> Option<int>
    decreases text.len(),
{
    if text.len() == 0 {
        None
    } else if text.last() == c {
        Some(text.len() - 1)
    } else {
        last_position(text.drop_last(), c)
    }
}

proof fn lemma_last_position(text: Seq<char>, c: char, position: int)
    requires
        0 <= position < text.len(),
        text[position] == c,
        forall|k: int| position < k < text.len() ==> text[k] != c,
    ensures
        last_position(text, c) == Some(position),
    decreases text.len(),
{
    if position < text.len() - 1 {
        lemma_last_position(text.drop_last(), c, position);
    }
}

fn find_last(text: &Vec<char>, c: char) -> (position: Option<usize>)
    ensures
        match position {
            Some(position) => last_position(text@, c) == Some(position as int) && position
                < text.len(),
            None => last_position(text@, c) is None,
        },
{
    let mut i: usize = text.len();
    assert(text@.take(i as int) =~= text@);
    while i > 0
        invariant
            i <= text.len(),
            last_position(text@, c) == last_position(text@.take(i as int), c),
        decreases i,
    {
        assert(text@.take(i as int).drop_last() =~= text@.take(i - 1));
        if text[i - 1] == c {
            return Some(i - 1);
        }
        i = i - 1;
    }
    None
}

/// The parts of a staging name: the run, and the identity of its stage.
pub open spec fn stage_parts(leaf: Seq<char>) -> Option<(Seq<char>, Seq<char>)> {
    match text::without_prefix(leaf, ".run-"@) {
        None => None,
        Some(rest) => match text::without_suffix(rest, ".staged"@) {
            None => None,
            Some(body) => match last_position(body, '-') {
                None => None,
                Some(dash) => Some((body.take(dash), body.skip(dash + 1))),
            },
        },
    }
}

/// The run that a staging name names; whether the identifier grammar accepts it has to
/// be found before the name is accepted.
pub fn staged_run(leaf: &str) -> (run: Option<(String, String)>)
    ensures
        match run {
            Some((id, identity)) => stage_parts(leaf@) == Some((id@, identity@)),
            None => stage_parts(leaf@) is None,
        },
{
    let chars = chars_of(leaf);
    let rest = match strip_prefix(&chars, ".run-") {
        Some(rest) => rest,
        None => {
            return None;
        },
    };
    let body = match strip_suffix(&rest, ".staged") {
        Some(body) => body,
        None => {
            return None;
        },
    };
    match find_last(&body, '-') {
        None => None,
        Some(dash) => {
            let id = head_of(&body, dash);
            let identity = tail_of(&body, dash + 1);
            Some((string_of(&id), string_of(&identity)))
        },
    }
}

/// Whether a name is a staging name, where the identifier grammar accepts the run that
/// it names or not.
pub open spec fn is_stage_name(leaf: Seq<char>, run_valid: bool) -> bool {
    match stage_parts(leaf) {
        None => false,
        Some((_, identity)) => run_valid && digest::is_digest_text(identity),
    }
}

/// Whether a name is a staging name.
pub fn valid_run_creation_stage_name(leaf: &str, run_valid: bool) -> (valid: bool)
    ensures
        valid == is_stage_name(leaf@, run_valid),
{
    match staged_run(leaf) {
        None => false,
        Some((_, identity)) => run_valid && is_lowercase_sha256_hex(identity.as_str()),
    }
}

/// A staging name that was made for a run is accepted for it, and gives back what it
/// was made of.
pub proof fn law_staging_name_round_trip(run_session_id: Seq<char>, identity: Seq<char>)
    requires
        digest::is_digest_text(identity),
    ensures
        stage_parts(transaction::staging_name(run_session_id, identity)) == Some((run_session_id, identity)),
        is_stage_name(transaction::staging_name(run_session_id, identity), true),
{
    reveal_strlit(".run-");
    reveal_strlit("-");
    reveal_strlit(".staged");
    let leaf = transaction::staging_name(run_session_id, identity);
    let prefix = ".run-"@;
    let suffix = ".staged"@;
    let body = run_session_id + "-"@ + identity;
    assert(leaf.take(prefix.len() as int) =~= prefix);
    assert(leaf.skip(prefix.len() as int) =~= body + suffix);
    let rest = body + suffix;
    assert(rest.skip(rest.len() - suffix.len()) =~= suffix);
    assert(rest.take(rest.len() - suffix.len()) =~= body);
    let dash = run_session_id.len() as int;
    assert(body[dash] == '-');
    assert forall|k: int| dash < k < body.len() implies body[k] != '-' by {
        assert(body[k] == identity[k - dash - 1]);
        assert(text::is_lower_hex(identity[k - dash - 1]));
    }
    lemma_last_position(body, '-', dash);
    assert(body.take(dash) =~= run_session_id);
    assert(body.skip(dash + 1) =~= identity);
}

/// What is wrong with a name among the runs of a conversation that goes.
pub open spec fn run_name_failure(leaf: Seq<char>, valid: bool, staged_valid: bool) -> Option<
    ErrorModel,
> {
    if !valid && !is_stage_name(leaf, staged_valid) {
        error::protocol_failure("conversation lifecycle runs contain an unknown entry"@)
    } else {
        None
    }
}

/// Accepts a name among the runs of a conversation that goes: a run, or the stage of
/// one. `valid` is whether the identifier grammar accepts the name, and `staged_valid`
/// whether it accepts the run that it names as a staging name.
pub fn check_lifecycle_run_name(leaf: &str, valid: bool, staged_valid: bool) -> (result: Result<
    (),
    RuntimeError,
>)
    ensures
        error::failure(result) == run_name_failure(leaf@, valid, staged_valid),
{
    if !valid && !valid_run_creation_stage_name(leaf, staged_valid) {
        return Err(protocol("conversation lifecycle runs contain an unknown entry"));
    }
    Ok(())
}

/// The runs of a conversation that goes: one at most.
pub fn lifecycle_runs(listed: Vec<ListedName>) -> (result: Result<SortedNames, RuntimeError>)
    ensures
        error::failure(result) == entries_failure(listed@, 1, "conversation lifecycle runs"@),
        result matches Ok(names) ==> names.wf() && names@.to_set() == listing::names_of(listed@)
            && names@.len() <= 1,
{
    let ghost all = listed@;
    let names = bounded_entries(listed, 1, "conversation lifecycle runs")?;
    proof {
        names::lemma_order_counts(names@);
        lemma_accepted_count(all, 1, "conversation lifecycle runs"@);
    }
    Ok(names)
}

proof fn lemma_accepted_count(listed: Seq<ListedName>, maximum: usize, label: Seq<char>)
    requires
        entries_failure(listed, maximum, label) is None,
    ensures
        listing::names_of(listed).len() <= maximum,
    decreases listed.len(),
{
    if listed.len() > 0 {
        lemma_accepted_count(listed.drop_last(), maximum, label);
    }
}

/// The marker of a run.
pub open spec fn run_marker(identity: DirectoryIdentity) -> Seq<char> {
    contract::identity_marker(RUN_CREATION_STAGE_MARKER_PREFIX@, identity)
}

/// What a run may hold that goes with its conversation.
pub open spec fn lifecycle_run_leaves(marker: Seq<char>) -> Seq<Seq<char>> {
    seq![
        marker,
        RUN_CONTEXTS_LEAF@,
        RUN_EVENTS_LEAF@,
        RUN_LOG_LEAF@,
        RUN_OBJECTS_DIR@,
        RUN_RECOVERY_LEAF@,
        RUN_SESSION_LOCK_LEAF@,
        UNPUBLISHED_PRODUCTIVE_RUN_MARKER@,
    ]
}

fn lifecycle_run_leaf_names(marker: &str) -> (leaves: Vec<String>)
    ensures
        text::texts_view(leaves@) == lifecycle_run_leaves(marker@),
{
    let mut leaves: Vec<String> = Vec::new();
    leaves.push(marker.to_owned());
    leaves.push(RUN_CONTEXTS_LEAF.to_owned());
    leaves.push(RUN_EVENTS_LEAF.to_owned());
    leaves.push(RUN_LOG_LEAF.to_owned());
    leaves.push(RUN_OBJECTS_DIR.to_owned());
    leaves.push(RUN_RECOVERY_LEAF.to_owned());
    leaves.push(RUN_SESSION_LOCK_LEAF.to_owned());
    leaves.push(UNPUBLISHED_PRODUCTIVE_RUN_MARKER.to_owned());
    assert(text::texts_view(leaves@) =~= lifecycle_run_leaves(marker@));
    leaves
}

/// What is wrong with a run that goes with its conversation.
pub open spec fn lifecycle_run_failure(
    listed: Seq<ListedName>,
    identity: Result<DirectoryIdentity, RuntimeError>,
) -> Option<ErrorModel> {
    let names = listing::names_of(listed);
    error::first_failure(
        entries_failure(
            listed,
            MAX_CONVERSATION_LIFECYCLE_RUN_ENTRIES,
            "conversation lifecycle Run"@,
        ),
        match identity {
            Err(error) => Some(error@),
            Ok(identity) => if names != Set::<Seq<char>>::empty() && !names.contains(
                run_marker(identity),
            ) {
                error::protocol_failure("conversation lifecycle Run identity marker is missing"@)
            } else if !names.subset_of(lifecycle_run_leaves(run_marker(identity)).to_set()) {
                error::protocol_failure("conversation lifecycle Run contains an unknown entry"@)
            } else {
                None
            },
        },
    )
}

/// A run that goes with its conversation: all that it holds, in order, and whether it has
/// a directory of objects.
pub struct LifecycleRun {
    pub entries: SortedNames,
    pub objects: bool,
}

/// Accepts a run that goes with its conversation by the names of what it holds.
pub fn validate_lifecycle_run(
    listed: Vec<ListedName>,
    identity: Result<DirectoryIdentity, RuntimeError>,
) -> (result: Result<LifecycleRun, RuntimeError>)
    ensures
        error::failure(result) == lifecycle_run_failure(listed@, identity),
        result matches Ok(run) ==> {
            &&& run.entries.wf()
            &&& run.entries@.to_set() == listing::names_of(listed@)
            &&& run.objects == run.entries@.contains(RUN_OBJECTS_DIR@)
        },
{
    let entries = bounded_entries(
        listed,
        MAX_CONVERSATION_LIFECYCLE_RUN_ENTRIES,
        "conversation lifecycle Run",
    )?;
    let marker = run_creation_identity_marker_name(identity?);
    let holds_marker = entries.contains(marker.as_str());
    proof {
        names::lemma_order_counts(entries@);
        if entries@.len() == 0 {
            assert(entries@.to_set() =~= Set::<Seq<char>>::empty());
        }
    }
    if entries.len() > 0 && !holds_marker {
        return Err(protocol("conversation lifecycle Run identity marker is missing"));
    }
    let allowed = lifecycle_run_leaf_names(marker.as_str());
    if !all_among(&entries, &allowed) {
        return Err(protocol("conversation lifecycle Run contains an unknown entry"));
    }
    let objects = entries.contains(RUN_OBJECTS_DIR);
    Ok(LifecycleRun { entries, objects })
}

/// What is wrong with the names of objects, from one of them on.
pub open spec fn object_names_failure(names: Seq<Seq<char>>, from: int) -> Option<ErrorModel>
    decreases names.len() - from,
{
    if from < 0 || from >= names.len() {
        None
    } else {
        error::first_failure(
            contract::digest_failure(names[from], "conversation lifecycle object"@),
            object_names_failure(names, from + 1),
        )
    }
}

/// The objects of a run that goes with its conversation, which are named by digests.
pub fn validate_lifecycle_objects(listed: Vec<ListedName>, maximum: usize) -> (result: Result<
    SortedNames,
    RuntimeError,
>)
    ensures
        entries_failure(listed@, maximum, "conversation lifecycle objects"@) is Some ==> error::failure(
            result,
        ) == entries_failure(listed@, maximum, "conversation lifecycle objects"@),
        entries_failure(listed@, maximum, "conversation lifecycle objects"@) is None ==> exists|
            names: Seq<Seq<char>>,
        |
            {
                &&& #[trigger] names::in_order(names)
                &&& names.to_set() == listing::names_of(listed@)
                &&& error::failure(result) == object_names_failure(names, 0)
                &&& result matches Ok(objects) ==> objects.wf() && objects@ == names
            },
{
    let names = bounded_entries(listed, maximum, "conversation lifecycle objects")?;
    let ghost all = names@;
    assert(names::in_order(all));
    let mut i: usize = 0;
    while i < names.names.len()
        invariant
            i <= names.names.len(),
            all == names@,
            names::in_order(all),
            all.to_set() == listing::names_of(listed@),
            entries_failure(listed@, maximum, "conversation lifecycle objects"@) is None,
            object_names_failure(all, 0) == object_names_failure(all, i as int),
        decreases names.names.len() - i,
    {
        assert(all[i as int] == names.names@[i as int]@);
        validate_digest(names.names[i].as_str(), "conversation lifecycle object")?;
        i = i + 1;
    }
    Ok(names)
}

/// How the root of a conversation goes: the runs first, then the other files, and the
/// marker last.
pub struct RootRemoval {
    pub runs: bool,
    pub leaves: Vec<String>,
}

/// How the root of a conversation goes.
pub fn remove_lifecycle_root_contents(entries: &SortedNames, marker: &str) -> (removal: RootRemoval)
    ensures
        removal.runs == entries@.contains(CONVERSATION_RUNS_DIR@),
        text::texts_view(removal.leaves@) == listing::names_without(entries@, CONVERSATION_RUNS_DIR@, marker@),
{
    RootRemoval {
        runs: entries.contains(CONVERSATION_RUNS_DIR),
        leaves: leaves_without(entries, CONVERSATION_RUNS_DIR, marker),
    }
}

/// When the runs, the other files and the marker have gone, nothing is left: the names
/// that go are all that the conversation holds, and no other.
pub proof fn law_lifecycle_removal_is_complete(
    entries: Seq<Seq<char>>,
    marker: Seq<char>,
    name: Seq<char>,
)
    requires
        entries.contains(marker),
    ensures
        entries.contains(name) <==> listing::names_without(entries, CONVERSATION_RUNS_DIR@, marker).contains(
            name,
        ) || name == marker || (name == CONVERSATION_RUNS_DIR@ && entries.contains(
            CONVERSATION_RUNS_DIR@,
        )),
{
    crate::listing::lemma_names_without(entries, CONVERSATION_RUNS_DIR@, marker, name);
}

/// Accepts a conversation that is about to go: it is the one that was emptied.
pub fn remove_verified_conversation(
    current: Option<DirectoryIdentity>,
    expected_identity: DirectoryIdentity,
) -> (result: Result<(), RuntimeError>)
    ensures
        error::failure(result) == run_mutation::going_failure(
            current,
            expected_identity,
            "conversation lifecycle directory disappeared"@,
            "conversation lifecycle directory identity changed"@,
        ),
{
    match current {
        None => Err(protocol("conversation lifecycle directory disappeared")),
        Some(identity) => {
            if identity != expected_identity {
                return Err(protocol("conversation lifecycle directory identity changed"));
            }
            Ok(())
        },
    }
}

/// What is wrong with a directory of a conversation that goes, which was listed and is to
/// be opened.
pub open spec fn child_failure(found: Result<bool, RuntimeError>, label: Seq<char>) -> Option<
    ErrorModel,
> {
    match found {
        Err(error) => Some(error@),
        Ok(there) => if there {
            None
        } else {
            error::protocol_failure(label + " disappeared"@)
        },
    }
}

/// Accepts a directory of a conversation that goes: it is still there.
pub fn lifecycle_child(found: Result<bool, RuntimeError>, label: &str) -> (result: Result<
    (),
    RuntimeError,
>)
    ensures
        error::failure(result) == child_failure(found, label@),
{
    if !found? {
        let message = join2(label, " disappeared");
        return Err(protocol(message.as_str()));
    }
    Ok(())
}

/// What looking at one entry of a conversation that goes gave.
pub enum LifecycleLeaf {
    /// A file that was opened.
    File(Result<(), RuntimeError>),
    /// A directory: whether it is there, and what is wrong with it.
    Directory { found: Result<bool, RuntimeError>, accepted: Result<(), RuntimeError> },
}

/// What is wrong with an entry of a conversation that goes.
pub open spec fn leaf_failure(
    leaf: LifecycleLeaf,
    file_label: Seq<char>,
    directory_label: Seq<char>,
) -> Option<ErrorModel> {
    match leaf {
        LifecycleLeaf::File(opened) => real_file_failure(opened, file_label),
        LifecycleLeaf::Directory { found, accepted } => error::first_failure(
            child_failure(found, directory_label),
            error::failure(accepted),
        ),
    }
}

/// The first thing that is wrong with entries of a conversation that goes.
pub open spec fn leaves_failure(
    leaves: Seq<LifecycleLeaf>,
    file_label: Seq<char>,
    directory_label: Seq<char>,
) -> Option<ErrorModel>
    decreases leaves.len(),
{
    if leaves.len() == 0 {
        None
    } else {
        error::first_failure(
            leaves_failure(leaves.drop_last(), file_label, directory_label),
            leaf_failure(leaves.last(), file_label, directory_label),
        )
    }
}

proof fn lemma_leaves_failure_prefix(
    leaves: Seq<LifecycleLeaf>,
    count: int,
    file_label: Seq<char>,
    directory_label: Seq<char>,
)
    requires
        0 <= count <= leaves.len(),
        leaves_failure(leaves.take(count), file_label, directory_label) is Some,
    ensures
        leaves_failure(leaves, file_label, directory_label) == leaves_failure(
            leaves.take(count),
            file_label,
            directory_label,
        ),
    decreases leaves.len(),
{
    if count < leaves.len() {
        let rest = leaves.drop_last();
        assert(rest.take(count) =~= leaves.take(count));
        lemma_leaves_failure_prefix(rest, count, file_label, directory_label);
    } else {
        assert(leaves.take(count) =~= leaves);
    }
}

fn check_leaf(leaf: LifecycleLeaf, file_label: &str, directory_label: &str) -> (result: Result<
    (),
    RuntimeError,
>)
    ensures
        error::failure(result) == leaf_failure(leaf, file_label@, directory_label@),
{
    match leaf {
        LifecycleLeaf::File(opened) => validate_real_file(opened, file_label),
        LifecycleLeaf::Directory { found, accepted } => {
            lifecycle_child(found, directory_label)?;
            accepted
        },
    }
}

fn check_leaves(leaves: Vec<LifecycleLeaf>, file_label: &str, directory_label: &str) -> (result: Result<
    (),
    RuntimeError,
>)
    ensures
        error::failure(result) == leaves_failure(leaves@, file_label@, directory_label@),
{
    let ghost all = leaves@;
    let total: usize = leaves.len();
    let mut pending = reversed(leaves);
    let mut seen: usize = 0;
    assert(all.take(0) =~= Seq::<LifecycleLeaf>::empty());
    while pending.len() > 0
        invariant
            all == leaves@,
            seen + pending.len() == total,
            total == all.len(),
            forall|k: int|
                0 <= k < pending@.len() ==> #[trigger] pending@[k] == all[all.len() - 1 - k],
            leaves_failure(all.take(seen as int), file_label@, directory_label@) is None,
        decreases pending.len(),
    {
        proof {
            assert(all.take(seen + 1).drop_last() =~= all.take(seen as int));
            assert(all.take(seen + 1).last() == all[seen as int]);
            if leaf_failure(all[seen as int], file_label@, directory_label@) is Some {
                lemma_leaves_failure_prefix(all, seen + 1, file_label@, directory_label@);
            }
        }
        match pending.pop() {
            Some(leaf) => {
                assert(leaf == all[seen as int]);
                check_leaf(leaf, file_label, directory_label)?;
            },
            None => {},
        }
        seen = seen + 1;
    }
    assert(all.take(seen as int) =~= all);
    Ok(())
}

/// Accepts what the root of a conversation that goes holds, entry by entry in order: real
/// files, and the directory of the runs.
pub fn validate_lifecycle_root(leaves: Vec<LifecycleLeaf>) -> (result: Result<(), RuntimeError>)
    ensures
        error::failure(result) == leaves_failure(
            leaves@,
            "conversation lifecycle file"@,
            "conversation lifecycle runs"@,
        ),
{
    check_leaves(leaves, "conversation lifecycle file", "conversation lifecycle runs")
}

/// Accepts what a run of a conversation that goes holds, entry by entry in order: real
/// files, and the directory of the objects.
pub fn validate_lifecycle_run_leaves(leaves: Vec<LifecycleLeaf>) -> (result: Result<
    (),
    RuntimeError,
>)
    ensures
        error::failure(result) == leaves_failure(
            leaves@,
            "conversation lifecycle Run file"@,
            "conversation lifecycle objects"@,
        ),
{
    check_leaves(leaves, "conversation lifecycle Run file", "conversation lifecycle objects")
}

/// The name of a run among those of a conversation that goes, with what the identifier
/// grammar has to say of it, and what looking at the run gave.
pub struct RunOfLifecycle {
    pub leaf: String,
    pub valid: bool,
    pub staged_valid: bool,
    pub found: Result<bool, RuntimeError>,
    pub accepted: Result<(), RuntimeError>,
}

/// What is wrong with a run of a conversation that goes.
pub open spec fn run_of_lifecycle_failure(run: RunOfLifecycle) -> Option<ErrorModel> {
    error::first_failure(
        run_name_failure(run.leaf@, run.valid, run.staged_valid),
        error::first_failure(
            child_failure(run.found, "conversation lifecycle Run"@),
            error::failure(run.accepted),
        ),
    )
}

/// Accepts the run of a conversation that goes, where it has one.
pub fn validate_lifecycle_runs(run: Option<RunOfLifecycle>) -> (result: Result<(), RuntimeError>)
    ensures
        error::failure(result) == (match run {
            Some(run) => run_of_lifecycle_failure(run),
            None => None,
        }),
{
    match run {
        Some(run) => {
            check_lifecycle_run_name(run.leaf.as_str(), run.valid, run.staged_valid)?;
            lifecycle_child(run.found, "conversation lifecycle Run")?;
            run.accepted
        },
        None => Ok(()),
    }
}

/// A step of taking away a run of a conversation that goes.
pub enum LifecycleAction {
    RemoveObject(String),
    RemoveObjects,
    RemoveFile(String),
    /// Make the run durable.
    Sync,
    /// Take away the run, which is empty.
    RemoveRun,
}

/// A step by its contents.
pub enum LifecycleStep {
    RemoveObject(Seq<char>),
    RemoveObjects,
    RemoveFile(Seq<char>),
    Sync,
    RemoveRun,
}

impl View for LifecycleAction {
    type V = LifecycleStep;

    open spec fn view(&self) -> LifecycleStep {
        match *self {
            LifecycleAction::RemoveObject(name) => LifecycleStep::RemoveObject(name@),
            LifecycleAction::RemoveObjects => LifecycleStep::RemoveObjects,
            LifecycleAction::RemoveFile(name) => LifecycleStep::RemoveFile(name@),
            LifecycleAction::Sync => LifecycleStep::Sync,
            LifecycleAction::RemoveRun => LifecycleStep::RemoveRun,
        }
    }
}

/// Steps by their contents.
pub open spec fn actions_view(actions: Seq<LifecycleAction>) -> Seq<LifecycleStep> {
    actions.map_values(|action: LifecycleAction| action@)
}

/// The steps that take a run away: its objects, its files, and the marker last.
pub open spec fn run_removal_steps(
    objects: Option<Seq<Seq<char>>>,
    leaves: Seq<Seq<char>>,
    marker: Option<Seq<char>>,
) -> Seq<LifecycleStep> {
    (match objects {
        Some(objects) => objects.map_values(|name: Seq<char>| LifecycleStep::RemoveObject(name)).push(
            LifecycleStep::RemoveObjects,
        ),
        None => Seq::empty(),
    }) + leaves.map_values(|name: Seq<char>| LifecycleStep::RemoveFile(name)).push(
        LifecycleStep::Sync,
    ) + (match marker {
        Some(marker) => seq![LifecycleStep::RemoveFile(marker)],
        None => Seq::empty(),
    }) + seq![LifecycleStep::RemoveRun]
}

/// How a run goes: what it lists, and its marker.
pub open spec fn run_removal(
    names: Seq<Seq<char>>,
    objects: Option<Seq<Seq<char>>>,
    marker: Seq<char>,
) -> Seq<LifecycleStep> {
    run_removal_steps(
        objects,
        listing::names_without(names, RUN_OBJECTS_DIR@, marker),
        if names.contains(marker) {
            Some(marker)
        } else {
            None
        },
    )
}

/// The steps that take the run of a conversation away, in order. `objects` are the names
/// in its directory of objects, where it has one.
pub fn remove_lifecycle_runs(
    entries: &SortedNames,
    objects: Option<&SortedNames>,
    identity: DirectoryIdentity,
) -> (actions: Vec<LifecycleAction>)
    requires
        entries.wf(),
        objects is Some <==> entries@.contains(RUN_OBJECTS_DIR@),
    ensures
        actions_view(actions@) == run_removal(
            entries@,
            match objects {
                Some(objects) => Some(objects@),
                None => None,
            },
            run_marker(identity),
        ),
{
    let marker = run_creation_identity_marker_name(identity);
    let leaves = leaves_without(entries, RUN_OBJECTS_DIR, marker.as_str());
    let ghost names = listing::names_without(entries@, RUN_OBJECTS_DIR@, marker@);
    let mut actions: Vec<LifecycleAction> = Vec::new();
    let ghost mut done: Seq<LifecycleStep> = Seq::empty();
    assert(actions_view(actions@) =~= done);
    if let Some(objects) = objects {
        let mut i: usize = 0;
        let ghost wanted = objects@.map_values(|name: Seq<char>| LifecycleStep::RemoveObject(name));
        while i < objects.names.len()
            invariant
                i <= objects.names.len(),
                wanted == objects@.map_values(|name: Seq<char>| LifecycleStep::RemoveObject(name)),
                actions_view(actions@) == wanted.take(i as int),
            decreases objects.names.len() - i,
        {
            let ghost before = actions@;
            actions.push(LifecycleAction::RemoveObject(objects.names[i].clone()));
            proof {
                assert(wanted[i as int] == LifecycleStep::RemoveObject(objects.names@[i as int]@));
                assert(actions_view(actions@) =~= actions_view(before).push(wanted[i as int]));
                assert(wanted.take(i + 1) =~= wanted.take(i as int).push(wanted[i as int]));
            }
            i = i + 1;
        }
        let ghost before = actions@;
        actions.push(LifecycleAction::RemoveObjects);
        proof {
            assert(wanted.take(i as int) =~= wanted);
            done = wanted.push(LifecycleStep::RemoveObjects);
            assert(actions_view(actions@) =~= done);
        }
    }
    let mut k: usize = 0;
    let ghost files = names.map_values(|name: Seq<char>| LifecycleStep::RemoveFile(name));
    assert(actions_view(actions@) =~= done + files.take(0));
    while k < leaves.len()
        invariant
            k <= leaves.len(),
            text::texts_view(leaves@) == names,
            files == names.map_values(|name: Seq<char>| LifecycleStep::RemoveFile(name)),
            actions_view(actions@) == done + files.take(k as int),
        decreases leaves.len() - k,
    {
        let ghost before = actions@;
        actions.push(LifecycleAction::RemoveFile(leaves[k].clone()));
        proof {
            assert(names[k as int] == leaves@[k as int]@);
            assert(files[k as int] == LifecycleStep::RemoveFile(leaves@[k as int]@));
            assert(actions_view(actions@) =~= actions_view(before).push(files[k as int]));
            assert(done + files.take(k + 1) =~= (done + files.take(k as int)).push(
                files[k as int],
            ));
        }
        k = k + 1;
    }
    let ghost before = actions@;
    actions.push(LifecycleAction::Sync);
    let has_marker = entries.contains(marker.as_str());
    let ghost mut tail: Seq<LifecycleStep> = seq![LifecycleStep::Sync];
    if has_marker {
        actions.push(LifecycleAction::RemoveFile(marker));
        proof {
            tail = tail.push(LifecycleStep::RemoveFile(marker@));
        }
    }
    actions.push(LifecycleAction::RemoveRun);
    proof {
        tail = tail.push(LifecycleStep::RemoveRun);
        assert(names.len() == leaves@.len());
        assert(files.take(k as int) =~= files);
        assert(actions_view(actions@) =~= actions_view(before) + tail);
        assert(actions_view(actions@) =~= run_removal(
            entries@,
            match objects {
                Some(objects) => Some(objects@),
                None => None,
            },
            marker@,
        ));
    }
    actions
}

/// The marker of a run goes after everything else that the run holds: whatever is
/// interrupted before, the marker still says that the run goes.
pub proof fn law_run_marker_goes_last(
    names: Seq<Seq<char>>,
    objects: Option<Seq<Seq<char>>>,
    marker: Seq<char>,
)
    requires
        names.contains(marker),
    ensures
        ({
            let steps = run_removal(names, objects, marker);
            &&& steps.len() >= 3
            &&& steps.last() is RemoveRun
            &&& steps[steps.len() - 2] == LifecycleStep::RemoveFile(marker)
            &&& steps[steps.len() - 3] is Sync
            &&& forall|i: int|
                0 <= i < steps.len() - 2 ==> #[trigger] steps[i] != LifecycleStep::RemoveFile(marker)
        }),
{
    let leaves = listing::names_without(names, RUN_OBJECTS_DIR@, marker);
    let steps = run_removal(names, objects, marker);
    let first = match objects {
        Some(objects) => objects.map_values(|name: Seq<char>| LifecycleStep::RemoveObject(name)).push(
            LifecycleStep::RemoveObjects,
        ),
        None => Seq::empty(),
    };
    let files = leaves.map_values(|name: Seq<char>| LifecycleStep::RemoveFile(name));
    assert(steps =~= first + files + seq![
        LifecycleStep::Sync,
        LifecycleStep::RemoveFile(marker),
        LifecycleStep::RemoveRun,
    ]);
    assert forall|i: int| 0 <= i < steps.len() - 2 implies #[trigger] steps[i]
        != LifecycleStep::RemoveFile(marker) by {
        if first.len() <= i < first.len() + files.len() {
            let name = leaves[i - first.len()];
            assert(steps[i] == LifecycleStep::RemoveFile(name));
            assert(leaves.contains(name));
            crate::listing::lemma_names_without(names, RUN_OBJECTS_DIR@, marker, name);
        }
    }
}

/// The last place of a character in a text is one at which it stands and behind which it does
/// not; there is none exactly where it stands nowhere.
pub proof fn law_character_is_found_at_its_last_place(text: Seq<char>, c: char)
    ensures
        match last_position(text, c) {
            Some(position) => {
                &&& 0 <= position < text.len()
                &&& text[position] == c
                &&& forall|k: int| position < k < text.len() ==> #[trigger] text[k] != c
            },
            None => forall|k: int| 0 <= k < text.len() ==> #[trigger] text[k] != c,
        },
    decreases text.len(),
{
    if text.len() > 0 && text.last() != c {
        let rest = text.drop_last();
        law_character_is_found_at_its_last_place(rest, c);
        assert forall|k: int| 0 <= k < rest.len() implies #[trigger] text[k] == rest[k] by {}
        assert(text[text.len() - 1] == text.last());
    }
}

/// The markers among names are those that are markers, in the order of the names.
pub proof fn law_markers_are_picked_out(names: Seq<Seq<char>>, name: Seq<char>)
    ensures
        markers_among(names.push(name)) == (if contract::is_identity_marker(
            name,
            CONVERSATION_LIFECYCLE_MARKER_PREFIX@,
        ) {
            markers_among(names).push(name)
        } else {
            markers_among(names)
        }),
        markers_among(Seq::empty()).len() == 0,
{
    assert(names.push(name).drop_last() =~= names);
}

proof fn lemma_object_names(names: Seq<Seq<char>>, from: int)
    requires
        0 <= from <= names.len(),
    ensures
        object_names_failure(names, from) is None <==> forall|k: int|
            from <= k < names.len() ==> contract::digest_failure(
                #[trigger] names[k],
                "conversation lifecycle object"@,
            ) is None,
    decreases names.len() - from,
{
    if from < names.len() {
        lemma_object_names(names, from + 1);
    }
}

/// The objects of a run are accepted exactly where each of them is named by a digest, and its
/// leaves exactly where each of them is.
pub proof fn law_every_object_and_leaf_is_looked_at(
    names: Seq<Seq<char>>,
    leaves: Seq<LifecycleLeaf>,
    file_label: Seq<char>,
    directory_label: Seq<char>,
)
    ensures
        object_names_failure(names, 0) is None <==> forall|k: int|
            0 <= k < names.len() ==> contract::digest_failure(
                #[trigger] names[k],
                "conversation lifecycle object"@,
            ) is None,
        leaves_failure(leaves, file_label, directory_label) is None <==> forall|k: int|
            0 <= k < leaves.len() ==> leaf_failure(
                #[trigger] leaves[k],
                file_label,
                directory_label,
            ) is None,
    decreases leaves.len(),
{
    lemma_object_names(names, 0);
    if leaves.len() > 0 {
        let rest = leaves.drop_last();
        law_every_object_and_leaf_is_looked_at(names, rest, file_label, directory_label);
        assert forall|k: int| 0 <= k < rest.len() implies #[trigger] rest[k] == leaves[k] by {}
        assert forall|k: int| 0 <= k < rest.len() implies #[trigger] leaves[k] == rest[k] by {}
        assert(leaves[leaves.len() - 1] == leaves.last());
    }
}

/// A run is taken away step by step: every object of it and their directory, every other leaf
/// as a file, what was removed is made durable, the marker, and the run itself.
pub proof fn law_every_part_of_a_run_is_taken_away(
    objects: Option<Seq<Seq<char>>>,
    leaves: Seq<Seq<char>>,
    marker: Option<Seq<char>>,
    k: int,
)
    ensures
        ({
            let steps = run_removal_steps(objects, leaves, marker);
            let first = match objects {
                Some(objects) => objects.len() as int + 1,
                None => 0,
            };
            &&& steps.len() == first + leaves.len() + 1 + (if marker is Some {
                1int
            } else {
                0
            }) + 1
            &&& objects is Some && 0 <= k < objects->0.len() ==> steps[k]
                == LifecycleStep::RemoveObject(objects->0[k])
            &&& objects is Some ==> steps[first - 1] is RemoveObjects
            &&& 0 <= k < leaves.len() ==> steps[first + k] == LifecycleStep::RemoveFile(leaves[k])
            &&& steps[first + leaves.len()] is Sync
            &&& marker is Some ==> steps[first + leaves.len() + 1] == LifecycleStep::RemoveFile(
                marker->0,
            )
            &&& steps[steps.len() - 1] is RemoveRun
        }),
{
}

/// A conversation that is taken up holds only what a conversation holds, and a run only what
/// a run holds.
pub proof fn law_lifecycle_knows_its_leaves(marker: Seq<char>, name: Seq<char>)
    ensures
        lifecycle_leaves(marker).contains(name) <==> {
            ||| name == marker
            ||| name == CONVERSATION_HISTORY_LEAF@
            ||| name == CONVERSATION_RUNS_DIR@
            ||| name == CONVERSATION_STATUS_LEAF@
            ||| name == STATUS_SUMMARY_STAGE_LEAF@
            ||| name == STATUS_TRANSACTION_LEAF@
            ||| name == STATUS_TRANSACTION_STAGE_LEAF@
        },
        lifecycle_run_leaves(marker).contains(name) <==> {
            ||| name == marker
            ||| name == RUN_CONTEXTS_LEAF@
            ||| name == RUN_EVENTS_LEAF@
            ||| name == RUN_LOG_LEAF@
            ||| name == RUN_OBJECTS_DIR@
            ||| name == RUN_RECOVERY_LEAF@
            ||| name == RUN_SESSION_LOCK_LEAF@
            ||| name == UNPUBLISHED_PRODUCTIVE_RUN_MARKER@
        },
{
    let root = lifecycle_leaves(marker);
    assert(root[0] == marker && root[1] == CONVERSATION_HISTORY_LEAF@);
    assert(root[2] == CONVERSATION_RUNS_DIR@ && root[3] == CONVERSATION_STATUS_LEAF@);
    assert(root[4] == STATUS_SUMMARY_STAGE_LEAF@ && root[5] == STATUS_TRANSACTION_LEAF@);
    assert(root[6] == STATUS_TRANSACTION_STAGE_LEAF@);
    let run = lifecycle_run_leaves(marker);
    assert(run[0] == marker && run[1] == RUN_CONTEXTS_LEAF@);
    assert(run[2] == RUN_EVENTS_LEAF@ && run[3] == RUN_LOG_LEAF@);
    assert(run[4] == RUN_OBJECTS_DIR@ && run[5] == RUN_RECOVERY_LEAF@);
    assert(run[6] == RUN_SESSION_LOCK_LEAF@ && run[7] == UNPUBLISHED_PRODUCTIVE_RUN_MARKER@);
}

} // verus!

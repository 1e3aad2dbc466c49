//! The directory of a run while it is created or reclaimed: what it may hold, and in
//! what order what it holds is taken away.

use crate::contract::{run_creation_identity_marker_name, validate_digest, validate_run_creation_identity_marker_name, DirectoryIdentity, MAX_CONVERSATION_RECORD_BYTES, RUN_CONTEXTS_LEAF, RUN_CREATION_STAGE_MARKER_PREFIX, RUN_EVENTS_LEAF, RUN_LOG_LEAF, RUN_OBJECTS_DIR, RUN_RECOVERY_LEAF, RUN_SESSION_LOCK_LEAF, UNPUBLISHED_PRODUCTIVE_RUN_MARKER};
use crate::contract;
use crate::digest::sha256_hex;
use crate::digest;
use crate::error::{protocol, ErrorModel, RuntimeError};
use crate::error;
use crate::listing::{all_among, bounded_names, holds_all, leaves_without, reversed, ListedName};
use crate::listing;
use crate::names::SortedNames;
use crate::names;
use crate::text::{join2, same_text};
use crate::text;
use vstd::prelude::*;

verus! {

pub const MAX_RUN_CREATION_CONSTRUCTION_LEAVES: usize = 7;
pub const MAX_RUN_RECLAMATION_LEAVES: usize = 8;

/// What is wrong with what the directory of a run lists.
pub open spec fn entries_failure(
    listed: Seq<ListedName>,
    maximum: usize,
    label: Seq<char>,
) -> Option<ErrorModel> {
    listing::listing_failure(
        listed,
        maximum,
        label + " entry must be UTF-8"@,
        label + " directory has too many entries"@,
    )
}

/// The names that the directory of a run lists, in order; no more than so many.
pub fn bounded_directory_entries(listed: Vec<ListedName>, max_entries: usize, label: &str) -> (result:
    Result<SortedNames, RuntimeError>)
    ensures
        error::failure(result) == entries_failure(listed@, max_entries, label@),
        result matches Ok(names) ==> names.wf() && names@.to_set() == listing::names_of(listed@),
{
    let not_text = join2(label, " entry must be UTF-8");
    let too_many = join2(label, " directory has too many entries");
    bounded_names(listed, max_entries, not_text.as_str(), too_many.as_str())
}

/// What is found under the name of a marker.
pub enum MarkerFound {
    Missing,
    Failed(RuntimeError),
    /// It is there; how long it is, where it could be opened.
    Present(Result<u64, RuntimeError>),
}

/// What is wrong with a file that must hold nothing.
pub open spec fn empty_file_failure(length: Result<u64, RuntimeError>) -> Option<ErrorModel> {
    match length {
        Err(error) => Some(error@),
        Ok(length) => if length != 0 {
            error::protocol_failure("run-creation empty file contains data"@)
        } else {
            None
        },
    }
}

/// Accepts a file that holds nothing.
pub fn validate_empty_run_creation_file(length: Result<u64, RuntimeError>) -> (result: Result<
    (),
    RuntimeError,
>)
    ensures
        error::failure(result) == empty_file_failure(length),
{
    if length? != 0 {
        return Err(protocol("run-creation empty file contains data"));
    }
    Ok(())
}

/// What is wrong with the marker of a run.
pub open spec fn marker_failure(found: MarkerFound) -> Option<ErrorModel> {
    match found {
        MarkerFound::Missing => error::protocol_failure("run-creation identity marker is missing"@),
        MarkerFound::Failed(error) => Some(error@),
        MarkerFound::Present(length) => empty_file_failure(length),
    }
}

/// Accepts the marker of a run: it is there, and holds nothing.
pub fn validate_run_creation_marker_file(found: MarkerFound) -> (result: Result<(), RuntimeError>)
    ensures
        error::failure(result) == marker_failure(found),
{
    match found {
        MarkerFound::Missing => Err(protocol("run-creation identity marker is missing")),
        MarkerFound::Failed(error) => Err(error),
        MarkerFound::Present(length) => validate_empty_run_creation_file(length),
    }
}

/// The marker of a directory.
pub open spec fn marker_of(identity: DirectoryIdentity) -> Seq<char> {
    contract::identity_marker(RUN_CREATION_STAGE_MARKER_PREFIX@, identity)
}

/// The name of the marker of a run, where it is there.
pub fn validate_run_creation_marker(
    identity: Result<DirectoryIdentity, RuntimeError>,
    found: MarkerFound,
) -> (result: Result<String, RuntimeError>)
    ensures
        error::failure(result) == error::first_failure(error::failure(identity), marker_failure(found)),
        result matches Ok(marker) ==> marker@ == marker_of(identity->Ok_0),
{
    let marker = run_creation_identity_marker_name(identity?);
    validate_run_creation_marker_file(found)?;
    Ok(marker)
}

/// What the directory of a run is made of, in the order in which it is made.
pub open spec fn construction(marker: Seq<char>, unpublished_productive_run: bool) -> Seq<Seq<char>> {
    let leaves = seq![
        marker,
        RUN_OBJECTS_DIR@,
        RUN_EVENTS_LEAF@,
        RUN_CONTEXTS_LEAF@,
        RUN_SESSION_LOCK_LEAF@,
        RUN_LOG_LEAF@,
    ];
    if unpublished_productive_run {
        leaves.push(UNPUBLISHED_PRODUCTIVE_RUN_MARKER@)
    } else {
        leaves
    }
}

/// What the directory of a run is made of.
pub fn construction_leaves(marker: &str, unpublished_productive_run: bool) -> (leaves: Vec<String>)
    ensures
        text::texts_view(leaves@) == construction(marker@, unpublished_productive_run),
{
    let mut leaves: Vec<String> = Vec::new();
    leaves.push(marker.to_owned());
    leaves.push(RUN_OBJECTS_DIR.to_owned());
    leaves.push(RUN_EVENTS_LEAF.to_owned());
    leaves.push(RUN_CONTEXTS_LEAF.to_owned());
    leaves.push(RUN_SESSION_LOCK_LEAF.to_owned());
    leaves.push(RUN_LOG_LEAF.to_owned());
    if unpublished_productive_run {
        leaves.push(UNPUBLISHED_PRODUCTIVE_RUN_MARKER.to_owned());
    }
    assert(text::texts_view(leaves@) =~= construction(marker@, unpublished_productive_run));
    leaves
}

/// What is found under the name of the objects of a run.
pub enum ObjectsFound {
    Failed(RuntimeError),
    Missing,
    Empty,
    Filled,
}

/// What is found under the name of the log of a run.
pub struct LogFound {
    pub length: Result<u64, RuntimeError>,
    pub bytes: Result<Vec<u8>, RuntimeError>,
}

/// What is found in the directory of a run. Of a name that is not listed, what is
/// said here of it has no bearing.
pub struct RunShape {
    pub listed: Vec<ListedName>,
    pub identity: Result<DirectoryIdentity, RuntimeError>,
    pub marker: MarkerFound,
    pub events: Result<u64, RuntimeError>,
    pub contexts: Result<u64, RuntimeError>,
    pub lock: Result<u64, RuntimeError>,
    pub unpublished: Result<u64, RuntimeError>,
    pub objects: ObjectsFound,
    pub log: LogFound,
}

/// A check that is made where a name is listed.
pub open spec fn where_listed(
    names: Set<Seq<char>>,
    leaf: Seq<char>,
    found: Option<ErrorModel>,
) -> Option<ErrorModel> {
    if names.contains(leaf) {
        found
    } else {
        None
    }
}

/// What is wrong with the objects of a run that is being made.
pub open spec fn objects_failure(found: ObjectsFound) -> Option<ErrorModel> {
    match found {
        ObjectsFound::Failed(error) => Some(error@),
        ObjectsFound::Missing => error::protocol_failure("run-creation objects are missing"@),
        ObjectsFound::Empty => None,
        ObjectsFound::Filled => error::protocol_failure("run-creation objects must be empty"@),
    }
}

/// What is wrong with the log of a run that is being made.
pub open spec fn log_failure(found: LogFound, expected_sha256: Seq<char>) -> Option<ErrorModel> {
    match found.length {
        Err(error) => Some(error@),
        Ok(length) => if length == 0 || length > MAX_CONVERSATION_RECORD_BYTES + 1 {
            error::protocol_failure("run-creation definition is incomplete"@)
        } else {
            match found.bytes {
                Err(error) => Some(error@),
                Ok(bytes) => if bytes@.len() != length || digest::digest_text(bytes@) != expected_sha256 {
                    error::protocol_failure("run-creation definition differs from its transaction"@)
                } else {
                    None
                },
            }
        },
    }
}

/// What is wrong with what is listed in the directory of a run.
pub open spec fn contents_failure(
    shape: RunShape,
    marker: Seq<char>,
    expected_sha256: Seq<char>,
    unpublished: bool,
) -> Option<ErrorModel> {
    let names = listing::names_of(shape.listed@);
    error::first_failure(
        marker_failure(shape.marker),
        if !names.subset_of(construction(marker, unpublished).to_set()) {
            error::protocol_failure("run-creation directory contains an unknown entry"@)
        } else {
            error::first_failure(
                where_listed(names, RUN_EVENTS_LEAF@, empty_file_failure(shape.events)),
                error::first_failure(
                    where_listed(names, RUN_CONTEXTS_LEAF@, empty_file_failure(shape.contexts)),
                    error::first_failure(
                        where_listed(
                            names,
                            RUN_SESSION_LOCK_LEAF@,
                            empty_file_failure(shape.lock),
                        ),
                        error::first_failure(
                            where_listed(
                                names,
                                UNPUBLISHED_PRODUCTIVE_RUN_MARKER@,
                                empty_file_failure(shape.unpublished),
                            ),
                            error::first_failure(
                                where_listed(
                                    names,
                                    RUN_OBJECTS_DIR@,
                                    objects_failure(shape.objects),
                                ),
                                where_listed(
                                    names,
                                    RUN_LOG_LEAF@,
                                    log_failure(shape.log, expected_sha256),
                                ),
                            ),
                        ),
                    ),
                ),
            )
        },
    )
}

/// What is wrong with the directory of a run that is being made.
pub open spec fn shape_failure(
    shape: RunShape,
    expected_sha256: Seq<char>,
    unpublished: bool,
    expected_marker: Option<Seq<char>>,
    allow_empty: bool,
) -> Option<ErrorModel> {
    error::first_failure(
        entries_failure(
            shape.listed@,
            MAX_RUN_CREATION_CONSTRUCTION_LEAVES,
            "run-creation"@,
        ),
        match shape.identity {
            Err(error) => Some(error@),
            Ok(identity) => if expected_marker is Some && expected_marker->0 != marker_of(identity) {
                error::protocol_failure("run-creation directory identity changed"@)
            } else if listing::names_of(shape.listed@) == Set::<Seq<char>>::empty() && allow_empty {
                None
            } else {
                contents_failure(shape, marker_of(identity), expected_sha256, unpublished)
            },
        },
    )
}

fn check_created_objects(found: ObjectsFound) -> (result: Result<(), RuntimeError>)
    ensures
        error::failure(result) == objects_failure(found),
{
    match found {
        ObjectsFound::Failed(error) => Err(error),
        ObjectsFound::Missing => Err(protocol("run-creation objects are missing")),
        ObjectsFound::Empty => Ok(()),
        ObjectsFound::Filled => Err(protocol("run-creation objects must be empty")),
    }
}

fn check_created_log(found: LogFound, expected_sha256: &str) -> (result: Result<(), RuntimeError>)
    ensures
        error::failure(result) == log_failure(found, expected_sha256@),
{
    let length: u64 = found.length?;
    if length == 0 || length > MAX_CONVERSATION_RECORD_BYTES as u64 + 1 {
        return Err(protocol("run-creation definition is incomplete"));
    }
    let bytes = found.bytes?;
    let actual = sha256_hex(bytes.as_slice());
    if bytes.len() as u64 != length || !same_text(actual.as_str(), expected_sha256) {
        return Err(protocol("run-creation definition differs from its transaction"));
    }
    Ok(())
}

/// Accepts the directory of a run that is being made, and gives what it holds.
pub fn validate_run_creation_shape(
    shape: RunShape,
    expected_run_log_sha256: &str,
    unpublished_productive_run: bool,
    expected_identity_marker: Option<&str>,
    allow_empty_without_marker: bool,
) -> (result: Result<SortedNames, RuntimeError>)
    ensures
        error::failure(result) == shape_failure(
            shape,
            expected_run_log_sha256@,
            unpublished_productive_run,
            match expected_identity_marker {
                Some(marker) => Some(marker@),
                None => None,
            },
            allow_empty_without_marker,
        ),
        result matches Ok(names) ==> {
            &&& names.wf()
            &&& names@.to_set() == listing::names_of(shape.listed@)
            &&& shape.identity is Ok
        },
{
    let actual = bounded_directory_entries(
        shape.listed,
        MAX_RUN_CREATION_CONSTRUCTION_LEAVES,
        "run-creation",
    )?;
    let marker = run_creation_identity_marker_name(shape.identity?);
    if let Some(expected) = expected_identity_marker {
        if !same_text(expected, marker.as_str()) {
            return Err(protocol("run-creation directory identity changed"));
        }
    }
    proof {
        names::lemma_order_counts(actual@);
        if actual@.len() == 0 {
            assert(actual@.to_set() =~= Set::<Seq<char>>::empty());
        }
    }
    if actual.len() == 0 && allow_empty_without_marker {
        return Ok(actual);
    }
    validate_run_creation_marker_file(shape.marker)?;
    let allowed = construction_leaves(marker.as_str(), unpublished_productive_run);
    if !all_among(&actual, &allowed) {
        return Err(protocol("run-creation directory contains an unknown entry"));
    }
    if actual.contains(RUN_EVENTS_LEAF) {
        validate_empty_run_creation_file(shape.events)?;
    }
    if actual.contains(RUN_CONTEXTS_LEAF) {
        validate_empty_run_creation_file(shape.contexts)?;
    }
    if actual.contains(RUN_SESSION_LOCK_LEAF) {
        validate_empty_run_creation_file(shape.lock)?;
    }
    if actual.contains(UNPUBLISHED_PRODUCTIVE_RUN_MARKER) {
        validate_empty_run_creation_file(shape.unpublished)?;
    }
    if actual.contains(RUN_OBJECTS_DIR) {
        check_created_objects(shape.objects)?;
    }
    if actual.contains(RUN_LOG_LEAF) {
        check_created_log(shape.log, expected_run_log_sha256)?;
    }
    Ok(actual)
}

/// What is wrong with the directory of a run that was made.
pub open spec fn complete_failure(
    shape: RunShape,
    expected_sha256: Seq<char>,
    unpublished: bool,
    expected_marker: Seq<char>,
) -> Option<ErrorModel> {
    error::first_failure(
        shape_failure(shape, expected_sha256, unpublished, Some(expected_marker), false),
        if listing::names_of(shape.listed@) != construction(expected_marker, unpublished).to_set() {
            error::protocol_failure("created Run inventory is incomplete"@)
        } else {
            None
        },
    )
}

/// Accepts the directory of a run that was made: it holds all that it is made of.
pub fn validate_complete_created_run(
    shape: RunShape,
    expected_run_log_sha256: &str,
    unpublished_productive_run: bool,
    expected_identity_marker: &str,
) -> (result: Result<(), RuntimeError>)
    ensures
        error::failure(result) == complete_failure(
            shape,
            expected_run_log_sha256@,
            unpublished_productive_run,
            expected_identity_marker@,
        ),
{
    let ghost whole = shape;
    let actual = validate_run_creation_shape(
        shape,
        expected_run_log_sha256,
        unpublished_productive_run,
        Some(expected_identity_marker),
        false,
    )?;
    let construction = construction_leaves(expected_identity_marker, unpublished_productive_run);
    let complete = holds_all(&actual, &construction);
    proof {
        let made = self::construction(expected_identity_marker@, unpublished_productive_run);
        assert(listing::names_of(whole.listed@).subset_of(made.to_set()));
        if complete {
            assert(listing::names_of(whole.listed@) =~= made.to_set());
        }
    }
    if !complete {
        return Err(protocol("created Run inventory is incomplete"));
    }
    Ok(())
}

/// Something that is taken away.
pub struct Removal {
    pub leaf: String,
    /// Whether it is a directory.
    pub directory: bool,
}

/// Something that is taken away, by its contents.
pub struct RemovalModel {
    pub leaf: Seq<char>,
    pub directory: bool,
}

impl View for Removal {
    type V = RemovalModel;

    open spec fn view(&self) -> RemovalModel {
        RemovalModel { leaf: self.leaf@, directory: self.directory }
    }
}

/// Removals by their contents.
pub open spec fn removals_view(removals: Seq<Removal>) -> Seq<RemovalModel> {
    removals.map_values(|removal: Removal| removal@)
}

/// What is taken away: the names from the last to the first, all but the marker.
pub open spec fn stage_removals(names: Seq<Seq<char>>, marker: Seq<char>) -> Seq<RemovalModel>
    decreases names.len(),
{
    if names.len() == 0 {
        Seq::empty()
    } else if names.last() == marker {
        stage_removals(names.drop_last(), marker)
    } else {
        seq![RemovalModel { leaf: names.last(), directory: names.last() == RUN_OBJECTS_DIR@ }]
            + stage_removals(names.drop_last(), marker)
    }
}

/// Nothing but the marker is left when the removals are done, and nothing is taken
/// away that is not there; the marker goes last.
pub proof fn law_removals_leave_the_marker(
    names: Seq<Seq<char>>,
    marker: Seq<char>,
    leaf: Seq<char>,
)
    ensures
        (exists|k: int|
            0 <= k < stage_removals(names, marker).len() && (#[trigger] stage_removals(
                names,
                marker,
            )[k]).leaf == leaf) <==> names.contains(leaf) && leaf != marker,
    decreases names.len(),
{
    let removals = stage_removals(names, marker);
    if names.len() > 0 {
        let rest = stage_removals(names.drop_last(), marker);
        law_removals_leave_the_marker(names.drop_last(), marker, leaf);
        assert(names.contains(leaf) <==> names.drop_last().contains(leaf) || leaf == names.last()) by {
            if names.contains(leaf) {
                let k = choose|k: int| 0 <= k < names.len() && names[k] == leaf;
                if k < names.len() - 1 {
                    assert(names.drop_last()[k] == leaf);
                }
            }
            if names.drop_last().contains(leaf) {
                let k = choose|k: int| 0 <= k < names.drop_last().len() && names.drop_last()[k] == leaf;
                assert(names[k] == leaf);
            }
        }
        if names.last() != marker {
            assert(removals[0].leaf == names.last());
            if exists|k: int| 0 <= k < rest.len() && (#[trigger] rest[k]).leaf == leaf {
                let k = choose|k: int| 0 <= k < rest.len() && (#[trigger] rest[k]).leaf == leaf;
                assert(removals[k + 1].leaf == leaf);
            }
            if exists|k: int| 0 <= k < removals.len() && (#[trigger] removals[k]).leaf == leaf {
                let k = choose|k: int| 0 <= k < removals.len() && (#[trigger] removals[k]).leaf == leaf;
                if k > 0 {
                    assert(rest[k - 1].leaf == leaf);
                }
            }
        }
    }
}

/// How what a directory holds is taken away.
pub struct RemovalPlan {
    pub removals: Vec<Removal>,
    /// The marker, where it is there: it goes when the rest is gone for good.
    pub marker: Option<String>,
}

/// How what the directory of a run that was not finished holds is taken away.
pub fn plan_stage_removal(names: &SortedNames, marker: String) -> (plan: RemovalPlan)
    ensures
        removals_view(plan.removals@) == stage_removals(names@, marker@),
        match plan.marker {
            Some(found) => names@.contains(marker@) && found == marker,
            None => !names@.contains(marker@),
        },
{
    let ghost all = names@;
    let mut removals: Vec<Removal> = Vec::new();
    let mut i: usize = names.names.len();
    assert(all.take(i as int) =~= all);
    assert(removals_view(removals@) =~= Seq::<RemovalModel>::empty());
    while i > 0
        invariant
            i <= names.names.len(),
            all == names@,
            removals_view(removals@) + stage_removals(all.take(i as int), marker@)
                == stage_removals(all, marker@),
        decreases i,
    {
        let ghost before = removals_view(removals@);
        i = i - 1;
        proof {
            assert(all.take(i + 1).drop_last() =~= all.take(i as int));
            assert(all.take(i + 1).last() == names.names@[i as int]@);
        }
        if !same_text(names.names[i].as_str(), marker.as_str()) {
            let directory = same_text(names.names[i].as_str(), RUN_OBJECTS_DIR);
            removals.push(Removal { leaf: names.names[i].clone(), directory });
            assert(removals_view(removals@) =~= before.push(
                RemovalModel { leaf: names.names@[i as int]@, directory },
            ));
            assert(removals_view(removals@) + stage_removals(all.take(i as int), marker@) =~= before
                + stage_removals(all.take(i + 1), marker@));
        }
    }
    assert(removals_view(removals@) =~= stage_removals(all, marker@));
    let marker = if names.contains(marker.as_str()) {
        Some(marker)
    } else {
        None
    };
    RemovalPlan { removals, marker }
}

/// How a run that was not finished is taken away: accepts its directory, and plans the
/// removal of what it holds.
pub fn remove_recoverable_run_creation_stage(
    shape: RunShape,
    expected_identity: DirectoryIdentity,
    expected_run_log_sha256: &str,
    unpublished_productive_run: bool,
    expected_identity_marker: Option<&str>,
    allow_empty_without_marker: bool,
) -> (result: Result<RemovalPlan, RuntimeError>)
    ensures
        error::failure(result) == shape_failure(
            shape,
            expected_run_log_sha256@,
            unpublished_productive_run,
            match expected_identity_marker {
                Some(marker) => Some(marker@),
                None => None,
            },
            allow_empty_without_marker,
        ),
        result matches Ok(plan) ==> exists|names: Seq<Seq<char>>|
            {
                &&& #[trigger] names::in_order(names)
                &&& names.to_set() == listing::names_of(shape.listed@)
                &&& removals_view(plan.removals@) == stage_removals(
                    names,
                    marker_of(expected_identity),
                )
                &&& plan.marker matches Some(marker) ==> marker@ == marker_of(expected_identity)
                &&& plan.marker is Some == listing::names_of(shape.listed@).contains(
                    marker_of(expected_identity),
                )
            },
{
    let actual = validate_run_creation_shape(
        shape,
        expected_run_log_sha256,
        unpublished_productive_run,
        expected_identity_marker,
        allow_empty_without_marker,
    )?;
    let marker = run_creation_identity_marker_name(expected_identity);
    let plan = plan_stage_removal(&actual, marker);
    assert(names::in_order(actual@));
    assert(listing::names_of(shape.listed@).contains(marker_of(expected_identity)) == actual@.contains(
        marker_of(expected_identity),
    ));
    Ok(plan)
}

/// What is wrong with a directory that should hold nothing any more.
pub open spec fn emptied_failure(
    listed: Seq<ListedName>,
    maximum: usize,
    label: Seq<char>,
    changed: Seq<char>,
) -> Option<ErrorModel> {
    error::first_failure(
        entries_failure(listed, maximum, label),
        if listing::names_of(listed) != Set::<Seq<char>>::empty() {
            error::protocol_failure(changed)
        } else {
            None
        },
    )
}

fn check_emptied(listed: Vec<ListedName>, maximum: usize, label: &str, changed: &str) -> (result:
    Result<(), RuntimeError>)
    ensures
        error::failure(result) == emptied_failure(listed@, maximum, label@, changed@),
{
    let names = bounded_directory_entries(listed, maximum, label)?;
    proof {
        names::lemma_order_counts(names@);
        if names@.len() == 0 {
            assert(names@.to_set() =~= Set::<Seq<char>>::empty());
        }
    }
    if names.len() > 0 {
        return Err(protocol(changed));
    }
    Ok(())
}

/// Accepts the directory of an unfinished run from which all was taken away.
pub fn check_stage_emptied(listed: Vec<ListedName>) -> (result: Result<(), RuntimeError>)
    ensures
        error::failure(result) == emptied_failure(
            listed@,
            MAX_RUN_CREATION_CONSTRUCTION_LEAVES,
            "run-creation"@,
            "run-creation stage changed during cleanup"@,
        ),
{
    check_emptied(
        listed,
        MAX_RUN_CREATION_CONSTRUCTION_LEAVES,
        "run-creation",
        "run-creation stage changed during cleanup",
    )
}

/// What is wrong with a directory that is about to go.
pub open spec fn going_failure(
    current: Option<DirectoryIdentity>,
    expected: DirectoryIdentity,
    disappeared: Seq<char>,
    changed: Seq<char>,
) -> Option<ErrorModel> {
    match current {
        None => error::protocol_failure(disappeared),
        Some(identity) => if identity != expected {
            error::protocol_failure(changed)
        } else {
            None
        },
    }
}

/// Accepts the directory of an unfinished run that is about to go: it is the one from
/// which all was taken away.
pub fn remove_identity_bound_run_creation_stage(
    current: Option<DirectoryIdentity>,
    expected_identity: DirectoryIdentity,
) -> (result: Result<(), RuntimeError>)
    ensures
        error::failure(result) == going_failure(
            current,
            expected_identity,
            "run-creation stage disappeared during cleanup"@,
            "run-creation stage identity changed during cleanup"@,
        ),
{
    match current {
        None => Err(protocol("run-creation stage disappeared during cleanup")),
        Some(identity) => {
            if identity != expected_identity {
                return Err(protocol("run-creation stage identity changed during cleanup"));
            }
            Ok(())
        },
    }
}

/// What is wrong with an unfinished run of which nothing was written down.
pub open spec fn unrecorded_failure(
    listed: Seq<ListedName>,
    identity: DirectoryIdentity,
    found: MarkerFound,
) -> Option<ErrorModel> {
    let names = listing::names_of(listed);
    error::first_failure(
        entries_failure(listed, MAX_RUN_CREATION_CONSTRUCTION_LEAVES, "run-creation"@),
        if names != Set::<Seq<char>>::empty() && names != set![marker_of(identity)] {
            error::protocol_failure("run-creation staging artifact already exists"@)
        } else if names.contains(marker_of(identity)) {
            marker_failure(found)
        } else {
            None
        },
    )
}

/// How an unfinished run of which nothing was written down is taken away: it holds
/// nothing, or its marker; gives the marker that has to go.
pub fn remove_unrecorded_empty_run_creation_stage(
    listed: Vec<ListedName>,
    identity: DirectoryIdentity,
    found: MarkerFound,
) -> (result: Result<Option<String>, RuntimeError>)
    ensures
        error::failure(result) == unrecorded_failure(listed@, identity, found),
        result matches Ok(marker) ==> match marker {
            Some(marker) => listing::names_of(listed@).contains(marker_of(identity)) && marker@ == marker_of(
                identity,
            ),
            None => listing::names_of(listed@) == Set::<Seq<char>>::empty(),
        },
{
    let ghost all = listed@;
    let marker = run_creation_identity_marker_name(identity);
    let actual = bounded_directory_entries(
        listed,
        MAX_RUN_CREATION_CONSTRUCTION_LEAVES,
        "run-creation",
    )?;
    let holds_marker = actual.contains(marker.as_str());
    proof {
        names::lemma_order_counts(actual@);
        let names = listing::names_of(all);
        if actual@.len() == 0 {
            assert(names =~= Set::<Seq<char>>::empty());
        } else if actual@.len() == 1 && holds_marker {
            assert forall|name: Seq<char>| names.contains(name) implies name == marker_of(identity) by {
                assert(actual@.contains(name));
            }
            assert(names =~= set![marker_of(identity)]);
        } else {
            assert(names.contains(actual@[0]));
            if names == set![marker_of(identity)] {
                assert(names.contains(marker_of(identity)));
                assert(set![marker_of(identity)].len() == 1);
            }
        }
    }
    if actual.len() != 0 && !(actual.len() == 1 && holds_marker) {
        return Err(protocol("run-creation staging artifact already exists"));
    }
    if holds_marker {
        validate_run_creation_marker_file(found)?;
        return Ok(Some(marker));
    }
    Ok(None)
}

/// What a reclaimed run may hold.
pub open spec fn reclaimable(marker: Seq<char>) -> Seq<Seq<char>> {
    seq![
        RUN_CONTEXTS_LEAF@,
        RUN_EVENTS_LEAF@,
        RUN_OBJECTS_DIR@,
        RUN_RECOVERY_LEAF@,
        RUN_LOG_LEAF@,
        RUN_SESSION_LOCK_LEAF@,
        UNPUBLISHED_PRODUCTIVE_RUN_MARKER@,
        marker,
    ]
}

fn reclaimable_leaves(marker: &str) -> (leaves: Vec<String>)
    ensures
        text::texts_view(leaves@) == reclaimable(marker@),
{
    let mut leaves: Vec<String> = Vec::new();
    leaves.push(RUN_CONTEXTS_LEAF.to_owned());
    leaves.push(RUN_EVENTS_LEAF.to_owned());
    leaves.push(RUN_OBJECTS_DIR.to_owned());
    leaves.push(RUN_RECOVERY_LEAF.to_owned());
    leaves.push(RUN_LOG_LEAF.to_owned());
    leaves.push(RUN_SESSION_LOCK_LEAF.to_owned());
    leaves.push(UNPUBLISHED_PRODUCTIVE_RUN_MARKER.to_owned());
    leaves.push(marker.to_owned());
    assert(text::texts_view(leaves@) =~= reclaimable(marker@));
    leaves
}

/// How what a reclaimed run holds is taken away.
pub struct ReclamationPlan {
    /// The files, with the marker: each must open before anything goes.
    pub present: Vec<String>,
    /// The files but the marker, in the order in which they go.
    pub leaves: Vec<String>,
    /// Whether something stands under the name of the objects.
    pub objects: bool,
    /// The marker, where it is there: it goes when the rest is gone for good.
    pub marker: Option<String>,
}

/// What is wrong with the directory of a run that is reclaimed.
pub open spec fn reclamation_failure(
    identity: DirectoryIdentity,
    expected_marker: Seq<char>,
    listed: Seq<ListedName>,
) -> Option<ErrorModel> {
    let names = listing::names_of(listed);
    let marker = marker_of(identity);
    error::first_failure(
        contract::run_marker_failure(expected_marker),
        if marker != expected_marker {
            error::protocol_failure("run-reclamation directory identity changed"@)
        } else {
            error::first_failure(
                entries_failure(listed, MAX_RUN_RECLAMATION_LEAVES, "run-reclamation"@),
                if names != Set::<Seq<char>>::empty() && !names.contains(marker) {
                    error::protocol_failure("run-reclamation identity marker is missing"@)
                } else if !names.subset_of(reclaimable(marker).to_set()) {
                    error::protocol_failure("run-reclamation directory contains an unknown entry"@)
                } else {
                    None
                },
            )
        },
    )
}

/// How a run is reclaimed: accepts its directory, and plans the removal of what it
/// holds.
pub fn finish_recoverable_run_reclamation(
    identity: DirectoryIdentity,
    expected_identity_marker: &str,
    listed: Vec<ListedName>,
) -> (result: Result<ReclamationPlan, RuntimeError>)
    ensures
        error::failure(result) == reclamation_failure(identity, expected_identity_marker@, listed@),
        result matches Ok(plan) ==> exists|names: Seq<Seq<char>>|
            {
                &&& #[trigger] names::in_order(names)
                &&& names.to_set() == listing::names_of(listed@)
                &&& text::texts_view(plan.present@) == listing::names_without(
                    names,
                    RUN_OBJECTS_DIR@,
                    RUN_OBJECTS_DIR@,
                )
                &&& text::texts_view(plan.leaves@) == listing::names_without(
                    names,
                    RUN_OBJECTS_DIR@,
                    marker_of(identity),
                )
                &&& plan.objects == listing::names_of(listed@).contains(RUN_OBJECTS_DIR@)
                &&& plan.marker is Some == listing::names_of(listed@).contains(marker_of(identity))
                &&& plan.marker matches Some(marker) ==> marker@ == marker_of(identity)
            },
{
    let ghost entries = listed@;
    validate_run_creation_identity_marker_name(expected_identity_marker)?;
    let marker = run_creation_identity_marker_name(identity);
    if !same_text(marker.as_str(), expected_identity_marker) {
        return Err(protocol("run-reclamation directory identity changed"));
    }
    let actual = bounded_directory_entries(listed, MAX_RUN_RECLAMATION_LEAVES, "run-reclamation")?;
    let holds_marker = actual.contains(marker.as_str());
    proof {
        names::lemma_order_counts(actual@);
        if actual@.len() == 0 {
            assert(actual@.to_set() =~= Set::<Seq<char>>::empty());
        }
    }
    if actual.len() > 0 && !holds_marker {
        return Err(protocol("run-reclamation identity marker is missing"));
    }
    let allowed = reclaimable_leaves(marker.as_str());
    if !all_among(&actual, &allowed) {
        return Err(protocol("run-reclamation directory contains an unknown entry"));
    }
    let ghost all = actual@;
    let present = leaves_without(&actual, RUN_OBJECTS_DIR, RUN_OBJECTS_DIR);
    let leaves = leaves_without(&actual, RUN_OBJECTS_DIR, marker.as_str());
    let objects = actual.contains(RUN_OBJECTS_DIR);
    proof {
        assert(names::in_order(all));
        assert(listing::names_of(entries).contains(marker_of(identity)) == all.contains(marker_of(identity)));
        assert(listing::names_of(entries).contains(RUN_OBJECTS_DIR@) == all.contains(RUN_OBJECTS_DIR@));
    }
    let marker = if holds_marker {
        Some(marker)
    } else {
        None
    };
    Ok(ReclamationPlan { present, leaves, objects, marker })
}

/// An object as its directory lists it, and whether it could be opened.
pub struct ListedObject {
    pub name: ListedName,
    pub opened: Result<(), RuntimeError>,
}

/// What is found under the name of the objects of a reclaimed run.
pub enum ReclaimedObjects {
    Directory(Vec<ListedObject>),
    Missing,
    /// It is no directory; whether it could be opened as a file.
    NotADirectory { error: RuntimeError, file: bool },
}

/// What the objects of a reclaimed run are removed as.
#[derive(Clone, Copy, Debug, PartialEq, Eq, Structural)]
pub enum ObjectsRemoval {
    Directory,
    File,
}

/// What is wrong with an object of a reclaimed run, of which so many stand before it.
pub open spec fn listed_object_failure(object: ListedObject, before: int, maximum: usize) -> Option<
    ErrorModel,
> {
    match object.name {
        ListedName::Failed(error) => Some(error@),
        ListedName::NotText => error::protocol_failure("run-reclamation object name must be UTF-8"@),
        ListedName::Name(name) => if before + 1 > maximum {
            error::protocol_failure("run-reclamation object inventory is too large"@)
        } else {
            error::first_failure(
                contract::digest_failure(name@, "run-reclamation object"@),
                error::failure(object.opened),
            )
        },
    }
}

/// What is wrong with the objects of a reclaimed run, from one of them on.
pub open spec fn listed_objects_failure(objects: Seq<ListedObject>, from: int, maximum: usize) -> Option<
    ErrorModel,
>
    decreases objects.len() - from,
{
    if from < 0 || from >= objects.len() {
        None
    } else {
        error::first_failure(
            listed_object_failure(objects[from], from, maximum),
            listed_objects_failure(objects, from + 1, maximum),
        )
    }
}

/// What is wrong with what stands under the name of the objects of a reclaimed run.
pub open spec fn reclaimed_objects_failure(found: ReclaimedObjects, maximum: usize) -> Option<
    ErrorModel,
> {
    match found {
        ReclaimedObjects::Directory(objects) => listed_objects_failure(objects@, 0, maximum),
        ReclaimedObjects::Missing => error::protocol_failure("run-reclamation objects disappeared"@),
        ReclaimedObjects::NotADirectory { error, file } => if file {
            None
        } else {
            Some(error@)
        },
    }
}

fn check_listed_object(object: ListedObject, before: usize, maximum: usize) -> (result: Result<
    (),
    RuntimeError,
>)
    ensures
        error::failure(result) == listed_object_failure(object, before as int, maximum),
{
    match object.name {
        ListedName::Failed(error) => Err(error),
        ListedName::NotText => Err(protocol("run-reclamation object name must be UTF-8")),
        ListedName::Name(name) => {
            if before >= maximum {
                return Err(protocol("run-reclamation object inventory is too large"));
            }
            validate_digest(name.as_str(), "run-reclamation object")?;
            object.opened
        },
    }
}

/// Accepts what stands under the name of the objects of a reclaimed run, and says what
/// it is removed as.
pub fn validate_run_reclamation_objects(found: ReclaimedObjects, maximum: usize) -> (result: Result<
    ObjectsRemoval,
    RuntimeError,
>)
    ensures
        error::failure(result) == reclaimed_objects_failure(found, maximum),
        result matches Ok(removal) ==> removal == (if found is Directory {
            ObjectsRemoval::Directory
        } else {
            ObjectsRemoval::File
        }),
{
    match found {
        ReclaimedObjects::Missing => Err(protocol("run-reclamation objects disappeared")),
        ReclaimedObjects::NotADirectory { error, file } => {
            if file {
                Ok(ObjectsRemoval::File)
            } else {
                Err(error)
            }
        },
        ReclaimedObjects::Directory(objects) => {
            let ghost all = objects@;
            let total: usize = objects.len();
            let mut pending = reversed(objects);
            let mut seen: usize = 0;
            while pending.len() > 0
                invariant
                    seen + pending.len() == total,
                    total == all.len(),
                    found is Directory,
                    all == found->Directory_0@,
                    listed_objects_failure(all, 0, maximum) == listed_objects_failure(
                        all,
                        seen as int,
                        maximum,
                    ),
                    forall|k: int|
                        0 <= k < pending@.len() ==> #[trigger] pending@[k] == all[all.len() - 1 - k],
                decreases pending@.len(),
            {
                match pending.pop() {
                    None => {},
                    Some(object) => {
                        assert(object == all[seen as int]);
                        check_listed_object(object, seen, maximum)?;
                        seen = seen + 1;
                    },
                }
            }
            Ok(ObjectsRemoval::Directory)
        },
    }
}

/// Accepts the directory of a reclaimed run from which all was taken away.
pub fn check_reclamation_emptied(listed: Vec<ListedName>) -> (result: Result<(), RuntimeError>)
    ensures
        error::failure(result) == emptied_failure(
            listed@,
            MAX_RUN_RECLAMATION_LEAVES,
            "run-reclamation"@,
            "run-reclamation directory changed during cleanup"@,
        ),
{
    check_emptied(
        listed,
        MAX_RUN_RECLAMATION_LEAVES,
        "run-reclamation",
        "run-reclamation directory changed during cleanup",
    )
}

/// Accepts the directory of a reclaimed run that is about to go.
pub fn check_reclamation_identity(
    current: Option<DirectoryIdentity>,
    expected_identity: DirectoryIdentity,
) -> (result: Result<(), RuntimeError>)
    ensures
        error::failure(result) == going_failure(
            current,
            expected_identity,
            "run-reclamation directory disappeared during cleanup"@,
            "run-reclamation directory identity changed during cleanup"@,
        ),
{
    match current {
        None => Err(protocol("run-reclamation directory disappeared during cleanup")),
        Some(identity) => {
            if identity != expected_identity {
                return Err(protocol("run-reclamation directory identity changed during cleanup"));
            }
            Ok(())
        },
    }
}

/// What is found of a run whose creation was written down.
pub enum CreationFound {
    /// The run is there; whether something is left under its staging name.
    Published { shape: RunShape, staged: Result<bool, RuntimeError> },
    /// The run is not there, and nothing under its staging name.
    Absent,
    /// The run is not there, but something under its staging name.
    Staged { shape: RunShape, identity: DirectoryIdentity },
}

/// What has to be done of a run whose creation was written down.
pub enum CreationEvidence {
    /// It was created.
    Applied,
    /// It was not; nothing is left of it.
    NotApplied,
    /// It was not; what is left of it has to go.
    Remove(RemovalPlan),
}

/// What is wrong with a run whose creation was written down.
pub open spec fn creation_failure(
    found: CreationFound,
    marker: Seq<char>,
    run_log_sha256: Seq<char>,
    unpublished: bool,
) -> Option<ErrorModel> {
    match found {
        CreationFound::Published { shape, staged } => match staged {
            Err(error) => Some(error@),
            Ok(staged) => if staged {
                error::protocol_failure("published Run retains a second staging artifact"@)
            } else {
                complete_failure(shape, run_log_sha256, unpublished, marker)
            },
        },
        CreationFound::Absent => None,
        CreationFound::Staged { shape, identity } => shape_failure(
            shape,
            run_log_sha256,
            unpublished,
            Some(marker),
            true,
        ),
    }
}

/// Whether a run whose creation was written down was created, and what has to go where
/// it was not.
pub fn run_creation_mutation_was_applied(
    found: CreationFound,
    run_identity_marker: &str,
    run_log_sha256: &str,
    unpublished_productive_run: bool,
) -> (result: Result<CreationEvidence, RuntimeError>)
    ensures
        error::failure(result) == creation_failure(
            found,
            run_identity_marker@,
            run_log_sha256@,
            unpublished_productive_run,
        ),
        result matches Ok(evidence) ==> {
            &&& evidence is Applied == found is Published
            &&& evidence is NotApplied == found is Absent
            &&& evidence matches CreationEvidence::Remove(plan) ==> found is Staged
        },
        result matches Ok(CreationEvidence::Remove(plan)) ==> exists|names: Seq<Seq<char>>|
            {
                &&& #[trigger] names::in_order(names)
                &&& names.to_set() == listing::names_of(found->Staged_shape.listed@)
                &&& removals_view(plan.removals@) == stage_removals(
                    names,
                    marker_of(found->Staged_identity),
                )
                &&& plan.marker is Some == names.contains(marker_of(found->Staged_identity))
                &&& plan.marker matches Some(marker) ==> marker@ == marker_of(
                    found->Staged_identity,
                )
            },
{
    match found {
        CreationFound::Published { shape, staged } => {
            if staged? {
                return Err(protocol("published Run retains a second staging artifact"));
            }
            validate_complete_created_run(
                shape,
                run_log_sha256,
                unpublished_productive_run,
                run_identity_marker,
            )?;
            Ok(CreationEvidence::Applied)
        },
        CreationFound::Absent => Ok(CreationEvidence::NotApplied),
        CreationFound::Staged { shape, identity } => {
            let plan = remove_recoverable_run_creation_stage(
                shape,
                identity,
                run_log_sha256,
                unpublished_productive_run,
                Some(run_identity_marker),
                true,
            )?;
            Ok(CreationEvidence::Remove(plan))
        },
    }
}

/// What is done next to remove a run that is reclaimed.
#[derive(Clone, Copy, Debug, PartialEq, Eq, Structural)]
pub enum RemovalStep {
    /// Open the next file, to see that it can be.
    Open,
    /// Remove the objects with their directory.
    RemoveObjects,
    /// Remove the next file.
    Remove,
    /// Make it last that the files are gone.
    Sync,
    RemoveMarker,
    /// See that nothing is left.
    CheckEmptied,
    /// See that the directory is still the same.
    CheckIdentity,
    RemoveDirectory,
    Done,
}

/// A run that is reclaimed and being removed.
pub struct RunRemoval {
    pub plan: ReclamationPlan,
    /// Whether the objects stand in a directory.
    pub objects: bool,
    pub step: RemovalStep,
    pub opened: usize,
    pub removed: usize,
}

/// The step behind the last file that was opened.
pub open spec fn behind_opening(plan: ReclamationPlan, objects: bool) -> RemovalStep {
    if objects {
        RemovalStep::RemoveObjects
    } else {
        behind_objects(plan)
    }
}

/// The step behind the objects.
pub open spec fn behind_objects(plan: ReclamationPlan) -> RemovalStep {
    if plan.leaves@.len() > 0 {
        RemovalStep::Remove
    } else {
        RemovalStep::Sync
    }
}

impl RunRemoval {
    /// Nothing goes before every file has opened, the marker goes when every other file has
    /// gone, and the directory goes last.
    pub open spec fn wf(self) -> bool {
        &&& self.opened <= self.plan.present@.len()
        &&& self.removed <= self.plan.leaves@.len()
        &&& self.step is Open <==> self.opened < self.plan.present@.len()
        &&& self.step is Open || self.step is RemoveObjects ==> self.removed == 0
        &&& self.step is RemoveObjects ==> self.objects
        &&& self.step is Remove ==> self.removed < self.plan.leaves@.len()
        &&& self.step !is Open && self.step !is RemoveObjects && self.step !is Remove
            ==> self.removed == self.plan.leaves@.len()
        &&& self.step is RemoveMarker ==> self.plan.marker is Some
    }

    /// The removal behind a step that succeeded.
    pub open spec fn behind(self) -> RunRemoval {
        match self.step {
            RemovalStep::Open => {
                let opened = (self.opened + 1) as usize;
                RunRemoval {
                    opened,
                    step: if opened < self.plan.present@.len() {
                        RemovalStep::Open
                    } else {
                        behind_opening(self.plan, self.objects)
                    },
                    ..self
                }
            },
            RemovalStep::RemoveObjects => RunRemoval { step: behind_objects(self.plan), ..self },
            RemovalStep::Remove => {
                let removed = (self.removed + 1) as usize;
                RunRemoval {
                    removed,
                    step: if removed < self.plan.leaves@.len() {
                        RemovalStep::Remove
                    } else {
                        RemovalStep::Sync
                    },
                    ..self
                }
            },
            RemovalStep::Sync => RunRemoval {
                step: if self.plan.marker is Some {
                    RemovalStep::RemoveMarker
                } else {
                    RemovalStep::CheckEmptied
                },
                ..self
            },
            RemovalStep::RemoveMarker => RunRemoval { step: RemovalStep::CheckEmptied, ..self },
            RemovalStep::CheckEmptied => RunRemoval { step: RemovalStep::CheckIdentity, ..self },
            RemovalStep::CheckIdentity => RunRemoval { step: RemovalStep::RemoveDirectory, ..self },
            RemovalStep::RemoveDirectory => RunRemoval { step: RemovalStep::Done, ..self },
            RemovalStep::Done => self,
        }
    }

    /// A run of which nothing has been removed but a file under the name of its objects.
    pub fn begin(plan: ReclamationPlan, removal: Option<ObjectsRemoval>) -> (begun: RunRemoval)
        ensures
            begun.wf(),
            begun == (RunRemoval {
                plan,
                objects: removal == Some(ObjectsRemoval::Directory),
                step: if plan.present@.len() > 0 {
                    RemovalStep::Open
                } else {
                    behind_opening(plan, removal == Some(ObjectsRemoval::Directory))
                },
                opened: 0,
                removed: 0,
            }),
    {
        let objects = matches!(removal, Some(ObjectsRemoval::Directory));
        let step = if plan.present.len() > 0 {
            RemovalStep::Open
        } else if objects {
            RemovalStep::RemoveObjects
        } else if plan.leaves.len() > 0 {
            RemovalStep::Remove
        } else {
            RemovalStep::Sync
        };
        RunRemoval { plan, objects, step, opened: 0, removed: 0 }
    }

    /// The file that is opened or removed next.
    pub fn leaf(&self) -> (leaf: Option<&String>)
        requires
            self.wf(),
        ensures
            leaf == (match self.step {
                RemovalStep::Open => Some(&self.plan.present@[self.opened as int]),
                RemovalStep::Remove => Some(&self.plan.leaves@[self.removed as int]),
                RemovalStep::RemoveMarker => Some(&self.plan.marker->0),
                _ => None,
            }),
    {
        match self.step {
            RemovalStep::Open => Some(&self.plan.present[self.opened]),
            RemovalStep::Remove => Some(&self.plan.leaves[self.removed]),
            RemovalStep::RemoveMarker => self.plan.marker.as_ref(),
            _ => None,
        }
    }

    /// Goes on by what came of the step; a step that failed is the last.
    pub fn advance(&mut self, outcome: Result<(), RuntimeError>) -> (result: Result<(), RuntimeError>)
        requires
            old(self).wf(),
        ensures
            error::failure(result) == error::failure(outcome),
            final(self).wf(),
            *final(self) == (if outcome is Ok {
                old(self).behind()
            } else {
                *old(self)
            }),
    {
        outcome?;
        match self.step {
            RemovalStep::Open => {
                let files: usize = self.plan.present.len();
                self.opened = self.opened + 1;
                if self.opened == files {
                    self.step = if self.objects {
                        RemovalStep::RemoveObjects
                    } else if self.plan.leaves.len() > 0 {
                        RemovalStep::Remove
                    } else {
                        RemovalStep::Sync
                    };
                }
            },
            RemovalStep::RemoveObjects => {
                self.step = if self.plan.leaves.len() > 0 {
                    RemovalStep::Remove
                } else {
                    RemovalStep::Sync
                };
            },
            RemovalStep::Remove => {
                let files: usize = self.plan.leaves.len();
                self.removed = self.removed + 1;
                if self.removed == files {
                    self.step = RemovalStep::Sync;
                }
            },
            RemovalStep::Sync => {
                self.step = if self.plan.marker.is_some() {
                    RemovalStep::RemoveMarker
                } else {
                    RemovalStep::CheckEmptied
                };
            },
            RemovalStep::RemoveMarker => {
                self.step = RemovalStep::CheckEmptied;
            },
            RemovalStep::CheckEmptied => {
                self.step = RemovalStep::CheckIdentity;
            },
            RemovalStep::CheckIdentity => {
                self.step = RemovalStep::RemoveDirectory;
            },
            RemovalStep::RemoveDirectory => {
                self.step = RemovalStep::Done;
            },
            RemovalStep::Done => {},
        }
        Ok(())
    }
}

/// Nothing of a reclaimed run goes before every one of its files has opened; its marker
/// goes only when the other files are gone for good, and its directory when nothing is
/// left in it.
pub proof fn law_run_is_removed_in_order(removal: RunRemoval)
    requires
        removal.wf(),
    ensures
        removal.step is RemoveObjects || removal.step is Remove || removal.step is RemoveMarker
            || removal.step is RemoveDirectory ==> removal.opened == removal.plan.present@.len(),
        removal.behind().step is RemoveMarker ==> removal.step is Sync && removal.removed
            == removal.plan.leaves@.len(),
        removal.behind().step is RemoveDirectory ==> removal.step is CheckIdentity,
        removal.behind().wf(),
{
}

/// The leaves of a stage are removed from the last to the first, the marker left out, the
/// objects as a directory and everything else as a file.
pub proof fn law_leaves_are_removed_from_the_last(
    names: Seq<Seq<char>>,
    name: Seq<char>,
    marker: Seq<char>,
)
    ensures
        name == marker ==> stage_removals(names.push(name), marker) == stage_removals(
            names,
            marker,
        ),
        name != marker ==> {
            let removals = stage_removals(names.push(name), marker);
            &&& removals.len() == stage_removals(names, marker).len() + 1
            &&& removals[0].leaf == name
            &&& removals[0].directory <==> name == RUN_OBJECTS_DIR@
            &&& removals.skip(1) == stage_removals(names, marker)
        },
        stage_removals(Seq::empty(), marker).len() == 0,
{
    assert(names.push(name).drop_last() =~= names);
    if name != marker {
        assert(stage_removals(names.push(name), marker).skip(1) =~= stage_removals(
            names,
            marker,
        ));
    }
}

/// A run that is accepted as complete holds exactly what a run is created with: its marker,
/// empty objects, empty event and context streams, an empty lock, and the log that was
/// recorded.
pub proof fn law_complete_run_holds_what_was_recorded(
    shape: RunShape,
    expected_sha256: Seq<char>,
    unpublished: bool,
    expected_marker: Seq<char>,
)
    requires
        complete_failure(shape, expected_sha256, unpublished, expected_marker) is None,
    ensures
        ({
            let names = listing::names_of(shape.listed@);
            &&& shape.identity is Ok
            &&& expected_marker == marker_of(shape.identity->Ok_0)
            &&& names.contains(expected_marker)
            &&& names.contains(RUN_OBJECTS_DIR@)
            &&& names.contains(RUN_EVENTS_LEAF@)
            &&& names.contains(RUN_CONTEXTS_LEAF@)
            &&& names.contains(RUN_SESSION_LOCK_LEAF@)
            &&& names.contains(RUN_LOG_LEAF@)
            &&& unpublished ==> names.contains(UNPUBLISHED_PRODUCTIVE_RUN_MARKER@)
            &&& shape.marker is Present
            &&& shape.objects is Empty
            &&& shape.events is Ok && shape.events->Ok_0 == 0
            &&& shape.contexts is Ok && shape.contexts->Ok_0 == 0
            &&& shape.lock is Ok && shape.lock->Ok_0 == 0
            &&& shape.log.bytes is Ok
            &&& digest::digest_text(shape.log.bytes->Ok_0@) == expected_sha256
        }),
{
    let names = listing::names_of(shape.listed@);
    let leaves = construction(expected_marker, unpublished);
    assert(names == leaves.to_set());
    assert(leaves[0] == expected_marker && leaves.contains(leaves[0]));
    assert(leaves[1] == RUN_OBJECTS_DIR@ && leaves.contains(leaves[1]));
    assert(leaves[2] == RUN_EVENTS_LEAF@ && leaves.contains(leaves[2]));
    assert(leaves[3] == RUN_CONTEXTS_LEAF@ && leaves.contains(leaves[3]));
    assert(leaves[4] == RUN_SESSION_LOCK_LEAF@ && leaves.contains(leaves[4]));
    assert(leaves[5] == RUN_LOG_LEAF@ && leaves.contains(leaves[5]));
    if unpublished {
        assert(leaves[6] == UNPUBLISHED_PRODUCTIVE_RUN_MARKER@ && leaves.contains(leaves[6]));
    }
    assert(names.contains(expected_marker));
}

proof fn lemma_listed_objects(objects: Seq<ListedObject>, from: int, maximum: usize)
    requires
        0 <= from <= objects.len(),
    ensures
        listed_objects_failure(objects, from, maximum) is None <==> forall|k: int|
            from <= k < objects.len() ==> listed_object_failure(#[trigger] objects[k], k, maximum)
                is None,
    decreases objects.len() - from,
{
    if from < objects.len() {
        lemma_listed_objects(objects, from + 1, maximum);
    }
}

/// The objects of a run may be reclaimed only where each of them is named by a digest and
/// could be opened, and there are no more than there may be.
pub proof fn law_reclaimed_objects_are_all_looked_at(
    objects: Seq<ListedObject>,
    maximum: usize,
)
    requires
        listed_objects_failure(objects, 0, maximum) is None,
    ensures
        objects.len() <= maximum,
        forall|k: int|
            0 <= k < objects.len() ==> {
                &&& (#[trigger] objects[k]).name is Name
                &&& contract::digest_failure(
                    objects[k].name->Name_0@,
                    "run-reclamation object"@,
                ) is None
                &&& objects[k].opened is Ok
            },
{
    lemma_listed_objects(objects, 0, maximum);
    assert forall|k: int| 0 <= k < objects.len() implies {
        &&& (#[trigger] objects[k]).name is Name
        &&& contract::digest_failure(objects[k].name->Name_0@, "run-reclamation object"@) is None
        &&& objects[k].opened is Ok
    } by {
        assert(listed_object_failure(objects[k], k, maximum) is None);
    }
    if objects.len() > 0 {
        assert(listed_object_failure(
            objects[objects.len() - 1],
            objects.len() - 1,
            maximum,
        ) is None);
    }
}

/// The removal of a run, some steps on.
pub open spec fn after_steps(removal: RunRemoval, steps: nat) -> RunRemoval
    decreases steps,
{
    if steps == 0 {
        removal
    } else {
        after_steps(removal, (steps - 1) as nat).behind()
    }
}

/// Every leaf that stands in the plan is opened before anything is removed, and removed once,
/// one after the other; only then what was removed is made durable, the marker goes, and the
/// directory is looked at twice before it goes too.
pub proof fn law_every_leaf_is_opened_and_removed(removal: RunRemoval, steps: nat)
    requires
        removal.wf(),
    ensures
        removal.step is Open && removal.opened + steps < removal.plan.present@.len() ==> {
            &&& after_steps(removal, steps).step is Open
            &&& after_steps(removal, steps).opened == removal.opened + steps
        },
        removal.step is Remove && removal.removed + steps < removal.plan.leaves@.len() ==> {
            &&& after_steps(removal, steps).step is Remove
            &&& after_steps(removal, steps).removed == removal.removed + steps
        },
        removal.step is Open && removal.opened + 1 == removal.plan.present@.len() ==> {
            let next = removal.behind().step;
            &&& removal.objects ==> next is RemoveObjects
            &&& !removal.objects && removal.plan.leaves@.len() > 0 ==> next is Remove
            &&& !removal.objects && removal.plan.leaves@.len() == 0 ==> next is Sync
        },
        removal.step is RemoveObjects ==> (if removal.plan.leaves@.len() > 0 {
            removal.behind().step is Remove
        } else {
            removal.behind().step is Sync
        }),
        removal.step is Remove && removal.removed + 1 == removal.plan.leaves@.len()
            ==> removal.behind().step is Sync,
        removal.step is Sync && removal.plan.marker is Some ==> removal.behind().step
            is RemoveMarker,
        removal.step is Sync && removal.plan.marker is None ==> removal.behind().step
            is CheckEmptied,
        removal.step is RemoveMarker ==> removal.behind().step is CheckEmptied,
        removal.step is CheckEmptied ==> removal.behind().step is CheckIdentity,
        removal.step is CheckIdentity ==> removal.behind().step is RemoveDirectory,
        removal.step is RemoveDirectory ==> removal.behind().step is Done,
        after_steps(removal, steps).plan == removal.plan,
    decreases steps,
{
    assert(removal.plan.present.len() == removal.plan.present@.len());
    assert(removal.plan.leaves.len() == removal.plan.leaves@.len());
    if steps > 0 {
        law_every_leaf_is_opened_and_removed(removal, (steps - 1) as nat);
    }
}

/// A run may be reclaimed only where its directory is the one recorded, and what is left in
/// it is its marker with leaves that a run has, or nothing.
pub proof fn law_reclaimed_directory_is_the_recorded_one(
    identity: DirectoryIdentity,
    expected_marker: Seq<char>,
    listed: Seq<ListedName>,
    name: Seq<char>,
)
    requires
        reclamation_failure(identity, expected_marker, listed) is None,
    ensures
        expected_marker == marker_of(identity),
        listing::names_of(listed).contains(name) ==> {
            &&& listing::names_of(listed).contains(expected_marker)
            &&& {
                ||| name == RUN_CONTEXTS_LEAF@
                ||| name == RUN_EVENTS_LEAF@
                ||| name == RUN_OBJECTS_DIR@
                ||| name == RUN_RECOVERY_LEAF@
                ||| name == RUN_LOG_LEAF@
                ||| name == RUN_SESSION_LOCK_LEAF@
                ||| name == UNPUBLISHED_PRODUCTIVE_RUN_MARKER@
                ||| name == expected_marker
            }
        },
{
    let names = listing::names_of(listed);
    if names.contains(name) {
        assert(names != Set::<Seq<char>>::empty());
        assert(reclaimable(expected_marker).to_set().contains(name));
        assert(reclaimable(expected_marker).contains(name));
    }
}

} // verus!

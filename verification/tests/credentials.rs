use flow_agent_core::credentials::platform::{
    check_config_base, check_lock_file, default_credential_store_path, ensure_parent,
    validate_durable_ancestor, verify_private_open_file, AncestorKind, OpenFileAccess, ParentWalk,
    WalkStage,
};
use flow_agent_core::credentials::staging::{
    credential_destination_identity, credential_staging_leaf, is_credential_staging_leaf,
    recover_abandoned_stages, ReplaceOutcome, ReplaceStage, Replacement,
};
use flow_agent_core::credentials::store::{
    decode_credential_document, encode_credential_document, lock_failure, needs_refresh, read,
    read_anchored_and_finalize, CredentialContent, CredentialFile, CredentialRecord, LockFailure,
    Mutation, MutationStage, Resolution, ResolveStage, CREDENTIAL_STORE_MAX_BYTES,
};
use flow_agent_core::deadlines::{
    auth_http_deadlines, await_deadline_or_cancellation, responses_http_deadlines,
    AwaitInterruption, HttpDeadlines,
};
use flow_agent_core::error::{IoKind, RuntimeError};
use flow_agent_core::listing::ListedName;

const STORE_FAILURE: &str = "authentication credential store failure";

fn protocol_text<T>(result: Result<T, RuntimeError>) -> String {
    match result {
        Err(RuntimeError::Protocol(text)) => text,
        Err(other) => panic!("expected a protocol error, got {other:?}"),
        Ok(_) => panic!("expected a protocol error"),
    }
}

fn failed<T>() -> Result<T, RuntimeError> {
    Err(RuntimeError::Io {
        path: "credentials.json".to_owned(),
        kind: IoKind::Other,
        message: "broken".to_owned(),
    })
}

fn record(expires: u64) -> CredentialRecord {
    CredentialRecord { expires, record: format!("record-{expires}") }
}

fn private_file(content: Result<CredentialContent, RuntimeError>, length: u64) -> CredentialFile {
    CredentialFile {
        access: Ok(OpenFileAccess { is_file: true, mode: 0o100600, private: true }),
        extended: Ok(false),
        length,
        content,
    }
}

#[test]
fn a_credential_is_refreshed_five_minutes_before_it_expires() {
    assert!(needs_refresh(&record(1_000_000), 700_000));
    assert!(!needs_refresh(&record(1_000_001), 700_000));
    assert!(needs_refresh(&record(u64::MAX), u64::MAX));
}

#[test]
fn a_fresh_credential_is_given_without_the_lock() {
    let mut resolution = Resolution::resolve_with_clock(0);
    assert!(matches!(resolution.stage, ResolveStage::Read));
    resolution.found(Ok(Some(record(300_001)))).expect("a credential is found");
    assert!(matches!(&resolution.stage, ResolveStage::Done(found) if found.expires == 300_001));
}

#[test]
fn a_credential_is_refreshed_only_under_the_lock() {
    let mut resolution = Resolution::resolve_with_clock(0);
    resolution.found(Ok(Some(record(1)))).expect("a credential is found");
    assert!(matches!(resolution.stage, ResolveStage::Parent));
    resolution.parent_opened(Ok(true)).expect("the directory is there");
    resolution.locked(Ok(())).expect("the lock is taken");
    assert!(matches!(resolution.stage, ResolveStage::ReadLocked));
    resolution.found(Ok(Some(record(1)))).expect("it is still there");
    assert!(matches!(&resolution.stage, ResolveStage::Refresh(old) if old.expires == 1));
    resolution.refreshed(Ok(record(900_000)), Ok(())).expect("it is refreshed");
    let given = resolution.written(Ok(())).expect("it is written");
    assert_eq!(given.expires, 900_000);
    assert_eq!(given.record, "record-900000");
}

#[test]
fn another_one_who_refreshed_first_is_believed() {
    let mut resolution = Resolution::resolve_with_clock(0);
    resolution.found(Ok(Some(record(1)))).expect("a credential is found");
    resolution.parent_opened(Ok(true)).expect("the directory is there");
    resolution.locked(Ok(())).expect("the lock is taken");
    resolution.found(Ok(Some(record(900_000)))).expect("a newer one is there");
    assert!(matches!(&resolution.stage, ResolveStage::Done(found) if found.expires == 900_000));
}

#[test]
fn a_missing_credential_asks_for_a_login() {
    let mut resolution = Resolution::resolve_with_clock(0);
    match resolution.found(Ok(None)) {
        Err(RuntimeError::AuthenticationRequired(text)) => assert_eq!(
            text,
            "openai-codex authentication is required; run flow auth login openai-codex"
        ),
        other => panic!("expected a login to be asked for, got {other:?}"),
    }
}

#[test]
fn a_lock_that_is_busy_is_reported() {
    assert_eq!(
        protocol_text::<()>(Err(lock_failure(LockFailure::Busy))),
        "authentication credential store is busy"
    );
    assert!(matches!(
        lock_failure(LockFailure::Io(failed::<()>().unwrap_err())),
        RuntimeError::Io { .. }
    ));
}

#[test]
fn a_login_replaces_what_is_there() {
    let mut mutation =
        Mutation::replace_with_clock(record(5), Ok(())).expect("the credential is accepted");
    mutation.parent_opened(Ok(true)).expect("the directory is there");
    mutation.locked(Ok(())).expect("the lock is taken");
    mutation.mutate_with_clock(Ok(Some(record(1)))).expect("the store is read");
    assert_eq!(mutation.stage, MutationStage::Write);
    assert_eq!(mutation.replacement.as_ref().map(|found| found.expires), Some(5));
    assert!(!mutation.written(Ok(())).expect("it is written"));
    assert!(Mutation::replace_with_clock(record(5), failed()).is_err());
}

#[test]
fn a_logout_says_whether_a_credential_was_there() {
    for (current, removed) in [(Some(record(1)), true), (None, false)] {
        let mut mutation = Mutation::logout_with_clock();
        mutation.parent_opened(Ok(true)).expect("the directory is there");
        mutation.locked(Ok(())).expect("the lock is taken");
        mutation.mutate_with_clock(Ok(current)).expect("the store is read");
        assert_eq!(mutation.written(Ok(())).expect("it is written"), removed);
    }
    let mut mutation = Mutation::logout_with_clock();
    assert_eq!(protocol_text(mutation.parent_opened(Ok(false))), STORE_FAILURE);
}

#[test]
fn a_document_that_is_too_long_is_refused() {
    let limit = CREDENTIAL_STORE_MAX_BYTES as usize;
    assert!(decode_credential_document(limit, Ok(None), Ok(())).expect("it is read").is_none());
    assert_eq!(
        protocol_text(decode_credential_document(limit + 1, Ok(None), Ok(()))),
        STORE_FAILURE
    );
    assert_eq!(protocol_text(decode_credential_document(1, Err(()), Ok(()))), STORE_FAILURE);
    assert!(decode_credential_document(1, Ok(Some(record(1))), failed()).is_err());
    assert_eq!(
        encode_credential_document(Ok(vec![b'x'; limit - 1])).expect("it fits").len(),
        limit - 1
    );
    assert_eq!(protocol_text(encode_credential_document(Ok(vec![b'x'; limit]))), STORE_FAILURE);
    assert_eq!(protocol_text(encode_credential_document(Err(()))), STORE_FAILURE);
}

#[test]
fn a_store_that_others_can_read_is_refused() {
    let content = || {
        Ok(CredentialContent {
            length: 10,
            document: Ok(Some(record(7))),
            validated: Ok(()),
        })
    };
    let found = read(Ok(true), Ok(()), Ok(Some(private_file(content(), 10))))
        .expect("the store is read")
        .expect("a credential is there");
    assert_eq!(found.expires, 7);
    let mut open = private_file(content(), 10);
    open.access = Ok(OpenFileAccess { is_file: true, mode: 0o100700, private: true });
    assert_eq!(protocol_text(read(Ok(true), Ok(()), Ok(Some(open)))), STORE_FAILURE);
    let mut extended = private_file(content(), 10);
    extended.extended = Ok(true);
    assert_eq!(protocol_text(read(Ok(true), Ok(()), Ok(Some(extended)))), STORE_FAILURE);
    let long = private_file(content(), CREDENTIAL_STORE_MAX_BYTES + 1);
    assert_eq!(protocol_text(read(Ok(true), Ok(()), Ok(Some(long)))), STORE_FAILURE);
    assert!(read(Ok(false), failed(), failed()).expect("there is no store").is_none());
    assert!(read(Ok(true), Ok(()), Ok(None)).expect("there is no document").is_none());
}

#[test]
fn reading_under_the_lock_recovers_first_and_syncs_last() {
    assert!(read_anchored_and_finalize(failed(), Ok(None), Ok(())).is_err());
    assert!(read_anchored_and_finalize(Ok(()), Ok(None), failed()).is_err());
    let found = read_anchored_and_finalize(Ok(()), Ok(Some(record(3))), Ok(()))
        .expect("the store is read");
    assert_eq!(found.map(|found| found.expires), Some(3));
}

#[test]
fn private_files_are_told_from_others() {
    let access = |mode: u32| OpenFileAccess { is_file: true, mode, private: true };
    assert!(verify_private_open_file(access(0o600), Ok(false)).is_ok());
    assert!(verify_private_open_file(access(0o400), Ok(false)).is_err());
    assert!(check_lock_file(true, 0o100600).is_ok());
    assert!(check_lock_file(true, 0o100400).is_ok());
    assert_eq!(protocol_text(check_lock_file(true, 0o100640)), STORE_FAILURE);
    assert_eq!(protocol_text(check_lock_file(true, 0o100700)), STORE_FAILURE);
    assert_eq!(protocol_text(check_lock_file(false, 0o600)), STORE_FAILURE);
}

#[test]
fn staging_names_are_found_again() {
    let destination = b"credentials.json";
    let identity = credential_destination_identity(destination);
    let leaf = credential_staging_leaf(destination, 4_294_967_295, 17);
    assert_eq!(leaf, format!(".credentials-{identity}-4294967295-17.staged"));
    assert!(is_credential_staging_leaf(&leaf, destination));
    assert!(!is_credential_staging_leaf(&leaf, b"other.json"));
    assert!(!is_credential_staging_leaf(
        &format!(".credentials-{identity}-4294967296-17.staged"),
        destination
    ));
    assert!(!is_credential_staging_leaf(
        &format!(".credentials-{identity}-01-17.staged"),
        destination
    ));
    assert!(!is_credential_staging_leaf(
        &format!(".credentials-{identity}-1-18446744073709551616.staged"),
        destination
    ));
    assert!(!is_credential_staging_leaf(&format!(".credentials-{identity}-1-.staged"), destination));
}

#[test]
fn abandoned_stages_are_found_up_to_a_failure() {
    let destination = b"credentials.json";
    let leaf = credential_staging_leaf(destination, 1, 2);
    let found = recover_abandoned_stages(
        vec![
            ListedName::Name("credentials.json".to_owned()),
            ListedName::NotText,
            ListedName::Name(leaf.clone()),
        ],
        destination,
    );
    assert_eq!(found.stages, vec![leaf.clone()]);
    assert!(found.sync);
    assert!(found.stopped.is_none());
    let stopped = recover_abandoned_stages(
        vec![
            ListedName::Name(leaf.clone()),
            ListedName::Failed(failed::<()>().unwrap_err()),
            ListedName::Name(leaf.clone()),
        ],
        destination,
    );
    assert_eq!(stopped.stages, vec![leaf]);
    assert!(!stopped.sync);
    assert!(matches!(stopped.stopped, Some(RuntimeError::Io { .. })));
}

#[test]
fn a_document_is_replaced_whole_or_not_at_all() {
    let mut replacement = Replacement::replace_atomically();
    for stage in [
        ReplaceStage::Create,
        ReplaceStage::Write,
        ReplaceStage::Rename,
        ReplaceStage::Finalize,
    ] {
        assert_eq!(replacement.stage, stage);
        replacement.advance(Ok(()));
    }
    assert_eq!(replacement.stage, ReplaceStage::Done);
    assert!(matches!(replacement.outcome, Some(ReplaceOutcome::Replaced)));

    let mut early = Replacement::replace_atomically();
    early.advance(Ok(()));
    early.advance(failed());
    assert_eq!(early.stage, ReplaceStage::RemoveStage);
    early.advance(failed());
    assert_eq!(early.stage, ReplaceStage::Done);
    assert!(matches!(early.outcome, Some(ReplaceOutcome::Failed(_))));

    let mut late = Replacement::replace_atomically();
    for _ in 0..3 {
        late.advance(Ok(()));
    }
    late.advance(failed());
    assert!(matches!(late.outcome, Some(ReplaceOutcome::PublishedNotFinal(_))));
}

#[test]
fn the_store_lies_in_the_configuration_of_the_user() {
    let linux = default_credential_store_path(false, Some("/etc/x".to_owned()), None)
        .expect("a directory is named");
    assert_eq!(linux.root, "/etc/x");
    assert_eq!(linux.below, vec!["flow-agent", "credentials.json"]);
    let home = default_credential_store_path(false, Some(String::new()), Some("/h".to_owned()))
        .expect("a home is named");
    assert_eq!(home.root, "/h");
    assert_eq!(home.below, vec![".config", "flow-agent", "credentials.json"]);
    let mac = default_credential_store_path(true, Some("/etc/x".to_owned()), Some("/h".to_owned()))
        .expect("a home is named");
    assert_eq!(
        mac.below,
        vec!["Library", "Application Support", "flow-agent", "credentials.json"]
    );
    assert!(matches!(
        default_credential_store_path(false, None, None),
        Err(RuntimeError::Usage(text))
            if text == "platform user configuration directory is unavailable"
    ));
    assert!(matches!(
        check_config_base(false),
        Err(RuntimeError::Usage(text))
            if text == "platform user configuration directory must be absolute"
    ));
}

#[test]
fn the_way_to_the_store_is_walked_down_and_made_durable_upwards() {
    let mut walk = ParentWalk::open_credential_parent(2, true, true).expect("the way is plain");
    let replies = [true, false, true, true, true, true, true];
    let stages = [
        WalkStage::OpenAnchor,
        WalkStage::Open(0),
        WalkStage::Create(0),
        WalkStage::OpenPrivate,
        WalkStage::Sync(2),
        WalkStage::Sync(1),
        WalkStage::Sync(0),
    ];
    for (stage, reply) in stages.into_iter().zip(replies) {
        assert_eq!(walk.stage, stage);
        walk.advance(Ok(reply)).expect("the step is taken");
    }
    assert_eq!(walk.stage, WalkStage::Found);

    let mut reading = ParentWalk::open_credential_parent(2, true, false).expect("the way is plain");
    reading.advance(Ok(true)).expect("the anchor is opened");
    reading.advance(Ok(false)).expect("nothing is there");
    assert_eq!(reading.stage, WalkStage::Absent);
    assert_eq!(
        protocol_text(ParentWalk::open_credential_parent(2, false, true)),
        STORE_FAILURE
    );
}

#[test]
fn directories_are_made_durable_up_to_the_durable_one() {
    let ancestors: Vec<String> =
        ["/a/b", "/a", "/"].iter().map(|path| (*path).to_owned()).collect();
    let sync = ensure_parent("/a/b/c", &ancestors, "/a");
    assert_eq!((sync.ancestors, sync.reached), (2, true));
    let itself = ensure_parent("/a/b/c", &ancestors, "/a/b/c");
    assert_eq!((itself.ancestors, itself.reached), (0, true));
    let elsewhere = ensure_parent("/a/b/c", &ancestors, "/z");
    assert_eq!((elsewhere.ancestors, elsewhere.reached), (3, false));
}

#[test]
fn the_durable_directory_stands_above_and_is_no_link() {
    let kind = AncestorKind { is_directory: true, is_link: false, is_reparse_point: false };
    assert!(validate_durable_ancestor(true, Ok(kind)).is_ok());
    assert_eq!(protocol_text(validate_durable_ancestor(false, Ok(kind))), STORE_FAILURE);
    let link = AncestorKind { is_link: true, ..kind };
    assert_eq!(protocol_text(validate_durable_ancestor(true, Ok(link))), STORE_FAILURE);
}

#[test]
fn deadlines_are_those_of_the_two_services() {
    assert_eq!(
        auth_http_deadlines(),
        HttpDeadlines { connect: 10, header: 30, read: 30, overall: 60 }
    );
    assert_eq!(
        responses_http_deadlines(),
        HttpDeadlines { connect: 10, header: 30, read: 120, overall: 1800 }
    );
}

#[test]
fn waiting_looks_up_every_ten_milliseconds() {
    assert_eq!(await_deadline_or_cancellation(false, 0, 25_000_000), Ok(10_000_000));
    assert_eq!(await_deadline_or_cancellation(false, 20_000_000, 25_000_000), Ok(5_000_000));
    assert_eq!(
        await_deadline_or_cancellation(false, 25_000_000, 25_000_000),
        Err(AwaitInterruption::DeadlineElapsed)
    );
    assert_eq!(
        await_deadline_or_cancellation(true, 25_000_000, 25_000_000),
        Err(AwaitInterruption::Cancelled)
    );
}

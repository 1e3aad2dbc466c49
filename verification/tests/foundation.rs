use flow_agent_core::contract::{
    conversation_lifecycle_identity_marker_name, is_conversation_lifecycle_identity_marker_name,
    parse_run_object_digest, run_creation_identity_marker_name, validate_attempt_id,
    validate_digest, validate_hash, validate_id, validate_record_schema,
    validate_run_creation_identity_marker_name, validate_timestamp, Checked, DirectoryIdentity,
};
use flow_agent_core::digest::{
    decode_lowercase_sha256_hex, encode_sha256, is_lowercase_sha256_hex, prefixed_sha256_hex,
    sha256_hex, strip_sha256_prefix,
};
use flow_agent_core::error::{
    reconcile_operation_and_cleanup, reconcile_releases, RuntimeError,
};
use flow_agent_core::listing::{bounded_names, ListedName};
use flow_agent_core::names::SortedNames;
use flow_agent_core::order::{compare_bytes, Relation};
use flow_agent_core::text::{decimal_text, hex_text, padded_decimal_text, padded_hex_text};
use flow_agent_core::wire::{read_u64_le, u64_be_bytes, u64_le_bytes};

const EMPTY_DIGEST: &str = "e3b0c44298fc1c149afbf4c8996fb92427ae41e4649b934ca495991b7852b855";
const ABC_DIGEST: &str = "ba7816bf8f01cfea414140de5dae2223b00361a396177a9cb410ff61f20015ad";

fn protocol_text<T>(result: Result<T, RuntimeError>) -> String {
    match result {
        Err(RuntimeError::Protocol(text)) => text,
        Err(other) => panic!("expected a protocol error, got {other:?}"),
        Ok(_) => panic!("expected a protocol error"),
    }
}

fn usage_text<T>(result: Result<T, RuntimeError>) -> String {
    match result {
        Err(RuntimeError::Usage(text)) => text,
        Err(other) => panic!("expected a usage error, got {other:?}"),
        Ok(_) => panic!("expected a usage error"),
    }
}

fn checked(text: &str, valid: bool) -> Checked {
    Checked { text: text.to_owned(), valid }
}

#[test]
fn digests_are_those_of_the_standard() {
    assert_eq!(sha256_hex(b""), EMPTY_DIGEST);
    assert_eq!(sha256_hex(b"abc"), ABC_DIGEST);
    assert_eq!(prefixed_sha256_hex(b"abc"), format!("sha256:{ABC_DIGEST}"));
}

#[test]
fn digest_texts_are_read_back() {
    let digest = decode_lowercase_sha256_hex(ABC_DIGEST).expect("a digest is read");
    assert_eq!(digest[0], 0xba);
    assert_eq!(digest[31], 0xad);
    assert_eq!(encode_sha256(&digest), ABC_DIGEST);
    assert!(decode_lowercase_sha256_hex(&ABC_DIGEST.to_uppercase()).is_none());
    assert!(decode_lowercase_sha256_hex(&ABC_DIGEST[1..]).is_none());
    assert!(is_lowercase_sha256_hex(ABC_DIGEST));
    assert!(!is_lowercase_sha256_hex("ba78"));
}

#[test]
fn digest_prefix_is_taken_off_where_it_stands() {
    assert_eq!(
        strip_sha256_prefix(&format!("sha256:{ABC_DIGEST}")).as_deref(),
        Some(ABC_DIGEST)
    );
    assert_eq!(strip_sha256_prefix(ABC_DIGEST), None);
}

#[test]
fn object_digests_are_parsed() {
    assert_eq!(
        parse_run_object_digest(ABC_DIGEST).expect("a digest is parsed")[1],
        0x78
    );
    assert!(parse_run_object_digest("abc").is_err());
}

#[test]
fn identity_markers_are_recognised() {
    let identity = DirectoryIdentity { device: 0x1f, inode: 0xabc };
    let marker = conversation_lifecycle_identity_marker_name(identity);
    assert_eq!(
        marker,
        ".conversation-lifecycle-identity-000000000000001f-0000000000000abc"
    );
    assert!(is_conversation_lifecycle_identity_marker_name(&marker));
    assert!(!is_conversation_lifecycle_identity_marker_name(
        ".conversation-lifecycle-identity-1f-abc"
    ));
    let run = run_creation_identity_marker_name(identity);
    assert_eq!(run, ".run-creation-identity-000000000000001f-0000000000000abc");
    assert!(validate_run_creation_identity_marker_name(&run).is_ok());
    assert!(validate_run_creation_identity_marker_name(&marker).is_err());
}

#[test]
fn invalid_texts_are_refused_in_their_own_words() {
    assert!(validate_id(&checked("c-1", true), "conversation").is_ok());
    assert_eq!(
        usage_text(validate_id(&checked("?", false), "conversation")),
        "invalid conversation id"
    );
    assert!(validate_timestamp(&checked("t", false)).is_err());
    assert!(validate_timestamp(&checked("t", true)).is_ok());
    assert!(validate_attempt_id(&checked("a", false)).is_err());
    assert!(validate_attempt_id(&checked("a", true)).is_ok());
}

#[test]
fn hashes_and_digests_are_told_apart() {
    let hash = format!("sha256:{ABC_DIGEST}");
    assert!(validate_hash(&hash, "registry").is_ok());
    assert!(validate_hash(ABC_DIGEST, "registry").is_err());
    assert!(validate_digest(ABC_DIGEST, "object").is_ok());
    assert!(validate_digest(&hash, "object").is_err());
}

#[test]
fn record_schemas_other_than_the_present_one_are_refused() {
    assert!(validate_record_schema("flow-run-log-record-v1").is_ok());
    assert!(validate_record_schema("flow-run-log-record-v2").is_err());
}

#[test]
fn numbers_are_laid_out_and_read_back() {
    let value = 0x0102_0304_0506_0708u64;
    assert_eq!(u64_le_bytes(value), vec![8, 7, 6, 5, 4, 3, 2, 1]);
    assert_eq!(u64_be_bytes(value), vec![1, 2, 3, 4, 5, 6, 7, 8]);
    let mut bytes = vec![0xff];
    bytes.extend(u64_le_bytes(value));
    assert_eq!(read_u64_le(&bytes, 1), value);
}

#[test]
fn numbers_are_written_in_digits() {
    assert_eq!(decimal_text(0), "0");
    assert_eq!(decimal_text(u64::MAX), "18446744073709551615");
    assert_eq!(padded_decimal_text(42, 5), "00042");
    assert_eq!(hex_text(0xbeef), "beef");
    assert_eq!(padded_hex_text(0xbeef, 8), "0000beef");
}

#[test]
fn bytes_are_ordered_by_their_first_difference() {
    assert_eq!(compare_bytes(b"ab", b"ac"), Relation::Before);
    assert_eq!(compare_bytes(b"b", b"ac"), Relation::After);
    assert_eq!(compare_bytes(b"a", b"ab"), Relation::Before);
    assert_eq!(compare_bytes(b"ab", b"ab"), Relation::Same);
    assert_eq!(compare_bytes(b"", b""), Relation::Same);
}

#[test]
fn names_stand_in_order_and_once() {
    let mut names = SortedNames::new();
    for name in ["b", "a", "c", "a"] {
        names.insert(name.to_owned());
    }
    assert_eq!(names.names, vec!["a", "b", "c"]);
    assert_eq!(names.len(), 3);
    assert!(names.contains("b"));
    assert_eq!(names.pop_last().as_deref(), Some("c"));
    assert!(!names.contains("c"));
}

#[test]
fn listings_are_bounded() {
    let listed = |count: usize| -> Vec<ListedName> {
        (0..count).map(|i| ListedName::Name(format!("n{i}"))).collect()
    };
    assert_eq!(
        bounded_names(listed(2), 2, "not text", "too many")
            .expect("two names are accepted")
            .names,
        vec!["n0", "n1"]
    );
    assert_eq!(
        protocol_text(bounded_names(listed(3), 2, "not text", "too many")),
        "too many"
    );
    assert_eq!(
        protocol_text(bounded_names(vec![ListedName::NotText], 2, "not text", "too many")),
        "not text"
    );
}

#[test]
fn every_failed_release_is_kept() {
    let failures = reconcile_releases(
        Err(RuntimeError::Protocol("run".to_owned())),
        Ok(()),
        Err(RuntimeError::Usage("legacy".to_owned())),
    );
    assert_eq!(failures.len(), 2);
    assert!(matches!(&failures[0], RuntimeError::Protocol(text) if text == "run"));
    assert!(matches!(&failures[1], RuntimeError::Usage(text) if text == "legacy"));
    assert!(reconcile_releases(Ok(()), Ok(()), Ok(())).is_empty());
}

#[test]
fn an_operation_and_its_cleanup_may_both_fail() {
    let failures = reconcile_operation_and_cleanup(
        Err(RuntimeError::Protocol("operation".to_owned())),
        Err(RuntimeError::Protocol("cleanup".to_owned())),
    );
    assert_eq!(failures.len(), 2);
    assert!(matches!(&failures[1], RuntimeError::Protocol(text) if text == "cleanup"));
}

#[test]
fn an_accepted_marker_is_that_of_a_directory() {
    let digits = "00000000000000ff-ffffffffffffffff";
    let identity = DirectoryIdentity { device: 255, inode: u64::MAX };
    let name = run_creation_identity_marker_name(identity);
    assert!(name.ends_with(digits));
    assert!(validate_run_creation_identity_marker_name(&name).is_ok());
    assert!(validate_run_creation_identity_marker_name(&name.to_uppercase()).is_err());
    assert!(validate_run_creation_identity_marker_name(&name[..name.len() - 1]).is_err());
}

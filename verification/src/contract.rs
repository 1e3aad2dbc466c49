//! Limits, leaf names and the checks that every record on disk goes through.

use crate::digest::{decode_lowercase_sha256_hex, is_lowercase_sha256_hex, strip_sha256_prefix, SHA256_PREFIX};
use crate::digest;
use crate::error::{protocol, usage, ErrorModel, RuntimeError};
use crate::error;
use crate::text::{append_text, chars_of, find_char, head_of, join2, join3, only_lower_hex, padded_hex_text, same_text, strip_prefix, tail_of};
use crate::text;
use vstd::prelude::*;

verus! {

pub const MAX_CONVERSATION_RECORD_BYTES: usize = 256 * 1024;
pub const MAX_CONVERSATION_IO_BUFFER_BYTES: usize = 1024 * 1024;
pub const MAX_CONVERSATION_STATUS_RECORDS: usize = 100;
pub const MAX_CONVERSATION_STATUS_BYTES: usize = 1024 * 1024;
pub const MAX_CONVERSATION_SCAN_RECORDS: usize = 4096;
pub const MAX_CONVERSATION_SCAN_BYTES: u64 = 16 * 1024 * 1024;
pub const CONVERSATION_HISTORY_LEAF: &'static str = "history.jsonl";
pub const CONVERSATION_RUNS_DIR: &'static str = "runs";
pub const CONVERSATION_STATUS_LEAF: &'static str = "status.json";
pub const RUN_CONTEXTS_LEAF: &'static str = "contexts.jsonl";
pub const RUN_CONTEXTS_STEM: &'static str = "contexts";
pub const RUN_EVENTS_LEAF: &'static str = "events.jsonl";
pub const RUN_EVENTS_STEM: &'static str = "events";
pub const RUN_LOG_LEAF: &'static str = "run-log.jsonl";
pub const RUN_OBJECTS_DIR: &'static str = "objects";
pub const RUN_RECOVERY_LEAF: &'static str = "recovery.jsonl";
pub const RUN_SESSION_LOCK_LEAF: &'static str = "session.lock";
pub const TOOL_RUN_LOG_PAGE_SCHEMA: &'static str = "flow-tool-run-log-page-v0";
pub const CONVERSATION_STATUS_PAGE_SCHEMA: &'static str = "flow-conversation-status-page-v0";
pub const RUN_LOG_RECORD_SCHEMA_V1: &'static str = "flow-run-log-record-v1";
pub const UNPUBLISHED_PRODUCTIVE_RUN_MARKER: &'static str = ".unpublished-productive-run";
pub const RUN_CREATION_STAGE_MARKER_PREFIX: &'static str = ".run-creation-identity-";
pub const CONVERSATION_LIFECYCLE_MARKER_PREFIX: &'static str = ".conversation-lifecycle-identity-";

/// A text together with the verdict of the grammar that governs it: the
/// identifier grammar, the block identifier grammar or the timestamp grammar,
/// as the place where it stands calls for.
pub struct Checked {
    pub text: String,
    pub valid: bool,
}

/// A checked text with its characters taken as a sequence.
pub struct CheckedModel {
    pub text: Seq<char>,
    pub valid: bool,
}

impl View for Checked {
    type V = CheckedModel;

    open spec fn view(&self) -> CheckedModel {
        CheckedModel { text: self.text@, valid: self.valid }
    }
}

impl Clone for Checked {
    fn clone(&self) -> (copy: Self)
        ensures
            copy == *self,
    {
        Checked { text: self.text.clone(), valid: self.valid }
    }
}

/// Which directory a name on disk refers to.
#[derive(Clone, Copy, Debug, PartialEq, Eq, Structural)]
pub struct DirectoryIdentity {
    pub device: u64,
    pub inode: u64,
}

/// The marker name of a directory under a prefix: the device and the inode,
/// each as sixteen hexadecimal digits.
pub open spec fn identity_marker(prefix: Seq<char>, identity: DirectoryIdentity) -> Seq<char> {
    prefix + text::zero_padded(text::positional(identity.device as nat, 16), 16) + "-"@ + text::zero_padded(
        text::positional(identity.inode as nat, 16),
        16,
    )
}

/// Sixteen lower-case hexadecimal digits.
pub open spec fn is_hex16(text: Seq<char>) -> bool {
    text.len() == 16 && text::all_lower_hex(text)
}

/// Whether a text is a marker name under a prefix.
pub open spec fn is_identity_marker(marker: Seq<char>, prefix: Seq<char>) -> bool {
    match text::without_prefix(marker, prefix) {
        None => false,
        Some(identity) => match text::first_position(identity, '-') {
            None => false,
            Some(dash) => is_hex16(identity.take(dash)) && is_hex16(identity.skip(dash + 1)),
        },
    }
}

fn identity_marker_name(prefix: &str, identity: DirectoryIdentity) -> (name: String)
    ensures
        name@ == identity_marker(prefix@, identity),
{
    let device = padded_hex_text(identity.device, 16);
    let inode = padded_hex_text(identity.inode, 16);
    let mut name = join3(prefix, device.as_str(), "-");
    append_text(&mut name, inode.as_str());
    name
}

/// The name of the marker that ties a conversation directory to its identity.
pub fn conversation_lifecycle_identity_marker_name(identity: DirectoryIdentity) -> (name: String)
    ensures
        name@ == identity_marker(CONVERSATION_LIFECYCLE_MARKER_PREFIX@, identity),
{
    identity_marker_name(CONVERSATION_LIFECYCLE_MARKER_PREFIX, identity)
}

/// Whether a name is that of a conversation marker.
pub fn is_conversation_lifecycle_identity_marker_name(marker: &str) -> (is: bool)
    ensures
        is == is_identity_marker(marker@, CONVERSATION_LIFECYCLE_MARKER_PREFIX@),
{
    valid_identity_marker_name(marker, CONVERSATION_LIFECYCLE_MARKER_PREFIX)
}

/// The name of the marker that ties a run directory to its identity.
pub fn run_creation_identity_marker_name(identity: DirectoryIdentity) -> (name: String)
    ensures
        name@ == identity_marker(RUN_CREATION_STAGE_MARKER_PREFIX@, identity),
{
    identity_marker_name(RUN_CREATION_STAGE_MARKER_PREFIX, identity)
}

/// Accepts the name of a run marker and nothing else.
pub fn validate_run_creation_identity_marker_name(marker: &str) -> (result: Result<
    (),
    RuntimeError,
>)
    ensures
        error::failure(result) == run_marker_failure(marker@),
{
    if !valid_identity_marker_name(marker, RUN_CREATION_STAGE_MARKER_PREFIX) {
        return Err(protocol("run-creation identity marker name is invalid"));
    }
    Ok(())
}

/// What is wrong with the name of a run marker.
pub open spec fn run_marker_failure(marker: Seq<char>) -> Option<ErrorModel> {
    if is_identity_marker(marker, RUN_CREATION_STAGE_MARKER_PREFIX@) {
        None
    } else {
        error::protocol_failure("run-creation identity marker name is invalid"@)
    }
}

fn valid_identity_marker_name(marker: &str, prefix: &str) -> (valid: bool)
    ensures
        valid == is_identity_marker(marker@, prefix@),
{
    let chars = chars_of(marker);
    match strip_prefix(&chars, prefix) {
        None => false,
        Some(identity) => match find_char(&identity, '-') {
            None => false,
            Some(dash) => {
                let device = head_of(&identity, dash);
                let inode = tail_of(&identity, dash + 1);
                device.len() == 16 && inode.len() == 16 && only_lower_hex(&device)
                    && only_lower_hex(&inode)
            },
        },
    }
}

/// The marker name of every directory is accepted under its prefix, and two
/// directories with the same marker name are the same directory.
pub proof fn law_identity_marker(
    prefix: Seq<char>,
    left: DirectoryIdentity,
    right: DirectoryIdentity,
)
    ensures
        is_identity_marker(identity_marker(prefix, left), prefix),
        identity_marker(prefix, left) == identity_marker(prefix, right) ==> left == right,
{
    reveal_strlit("-");
    text::lemma_padded_hex16(left.device);
    text::lemma_padded_hex16(left.inode);
    text::lemma_padded_hex16(right.device);
    text::lemma_padded_hex16(right.inode);
    lemma_marker_parts(prefix, left);
    lemma_marker_parts(prefix, right);
}

/// Every marker name that is accepted is that of a directory: of the device and the inode
/// that its digits stand for.
pub proof fn law_accepted_marker_names_a_directory(marker: Seq<char>, prefix: Seq<char>)
    requires
        is_identity_marker(marker, prefix),
    ensures
        exists|identity: DirectoryIdentity| marker == #[trigger] identity_marker(prefix, identity),
{
    reveal_strlit("-");
    let rest = text::without_prefix(marker, prefix)->0;
    let dash = text::first_position(rest, '-')->0;
    text::lemma_found_at(rest, '-');
    let (device, inode) = (rest.take(dash), rest.skip(dash + 1));
    text::lemma_hex_is_notation(device);
    text::lemma_hex_is_notation(inode);
    assert(vstd::arithmetic::power::pow(16, 16) == 0x1_0000_0000_0000_0000) by {
        reveal_with_fuel(vstd::arithmetic::power::pow, 17);
    }
    let identity = DirectoryIdentity {
        device: text::number_of(device, 16) as u64,
        inode: text::number_of(inode, 16) as u64,
    };
    assert(rest =~= device + "-"@ + inode);
    assert(marker =~= prefix + rest);
    assert(marker =~= identity_marker(prefix, identity));
}

/// The parts that a marker name falls into.
proof fn lemma_marker_parts(prefix: Seq<char>, identity: DirectoryIdentity)
    ensures
        is_identity_marker(identity_marker(prefix, identity), prefix),
        text::number_of(identity_marker(prefix, identity).skip(prefix.len() as int).take(16), 16)
            == identity.device,
        text::number_of(identity_marker(prefix, identity).skip(prefix.len() as int).skip(17), 16)
            == identity.inode,
{
    reveal_strlit("-");
    let marker = identity_marker(prefix, identity);
    let device = text::zero_padded(text::positional(identity.device as nat, 16), 16);
    let inode = text::zero_padded(text::positional(identity.inode as nat, 16), 16);
    text::lemma_padded_hex16(identity.device);
    text::lemma_padded_hex16(identity.inode);
    assert(marker.take(prefix.len() as int) =~= prefix);
    let rest = marker.skip(prefix.len() as int);
    assert(rest =~= device + "-"@ + inode);
    assert(rest.take(16) =~= device);
    assert(rest.skip(17) =~= inode);
    assert forall|j: int| 0 <= j < 16 implies rest[j] != '-' by {
        assert(rest[j] == device[j]);
        assert(crate::text::is_lower_hex(device[j]));
    }
    text::lemma_first_position(rest, '-', 16);
}

/// Accepts a timestamp that the timestamp grammar accepts.
pub fn validate_timestamp(timestamp: &Checked) -> (result: Result<(), RuntimeError>)
    ensures
        error::failure(result) == timestamp_failure(timestamp@),
{
    if timestamp.valid {
        Ok(())
    } else {
        Err(protocol("record timestamp must be canonical RFC 3339 UTC"))
    }
}

/// What is wrong with a timestamp.
pub open spec fn timestamp_failure(timestamp: CheckedModel) -> Option<ErrorModel> {
    if timestamp.valid {
        None
    } else {
        error::protocol_failure("record timestamp must be canonical RFC 3339 UTC"@)
    }
}

/// Accepts an attempt identifier that the identifier grammar accepts.
pub fn validate_attempt_id(id: &Checked) -> (result: Result<(), RuntimeError>)
    ensures
        error::failure(result) == id_failure(id@, "run attempt"@),
{
    validate_id(id, "run attempt")
}

/// Accepts an identifier that the identifier grammar accepts.
pub fn validate_id(id: &Checked, kind: &str) -> (result: Result<(), RuntimeError>)
    ensures
        error::failure(result) == id_failure(id@, kind@),
{
    if id.valid {
        Ok(())
    } else {
        let message = join3("invalid ", kind, " id");
        Err(usage(message.as_str()))
    }
}

/// What is wrong with an identifier of some kind.
pub open spec fn id_failure(id: CheckedModel, kind: Seq<char>) -> Option<ErrorModel> {
    if id.valid {
        None
    } else {
        error::usage_failure("invalid "@ + kind + " id"@)
    }
}

/// Accepts a prefixed digest.
pub fn validate_hash(value: &str, kind: &str) -> (result: Result<(), RuntimeError>)
    ensures
        error::failure(result) == hash_failure(value@, kind@),
{
    match strip_sha256_prefix(value) {
        None => {
            let message = join2(kind, " must use sha256:<digest>");
            Err(protocol(message.as_str()))
        },
        Some(digest) => {
            if is_lowercase_sha256_hex(digest.as_str()) {
                Ok(())
            } else {
                let message = join2(kind, " must use a lowercase SHA-256 digest");
                Err(protocol(message.as_str()))
            }
        },
    }
}

/// What is wrong with a prefixed digest of some kind.
pub open spec fn hash_failure(value: Seq<char>, kind: Seq<char>) -> Option<
    ErrorModel,
> {
    match text::without_prefix(value, SHA256_PREFIX@) {
        None => error::protocol_failure(kind + " must use sha256:<digest>"@),
        Some(digest) => if digest::is_digest_text(digest) {
            None
        } else {
            error::protocol_failure(kind + " must use a lowercase SHA-256 digest"@)
        },
    }
}

/// Accepts a bare digest.
pub fn validate_digest(value: &str, kind: &str) -> (result: Result<(), RuntimeError>)
    ensures
        error::failure(result) == digest_failure(value@, kind@),
{
    if !is_lowercase_sha256_hex(value) {
        let message = join2(kind, " must be a lowercase SHA-256 digest");
        return Err(protocol(message.as_str()));
    }
    Ok(())
}

/// What is wrong with a bare digest of some kind.
pub open spec fn digest_failure(value: Seq<char>, kind: Seq<char>) -> Option<
    ErrorModel,
> {
    if digest::is_digest_text(value) {
        None
    } else {
        error::protocol_failure(kind + " must be a lowercase SHA-256 digest"@)
    }
}

/// The bytes of the digest that names a run object.
pub fn parse_run_object_digest(value: &str) -> (result: Result<[u8; 32], RuntimeError>)
    ensures
        error::failure(result) == run_object_name_failure(value@),
        result matches Ok(digest) ==> digest@ == digest::hex_decode(value@),
{
    match decode_lowercase_sha256_hex(value) {
        Some(digest) => Ok(digest),
        None => Err(protocol("run object must be a lowercase SHA-256 digest")),
    }
}

/// What is wrong with the name of a run object.
pub open spec fn run_object_name_failure(value: Seq<char>) -> Option<ErrorModel> {
    if digest::is_digest_text(value) {
        None
    } else {
        error::protocol_failure("run object must be a lowercase SHA-256 digest"@)
    }
}

/// Accepts the schema of run log records.
pub fn validate_record_schema(schema: &str) -> (result: Result<(), RuntimeError>)
    ensures
        error::failure(result) == record_schema_failure(schema@),
{
    if same_text(schema, RUN_LOG_RECORD_SCHEMA_V1) {
        Ok(())
    } else {
        Err(protocol("run log record has an unsupported schema"))
    }
}

/// What is wrong with the schema of a run log record.
pub open spec fn record_schema_failure(schema: Seq<char>) -> Option<ErrorModel> {
    if schema == RUN_LOG_RECORD_SCHEMA_V1@ {
        None
    } else {
        error::protocol_failure("run log record has an unsupported schema"@)
    }
}

/// What the formats ask of their parts: identifiers and times must be valid, a hash is the
/// prefix and a digest, a digest and the name of an object are digests, and a record is of
/// the one known form.
pub proof fn law_what_formats_ask_for(
    checked: CheckedModel,
    value: Seq<char>,
    kind: Seq<char>,
)
    ensures
        timestamp_failure(checked) is None <==> checked.valid,
        id_failure(checked, kind) is None <==> checked.valid,
        digest_failure(value, kind) is None <==> digest::is_digest_text(value),
        run_object_name_failure(value) is None <==> digest::is_digest_text(value),
        hash_failure(value, kind) is None <==> SHA256_PREFIX@.is_prefix_of(value)
            && digest::is_digest_text(value.skip(SHA256_PREFIX@.len() as int)),
        record_schema_failure(value) is None <==> value == RUN_LOG_RECORD_SCHEMA_V1@,
{
}

} // verus!

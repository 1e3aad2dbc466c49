//! Entries of a conversation's history.

use crate::contract::{validate_digest, validate_id, validate_timestamp, Checked, CheckedModel};
use crate::contract;
use crate::digest::sha256_hex;
use crate::digest;
use crate::error::{protocol, ErrorModel, RuntimeError};
use crate::error;
use crate::text::{append_text, decimal_text, join2, same_text};
use crate::text;
use vstd::prelude::*;
use vstd::utf8::*;

verus! {

pub const CONVERSATION_ENTRY_SCHEMA_V0: &'static str = "flow-conversation-entry-v0";
pub const CONVERSATION_ENTRY_SCHEMA_V1: &'static str = "flow-conversation-entry-v1";

/// What an entry records.
#[derive(Clone, Copy, Debug, PartialEq, Eq, Structural)]
pub enum ConversationEntryType {
    Checkpoint,
    Continuation,
    LegacyRun,
}

/// One entry of a conversation's history.
pub struct ConversationEntry {
    pub schema: String,
    pub entry_id: Checked,
    pub parent_entry_id: Option<Checked>,
    pub recovery_snapshot_hash: Option<String>,
    pub run_session_id: Checked,
    pub event_sequence: u64,
    pub entry_type: ConversationEntryType,
    pub timestamp: Checked,
}

/// An entry with its texts taken as character sequences.
pub struct EntryModel {
    pub schema: Seq<char>,
    pub entry_id: CheckedModel,
    pub parent_entry_id: Option<CheckedModel>,
    pub recovery_snapshot_hash: Option<Seq<char>>,
    pub run_session_id: CheckedModel,
    pub event_sequence: u64,
    pub entry_type: ConversationEntryType,
    pub timestamp: CheckedModel,
}

/// The characters of an optional checked text.
pub open spec fn optional_checked(text: Option<Checked>) -> Option<CheckedModel> {
    match text {
        Some(text) => Some(text@),
        None => None,
    }
}

impl View for ConversationEntry {
    type V = EntryModel;

    open spec fn view(&self) -> EntryModel {
        EntryModel {
            schema: self.schema@,
            entry_id: self.entry_id@,
            parent_entry_id: optional_checked(self.parent_entry_id),
            recovery_snapshot_hash: text::optional_view(self.recovery_snapshot_hash),
            run_session_id: self.run_session_id@,
            event_sequence: self.event_sequence,
            entry_type: self.entry_type,
            timestamp: self.timestamp@,
        }
    }
}

impl Clone for ConversationEntry {
    fn clone(&self) -> (copy: Self)
        ensures
            copy@ == self@,
    {
        ConversationEntry {
            schema: self.schema.clone(),
            entry_id: self.entry_id.clone(),
            parent_entry_id: match &self.parent_entry_id {
                Some(id) => Some(id.clone()),
                None => None,
            },
            recovery_snapshot_hash: match &self.recovery_snapshot_hash {
                Some(hash) => Some(hash.clone()),
                None => None,
            },
            run_session_id: self.run_session_id.clone(),
            event_sequence: self.event_sequence,
            entry_type: self.entry_type,
            timestamp: self.timestamp.clone(),
        }
    }
}

/// What the schema of an entry says against its snapshot hash and its type.
pub open spec fn entry_schema_failure(entry: EntryModel) -> Option<ErrorModel> {
    if entry.schema == CONVERSATION_ENTRY_SCHEMA_V0@ {
        match entry.recovery_snapshot_hash {
            None => None,
            Some(_) => error::protocol_failure("conversation entry v0 cannot address a recovery snapshot"@),
        }
    } else if entry.schema == CONVERSATION_ENTRY_SCHEMA_V1@ {
        match entry.recovery_snapshot_hash {
            None => error::protocol_failure("conversation entry v1 must address a recovery snapshot"@),
            Some(hash) => error::first_failure(
                contract::digest_failure(hash, "conversation recovery snapshot hash"@),
                if entry.entry_type == ancestry_type(entry.parent_entry_id is Some) {
                    None
                } else {
                    error::protocol_failure("conversation entry v1 type does not match its ancestry"@)
                },
            ),
        }
    } else {
        error::protocol_failure("conversation entry has an unsupported schema"@)
    }
}

/// The type of an entry with or without a parent.
pub open spec fn ancestry_type(has_parent: bool) -> ConversationEntryType {
    if has_parent {
        ConversationEntryType::Continuation
    } else {
        ConversationEntryType::Checkpoint
    }
}

/// What is wrong with an entry.
pub open spec fn entry_failure(entry: EntryModel) -> Option<ErrorModel> {
    error::first_failure(
        entry_schema_failure(entry),
        error::first_failure(
            contract::id_failure(entry.entry_id, "conversation entry"@),
            error::first_failure(
                match entry.parent_entry_id {
                    Some(parent) if !parent.valid => error::protocol_failure(
                        "conversation entry has an invalid parent id"@,
                    ),
                    _ => None,
                },
                error::first_failure(
                    contract::id_failure(entry.run_session_id, "run session"@),
                    if entry.event_sequence == 0 {
                        error::protocol_failure("conversation entry event_sequence must be positive"@)
                    } else {
                        contract::timestamp_failure(entry.timestamp)
                    },
                ),
            ),
        ),
    )
}

fn validate_entry_schema(entry: &ConversationEntry) -> (result: Result<(), RuntimeError>)
    ensures
        error::failure(result) == entry_schema_failure(entry@),
{
    proof {
        reveal_strlit("flow-conversation-entry-v0");
        reveal_strlit("flow-conversation-entry-v1");
        assert(CONVERSATION_ENTRY_SCHEMA_V0@[25] != CONVERSATION_ENTRY_SCHEMA_V1@[25]);
    }
    if same_text(entry.schema.as_str(), CONVERSATION_ENTRY_SCHEMA_V0) {
        return match &entry.recovery_snapshot_hash {
            None => Ok(()),
            Some(_) => Err(protocol("conversation entry v0 cannot address a recovery snapshot")),
        };
    }
    if !same_text(entry.schema.as_str(), CONVERSATION_ENTRY_SCHEMA_V1) {
        return Err(protocol("conversation entry has an unsupported schema"));
    }
    match &entry.recovery_snapshot_hash {
        None => Err(protocol("conversation entry v1 must address a recovery snapshot")),
        Some(hash) => {
            validate_digest(hash.as_str(), "conversation recovery snapshot hash")?;
            let expected = entry_type_for(entry.parent_entry_id.is_some());
            if entry.entry_type != expected {
                return Err(protocol("conversation entry v1 type does not match its ancestry"));
            }
            Ok(())
        },
    }
}

fn entry_type_for(has_parent: bool) -> (entry_type: ConversationEntryType)
    ensures
        entry_type == ancestry_type(has_parent),
{
    if has_parent {
        ConversationEntryType::Continuation
    } else {
        ConversationEntryType::Checkpoint
    }
}

/// Accepts an entry whose fields are sound and agree with each other.
pub fn validate_conversation_entry(entry: &ConversationEntry) -> (result: Result<(), RuntimeError>)
    ensures
        error::failure(result) == entry_failure(entry@),
{
    validate_entry_schema(entry)?;
    validate_id(&entry.entry_id, "conversation entry")?;
    if let Some(parent) = &entry.parent_entry_id {
        if !parent.valid {
            return Err(protocol("conversation entry has an invalid parent id"));
        }
    }
    validate_id(&entry.run_session_id, "run session")?;
    if entry.event_sequence == 0 {
        return Err(protocol("conversation entry event_sequence must be positive"));
    }
    validate_timestamp(&entry.timestamp)
}

/// What is wrong with adding an entry to a history of `count` entries, given
/// whether its identifier is taken already and whether its parent is there.
pub open spec fn append_failure(
    entry: EntryModel,
    count: nat,
    duplicate: bool,
    parent_exists: bool,
) -> Option<ErrorModel> {
    if duplicate {
        error::protocol_failure("conversation entry id is duplicated"@)
    } else {
        match entry.parent_entry_id {
            None => if count == 0 {
                None
            } else {
                error::protocol_failure("only the conversation root may omit its parent"@)
            },
            Some(_) => if count == 0 {
                error::protocol_failure("the conversation root must omit its parent"@)
            } else if parent_exists {
                None
            } else {
                error::protocol_failure("conversation parent entry does not exist"@)
            },
        }
    }
}

/// Decides whether an entry may be added to a history.
pub fn admit_entry(
    entry: &ConversationEntry,
    count: u64,
    duplicate: bool,
    parent_exists: bool,
) -> (result: Result<(), RuntimeError>)
    ensures
        error::failure(result) == append_failure(entry@, count as nat, duplicate, parent_exists),
{
    if duplicate {
        return Err(protocol("conversation entry id is duplicated"));
    }
    match &entry.parent_entry_id {
        None => {
            if count == 0 {
                Ok(())
            } else {
                Err(protocol("only the conversation root may omit its parent"))
            }
        },
        Some(_) => {
            if count == 0 {
                Err(protocol("the conversation root must omit its parent"))
            } else if parent_exists {
                Ok(())
            } else {
                Err(protocol("conversation parent entry does not exist"))
            }
        },
    }
}

/// What a checkpoint entry's identifier is the digest of.
pub open spec fn checkpoint_material(
    conversation_id: Seq<char>,
    run_session_id: Seq<char>,
    recovery_snapshot_hash: Seq<char>,
    sequence: u64,
    timestamp: Seq<char>,
) -> Seq<char> {
    conversation_id + "\0"@ + run_session_id + "\0"@ + recovery_snapshot_hash + "\0"@ + text::decimal(
        sequence as nat,
    ) + "\0"@ + timestamp
}

/// The identifier of a checkpoint entry.
pub open spec fn checkpoint_entry_id(
    conversation_id: Seq<char>,
    run_session_id: Seq<char>,
    recovery_snapshot_hash: Seq<char>,
    sequence: u64,
    timestamp: Seq<char>,
) -> Seq<char> {
    "entry-"@ + digest::digest_text(
        encode_utf8(
            checkpoint_material(
                conversation_id,
                run_session_id,
                recovery_snapshot_hash,
                sequence,
                timestamp,
            ),
        ),
    )
}

/// Renders the identifier of a checkpoint entry.
pub fn render_checkpoint_entry_id(
    conversation_id: &str,
    run_session_id: &str,
    recovery_snapshot_hash: &str,
    sequence: u64,
    timestamp: &str,
) -> (id: String)
    ensures
        id@ == checkpoint_entry_id(
            conversation_id@,
            run_session_id@,
            recovery_snapshot_hash@,
            sequence,
            timestamp@,
        ),
{
    let mut material = join2(conversation_id, "\0");
    append_text(&mut material, run_session_id);
    append_text(&mut material, "\0");
    append_text(&mut material, recovery_snapshot_hash);
    append_text(&mut material, "\0");
    let number = decimal_text(sequence);
    append_text(&mut material, number.as_str());
    append_text(&mut material, "\0");
    append_text(&mut material, timestamp);
    let digest = sha256_hex(material.as_str().as_bytes());
    join2("entry-", digest.as_str())
}

/// Builds the entry that records a productive run's checkpoint. `entry_id_valid`
/// is the verdict of the identifier grammar on the identifier that
/// [`render_checkpoint_entry_id`] gives.
pub fn productive_run_checkpoint(
    conversation_id: &str,
    run_session_id: &Checked,
    parent_entry_id: Option<&Checked>,
    recovery_snapshot_hash: &str,
    sequence: u64,
    timestamp: &Checked,
    entry_id_valid: bool,
) -> (result: Result<ConversationEntry, RuntimeError>)
    ensures
        error::failure(result) == contract::digest_failure(
            recovery_snapshot_hash@,
            "productive recovery snapshot hash"@,
        ),
        result matches Ok(entry) ==> entry@ == (EntryModel {
            schema: CONVERSATION_ENTRY_SCHEMA_V1@,
            entry_id: CheckedModel {
                text: checkpoint_entry_id(
                    conversation_id@,
                    run_session_id@.text,
                    recovery_snapshot_hash@,
                    sequence,
                    timestamp@.text,
                ),
                valid: entry_id_valid,
            },
            parent_entry_id: match parent_entry_id {
                Some(parent) => Some(parent@),
                None => None,
            },
            recovery_snapshot_hash: Some(recovery_snapshot_hash@),
            run_session_id: run_session_id@,
            event_sequence: sequence,
            entry_type: ancestry_type(parent_entry_id is Some),
            timestamp: timestamp@,
        }),
{
    validate_digest(recovery_snapshot_hash, "productive recovery snapshot hash")?;
    let id = render_checkpoint_entry_id(
        conversation_id,
        run_session_id.text.as_str(),
        recovery_snapshot_hash,
        sequence,
        timestamp.text.as_str(),
    );
    let entry_type = entry_type_for(parent_entry_id.is_some());
    Ok(
        ConversationEntry {
            schema: CONVERSATION_ENTRY_SCHEMA_V1.to_owned(),
            entry_id: Checked { text: id, valid: entry_id_valid },
            parent_entry_id: match parent_entry_id {
                Some(parent) => Some(parent.clone()),
                None => None,
            },
            recovery_snapshot_hash: Some(recovery_snapshot_hash.to_owned()),
            run_session_id: run_session_id.clone(),
            event_sequence: sequence,
            entry_type,
            timestamp: timestamp.clone(),
        },
    )
}

/// A checkpoint entry is sound in itself wherever its parts are: what the runtime
/// records, the runtime accepts.
pub proof fn law_checkpoint_is_accepted(
    conversation_id: Seq<char>,
    run_session_id: CheckedModel,
    parent_entry_id: Option<CheckedModel>,
    recovery_snapshot_hash: Seq<char>,
    sequence: u64,
    timestamp: CheckedModel,
)
    requires
        run_session_id.valid,
        parent_entry_id matches Some(parent) ==> parent.valid,
        contract::digest_failure(recovery_snapshot_hash, "productive recovery snapshot hash"@) is None,
        sequence > 0,
        timestamp.valid,
    ensures
        entry_failure(
            EntryModel {
                schema: CONVERSATION_ENTRY_SCHEMA_V1@,
                entry_id: CheckedModel {
                    text: checkpoint_entry_id(
                        conversation_id,
                        run_session_id.text,
                        recovery_snapshot_hash,
                        sequence,
                        timestamp.text,
                    ),
                    valid: true,
                },
                parent_entry_id,
                recovery_snapshot_hash: Some(recovery_snapshot_hash),
                run_session_id,
                event_sequence: sequence,
                entry_type: ancestry_type(parent_entry_id is Some),
                timestamp,
            },
        ) is None,
{
    reveal_strlit("flow-conversation-entry-v0");
    reveal_strlit("flow-conversation-entry-v1");
    assert(CONVERSATION_ENTRY_SCHEMA_V0@[25] != CONVERSATION_ENTRY_SCHEMA_V1@[25]);
}

/// An entry is accepted exactly where its identifiers and its time are valid, its sequence is
/// positive, and it is of a known form: the older one without a snapshot, or the newer one
/// with the digest of a snapshot, in which a checkpoint has no parent and a continuation has
/// one.
pub proof fn law_entry_is_sound(entry: EntryModel)
    ensures
        entry_failure(entry) is None <==> {
            &&& entry.entry_id.valid
            &&& entry.parent_entry_id is Some ==> entry.parent_entry_id->0.valid
            &&& entry.run_session_id.valid
            &&& entry.event_sequence > 0
            &&& entry.timestamp.valid
            &&& {
                ||| entry.schema == CONVERSATION_ENTRY_SCHEMA_V0@ && entry.recovery_snapshot_hash
                    is None
                ||| {
                    &&& entry.schema == CONVERSATION_ENTRY_SCHEMA_V1@
                    &&& entry.schema != CONVERSATION_ENTRY_SCHEMA_V0@
                    &&& entry.recovery_snapshot_hash is Some
                    &&& contract::digest_failure(
                        entry.recovery_snapshot_hash->0,
                        "conversation recovery snapshot hash"@,
                    ) is None
                    &&& entry.parent_entry_id is None ==> entry.entry_type
                        == ConversationEntryType::Checkpoint
                    &&& entry.parent_entry_id is Some ==> entry.entry_type
                        == ConversationEntryType::Continuation
                }
            }
        },
{
}

} // verus!

//! Reading the store, replacing what is in it, and refreshing a credential that is about
//! to expire.

use crate::credentials::platform::{verify_private_open_file, OpenFileAccess};
use crate::credentials::platform;
use crate::error::{protocol, ErrorModel, RuntimeError};
use crate::error;
use crate::text::join3;
use vstd::prelude::*;

verus! {

pub const CREDENTIAL_STORE_MAX_BYTES: u64 = 256 * 1024;
pub const REFRESH_WINDOW_MILLISECONDS: u64 = 5 * 60 * 1_000;
pub const OPENAI_CODEX_PROVIDER_ID: &'static str = "openai-codex";

/// What the store says of itself where it says no more.
pub open spec fn store_failure() -> Option<ErrorModel> {
    error::protocol_failure("authentication credential store failure"@)
}

/// What the store says of itself where it says no more.
pub fn auth_store_failure() -> (error: RuntimeError)
    ensures
        Some(error@) == store_failure(),
{
    protocol("authentication credential store failure")
}

/// What is said where there is no credential.
pub open spec fn missing_failure() -> Option<ErrorModel> {
    Some(
        ErrorModel::AuthenticationRequired(
            OPENAI_CODEX_PROVIDER_ID@ + " authentication is required; run flow auth login "@
                + OPENAI_CODEX_PROVIDER_ID@,
        ),
    )
}

fn authentication_required() -> (error: RuntimeError)
    ensures
        Some(error@) == missing_failure(),
{
    RuntimeError::AuthenticationRequired(
        join3(
            OPENAI_CODEX_PROVIDER_ID,
            " authentication is required; run flow auth login ",
            OPENAI_CODEX_PROVIDER_ID,
        ),
    )
}

/// A credential: when it expires, and the record of it as it is stored.
pub struct CredentialRecord {
    pub expires: u64,
    pub record: String,
}

impl Clone for CredentialRecord {
    fn clone(&self) -> (copy: Self)
        ensures
            copy == *self,
    {
        CredentialRecord { expires: self.expires, record: self.record.clone() }
    }
}

/// What is wrong with a document of so many bytes, given what reading it gave and what
/// the grammar of credentials has to say of the one in it.
pub open spec fn document_failure(
    length: usize,
    document: Result<Option<CredentialRecord>, ()>,
    validated: Result<(), RuntimeError>,
) -> Option<ErrorModel> {
    if length > CREDENTIAL_STORE_MAX_BYTES {
        store_failure()
    } else {
        match document {
            Err(_) => store_failure(),
            Ok(None) => None,
            Ok(Some(_)) => error::failure(validated),
        }
    }
}

/// The credential in a document.
pub fn decode_credential_document(
    length: usize,
    document: Result<Option<CredentialRecord>, ()>,
    validated: Result<(), RuntimeError>,
) -> (result: Result<Option<CredentialRecord>, RuntimeError>)
    ensures
        error::failure(result) == document_failure(length, document, validated),
        result matches Ok(credential) ==> document == Ok::<Option<CredentialRecord>, ()>(
            credential,
        ),
{
    if length as u64 > CREDENTIAL_STORE_MAX_BYTES {
        return Err(auth_store_failure());
    }
    match document {
        Err(()) => Err(auth_store_failure()),
        Ok(None) => Ok(None),
        Ok(Some(credential)) => {
            validated?;
            Ok(Some(credential))
        },
    }
}

/// What the bytes of a document hold: how many they are, what reading them gave, and what
/// the grammar of credentials has to say of the credential in them.
pub struct CredentialContent {
    pub length: usize,
    pub document: Result<Option<CredentialRecord>, ()>,
    pub validated: Result<(), RuntimeError>,
}

/// A document that was opened: who may use it, how long it is, and its bytes.
pub struct CredentialFile {
    pub access: Result<OpenFileAccess, RuntimeError>,
    pub extended: Result<bool, RuntimeError>,
    pub length: u64,
    pub content: Result<CredentialContent, RuntimeError>,
}

/// What is wrong with a document that was opened.
pub open spec fn file_failure(file: CredentialFile) -> Option<ErrorModel> {
    match file.access {
        Err(error) => Some(error@),
        Ok(access) => error::first_failure(
            platform::private_failure(access, file.extended),
            if file.length > CREDENTIAL_STORE_MAX_BYTES {
                store_failure()
            } else {
                match file.content {
                    Err(error) => Some(error@),
                    Ok(content) => document_failure(
                        content.length,
                        content.document,
                        content.validated,
                    ),
                }
            },
        ),
    }
}

/// What is wrong with the store: with its directory, with opening the document, or with
/// the document.
pub open spec fn store_read_failure(
    parent: Result<(), RuntimeError>,
    opened: Result<Option<CredentialFile>, RuntimeError>,
) -> Option<ErrorModel> {
    match parent {
        Err(error) => Some(error@),
        Ok(_) => match opened {
            Err(error) => Some(error@),
            Ok(None) => None,
            Ok(Some(file)) => file_failure(file),
        },
    }
}

/// The credential in the store: none where there is no document.
pub fn read_anchored(
    parent: Result<(), RuntimeError>,
    opened: Result<Option<CredentialFile>, RuntimeError>,
) -> (result: Result<Option<CredentialRecord>, RuntimeError>)
    ensures
        error::failure(result) == store_read_failure(parent, opened),
        result matches Ok(credential) ==> match opened->Ok_0 {
            None => credential is None,
            Some(file) => file.content->Ok_0.document->Ok_0 == credential,
        },
{
    parent?;
    let file = match opened? {
        Some(file) => file,
        None => {
            return Ok(None);
        },
    };
    verify_private_open_file(file.access?, file.extended)?;
    if file.length > CREDENTIAL_STORE_MAX_BYTES {
        return Err(auth_store_failure());
    }
    let content = file.content?;
    decode_credential_document(content.length, content.document, content.validated)
}

/// The credential in the store, where its directory could be opened: none where there is
/// no directory.
pub fn read(
    directory: Result<bool, RuntimeError>,
    parent: Result<(), RuntimeError>,
    opened: Result<Option<CredentialFile>, RuntimeError>,
) -> (result: Result<Option<CredentialRecord>, RuntimeError>)
    ensures
        error::failure(result) == (match directory {
            Err(error) => Some(error@),
            Ok(there) => if there {
                store_read_failure(parent, opened)
            } else {
                None
            },
        }),
        result matches Ok(credential) ==> if directory->Ok_0 {
            match opened->Ok_0 {
                None => credential is None,
                Some(file) => file.content->Ok_0.document->Ok_0 == credential,
            }
        } else {
            credential is None
        },
{
    if !directory? {
        return Ok(None);
    }
    read_anchored(parent, opened)
}

/// The credential that was read under the lock, once what was left behind was taken away
/// and the directory was made durable.
pub fn read_anchored_and_finalize(
    recovered: Result<(), RuntimeError>,
    current: Result<Option<CredentialRecord>, RuntimeError>,
    synced: Result<(), RuntimeError>,
) -> (result: Result<Option<CredentialRecord>, RuntimeError>)
    ensures
        error::failure(result) == error::first_failure(
            error::failure(recovered),
            error::first_failure(error::failure(current), error::failure(synced)),
        ),
        result matches Ok(credential) ==> current->Ok_0 == credential,
{
    recovered?;
    let current = current?;
    synced?;
    Ok(current)
}

/// What is wrong with the directory of the store where it must be there.
pub open spec fn parent_failure(opened: Result<bool, RuntimeError>) -> Option<ErrorModel> {
    match opened {
        Err(error) => Some(error@),
        Ok(there) => if there {
            None
        } else {
            store_failure()
        },
    }
}

/// Accepts the bytes of a document that is about to be written, where they could be made:
/// with the line end they are no more than a document may be.
pub fn encode_credential_document(encoded: Result<Vec<u8>, ()>) -> (result: Result<
    Vec<u8>,
    RuntimeError,
>)
    ensures
        error::failure(result) == (if encoded is Err || encoded->Ok_0@.len() >= CREDENTIAL_STORE_MAX_BYTES {
            store_failure()
        } else {
            None
        }),
        result matches Ok(bytes) ==> encoded == Ok::<Vec<u8>, ()>(bytes),
{
    match encoded {
        Err(()) => Err(auth_store_failure()),
        Ok(bytes) => {
            if bytes.len() as u64 >= CREDENTIAL_STORE_MAX_BYTES {
                return Err(auth_store_failure());
            }
            Ok(bytes)
        },
    }
}

/// What is written is read: a document that may be written, with whatever credential or
/// none, is accepted with its line end when it is read from a private file, as long as its
/// bytes still stand for that credential and the grammar of credentials accepts it. What is
/// read is that credential.
pub proof fn law_written_document_is_read(
    bytes: Seq<u8>,
    credential: Option<CredentialRecord>,
    file: CredentialFile,
)
    requires
        bytes.len() < CREDENTIAL_STORE_MAX_BYTES,
        file.access is Ok,
        platform::private_failure(file.access->Ok_0, file.extended) is None,
        file.length == bytes.len() + 1,
        file.content is Ok,
        file.content->Ok_0.length == bytes.len() + 1,
        file.content->Ok_0.document == Ok::<Option<CredentialRecord>, ()>(credential),
        credential is Some ==> file.content->Ok_0.validated is Ok,
    ensures
        store_read_failure(Ok(()), Ok(Some(file))) is None,
        file.content->Ok_0.document->Ok_0 == credential,
{
}

/// Whether a credential is about to expire.
pub open spec fn about_to_expire(expires: u64, now: u64) -> bool {
    expires <= now + REFRESH_WINDOW_MILLISECONDS
}

/// Whether a credential is about to expire.
pub fn needs_refresh(credential: &CredentialRecord, now_epoch_milliseconds: u64) -> (needs: bool)
    ensures
        needs == about_to_expire(credential.expires, now_epoch_milliseconds),
{
    credential.expires <= now_epoch_milliseconds.saturating_add(REFRESH_WINDOW_MILLISECONDS)
}

/// Where finding a credential stands.
pub enum ResolveStage {
    /// Read the store.
    Read,
    /// Make its directory.
    Parent,
    /// Take its lock.
    Lock,
    /// Read the store once more, under the lock.
    ReadLocked,
    /// Refresh this credential.
    Refresh(CredentialRecord),
    /// Write this credential.
    Write(CredentialRecord),
    /// This is the credential.
    Done(CredentialRecord),
}

/// A credential that is looked for.
pub struct Resolution {
    pub stage: ResolveStage,
    pub now: u64,
}

/// The stage behind a read: `locked` is whether it was under the lock.
pub open spec fn behind_read(found: CredentialRecord, now: u64, locked: bool) -> ResolveStage {
    if !about_to_expire(found.expires, now) {
        ResolveStage::Done(found)
    } else if locked {
        ResolveStage::Refresh(found)
    } else {
        ResolveStage::Parent
    }
}

/// What is wrong with what a read found.
pub open spec fn read_failure(found: Result<Option<CredentialRecord>, RuntimeError>) -> Option<
    ErrorModel,
> {
    match found {
        Err(error) => Some(error@),
        Ok(None) => missing_failure(),
        Ok(Some(_)) => None,
    }
}

impl Resolution {
    /// The same search at another stage.
    pub open spec fn at(self, stage: ResolveStage) -> Resolution {
        Resolution { stage, ..self }
    }

    /// A credential that is looked for at a time.
    pub fn resolve_with_clock(now_epoch_milliseconds: u64) -> (resolution: Resolution)
        ensures
            resolution.stage is Read,
            resolution.now == now_epoch_milliseconds,
    {
        Resolution { stage: ResolveStage::Read, now: now_epoch_milliseconds }
    }

    /// Goes on by what a read found.
    pub fn found(&mut self, found: Result<Option<CredentialRecord>, RuntimeError>) -> (result: Result<
        (),
        RuntimeError,
    >)
        requires
            old(self).stage is Read || old(self).stage is ReadLocked,
        ensures
            error::failure(result) == read_failure(found),
            *final(self) == (if result is Ok {
                old(self).at(
                    behind_read(
                        found->Ok_0->0,
                        old(self).now,
                        old(self).stage is ReadLocked,
                    ),
                )
            } else {
                *old(self)
            }),
    {
        let current = match found? {
            Some(current) => current,
            None => {
                return Err(authentication_required());
            },
        };
        let locked = matches!(self.stage, ResolveStage::ReadLocked);
        self.stage = if !needs_refresh(&current, self.now) {
            ResolveStage::Done(current)
        } else if locked {
            ResolveStage::Refresh(current)
        } else {
            ResolveStage::Parent
        };
        Ok(())
    }

    /// Goes on when the directory was opened, if there is one.
    pub fn parent_opened(&mut self, opened: Result<bool, RuntimeError>) -> (result: Result<
        (),
        RuntimeError,
    >)
        requires
            old(self).stage is Parent,
        ensures
            error::failure(result) == parent_failure(opened),
            *final(self) == (if result is Ok {
                old(self).at(ResolveStage::Lock)
            } else {
                *old(self)
            }),
    {
        if !opened? {
            return Err(auth_store_failure());
        }
        self.stage = ResolveStage::Lock;
        Ok(())
    }

    /// Goes on when the lock is taken.
    pub fn locked(&mut self, outcome: Result<(), RuntimeError>) -> (result: Result<
        (),
        RuntimeError,
    >)
        requires
            old(self).stage is Lock,
        ensures
            error::failure(result) == error::failure(outcome),
            *final(self) == (if result is Ok {
                old(self).at(ResolveStage::ReadLocked)
            } else {
                *old(self)
            }),
    {
        outcome?;
        self.stage = ResolveStage::ReadLocked;
        Ok(())
    }

    /// Goes on when the credential was refreshed; `validated` is what the grammar of
    /// credentials has to say of the new one.
    pub fn refreshed(
        &mut self,
        replacement: Result<CredentialRecord, RuntimeError>,
        validated: Result<(), RuntimeError>,
    ) -> (result: Result<(), RuntimeError>)
        requires
            old(self).stage is Refresh,
        ensures
            error::failure(result) == error::first_failure(error::failure(replacement), error::failure(validated)),
            *final(self) == (if result is Ok {
                old(self).at(ResolveStage::Write(replacement->Ok_0))
            } else {
                *old(self)
            }),
    {
        let replacement = replacement?;
        validated?;
        self.stage = ResolveStage::Write(replacement);
        Ok(())
    }

    /// Ends the search when the new credential was written.
    pub fn written(self, outcome: Result<(), RuntimeError>) -> (result: Result<
        CredentialRecord,
        RuntimeError,
    >)
        requires
            self.stage is Write,
        ensures
            error::failure(result) == error::failure(outcome),
            result matches Ok(credential) ==> self.stage == ResolveStage::Write(credential),
    {
        outcome?;
        match self.stage {
            ResolveStage::Write(credential) => Ok(credential),
            _ => Err(auth_store_failure()),
        }
    }
}

/// A credential is refreshed only where it was found about to expire under the lock, so
/// that of two who look at once only one refreshes; and what is given without that is
/// not about to expire.
pub proof fn law_refresh_is_under_the_lock(found: CredentialRecord, now: u64, locked: bool)
    ensures
        behind_read(found, now, locked) is Refresh ==> locked && about_to_expire(
            found.expires,
            now,
        ),
        behind_read(found, now, locked) is Done ==> !about_to_expire(found.expires, now),
        !locked ==> behind_read(found, now, locked) !is Refresh,
{
}

/// Where changing the store stands.
#[derive(Clone, Copy, Debug, PartialEq, Eq, Structural)]
pub enum MutationStage {
    /// Make the directory of the store.
    Parent,
    /// Take the lock.
    Lock,
    /// Read the store.
    Read,
    /// Write the new credential, or none.
    Write,
}

/// A change of what is in the store: another credential, or none.
pub struct Mutation {
    pub replacement: Option<CredentialRecord>,
    pub removed: bool,
    pub stage: MutationStage,
}

impl Mutation {
    /// A credential that is to take the place of what is in the store; `validated` is
    /// what the grammar of credentials has to say of it.
    pub fn replace_with_clock(credential: CredentialRecord, validated: Result<(), RuntimeError>) -> (result:
        Result<Mutation, RuntimeError>)
        ensures
            error::failure(result) == error::failure(validated),
            result matches Ok(mutation) ==> mutation == (Mutation {
                replacement: Some(credential),
                removed: false,
                stage: MutationStage::Parent,
            }),
    {
        validated?;
        Ok(
            Mutation {
                replacement: Some(credential),
                removed: false,
                stage: MutationStage::Parent,
            },
        )
    }

    /// Nothing is to take the place of what is in the store.
    pub fn logout_with_clock() -> (mutation: Mutation)
        ensures
            mutation == (Mutation {
                replacement: None,
                removed: false,
                stage: MutationStage::Parent,
            }),
    {
        Mutation { replacement: None, removed: false, stage: MutationStage::Parent }
    }

    /// Goes on when the directory was opened, if there is one.
    pub fn parent_opened(&mut self, opened: Result<bool, RuntimeError>) -> (result: Result<
        (),
        RuntimeError,
    >)
        requires
            old(self).stage is Parent,
        ensures
            error::failure(result) == parent_failure(opened),
            *final(self) == (if result is Ok {
                Mutation { stage: MutationStage::Lock, ..*old(self) }
            } else {
                *old(self)
            }),
    {
        if !opened? {
            return Err(auth_store_failure());
        }
        self.stage = MutationStage::Lock;
        Ok(())
    }

    /// Goes on when the lock is taken.
    pub fn locked(&mut self, outcome: Result<(), RuntimeError>) -> (result: Result<
        (),
        RuntimeError,
    >)
        requires
            old(self).stage is Lock,
        ensures
            error::failure(result) == error::failure(outcome),
            *final(self) == (if result is Ok {
                Mutation { stage: MutationStage::Read, ..*old(self) }
            } else {
                *old(self)
            }),
    {
        outcome?;
        self.stage = MutationStage::Read;
        Ok(())
    }

    /// Goes on by what was read under the lock. One that is taken away was there before.
    pub fn mutate_with_clock(&mut self, current: Result<Option<CredentialRecord>, RuntimeError>) -> (result:
        Result<(), RuntimeError>)
        requires
            old(self).stage is Read,
        ensures
            error::failure(result) == error::failure(current),
            *final(self) == (if result is Ok {
                Mutation {
                    stage: MutationStage::Write,
                    removed: old(self).replacement is None && current->Ok_0 is Some,
                    replacement: old(self).replacement,
                }
            } else {
                *old(self)
            }),
    {
        let current = current?;
        self.removed = self.replacement.is_none() && current.is_some();
        self.stage = MutationStage::Write;
        Ok(())
    }

    /// Ends the change when the store was written: whether a credential was taken away.
    pub fn written(self, outcome: Result<(), RuntimeError>) -> (result: Result<bool, RuntimeError>)
        requires
            self.stage is Write,
        ensures
            error::failure(result) == error::failure(outcome),
            result matches Ok(removed) ==> removed == self.removed,
    {
        outcome?;
        Ok(self.removed)
    }
}

/// How the lock of the store could not be taken.
pub enum LockFailure {
    Busy,
    Io(RuntimeError),
}

/// What is said where the lock of the store could not be taken.
pub fn lock_failure(error: LockFailure) -> (reported: RuntimeError)
    ensures
        reported@ == (match error {
            LockFailure::Busy => ErrorModel::Protocol("authentication credential store is busy"@),
            LockFailure::Io(error) => error@,
        }),
{
    match error {
        LockFailure::Busy => protocol("authentication credential store is busy"),
        LockFailure::Io(error) => error,
    }
}

/// A credential that is still good is used as it is. One that expires within the window is
/// refreshed, but only under the lock, which is taken first.
pub proof fn law_credential_is_refreshed_in_time(found: CredentialRecord, now: u64, locked: bool)
    ensures
        found.expires > now + REFRESH_WINDOW_MILLISECONDS ==> behind_read(found, now, locked)
            == ResolveStage::Done(found),
        found.expires <= now + REFRESH_WINDOW_MILLISECONDS && locked ==> behind_read(
            found,
            now,
            locked,
        ) == ResolveStage::Refresh(found),
        found.expires <= now + REFRESH_WINDOW_MILLISECONDS && !locked ==> behind_read(
            found,
            now,
            locked,
        ) is Parent,
{
}

} // verus!

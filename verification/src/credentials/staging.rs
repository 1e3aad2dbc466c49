//! The files that a document is staged in before it takes the place of the one there is.

use crate::digest::sha256_hex;
use crate::digest;
use crate::error::{ErrorModel, RuntimeError};
use crate::error;
use crate::listing::{reversed, ListedName};
use crate::text::{append_text, chars_of, decimal_text, find_char, head_of, join3, same_text, string_of, strip_prefix, strip_suffix, tail_of};
use crate::text;
use vstd::prelude::*;

verus! {

/// The name of the file that a process stages a document in: by the digest of the
/// document's name, the process, and how many it has staged.
pub open spec fn staging_leaf(identity: Seq<char>, process_id: u32, counter: u64) -> Seq<char> {
    ".credentials-"@ + identity + "-"@ + text::decimal(process_id as nat) + "-"@ + text::decimal(counter as nat)
        + ".staged"@
}

/// The digest of the name of a document, given the bytes of the name.
pub fn credential_destination_identity(destination: &[u8]) -> (identity: String)
    ensures
        identity@ == digest::digest_text(destination@),
{
    sha256_hex(destination)
}

/// The name of the file that a process stages a document in, given the bytes of the
/// document's name.
pub fn credential_staging_leaf(destination: &[u8], process_id: u32, counter: u64) -> (leaf: String)
    ensures
        leaf@ == staging_leaf(digest::digest_text(destination@), process_id, counter),
{
    let identity = credential_destination_identity(destination);
    let mut leaf = join3(".credentials-", identity.as_str(), "-");
    let process = decimal_text(process_id as u64);
    append_text(&mut leaf, process.as_str());
    append_text(&mut leaf, "-");
    let count = decimal_text(counter);
    append_text(&mut leaf, count.as_str());
    append_text(&mut leaf, ".staged");
    leaf
}

/// Whether a text is a number up to a limit as it is written: in digits, without zeros
/// before it.
pub open spec fn is_canonical_decimal(text: Seq<char>, maximum: u64) -> bool {
    exists|value: u64| value <= maximum && text == #[trigger] text::decimal(value as nat)
}

proof fn lemma_number_grows(text: Seq<char>, count: int)
    requires
        0 <= count <= text.len(),
    ensures
        text::number_of(text.take(count), 10) <= text::number_of(text, 10),
    decreases text.len(),
{
    if count < text.len() {
        assert(text.drop_last().take(count) =~= text.take(count));
        lemma_number_grows(text.drop_last(), count);
    } else {
        assert(text.take(count) =~= text);
    }
}

/// Whether a text is a number up to a limit as it is written.
pub fn canonical_decimal(text: &Vec<char>, maximum: u64) -> (canonical: bool)
    ensures
        canonical == is_canonical_decimal(text@, maximum),
{
    let mut value: u64 = 0;
    let mut i: usize = 0;
    assert(text@.take(0) =~= Seq::<char>::empty());
    while i < text.len()
        invariant
            i <= text.len(),
            value <= maximum,
            value == text::number_of(text@.take(i as int), 10),
        decreases text.len() - i,
    {
        let c = text[i];
        proof {
            assert(text@.take(i + 1).drop_last() =~= text@.take(i as int));
            assert(text@.take(i + 1).last() == c);
        }
        if !('0' <= c && c <= '9') {
            proof {
                if is_canonical_decimal(text@, maximum) {
                    let other = choose|other: u64|
                        other <= maximum && text@ == #[trigger] text::decimal(other as nat);
                    text::lemma_positional(other as nat, 10);
                    assert(text::is_decimal_digit(text@[i as int]));
                }
            }
            return false;
        }
        let next: u128 = value as u128 * 10 + (c as u32 - 48) as u128;
        assert(next == text::number_of(text@.take(i + 1), 10));
        if next > maximum as u128 {
            proof {
                lemma_number_grows(text@, i + 1);
                if is_canonical_decimal(text@, maximum) {
                    let other = choose|other: u64|
                        other <= maximum && text@ == #[trigger] text::decimal(other as nat);
                    text::lemma_positional(other as nat, 10);
                }
            }
            return false;
        }
        value = next as u64;
        i = i + 1;
    }
    assert(text@.take(i as int) =~= text@);
    let written = decimal_text(value);
    let chars = string_of(text);
    let same = same_text(written.as_str(), chars.as_str());
    proof {
        if is_canonical_decimal(text@, maximum) {
            let other = choose|other: u64|
                other <= maximum && text@ == #[trigger] text::decimal(other as nat);
            text::lemma_positional(other as nat, 10);
            assert(other == value);
        }
        if same {
            assert(text@ == text::decimal(value as nat));
        }
    }
    same
}

/// The parts of the name of a staging file: the process and the count, as texts.
pub open spec fn staging_parts(leaf: Seq<char>, identity: Seq<char>) -> Option<(Seq<char>, Seq<char>)> {
    match text::without_prefix(leaf, ".credentials-"@) {
        None => None,
        Some(rest) => match text::without_prefix(rest, identity) {
            None => None,
            Some(rest) => match text::without_prefix(rest, "-"@) {
                None => None,
                Some(rest) => match text::without_suffix(rest, ".staged"@) {
                    None => None,
                    Some(body) => match text::first_position(body, '-') {
                        None => None,
                        Some(dash) => Some((body.take(dash), body.skip(dash + 1))),
                    },
                },
            },
        },
    }
}

/// Whether a name is that of a staging file of a document.
pub open spec fn is_staging_leaf(leaf: Seq<char>, identity: Seq<char>) -> bool {
    match staging_parts(leaf, identity) {
        None => false,
        Some((process, count)) => is_canonical_decimal(process, u32::MAX as u64)
            && is_canonical_decimal(count, u64::MAX),
    }
}

/// Whether a name is that of a staging file of a document, given the bytes of the
/// document's name.
pub fn is_credential_staging_leaf(leaf: &str, destination: &[u8]) -> (is: bool)
    ensures
        is == is_staging_leaf(leaf@, digest::digest_text(destination@)),
{
    let identity = credential_destination_identity(destination);
    let chars = chars_of(leaf);
    let rest = match strip_prefix(&chars, ".credentials-") {
        Some(rest) => rest,
        None => {
            return false;
        },
    };
    let rest = match strip_prefix(&rest, identity.as_str()) {
        Some(rest) => rest,
        None => {
            return false;
        },
    };
    let rest = match strip_prefix(&rest, "-") {
        Some(rest) => rest,
        None => {
            return false;
        },
    };
    let body = match strip_suffix(&rest, ".staged") {
        Some(body) => body,
        None => {
            return false;
        },
    };
    match find_char(&body, '-') {
        None => false,
        Some(dash) => {
            let process = head_of(&body, dash);
            let count = tail_of(&body, dash + 1);
            canonical_decimal(&process, 4_294_967_295) && canonical_decimal(&count, u64::MAX)
        },
    }
}

/// A staging file that a process names is taken for one of its document, so that what it
/// leaves behind is found again.
pub proof fn law_staging_leaf_is_found(identity: Seq<char>, process_id: u32, counter: u64)
    ensures
        is_staging_leaf(staging_leaf(identity, process_id, counter), identity),
{
    reveal_strlit(".credentials-");
    reveal_strlit("-");
    reveal_strlit(".staged");
    let process = text::decimal(process_id as nat);
    let count = text::decimal(counter as nat);
    let leaf = staging_leaf(identity, process_id, counter);
    let prefix = ".credentials-"@;
    let dash = "-"@;
    let suffix = ".staged"@;
    let body = process + dash + count;
    assert(leaf.take(prefix.len() as int) =~= prefix);
    let first = leaf.skip(prefix.len() as int);
    assert(first =~= identity + dash + body + suffix);
    assert(first.take(identity.len() as int) =~= identity);
    let second = first.skip(identity.len() as int);
    assert(second =~= dash + body + suffix);
    assert(second.take(1) =~= dash);
    let third = second.skip(1);
    assert(third =~= body + suffix);
    assert(third.skip(third.len() - suffix.len()) =~= suffix);
    assert(third.take(third.len() - suffix.len()) =~= body);
    text::lemma_positional(process_id as nat, 10);
    assert forall|k: int| 0 <= k < process.len() implies body[k] != '-' by {
        assert(body[k] == process[k]);
        assert(text::is_decimal_digit(process[k]));
    }
    text::lemma_first_position(body, '-', process.len() as int);
    assert(body.take(process.len() as int) =~= process);
    assert(body.skip(process.len() as int + 1) =~= count);
    assert(is_canonical_decimal(process, u32::MAX as u64)) by {
        assert(process == text::decimal((process_id as u64) as nat));
    }
    assert(is_canonical_decimal(count, u64::MAX)) by {
        assert(count == text::decimal(counter as nat));
    }
}

/// The names of staging files among what a directory lists, up to where it could not be
/// read on.
pub open spec fn abandoned(listed: Seq<ListedName>, identity: Seq<char>) -> Seq<Seq<char>>
    decreases listed.len(),
{
    if listed.len() == 0 {
        Seq::empty()
    } else if listing_stopped(listed.drop_last()) is Some {
        abandoned(listed.drop_last(), identity)
    } else {
        match listed.last() {
            ListedName::Name(name) if is_staging_leaf(name@, identity) => abandoned(
                listed.drop_last(),
                identity,
            ).push(name@),
            _ => abandoned(listed.drop_last(), identity),
        }
    }
}

/// Why a directory could not be read on, where it could not.
pub open spec fn listing_stopped(listed: Seq<ListedName>) -> Option<ErrorModel>
    decreases listed.len(),
{
    if listed.len() == 0 {
        None
    } else {
        error::first_failure(
            listing_stopped(listed.drop_last()),
            match listed.last() {
                ListedName::Failed(error) => Some(error@),
                _ => None,
            },
        )
    }
}

/// The staging files that were left behind: they are taken away in order, and then their
/// directory is made durable, unless it could not be read on.
pub struct AbandonedStages {
    pub stages: Vec<String>,
    pub stopped: Option<RuntimeError>,
    pub sync: bool,
}

/// The staging files of a document that were left behind, by what its directory lists.
pub fn recover_abandoned_stages(listed: Vec<ListedName>, destination: &[u8]) -> (found:
    AbandonedStages)
    ensures
        text::texts_view(found.stages@) == abandoned(listed@, digest::digest_text(destination@)),
        match found.stopped {
            Some(error) => listing_stopped(listed@) == Some(error@),
            None => listing_stopped(listed@) is None,
        },
        found.sync == (found.stopped is None && found.stages@.len() > 0),
{
    let ghost all = listed@;
    let ghost identity = digest::digest_text(destination@);
    let mut pending = reversed(listed);
    let total: usize = pending.len();
    let mut seen: usize = 0;
    let mut stages: Vec<String> = Vec::new();
    let mut stopped: Option<RuntimeError> = None;
    proof {
        assert(all.take(0) =~= Seq::<ListedName>::empty());
        assert(text::texts_view(stages@) =~= Seq::<Seq<char>>::empty());
    }
    while pending.len() > 0
        invariant
            all == listed@,
            identity == digest::digest_text(destination@),
            seen + pending.len() == total,
            total == all.len(),
            forall|k: int|
                0 <= k < pending@.len() ==> #[trigger] pending@[k] == all[all.len() - 1 - k],
            text::texts_view(stages@) == abandoned(all.take(seen as int), identity),
            match stopped {
                Some(error) => listing_stopped(all.take(seen as int)) == Some(error@),
                None => listing_stopped(all.take(seen as int)) is None,
            },
        decreases pending.len(),
    {
        let ghost before = text::texts_view(stages@);
        proof {
            assert(all.take(seen + 1).drop_last() =~= all.take(seen as int));
            assert(all.take(seen + 1).last() == all[seen as int]);
        }
        match pending.pop() {
            Some(entry) => {
                assert(entry == all[seen as int]);
                if stopped.is_none() {
                    match entry {
                        ListedName::Name(name) => {
                            if is_credential_staging_leaf(name.as_str(), destination) {
                                stages.push(name);
                                assert(text::texts_view(stages@) =~= before.push(name@));
                            }
                        },
                        ListedName::NotText => {},
                        ListedName::Failed(error) => {
                            stopped = Some(error);
                        },
                    }
                }
            },
            None => {},
        }
        seen = seen + 1;
    }
    assert(all.take(seen as int) =~= all);
    let sync = stopped.is_none() && stages.len() > 0;
    AbandonedStages { stages, stopped, sync }
}

/// Where replacing a document stands.
#[derive(Clone, Copy, Debug, PartialEq, Eq, Structural)]
pub enum ReplaceStage {
    /// Make the staging file.
    Create,
    /// Write the document and a line end, and make them durable.
    Write,
    /// Put the file in the place of the document.
    Rename,
    /// See that the document is private, and make its directory durable.
    Finalize,
    /// Take the staging file away.
    RemoveStage,
    Done,
}

/// What came of replacing a document.
pub enum ReplaceOutcome {
    Replaced,
    /// The document that was there is there still.
    Failed(RuntimeError),
    /// The document was replaced, and something went wrong all the same.
    PublishedNotFinal(RuntimeError),
}

/// A document that is being replaced.
pub struct Replacement {
    pub stage: ReplaceStage,
    pub outcome: Option<ReplaceOutcome>,
}

impl Replacement {
    /// A document of which nothing was replaced.
    pub fn replace_atomically() -> (replacement: Replacement)
        ensures
            replacement.stage is Create,
            replacement.outcome is None,
    {
        Replacement { stage: ReplaceStage::Create, outcome: None }
    }

    /// Whether what is known of the outcome is what the stage has shown.
    pub open spec fn sound(self) -> bool {
        match self.stage {
            ReplaceStage::Done => self.outcome is Some,
            ReplaceStage::RemoveStage => self.outcome is Some && self.outcome->0 !is Replaced,
            _ => self.outcome is None,
        }
    }

    /// Goes on by what came of the stage. Whatever goes wrong, the staging file is taken
    /// away; what comes of that changes nothing.
    pub fn advance(&mut self, outcome: Result<(), RuntimeError>)
        requires
            old(self).sound(),
        ensures
            final(self).sound(),
            final(self).stage == (match old(self).stage {
                ReplaceStage::Create => if outcome is Ok {
                    ReplaceStage::Write
                } else {
                    ReplaceStage::RemoveStage
                },
                ReplaceStage::Write => if outcome is Ok {
                    ReplaceStage::Rename
                } else {
                    ReplaceStage::RemoveStage
                },
                ReplaceStage::Rename => if outcome is Ok {
                    ReplaceStage::Finalize
                } else {
                    ReplaceStage::RemoveStage
                },
                ReplaceStage::Finalize => if outcome is Ok {
                    ReplaceStage::Done
                } else {
                    ReplaceStage::RemoveStage
                },
                ReplaceStage::RemoveStage => ReplaceStage::Done,
                ReplaceStage::Done => ReplaceStage::Done,
            }),
            match old(self).stage {
                ReplaceStage::RemoveStage => final(self).outcome == old(self).outcome,
                ReplaceStage::Done => final(self).outcome == old(self).outcome,
                ReplaceStage::Finalize => match outcome {
                    Ok(_) => final(self).outcome == Some(ReplaceOutcome::Replaced),
                    Err(error) => final(self).outcome == Some(
                        ReplaceOutcome::PublishedNotFinal(error),
                    ),
                },
                _ => match outcome {
                    Ok(_) => final(self).outcome is None,
                    Err(error) => final(self).outcome == Some(ReplaceOutcome::Failed(error)),
                },
            },
    {
        match self.stage {
            ReplaceStage::Create => match outcome {
                Ok(()) => {
                    self.stage = ReplaceStage::Write;
                },
                Err(error) => {
                    self.outcome = Some(ReplaceOutcome::Failed(error));
                    self.stage = ReplaceStage::RemoveStage;
                },
            },
            ReplaceStage::Write => match outcome {
                Ok(()) => {
                    self.stage = ReplaceStage::Rename;
                },
                Err(error) => {
                    self.outcome = Some(ReplaceOutcome::Failed(error));
                    self.stage = ReplaceStage::RemoveStage;
                },
            },
            ReplaceStage::Rename => match outcome {
                Ok(()) => {
                    self.stage = ReplaceStage::Finalize;
                },
                Err(error) => {
                    self.outcome = Some(ReplaceOutcome::Failed(error));
                    self.stage = ReplaceStage::RemoveStage;
                },
            },
            ReplaceStage::Finalize => match outcome {
                Ok(()) => {
                    self.outcome = Some(ReplaceOutcome::Replaced);
                    self.stage = ReplaceStage::Done;
                },
                Err(error) => {
                    self.outcome = Some(ReplaceOutcome::PublishedNotFinal(error));
                    self.stage = ReplaceStage::RemoveStage;
                },
            },
            ReplaceStage::RemoveStage => {
                self.stage = ReplaceStage::Done;
            },
            ReplaceStage::Done => {},
        }
    }
}

/// A listing stops at its first failure, and with none it does not stop.
pub proof fn law_listing_stops_at_a_failure(listed: Seq<ListedName>)
    ensures
        listing_stopped(listed) is None <==> forall|k: int|
            0 <= k < listed.len() ==> (#[trigger] listed[k]) !is Failed,
    decreases listed.len(),
{
    if listed.len() > 0 {
        let rest = listed.drop_last();
        law_listing_stops_at_a_failure(rest);
        assert forall|k: int| 0 <= k < rest.len() implies #[trigger] rest[k] == listed[k] by {}
        assert forall|k: int| 0 <= k < rest.len() implies #[trigger] listed[k] == rest[k] by {}
        assert(listed[listed.len() - 1] == listed.last());
    }
}

/// What was abandoned is found name by name: each name of a stage of the store, in the order
/// of the listing, as long as the listing did not fail.
pub proof fn law_abandoned_stages_are_found(
    listed: Seq<ListedName>,
    name: ListedName,
    identity: Seq<char>,
)
    ensures
        ({
            let before = abandoned(listed, identity);
            let after = abandoned(listed.push(name), identity);
            let failed = exists|k: int| 0 <= k < listed.len() && (#[trigger] listed[k]) is Failed;
            &&& failed ==> after == before
            &&& !failed && name is Name && is_staging_leaf(name->Name_0@, identity) ==> after
                == before.push(name->Name_0@)
            &&& !failed && !(name is Name && is_staging_leaf(name->Name_0@, identity)) ==> after
                == before
        }),
        abandoned(Seq::empty(), identity).len() == 0,
{
    law_listing_stops_at_a_failure(listed);
    assert(listed.push(name).drop_last() =~= listed);
}

} // verus!

//! The scratch directory that validating a history works in: the names it may
//! hold, the bytes it may use, and how it is taken away.

use crate::contract::DirectoryIdentity;
use crate::digest::{is_lowercase_sha256_hex, sha256_hex};
use crate::digest;
use crate::error::{protocol, ErrorModel, RuntimeError};
use crate::error;
use crate::listing::{reversed, ListedName};
use crate::text::{append_text, chars_of, decimal_text, head_of, join2, join3, only_decimal, padded_decimal_text, same_text, string_of, strip_prefix, strip_suffix, tail_of, text_from_utf8, wide_decimal_text};
use crate::text;
use vstd::prelude::*;
use vstd::utf8::*;

verus! {

pub const INDEX_SCHEMA: &'static str = "flow-conversation-history-validation-v1";
pub const INDEX_MARKER_LIMIT: u64 = 4096;
pub const LEASE_LEAF: &'static str = "lease";
pub const MARKER_LEAF: &'static str = "marker.json";
pub const INDEX_RUN_PREFIX: &'static str = "g";
pub const EVENT_POINTER_RUN_PREFIX: &'static str = "pointer-";
pub const EVENT_IDENTIFIER_RUN_PREFIX: &'static str = "event-ident-";
pub const SCRATCH_RUN_SUFFIX: &'static str = ".bin";
pub const SCRATCH_SUFFIX: &'static str = ".scratch";
pub const GENERATION_WIDTH: usize = 3;
pub const RUN_WIDTH: usize = 16;

/// The name of a scratch directory: a digest and a suffix.
pub open spec fn is_scratch_leaf(leaf: Seq<char>) -> bool {
    match text::without_suffix(leaf, SCRATCH_SUFFIX@) {
        Some(digest) => digest::is_digest_text(digest),
        None => false,
    }
}

/// Whether a name is that of a scratch directory.
pub fn valid_scratch_leaf(leaf: &str) -> (valid: bool)
    ensures
        valid == is_scratch_leaf(leaf@),
{
    let chars = chars_of(leaf);
    match strip_suffix(&chars, SCRATCH_SUFFIX) {
        Some(digest) => {
            let digest = string_of(&digest);
            is_lowercase_sha256_hex(digest.as_str())
        },
        None => false,
    }
}

/// The generation and the run of a run file: three digits and sixteen.
pub open spec fn is_run_body(body: Seq<char>) -> bool {
    &&& body.len() == GENERATION_WIDTH + 2 + RUN_WIDTH
    &&& text::all_decimal(body.take(GENERATION_WIDTH as int))
    &&& body[GENERATION_WIDTH as int] == '-'
    &&& body[GENERATION_WIDTH + 1] == 'r'
    &&& text::all_decimal(body.skip(GENERATION_WIDTH + 2))
}

/// The name of a run file.
pub open spec fn is_run_member(member: Seq<char>) -> bool {
    match text::without_prefix(member, INDEX_RUN_PREFIX@) {
        Some(rest) => match text::without_suffix(rest, SCRATCH_RUN_SUFFIX@) {
            Some(body) => is_run_body(body),
            None => false,
        },
        None => false,
    }
}

/// The name of an identifier file: its pass is a digit up to two.
pub open spec fn is_identifier_member(member: Seq<char>) -> bool {
    match text::without_prefix(member, EVENT_IDENTIFIER_RUN_PREFIX@) {
        Some(rest) => match text::without_suffix(rest, SCRATCH_RUN_SUFFIX@) {
            Some(pass) => pass.len() == 1 && '0' <= pass[0] && pass[0] <= '2',
            None => false,
        },
        None => false,
    }
}

/// The name of anything that a scratch directory may hold.
pub open spec fn is_scratch_member(member: Seq<char>) -> bool {
    ||| member == MARKER_LEAF@
    ||| member == LEASE_LEAF@
    ||| is_run_member(member)
    ||| (text::without_prefix(member, EVENT_POINTER_RUN_PREFIX@) matches Some(rest) && is_run_member(rest))
    ||| is_identifier_member(member)
}

fn valid_run_chars(member: &Vec<char>) -> (valid: bool)
    ensures
        valid == is_run_member(member@),
{
    match strip_prefix(member, INDEX_RUN_PREFIX) {
        None => false,
        Some(rest) => match strip_suffix(&rest, SCRATCH_RUN_SUFFIX) {
            None => false,
            Some(body) => {
                if body.len() != GENERATION_WIDTH + 2 + RUN_WIDTH {
                    return false;
                }
                let generation = head_of(&body, GENERATION_WIDTH);
                let run = tail_of(&body, GENERATION_WIDTH + 2);
                only_decimal(&generation) && body[GENERATION_WIDTH] == '-' && body[GENERATION_WIDTH
                    + 1] == 'r' && only_decimal(&run)
            },
        },
    }
}

/// Whether a name is that of a run file.
pub fn valid_scratch_run_member(member: &str) -> (valid: bool)
    ensures
        valid == is_run_member(member@),
{
    let chars = chars_of(member);
    valid_run_chars(&chars)
}

/// Whether a scratch directory may hold a file of a name.
pub fn valid_scratch_member(member: &str) -> (valid: bool)
    ensures
        valid == is_scratch_member(member@),
{
    if same_text(member, MARKER_LEAF) || same_text(member, LEASE_LEAF) {
        return true;
    }
    let chars = chars_of(member);
    if valid_run_chars(&chars) {
        return true;
    }
    if let Some(rest) = strip_prefix(&chars, EVENT_POINTER_RUN_PREFIX) {
        if valid_run_chars(&rest) {
            return true;
        }
    }
    match strip_prefix(&chars, EVENT_IDENTIFIER_RUN_PREFIX) {
        None => false,
        Some(rest) => match strip_suffix(&rest, SCRATCH_RUN_SUFFIX) {
            None => false,
            Some(pass) => pass.len() == 1 && '0' <= pass[0] && pass[0] <= '2',
        },
    }
}

/// The name of a run file of the index.
pub open spec fn run_leaf(generation: u32, run: u64) -> Seq<char> {
    INDEX_RUN_PREFIX@ + text::zero_padded(text::decimal(generation as nat), GENERATION_WIDTH as nat) + "-r"@
        + text::zero_padded(text::decimal(run as nat), RUN_WIDTH as nat) + SCRATCH_RUN_SUFFIX@
}

/// Renders the name of a run file of the index.
pub fn index_run_leaf(generation: u32, run: u64) -> (leaf: String)
    ensures
        leaf@ == run_leaf(generation, run),
{
    let generation_text = padded_decimal_text(generation as u64, GENERATION_WIDTH);
    let run_text = padded_decimal_text(run, RUN_WIDTH);
    let mut leaf = join3(INDEX_RUN_PREFIX, generation_text.as_str(), "-r");
    append_text(&mut leaf, run_text.as_str());
    append_text(&mut leaf, SCRATCH_RUN_SUFFIX);
    leaf
}

/// Renders the name of a run file of the event pointers.
pub fn event_pointer_run_leaf(generation: u32, run: u64) -> (leaf: String)
    ensures
        leaf@ == EVENT_POINTER_RUN_PREFIX@ + run_leaf(generation, run),
{
    let leaf = index_run_leaf(generation, run);
    join2(EVENT_POINTER_RUN_PREFIX, leaf.as_str())
}

/// The name of an identifier file.
pub open spec fn identifier_leaf(pass: u8) -> Seq<char> {
    EVENT_IDENTIFIER_RUN_PREFIX@ + text::decimal(pass as nat) + SCRATCH_RUN_SUFFIX@
}

/// Renders the name of an identifier file.
pub fn event_identifier_run_leaf(pass: u8) -> (leaf: String)
    ensures
        leaf@ == identifier_leaf(pass),
{
    let number = decimal_text(pass as u64);
    join3(EVENT_IDENTIFIER_RUN_PREFIX, number.as_str(), SCRATCH_RUN_SUFFIX)
}

/// What the name of a scratch directory is the digest of.
pub open spec fn scratch_key(
    process: nat,
    conversation_id: Seq<char>,
    now: nat,
    nonce: nat,
) -> Seq<char> {
    INDEX_SCHEMA@ + "\0"@ + text::decimal(process) + "\0"@ + conversation_id + "\0"@ + text::decimal(now)
        + "\0"@ + text::decimal(nonce)
}

/// Renders the name of a scratch directory from the process, the conversation, the
/// time in nanoseconds and a nonce.
pub fn scratch_leaf(process: u32, conversation_id: &str, now: u128, nonce: u64) -> (leaf: String)
    ensures
        leaf@ == digest::digest_text(
            encode_utf8(scratch_key(process as nat, conversation_id@, now as nat, nonce as nat)),
        ) + SCRATCH_SUFFIX@,
{
    let process_text = decimal_text(process as u64);
    let now_text = wide_decimal_text(now);
    let nonce_text = decimal_text(nonce);
    let mut key = join3(INDEX_SCHEMA, "\0", process_text.as_str());
    append_text(&mut key, "\0");
    append_text(&mut key, conversation_id);
    append_text(&mut key, "\0");
    append_text(&mut key, now_text.as_str());
    append_text(&mut key, "\0");
    append_text(&mut key, nonce_text.as_str());
    let digest = sha256_hex(key.as_str().as_bytes());
    join2(digest.as_str(), SCRATCH_SUFFIX)
}

/// Every name that the runtime gives a run file, with numbers that fit their
/// widths, is one that a scratch directory may hold.
pub proof fn law_run_leaves_are_members(generation: u32, run: u64, pass: u8)
    requires
        generation < 1000,
        run < 10_000_000_000_000_000,
        pass <= 2,
    ensures
        is_run_member(run_leaf(generation, run)),
        is_scratch_member(run_leaf(generation, run)),
        is_scratch_member(EVENT_POINTER_RUN_PREFIX@ + run_leaf(generation, run)),
        is_scratch_member(identifier_leaf(pass)),
{
    reveal_strlit("g");
    reveal_strlit("-r");
    reveal_strlit(".bin");
    reveal_strlit("pointer-");
    reveal_strlit("event-ident-");
    let g = text::zero_padded(text::decimal(generation as nat), 3);
    let r = text::zero_padded(text::decimal(run as nat), 16);
    text::lemma_positional(generation as nat, 10);
    text::lemma_positional(run as nat, 10);
    text::lemma_zero_padded(text::decimal(generation as nat), 3, 10);
    text::lemma_zero_padded(text::decimal(run as nat), 16, 10);
    assert(vstd::arithmetic::power::pow(10, 3) == 1000) by {
        reveal_with_fuel(vstd::arithmetic::power::pow, 4);
    }
    assert(vstd::arithmetic::power::pow(10, 16) == 10_000_000_000_000_000) by {
        reveal_with_fuel(vstd::arithmetic::power::pow, 17);
    }
    text::lemma_positional_width(generation as nat, 10, 3);
    text::lemma_positional_width(run as nat, 10, 16);
    assert(g.len() == 3 && r.len() == 16);
    let leaf = run_leaf(generation, run);
    assert(leaf.take(1) =~= "g"@);
    let rest = leaf.skip(1);
    assert(rest =~= g + "-r"@ + r + ".bin"@);
    assert(rest.skip(rest.len() - 4) =~= ".bin"@);
    let body = rest.take(rest.len() - 4);
    assert(body =~= g + "-r"@ + r);
    assert(body.take(3) =~= g);
    assert(body.skip(5) =~= r);
    assert(is_run_member(leaf));
    let pointer = EVENT_POINTER_RUN_PREFIX@ + leaf;
    assert(pointer.take(8) =~= "pointer-"@);
    assert(pointer.skip(8) =~= leaf);
    let identifier = identifier_leaf(pass);
    assert(text::decimal(pass as nat) =~= seq![crate::text::digit_char(pass as nat)]);
    assert(identifier.take(12) =~= "event-ident-"@);
    let tail = identifier.skip(12);
    assert(tail =~= text::decimal(pass as nat) + ".bin"@);
    assert(tail.skip(tail.len() - 4) =~= ".bin"@);
    assert(tail.take(tail.len() - 4) =~= text::decimal(pass as nat));
}

/// The bytes that a scratch directory uses, and how many it may.
#[derive(Clone, Copy, Debug, PartialEq, Eq, Structural)]
pub struct ScratchUsage {
    pub current: u64,
    pub limit: u64,
}

impl ScratchUsage {
    /// No more bytes are used than may be.
    pub open spec fn wf(self) -> bool {
        self.current <= self.limit
    }

    /// The bytes in use once some more are written, where that many may be.
    pub fn plan_write(&self, bytes: usize) -> (result: Result<u64, RuntimeError>)
        requires
            self.wf(),
        ensures
            error::failure(result) == (if self.current + bytes > u64::MAX {
                error::protocol_failure("conversation history scratch count overflow"@)
            } else if self.current + bytes > self.limit {
                error::protocol_failure("conversation history scratch exceeds its budget"@)
            } else {
                None
            }),
            result matches Ok(next) ==> next == self.current + bytes,
    {
        match self.current.checked_add(bytes as u64) {
            None => Err(protocol("conversation history scratch count overflow")),
            Some(next) => {
                if next > self.limit {
                    return Err(protocol("conversation history scratch exceeds its budget"));
                }
                Ok(next)
            },
        }
    }

    /// Takes account of a write that was planned and made.
    pub fn record_write(&mut self, next: u64)
        requires
            next <= old(self).limit,
        ensures
            *final(self) == (ScratchUsage { current: next, limit: old(self).limit }),
            final(self).wf(),
    {
        self.current = next;
    }

    /// Takes account of a file that was removed.
    pub fn record_removal(&mut self, length: u64) -> (result: Result<(), RuntimeError>)
        requires
            old(self).wf(),
        ensures
            error::failure(result) == (if length > old(self).current {
                error::protocol_failure("conversation history scratch accounting underflow"@)
            } else {
                None
            }),
            final(self).wf(),
            *final(self) == (if length > old(self).current {
                *old(self)
            } else {
                ScratchUsage { current: (old(self).current - length) as u64, limit: old(self).limit }
            }),
    {
        match self.current.checked_sub(length) {
            None => Err(protocol("conversation history scratch accounting underflow")),
            Some(rest) => {
                self.current = rest;
                Ok(())
            },
        }
    }
}

/// The bytes that a file system has left.
pub fn available_bytes(blocks: u64, block_bytes: u64) -> (result: Result<u64, RuntimeError>)
    ensures
        error::failure(result) == (if blocks * block_bytes > u64::MAX {
            error::protocol_failure("available scratch space overflow"@)
        } else {
            None
        }),
        result matches Ok(bytes) ==> bytes == blocks * block_bytes,
{
    match blocks.checked_mul(block_bytes) {
        Some(bytes) => Ok(bytes),
        None => Err(protocol("available scratch space overflow")),
    }
}

/// The scratch directory that an entry of the scratch root is, or none where it is the
/// lease of the root.
pub fn for_each_scratch_leaf(root: &str, listed: ListedName) -> (result: Result<
    Option<String>,
    RuntimeError,
>)
    ensures
        error::failure(result) == (match listed {
            ListedName::Failed(error) => Some(error@),
            ListedName::NotText => error::protocol_failure(
                "conversation history validation scratch name is not UTF-8"@,
            ),
            ListedName::Name(leaf) => if leaf@ == LEASE_LEAF@ || is_scratch_leaf(leaf@) {
                None
            } else {
                error::protocol_failure(root@ + " contains unsafe history validation scratch"@)
            },
        }),
        result matches Ok(scratch) ==> match scratch {
            None => listed->Name_0@ == LEASE_LEAF@,
            Some(leaf) => leaf@ == listed->Name_0@ && leaf@ != LEASE_LEAF@,
        },
{
    match listed {
        ListedName::Failed(error) => Err(error),
        ListedName::NotText => Err(
            protocol("conversation history validation scratch name is not UTF-8"),
        ),
        ListedName::Name(leaf) => {
            if same_text(leaf.as_str(), LEASE_LEAF) {
                return Ok(None);
            }
            if !valid_scratch_leaf(leaf.as_str()) {
                let message = join2(root, " contains unsafe history validation scratch");
                return Err(protocol(message.as_str()));
            }
            Ok(Some(leaf))
        },
    }
}

/// What a scratch directory holds.
#[derive(Clone, Copy, Debug, PartialEq, Eq, Structural)]
pub struct ScratchMembers {
    pub count: usize,
    pub lease: bool,
    pub marker: bool,
}

/// What is wrong with an entry of a scratch directory.
pub open spec fn member_failure(listed: ListedName) -> Option<ErrorModel> {
    match listed {
        ListedName::Failed(error) => Some(error@),
        ListedName::NotText => error::protocol_failure(
            "history validation scratch member is not UTF-8"@,
        ),
        ListedName::Name(name) => if is_scratch_member(name@) {
            None
        } else {
            error::protocol_failure("history validation scratch contains foreign bytes"@)
        },
    }
}

/// The first thing that is wrong with what a scratch directory lists.
pub open spec fn members_failure(listed: Seq<ListedName>) -> Option<ErrorModel>
    decreases listed.len(),
{
    if listed.len() == 0 {
        None
    } else {
        error::first_failure(
            members_failure(listed.drop_last()),
            member_failure(listed.last()),
        )
    }
}

/// Whether a name is listed.
pub open spec fn has_name(listed: Seq<ListedName>, name: Seq<char>) -> bool {
    exists|i: int| 0 <= i < listed.len() && is_name(#[trigger] listed[i], name)
}

/// Whether an entry has a name.
pub open spec fn is_name(listed: ListedName, name: Seq<char>) -> bool {
    listed matches ListedName::Name(found) && found@ == name
}

proof fn lemma_members_failure_prefix(listed: Seq<ListedName>, count: int)
    requires
        0 <= count <= listed.len(),
        members_failure(listed.take(count)) is Some,
    ensures
        members_failure(listed) == members_failure(listed.take(count)),
    decreases listed.len(),
{
    if count < listed.len() {
        let rest = listed.drop_last();
        assert(rest.take(count) =~= listed.take(count));
        lemma_members_failure_prefix(rest, count);
    } else {
        assert(listed.take(count) =~= listed);
    }
}

/// Accepts an entry of a scratch directory, and gives its name.
pub fn for_each_scratch_member(listed: ListedName) -> (result: Result<String, RuntimeError>)
    ensures
        error::failure(result) == member_failure(listed),
        result matches Ok(name) ==> listed == ListedName::Name(name),
{
    match listed {
        ListedName::Failed(error) => Err(error),
        ListedName::NotText => Err(protocol("history validation scratch member is not UTF-8")),
        ListedName::Name(name) => {
            if !valid_scratch_member(name.as_str()) {
                return Err(protocol("history validation scratch contains foreign bytes"));
            }
            Ok(name)
        },
    }
}

/// Counts what a scratch directory holds.
pub fn scratch_members(listed: Vec<ListedName>) -> (result: Result<ScratchMembers, RuntimeError>)
    ensures
        error::failure(result) == members_failure(listed@),
        result matches Ok(members) ==> members.count == listed@.len() && members.lease == has_name(
            listed@,
            LEASE_LEAF@,
        ) && members.marker == has_name(listed@, MARKER_LEAF@),
{
    let ghost all = listed@;
    let total: usize = listed.len();
    let mut pending = reversed(listed);
    let mut lease = false;
    let mut marker = false;
    let mut i: usize = 0;
    assert(all.take(0) =~= Seq::empty());
    while pending.len() > 0
        invariant
            all == listed@,
            i + pending.len() == total,
            total == all.len(),
            forall|k: int|
                0 <= k < pending@.len() ==> #[trigger] pending@[k] == all[all.len() - 1 - k],
            members_failure(all.take(i as int)) is None,
            lease == exists|k: int| 0 <= k < i && is_name(#[trigger] all[k], LEASE_LEAF@),
            marker == exists|k: int| 0 <= k < i && is_name(#[trigger] all[k], MARKER_LEAF@),
        decreases pending.len(),
    {
        let ghost head = all.take(i + 1);
        proof {
            assert(head.drop_last() =~= all.take(i as int));
            assert(head.last() == all[i as int]);
            if member_failure(all[i as int]) is Some {
                lemma_members_failure_prefix(all, i + 1);
            }
        }
        match pending.pop() {
            Some(entry) => {
                assert(entry == all[i as int]);
                let name = for_each_scratch_member(entry)?;
                let is_lease = same_text(name.as_str(), LEASE_LEAF);
                let is_marker = same_text(name.as_str(), MARKER_LEAF);
                assert(is_lease == is_name(all[i as int], LEASE_LEAF@));
                assert(is_marker == is_name(all[i as int], MARKER_LEAF@));
                lease = lease || is_lease;
                marker = marker || is_marker;
            },
            None => {},
        }
        i = i + 1;
    }
    assert(all.take(i as int) =~= all);
    Ok(ScratchMembers { count: total, lease, marker })
}

/// What is wrong with the framing of a marker file.
pub open spec fn framing_failure(bytes: Seq<u8>) -> Option<ErrorModel> {
    if !valid_utf8(bytes) {
        error::protocol_failure("history validation scratch marker is not UTF-8"@)
    } else if text::without_suffix(decode_utf8(bytes), "\n"@) is None {
        error::protocol_failure("history validation scratch marker framing is invalid"@)
    } else {
        None
    }
}

/// The line that a marker file holds.
pub fn marker_line(bytes: &[u8]) -> (result: Result<String, RuntimeError>)
    ensures
        error::failure(result) == framing_failure(bytes@),
        result matches Ok(line) ==> text::without_suffix(decode_utf8(bytes@), "\n"@) == Some(line@),
{
    match text_from_utf8(bytes) {
        Err(_) => Err(protocol("history validation scratch marker is not UTF-8")),
        Ok(text) => {
            let chars = chars_of(text.as_str());
            match strip_suffix(&chars, "\n") {
                Some(line) => Ok(string_of(&line)),
                None => Err(protocol("history validation scratch marker framing is invalid")),
            }
        },
    }
}

/// What a marker says of the directory it stands in.
pub struct ScratchMarker {
    pub schema: String,
    pub leaf: String,
    pub device: u64,
    pub inode: u64,
}

impl ScratchMarker {
    /// Whether the marker is that of a directory.
    pub open spec fn names(self, leaf: Seq<char>, identity: DirectoryIdentity) -> bool {
        self.leaf@ == leaf && self.device == identity.device && self.inode == identity.inode
    }
}

/// The marker of a new scratch directory.
pub fn new_marker(leaf: &str, identity: DirectoryIdentity) -> (marker: ScratchMarker)
    ensures
        marker.schema@ == INDEX_SCHEMA@,
        marker.names(leaf@, identity),
{
    ScratchMarker {
        schema: INDEX_SCHEMA.to_owned(),
        leaf: leaf.to_owned(),
        device: identity.device,
        inode: identity.inode,
    }
}

/// What is wrong with the schema of a marker.
pub open spec fn marker_schema_failure(schema: Seq<char>) -> Option<ErrorModel> {
    if schema == INDEX_SCHEMA@ {
        None
    } else {
        error::protocol_failure("history validation scratch marker schema is invalid"@)
    }
}

/// Accepts the schema of markers.
pub fn validate_marker_schema(marker: &ScratchMarker) -> (result: Result<(), RuntimeError>)
    ensures
        error::failure(result) == marker_schema_failure(marker.schema@),
{
    if !same_text(marker.schema.as_str(), INDEX_SCHEMA) {
        return Err(protocol("history validation scratch marker schema is invalid"));
    }
    Ok(())
}

/// What is wrong with a marker file, given what reading its line as a marker gave.
pub open spec fn marker_failure(
    bytes: Result<Vec<u8>, RuntimeError>,
    parsed: Option<ScratchMarker>,
) -> Option<ErrorModel> {
    match bytes {
        Err(error) => Some(error@),
        Ok(bytes) => error::first_failure(
            framing_failure(bytes@),
            match parsed {
                None => error::protocol_failure("history validation scratch marker is invalid"@),
                Some(marker) => marker_schema_failure(marker.schema@),
            },
        ),
    }
}

/// The marker that a marker file holds; `parsed` is what reading its line as a marker
/// gave.
pub fn read_marker(bytes: Result<Vec<u8>, RuntimeError>, parsed: Option<ScratchMarker>) -> (result:
    Result<ScratchMarker, RuntimeError>)
    ensures
        error::failure(result) == marker_failure(bytes, parsed),
        result matches Ok(marker) ==> parsed == Some(marker),
{
    let bytes = bytes?;
    marker_line(bytes.as_slice())?;
    match parsed {
        None => Err(protocol("history validation scratch marker is invalid")),
        Some(marker) => {
            validate_marker_schema(&marker)?;
            Ok(marker)
        },
    }
}

fn marker_names(marker: &ScratchMarker, leaf: &str, identity: DirectoryIdentity) -> (names: bool)
    ensures
        names == marker.names(leaf@, identity),
{
    same_text(marker.leaf.as_str(), leaf) && marker.device == identity.device && marker.inode
        == identity.inode
}

/// What becomes of a scratch directory that was found in the root.
#[derive(Clone, Copy, Debug, PartialEq, Eq, Structural)]
pub enum InactiveScratch {
    /// It is left over and may be removed.
    Stale,
    /// Its lease has to be tried.
    TryLease,
}

/// What is wrong with a scratch directory that was found in the root.
pub open spec fn inactive_failure(
    members: ScratchMembers,
    marker_names_it: bool,
) -> Option<ErrorModel> {
    if members.count == 0 {
        None
    } else if !members.marker {
        error::protocol_failure("history validation scratch is missing its marker"@)
    } else if !marker_names_it {
        error::protocol_failure("history validation scratch identity is invalid"@)
    } else if !members.lease && members.count != 1 {
        error::protocol_failure("history validation scratch is missing its lease"@)
    } else {
        None
    }
}

/// Decides on a scratch directory that was found in the root, by what it holds and
/// by its marker, which has been read where there is one.
pub fn judge_inactive_scratch(
    members: ScratchMembers,
    marker: Option<&ScratchMarker>,
    leaf: &str,
    identity: DirectoryIdentity,
) -> (result: Result<InactiveScratch, RuntimeError>)
    requires
        members.count > 0 && members.marker ==> marker is Some,
    ensures
        error::failure(result) == inactive_failure(
            members,
            marker matches Some(marker) && marker.names(leaf@, identity),
        ),
        result matches Ok(verdict) ==> (verdict == InactiveScratch::TryLease <==> members.count > 0
            && members.lease),
{
    if members.count == 0 {
        return Ok(InactiveScratch::Stale);
    }
    if !members.marker {
        return Err(protocol("history validation scratch is missing its marker"));
    }
    let named = match marker {
        Some(marker) => marker_names(marker, leaf, identity),
        None => false,
    };
    if !named {
        return Err(protocol("history validation scratch identity is invalid"));
    }
    if !members.lease {
        if members.count != 1 {
            return Err(protocol("history validation scratch is missing its lease"));
        }
        return Ok(InactiveScratch::Stale);
    }
    Ok(InactiveScratch::TryLease)
}

/// What is wrong with a scratch directory of the root that may be left over.
pub open spec fn leftover_failure(
    found: Result<Option<DirectoryIdentity>, RuntimeError>,
    members: Result<ScratchMembers, RuntimeError>,
    marker: Result<ScratchMarker, RuntimeError>,
    leaf: Seq<char>,
) -> Option<ErrorModel> {
    match found {
        Err(error) => Some(error@),
        Ok(None) => error::protocol_failure("history validation scratch disappeared"@),
        Ok(Some(identity)) => match members {
            Err(error) => Some(error@),
            Ok(members) => if members.count > 0 && members.marker && marker is Err {
                Some(marker->Err_0@)
            } else {
                inactive_failure(members, marker is Ok && marker->Ok_0.names(leaf, identity))
            },
        },
    }
}

/// Decides on a scratch directory of the root, by its identity, by what it holds, and by
/// its marker, which is read where there is one.
pub fn validate_inactive_scratch(
    found: Result<Option<DirectoryIdentity>, RuntimeError>,
    members: Result<ScratchMembers, RuntimeError>,
    marker: Result<ScratchMarker, RuntimeError>,
    leaf: &str,
) -> (result: Result<InactiveScratch, RuntimeError>)
    ensures
        error::failure(result) == leftover_failure(found, members, marker, leaf@),
        result matches Ok(verdict) ==> (verdict == InactiveScratch::TryLease
            <==> members->Ok_0.count > 0 && members->Ok_0.lease),
{
    let identity = match found? {
        Some(identity) => identity,
        None => {
            return Err(protocol("history validation scratch disappeared"));
        },
    };
    let members = members?;
    if members.count > 0 && members.marker {
        let marker = marker?;
        judge_inactive_scratch(members, Some(&marker), leaf, identity)
    } else {
        judge_inactive_scratch(members, None, leaf, identity)
    }
}

/// What is to be done next to make a scratch directory.
#[derive(Clone, Copy, Debug, PartialEq, Eq, Structural)]
pub enum ScratchCreation {
    /// Ask how much space is left.
    Space,
    /// Make the directory.
    Directory,
    /// Read its identity.
    Identity,
    /// Write its marker.
    Marker,
    /// Make its lease.
    Lease,
    /// Take the lease.
    Lock,
    /// The directory is there.
    Created,
    /// Take away what was made, once something went wrong.
    Rollback,
    /// Nothing was made.
    Refused,
}

/// How a step of making a scratch directory came out.
pub enum CreationReply {
    Done,
    Space(u64),
    Identity(DirectoryIdentity),
    /// Whether the lease could be taken.
    Lock { taken: bool },
}

/// A scratch directory that is being made.
pub struct HistoryScratch {
    pub stage: ScratchCreation,
    pub limit: u64,
    pub identity: Option<DirectoryIdentity>,
    pub marker_bytes: u64,
    pub failures: Vec<RuntimeError>,
}

/// Whether a reply is one to what a stage does.
pub open spec fn creation_reply_fits(stage: ScratchCreation, reply: CreationReply) -> bool {
    match stage {
        ScratchCreation::Space => reply is Space,
        ScratchCreation::Identity => reply is Identity,
        ScratchCreation::Lock => reply is Lock,
        _ => reply is Done,
    }
}

/// What is wrong with a step of making a scratch directory.
pub open spec fn creation_failure(
    stage: ScratchCreation,
    limit: u64,
    marker_bytes: u64,
    reply: Result<CreationReply, RuntimeError>,
) -> Option<ErrorModel> {
    match reply {
        Err(error) => Some(error@),
        Ok(reply) => match (stage, reply) {
            (ScratchCreation::Space, CreationReply::Space(available)) => if available < limit {
                error::protocol_failure(
                    "insufficient space for conversation history validation scratch"@,
                )
            } else {
                None
            },
            (ScratchCreation::Lock, CreationReply::Lock { taken }) => if !taken {
                error::protocol_failure("history validation scratch is active"@)
            } else if marker_bytes > limit {
                error::protocol_failure("conversation history scratch exceeds its budget"@)
            } else {
                None
            },
            _ => None,
        },
    }
}

/// The stage behind another one.
pub open spec fn next_creation(stage: ScratchCreation) -> ScratchCreation {
    match stage {
        ScratchCreation::Space => ScratchCreation::Directory,
        ScratchCreation::Directory => ScratchCreation::Identity,
        ScratchCreation::Identity => ScratchCreation::Marker,
        ScratchCreation::Marker => ScratchCreation::Lease,
        ScratchCreation::Lease => ScratchCreation::Lock,
        ScratchCreation::Lock => ScratchCreation::Created,
        ScratchCreation::Rollback => ScratchCreation::Refused,
        ScratchCreation::Created => ScratchCreation::Created,
        ScratchCreation::Refused => ScratchCreation::Refused,
    }
}

/// The stage once something went wrong: what was made is taken away.
pub open spec fn creation_undone(stage: ScratchCreation) -> ScratchCreation {
    match stage {
        ScratchCreation::Space | ScratchCreation::Directory => ScratchCreation::Refused,
        _ => ScratchCreation::Rollback,
    }
}

impl HistoryScratch {
    /// What went wrong is known wherever something did.
    pub open spec fn wf(self) -> bool {
        match self.stage {
            ScratchCreation::Rollback => self.failures@.len() == 1,
            ScratchCreation::Refused => self.failures@.len() > 0,
            ScratchCreation::Created => self.failures@.len() == 0 && self.marker_bytes
                <= self.limit,
            _ => self.failures@.len() == 0,
        }
    }

    /// A scratch directory of which nothing is made.
    pub fn create_in_root(limit: u64) -> (scratch: HistoryScratch)
        ensures
            scratch.wf(),
            scratch.stage is Space,
            scratch.limit == limit,
            scratch.identity is None,
            scratch.marker_bytes == 0,
            scratch.failures@.len() == 0,
    {
        HistoryScratch {
            stage: ScratchCreation::Space,
            limit,
            identity: None,
            marker_bytes: 0,
            failures: Vec::new(),
        }
    }

    /// The length of the marker, which is known once it was put into words.
    pub fn measure_marker(&mut self, marker_bytes: u64)
        requires
            old(self).wf(),
            old(self).stage is Marker,
        ensures
            final(self).wf(),
            *final(self) == (HistoryScratch { marker_bytes, ..*old(self) }),
    {
        self.marker_bytes = marker_bytes;
    }

    /// Goes on by how the stage came out.
    pub fn advance(&mut self, reply: Result<CreationReply, RuntimeError>)
        requires
            old(self).wf(),
            old(self).stage !is Created,
            old(self).stage !is Refused,
            reply matches Ok(reply) ==> creation_reply_fits(old(self).stage, reply),
        ensures
            final(self).wf(),
            final(self).limit == old(self).limit,
            final(self).marker_bytes == old(self).marker_bytes,
            final(self).identity == (match reply {
                Ok(CreationReply::Identity(identity)) if old(self).stage is Identity => Some(
                    identity,
                ),
                _ => old(self).identity,
            }),
            ({
                let wrong = creation_failure(
                    old(self).stage,
                    old(self).limit,
                    old(self).marker_bytes,
                    reply,
                );
                &&& error::failures_view(final(self).failures@) == error::failures_view(
                    old(self).failures@,
                ) + error::optional_failure(wrong)
                &&& final(self).stage == (if old(self).stage is Rollback || wrong is None {
                    next_creation(old(self).stage)
                } else {
                    creation_undone(old(self).stage)
                })
            }),
    {
        let mut wrong: Option<RuntimeError> = None;
        match reply {
            Err(error) => {
                wrong = Some(error);
            },
            Ok(reply) => {
                match reply {
                    CreationReply::Space(available) => {
                        if self.stage == ScratchCreation::Space && available < self.limit {
                            wrong = Some(
                                protocol(
                                    "insufficient space for conversation history validation scratch",
                                ),
                            );
                        }
                    },
                    CreationReply::Identity(identity) => {
                        if self.stage == ScratchCreation::Identity {
                            self.identity = Some(identity);
                        }
                    },
                    CreationReply::Lock { taken } => {
                        if self.stage == ScratchCreation::Lock {
                            if !taken {
                                wrong = Some(protocol("history validation scratch is active"));
                            } else if self.marker_bytes > self.limit {
                                wrong = Some(
                                    protocol("conversation history scratch exceeds its budget"),
                                );
                            }
                        }
                    },
                    CreationReply::Done => {},
                }
            },
        }
        match wrong {
            Some(error) => {
                self.failures.push(error);
                self.stage = match self.stage {
                    ScratchCreation::Space => ScratchCreation::Refused,
                    ScratchCreation::Directory => ScratchCreation::Refused,
                    ScratchCreation::Rollback => ScratchCreation::Refused,
                    _ => ScratchCreation::Rollback,
                };
            },
            None => {
                self.stage = match self.stage {
                    ScratchCreation::Space => ScratchCreation::Directory,
                    ScratchCreation::Directory => ScratchCreation::Identity,
                    ScratchCreation::Identity => ScratchCreation::Marker,
                    ScratchCreation::Marker => ScratchCreation::Lease,
                    ScratchCreation::Lease => ScratchCreation::Lock,
                    ScratchCreation::Lock => ScratchCreation::Created,
                    ScratchCreation::Rollback => ScratchCreation::Refused,
                    ScratchCreation::Created => ScratchCreation::Created,
                    ScratchCreation::Refused => ScratchCreation::Refused,
                };
            },
        }
        proof {
            let model = creation_failure(
                old(self).stage,
                old(self).limit,
                old(self).marker_bytes,
                reply,
            );
            assert(error::failures_view(self.failures@) =~= error::failures_view(
                old(self).failures@,
            ) + error::optional_failure(model));
        }
    }
}

/// The bytes of a scratch directory that was made: its marker counts against its limit.
pub fn created_usage(scratch: &HistoryScratch) -> (usage: ScratchUsage)
    requires
        scratch.wf(),
        scratch.stage is Created,
    ensures
        usage.wf(),
        usage == (ScratchUsage { current: scratch.marker_bytes, limit: scratch.limit }),
{
    ScratchUsage { current: scratch.marker_bytes, limit: scratch.limit }
}

/// What is wrong with a name while a half-made scratch directory is rolled back.
pub fn check_rollback_member(member: &str) -> (result: Result<(), RuntimeError>)
    ensures
        error::failure(result) == (if !is_scratch_member(member@) {
            error::protocol_failure("history validation scratch contains foreign bytes"@)
        } else if member@ != MARKER_LEAF@ && member@ != LEASE_LEAF@ {
            error::protocol_failure("history validation scratch changed during initialization"@)
        } else {
            None
        }),
{
    if !valid_scratch_member(member) {
        return Err(protocol("history validation scratch contains foreign bytes"));
    }
    if !same_text(member, MARKER_LEAF) && !same_text(member, LEASE_LEAF) {
        return Err(protocol("history validation scratch changed during initialization"));
    }
    Ok(())
}

/// How far taking away a scratch directory has come; each state names what is done
/// next.
pub enum ScratchRemoval {
    /// Open the directory and read its identity.
    Open,
    /// List what it holds.
    List,
    /// Read the marker.
    ReadMarker { members: ScratchMembers },
    /// Try the lease.
    TryLease,
    /// Remove the run files, read the identity again and give up the lease.
    Clear,
    /// Remove the lease and read the identity again.
    RemoveLease,
    /// List what is left.
    ListRest,
    /// Read the marker again.
    RereadMarker,
    /// Remove the marker.
    RemoveMarker,
    /// Read the identity, look for entries and open the directory again.
    InspectEmpty,
    /// Remove the directory.
    RemoveDirectory,
    /// Nothing is left to do.
    Done,
}

/// What doing it gave.
pub enum RemovalReply {
    Opened(Option<DirectoryIdentity>),
    Listed(ScratchMembers),
    Marker(ScratchMarker),
    Lease { taken: bool },
    Identity(DirectoryIdentity),
    Removed,
    Empty { identity: DirectoryIdentity, has_entry: bool, reopened: Option<DirectoryIdentity> },
}

/// Whether a reply is one to what a state does.
pub open spec fn removal_reply_fits(state: ScratchRemoval, reply: RemovalReply) -> bool {
    match state {
        ScratchRemoval::Open => reply is Opened,
        ScratchRemoval::List | ScratchRemoval::ListRest => reply is Listed,
        ScratchRemoval::ReadMarker { .. } | ScratchRemoval::RereadMarker => reply is Marker,
        ScratchRemoval::TryLease => reply is Lease,
        ScratchRemoval::Clear | ScratchRemoval::RemoveLease => reply is Identity,
        ScratchRemoval::RemoveMarker | ScratchRemoval::RemoveDirectory => reply is Removed,
        ScratchRemoval::InspectEmpty => reply is Empty,
        ScratchRemoval::Done => false,
    }
}

/// What follows on a reply.
pub open spec fn removal_step(
    state: ScratchRemoval,
    reply: RemovalReply,
    leaf: Seq<char>,
    expected: DirectoryIdentity,
) -> Result<ScratchRemoval, ErrorModel> {
    match (state, reply) {
        (ScratchRemoval::Open, RemovalReply::Opened(identity)) => match identity {
            None => Err(
                ErrorModel::Protocol("history validation scratch disappeared before cleanup"@),
            ),
            Some(identity) => if identity != expected {
                Err(
                    ErrorModel::Protocol(
                        "history validation scratch identity changed before cleanup"@,
                    ),
                )
            } else {
                Ok(ScratchRemoval::List)
            },
        },
        (ScratchRemoval::List, RemovalReply::Listed(members)) => if members.count == 0 {
            Ok(ScratchRemoval::InspectEmpty)
        } else if !members.marker {
            Err(
                ErrorModel::Protocol(
                    "history validation scratch is missing its marker during cleanup"@,
                ),
            )
        } else {
            Ok(ScratchRemoval::ReadMarker { members })
        },
        (ScratchRemoval::ReadMarker { members }, RemovalReply::Marker(marker)) => if marker_schema_failure(
            marker.schema@,
        ) is Some {
            Err(marker_schema_failure(marker.schema@)->0)
        } else if !marker.names(leaf, expected) {
            Err(ErrorModel::Protocol("history validation scratch marker identity changed"@))
        } else if members.lease {
            Ok(ScratchRemoval::TryLease)
        } else if members.count != 1 {
            Err(
                ErrorModel::Protocol(
                    "history validation scratch is missing its lease during cleanup"@,
                ),
            )
        } else {
            Ok(ScratchRemoval::RemoveMarker)
        },
        (ScratchRemoval::TryLease, RemovalReply::Lease { taken }) => if taken {
            Ok(ScratchRemoval::Clear)
        } else {
            Ok(ScratchRemoval::Done)
        },
        (ScratchRemoval::Clear, RemovalReply::Identity(identity)) => if identity != expected {
            Err(
                ErrorModel::Protocol("history validation scratch identity changed during cleanup"@),
            )
        } else {
            Ok(ScratchRemoval::RemoveLease)
        },
        (ScratchRemoval::RemoveLease, RemovalReply::Identity(identity)) => if identity != expected {
            Err(ErrorModel::Protocol("history validation scratch identity changed after cleanup"@))
        } else {
            Ok(ScratchRemoval::ListRest)
        },
        (ScratchRemoval::ListRest, RemovalReply::Listed(rest)) => if rest.count != 1 || !rest.marker
            || rest.lease {
            Err(ErrorModel::Protocol("history validation scratch changed before removal"@))
        } else {
            Ok(ScratchRemoval::RereadMarker)
        },
        (ScratchRemoval::RereadMarker, RemovalReply::Marker(marker)) => if marker_schema_failure(
            marker.schema@,
        ) is Some {
            Err(marker_schema_failure(marker.schema@)->0)
        } else if !marker.names(leaf, expected) {
            Err(
                ErrorModel::Protocol(
                    "history validation scratch marker identity changed before removal"@,
                ),
            )
        } else {
            Ok(ScratchRemoval::RemoveMarker)
        },
        (ScratchRemoval::RemoveMarker, RemovalReply::Removed) => Ok(ScratchRemoval::InspectEmpty),
        (
            ScratchRemoval::InspectEmpty,
            RemovalReply::Empty { identity, has_entry, reopened },
        ) => if identity != expected {
            Err(ErrorModel::Protocol("history validation scratch identity changed after cleanup"@))
        } else if has_entry {
            Err(ErrorModel::Protocol("history validation scratch changed before removal"@))
        } else {
            match reopened {
                None => Err(
                    ErrorModel::Protocol("history validation scratch disappeared before removal"@),
                ),
                Some(rebound) => if rebound != expected {
                    Err(
                        ErrorModel::Protocol(
                            "history validation scratch was replaced before removal"@,
                        ),
                    )
                } else {
                    Ok(ScratchRemoval::RemoveDirectory)
                },
            }
        },
        (ScratchRemoval::RemoveDirectory, RemovalReply::Removed) => Ok(ScratchRemoval::Done),
        (state, _) => Ok(state),
    }
}

/// Whether an outcome is the one that a model gives.
pub open spec fn removal_agrees(
    result: Result<ScratchRemoval, RuntimeError>,
    model: Result<ScratchRemoval, ErrorModel>,
) -> bool {
    match model {
        Ok(state) => result == Ok::<ScratchRemoval, RuntimeError>(state),
        Err(error) => error::failure(result) == Some(error),
    }
}

/// Takes the next step in taking away a scratch directory.
pub fn remove_scratch_dir(
    state: ScratchRemoval,
    reply: RemovalReply,
    leaf: &str,
    expected: DirectoryIdentity,
) -> (result: Result<ScratchRemoval, RuntimeError>)
    requires
        removal_reply_fits(state, reply),
    ensures
        removal_agrees(result, removal_step(state, reply, leaf@, expected)),
{
    match (state, reply) {
        (ScratchRemoval::Open, RemovalReply::Opened(identity)) => match identity {
            None => Err(protocol("history validation scratch disappeared before cleanup")),
            Some(identity) => {
                if identity != expected {
                    return Err(
                        protocol("history validation scratch identity changed before cleanup"),
                    );
                }
                Ok(ScratchRemoval::List)
            },
        },
        (ScratchRemoval::List, RemovalReply::Listed(members)) => {
            if members.count == 0 {
                return Ok(ScratchRemoval::InspectEmpty);
            }
            if !members.marker {
                return Err(
                    protocol("history validation scratch is missing its marker during cleanup"),
                );
            }
            Ok(ScratchRemoval::ReadMarker { members })
        },
        (ScratchRemoval::ReadMarker { members }, RemovalReply::Marker(marker)) => {
            validate_marker_schema(&marker)?;
            if !marker_names(&marker, leaf, expected) {
                return Err(protocol("history validation scratch marker identity changed"));
            }
            if members.lease {
                return Ok(ScratchRemoval::TryLease);
            }
            if members.count != 1 {
                return Err(
                    protocol("history validation scratch is missing its lease during cleanup"),
                );
            }
            Ok(ScratchRemoval::RemoveMarker)
        },
        (ScratchRemoval::TryLease, RemovalReply::Lease { taken }) => {
            if taken {
                Ok(ScratchRemoval::Clear)
            } else {
                Ok(ScratchRemoval::Done)
            }
        },
        (ScratchRemoval::Clear, RemovalReply::Identity(identity)) => {
            if identity != expected {
                return Err(protocol("history validation scratch identity changed during cleanup"));
            }
            Ok(ScratchRemoval::RemoveLease)
        },
        (ScratchRemoval::RemoveLease, RemovalReply::Identity(identity)) => {
            if identity != expected {
                return Err(protocol("history validation scratch identity changed after cleanup"));
            }
            Ok(ScratchRemoval::ListRest)
        },
        (ScratchRemoval::ListRest, RemovalReply::Listed(rest)) => {
            if rest.count != 1 || !rest.marker || rest.lease {
                return Err(protocol("history validation scratch changed before removal"));
            }
            Ok(ScratchRemoval::RereadMarker)
        },
        (ScratchRemoval::RereadMarker, RemovalReply::Marker(marker)) => {
            validate_marker_schema(&marker)?;
            if !marker_names(&marker, leaf, expected) {
                return Err(
                    protocol("history validation scratch marker identity changed before removal"),
                );
            }
            Ok(ScratchRemoval::RemoveMarker)
        },
        (ScratchRemoval::RemoveMarker, RemovalReply::Removed) => Ok(ScratchRemoval::InspectEmpty),
        (
            ScratchRemoval::InspectEmpty,
            RemovalReply::Empty { identity, has_entry, reopened },
        ) => {
            if identity != expected {
                return Err(protocol("history validation scratch identity changed after cleanup"));
            }
            if has_entry {
                return Err(protocol("history validation scratch changed before removal"));
            }
            match reopened {
                None => Err(protocol("history validation scratch disappeared before removal")),
                Some(rebound) => {
                    if rebound != expected {
                        return Err(
                            protocol("history validation scratch was replaced before removal"),
                        );
                    }
                    Ok(ScratchRemoval::RemoveDirectory)
                },
            }
        },
        (ScratchRemoval::RemoveDirectory, RemovalReply::Removed) => Ok(ScratchRemoval::Done),
        (state, _) => Ok(state),
    }
}

/// A scratch directory is removed only where its identity was just confirmed twice
/// and it holds nothing; its files are cleared only under its lease; and its marker
/// goes only where it names the directory and is all that is left.
pub proof fn law_scratch_removal_is_guarded(
    state: ScratchRemoval,
    reply: RemovalReply,
    leaf: Seq<char>,
    expected: DirectoryIdentity,
)
    requires
        removal_reply_fits(state, reply),
    ensures
        removal_step(state, reply, leaf, expected) == Ok::<ScratchRemoval, ErrorModel>(
            ScratchRemoval::RemoveDirectory,
        ) ==> state is InspectEmpty && reply == (RemovalReply::Empty {
            identity: expected,
            has_entry: false,
            reopened: Some(expected),
        }),
        removal_step(state, reply, leaf, expected) == Ok::<ScratchRemoval, ErrorModel>(
            ScratchRemoval::Clear,
        ) ==> reply == (RemovalReply::Lease { taken: true }),
        removal_step(state, reply, leaf, expected) == Ok::<ScratchRemoval, ErrorModel>(
            ScratchRemoval::RemoveMarker,
        ) ==> (reply matches RemovalReply::Marker(marker) && marker.names(leaf, expected)) && (
        state is RereadMarker || (state matches ScratchRemoval::ReadMarker { members }
            && members.count == 1 && !members.lease)),
        removal_step(state, reply, leaf, expected) == Ok::<ScratchRemoval, ErrorModel>(
            ScratchRemoval::RereadMarker,
        ) ==> (reply matches RemovalReply::Listed(rest) && rest.count == 1 && rest.marker
            && !rest.lease),
{
}

/// The members of a scratch directory are accepted exactly where each of them is.
pub proof fn law_every_member_is_looked_at(listed: Seq<ListedName>)
    ensures
        members_failure(listed) is None <==> forall|k: int|
            0 <= k < listed.len() ==> member_failure(#[trigger] listed[k]) is None,
    decreases listed.len(),
{
    if listed.len() > 0 {
        let rest = listed.drop_last();
        law_every_member_is_looked_at(rest);
        assert forall|k: int| 0 <= k < rest.len() implies #[trigger] rest[k] == listed[k] by {}
        assert forall|k: int| 0 <= k < rest.len() implies #[trigger] listed[k] == rest[k] by {}
        assert(listed[listed.len() - 1] == listed.last());
    }
}

} // verus!

//! Pages of conversation status: which conversations come next, how many fit on a
//! page, and how a page is written.

use crate::contract::{validate_id, Checked, CONVERSATION_STATUS_PAGE_SCHEMA, MAX_CONVERSATION_SCAN_RECORDS, MAX_CONVERSATION_STATUS_BYTES, MAX_CONVERSATION_STATUS_RECORDS};
use crate::error::{protocol, usage, ErrorModel, RuntimeError};
use crate::error;
use crate::listing::reversed;
use crate::names::{comes_before, SortedNames};
use crate::names;
use crate::runs::page;
use crate::status::summary::{ConversationStatusSummary, SummaryModel, MAX_CONVERSATION_STATUS_SUMMARY_BYTES};
use crate::text::{append_text, chars_of, decimal_text, join2, string_of, strip_prefix};
use crate::text;
use vstd::prelude::*;
use vstd::utf8::*;

verus! {

pub const STATUS_TOKEN_PREFIX: &'static str = "flow-status-v0:";

/// How a page is written.
#[derive(Clone, Copy, Debug, PartialEq, Eq, Structural)]
pub enum EmitMode {
    Human,
    Jsonl,
}

/// The token that continues behind a conversation.
pub open spec fn token_of(conversation_id: Seq<char>) -> Seq<char> {
    STATUS_TOKEN_PREFIX@ + conversation_id
}

/// The token that continues behind a conversation.
pub fn status_token(conversation_id: &str) -> (token: String)
    ensures
        token@ == token_of(conversation_id@),
{
    join2(STATUS_TOKEN_PREFIX, conversation_id)
}

/// What is wrong with a token; `valid` is whether the identifier grammar accepts what
/// stands behind its prefix.
pub open spec fn token_failure(token: Seq<char>, valid: bool) -> Option<ErrorModel> {
    match text::without_prefix(token, STATUS_TOKEN_PREFIX@) {
        None => error::usage_failure("invalid continuation token"@),
        Some(id) => if valid {
            None
        } else {
            error::usage_failure("invalid continuation token id"@)
        },
    }
}

/// The conversation behind which a token continues; `valid` is whether the identifier
/// grammar accepts what stands behind the token's prefix.
pub fn parse_status_token(token: &str, valid: bool) -> (result: Result<String, RuntimeError>)
    ensures
        error::failure(result) == token_failure(token@, valid),
        result matches Ok(id) ==> text::without_prefix(token@, STATUS_TOKEN_PREFIX@) == Some(id@),
{
    let chars = chars_of(token);
    match strip_prefix(&chars, STATUS_TOKEN_PREFIX) {
        None => Err(usage("invalid continuation token")),
        Some(rest) => {
            let id = Checked { text: string_of(&rest), valid };
            proof {
                reveal_strlit("invalid ");
                reveal_strlit("continuation token");
                reveal_strlit(" id");
                reveal_strlit("invalid continuation token id");
                assert("invalid "@ + "continuation token"@ + " id"@
                    =~= "invalid continuation token id"@);
            }
            validate_id(&id, "continuation token")?;
            Ok(id.text)
        },
    }
}

/// A token is accepted where it was made of a valid conversation identifier, and gives
/// it back.
pub proof fn law_token_round_trip(conversation_id: Seq<char>)
    ensures
        token_failure(token_of(conversation_id), true) is None,
        text::without_prefix(token_of(conversation_id), STATUS_TOKEN_PREFIX@) == Some(conversation_id),
{
    let token = token_of(conversation_id);
    let length = STATUS_TOKEN_PREFIX@.len() as int;
    assert(token.take(length) =~= STATUS_TOKEN_PREFIX@);
    assert(token.skip(length) =~= conversation_id);
}

/// How many entries of the inventory have been looked at.
pub struct StatusInventoryBudget {
    pub entries: usize,
}

impl StatusInventoryBudget {
    /// None has been.
    pub fn new() -> (budget: StatusInventoryBudget)
        ensures
            budget.entries == 0,
    {
        StatusInventoryBudget { entries: 0 }
    }

    /// Looks at one more, where one scan may.
    pub fn admit_entry(&mut self) -> (result: Result<(), RuntimeError>)
        requires
            old(self).entries <= MAX_CONVERSATION_SCAN_RECORDS,
        ensures
            error::failure(result) == (if old(self).entries == MAX_CONVERSATION_SCAN_RECORDS {
                error::protocol_failure("conversation status inventory exceeds one scan quantum"@)
            } else {
                None
            }),
            final(self).entries == (if result is Ok {
                old(self).entries + 1
            } else {
                old(self).entries as int
            }),
    {
        if self.entries == MAX_CONVERSATION_SCAN_RECORDS {
            return Err(protocol("conversation status inventory exceeds one scan quantum"));
        }
        self.entries = self.entries + 1;
        Ok(())
    }
}

/// What stands under a name of the inventory.
#[derive(Clone, Copy, Debug, PartialEq, Eq, Structural)]
pub enum EntryKind {
    Link,
    Directory,
    Other,
}

/// An entry of the inventory.
pub enum InventoryEntry {
    /// The inventory could not be read on.
    Failed(RuntimeError),
    /// A name, nothing where it is not valid UTF-8; what stands under it; and whether
    /// the identifier grammar accepts it.
    Found { name: Option<String>, kind: Result<EntryKind, RuntimeError>, valid: bool },
}

/// Whether a conversation comes behind the one that a token names.
pub open spec fn behind(name: Seq<char>, after: Option<Seq<char>>) -> bool {
    match after {
        None => true,
        Some(after) => names::name_before(after, name),
    }
}

/// What is wrong with an entry of the inventory, of which so many stand before it.
pub open spec fn inventory_entry_failure(entry: InventoryEntry, before: int) -> Option<ErrorModel> {
    match entry {
        InventoryEntry::Failed(error) => Some(error@),
        InventoryEntry::Found { name, kind, valid } => if before >= MAX_CONVERSATION_SCAN_RECORDS {
            error::protocol_failure("conversation status inventory exceeds one scan quantum"@)
        } else if name is None {
            error::protocol_failure("conversation directory name must be UTF-8"@)
        } else {
            match kind {
                Err(error) => Some(error@),
                Ok(kind) => if kind == EntryKind::Link {
                    error::protocol_failure("conversation inventory must not contain symlinks"@)
                } else {
                    None
                },
            }
        },
    }
}

/// What is wrong with the inventory, from one of its entries on.
pub open spec fn inventory_failure(entries: Seq<InventoryEntry>, from: int) -> Option<ErrorModel>
    decreases entries.len() - from,
{
    if from < 0 || from >= entries.len() {
        None
    } else {
        error::first_failure(
            inventory_entry_failure(entries[from], from),
            inventory_failure(entries, from + 1),
        )
    }
}

/// Whether an entry is a conversation that a page may hold.
pub open spec fn is_candidate(entry: InventoryEntry, after: Option<Seq<char>>) -> bool {
    match entry {
        InventoryEntry::Failed(_) => false,
        InventoryEntry::Found { name, kind, valid } => name is Some && kind == Ok::<
            EntryKind,
            RuntimeError,
        >(EntryKind::Directory) && valid && behind(name->0@, after),
    }
}

/// The conversations among the first entries that a page may hold.
pub open spec fn candidates(entries: Seq<InventoryEntry>, after: Option<Seq<char>>, count: int) -> Set<
    Seq<char>,
>
    decreases count,
{
    if count <= 0 || count > entries.len() {
        Set::empty()
    } else if is_candidate(entries[count - 1], after) {
        candidates(entries, after, count - 1).insert(entries[count - 1]->name->0@)
    } else {
        candidates(entries, after, count - 1)
    }
}

/// Whether names are the first of a set, in order, as far as they go.
pub open spec fn first_of(names: Seq<Seq<char>>, all: Set<Seq<char>>, limit: int) -> bool {
    &&& names::in_order(names)
    &&& names.len() <= limit
    &&& forall|name: Seq<char>| #[trigger] names.contains(name) ==> all.contains(name)
    &&& forall|name: Seq<char>| #[trigger]
        all.contains(name) && !names.contains(name) ==> names.len() == limit && names::name_before(
            names.last(),
            name,
        )
}

/// There is one answer to what the first of a set are.
pub proof fn law_first_of_is_unique(
    left: Seq<Seq<char>>,
    right: Seq<Seq<char>>,
    all: Set<Seq<char>>,
    limit: int,
)
    requires
        limit > 0,
        first_of(left, all, limit),
        first_of(right, all, limit),
    ensures
        left == right,
{
    lemma_first_of_covers(left, right, all, limit);
    lemma_first_of_covers(right, left, all, limit);
    assert forall|name: Seq<char>| left.contains(name) <==> right.contains(name) by {
    }
    names::lemma_order_unique(left, right);
}

proof fn lemma_first_of_covers(
    left: Seq<Seq<char>>,
    right: Seq<Seq<char>>,
    all: Set<Seq<char>>,
    limit: int,
)
    requires
        limit > 0,
        first_of(left, all, limit),
        first_of(right, all, limit),
    ensures
        forall|name: Seq<char>| #[trigger] left.contains(name) ==> right.contains(name),
{
    assert forall|name: Seq<char>| #[trigger] left.contains(name) implies right.contains(name) by {
        if !right.contains(name) {
            assert(all.contains(name));
            // The right is full of names that all come before this one, which the left
            // must hold too: one name too many.
            assert forall|k: int| 0 <= k < right.len() implies left.contains(#[trigger] right[k]) by {
                assert(right.contains(right[k]));
                assert(all.contains(right[k]));
                if !left.contains(right[k]) {
                    names::lemma_last_is_greatest(left, name);
                    names::lemma_last_is_greatest(right, right[k]);
                    if name != left.last() {
                        names::lemma_names_transitive(name, left.last(), right[k]);
                    }
                    if right[k] != right.last() {
                        names::lemma_names_transitive(right[k], right.last(), name);
                    }
                    names::lemma_names_ordered(name, right[k]);
                }
            }
            lemma_names_counted(right, left, name);
        }
    }
}

proof fn lemma_names_counted(fewer: Seq<Seq<char>>, more: Seq<Seq<char>>, extra: Seq<char>)
    requires
        names::in_order(fewer),
        names::in_order(more),
        forall|k: int| 0 <= k < fewer.len() ==> more.contains(#[trigger] fewer[k]),
        more.contains(extra),
        !fewer.contains(extra),
    ensures
        fewer.len() < more.len(),
{
    crate::names::lemma_order_counts(fewer);
    crate::names::lemma_order_counts(more);
    let less = fewer.to_set();
    let all = more.to_set();
    assert(less.insert(extra).subset_of(all));
    vstd::set_lib::lemma_len_subset(less.insert(extra), all);
}

proof fn lemma_retained(
    before: Seq<Seq<char>>,
    all: Set<Seq<char>>,
    candidate: Seq<char>,
    with: Seq<Seq<char>>,
    limit: int,
)
    requires
        limit > 0,
        first_of(before, all, limit),
        names::in_order(with),
        names::inserted(before, candidate, with),
    ensures
        first_of(
            if with.len() > limit {
                with.drop_last()
            } else {
                with
            },
            all.insert(candidate),
            limit,
        ),
{
    let kept = if with.len() > limit {
        with.drop_last()
    } else {
        with
    };
    names::lemma_inserted(before, candidate, with, candidate);
    assert forall|name: Seq<char>| #[trigger] kept.contains(name) implies all.insert(
        candidate,
    ).contains(name) by {
        let k = choose|k: int| 0 <= k < kept.len() && kept[k] == name;
        assert(with[k] == name);
        assert(with.contains(name));
        names::lemma_inserted(before, candidate, with, name);
    }
    assert forall|name: Seq<char>| #[trigger]
        all.insert(candidate).contains(name) && !kept.contains(name) implies kept.len() == limit
        && names::name_before(kept.last(), name) by {
        names::lemma_inserted(before, candidate, with, name);
        if with.len() > limit {
            assert(before.len() == limit);
            let last = with.last();
            assert(with[limit - 1] == kept.last());
            assert(names::name_before(kept.last(), last));
            if name != last {
                if with.contains(name) {
                    let k = choose|k: int| 0 <= k < with.len() && with[k] == name;
                    assert(kept[k] == name);
                }
                assert(all.contains(name) && !before.contains(name));
                assert(names::name_before(before.last(), name));
                assert(with.contains(kept.last()));
                names::lemma_inserted(before, candidate, with, kept.last());
                if before.contains(kept.last()) {
                    names::lemma_last_is_greatest(before, kept.last());
                    if kept.last() != before.last() {
                        names::lemma_names_transitive(kept.last(), before.last(), name);
                    }
                } else {
                    names::lemma_names_ordered(kept.last(), last);
                    assert(with.contains(last));
                    names::lemma_inserted(before, candidate, with, last);
                    names::lemma_last_is_greatest(before, last);
                    if last != before.last() {
                        names::lemma_names_transitive(kept.last(), last, before.last());
                    }
                    names::lemma_names_transitive(kept.last(), before.last(), name);
                }
            } else {
                assert(with.contains(last));
            }
        }
    }
}

/// The names that are kept when one more comes: in order, and no more than a page and
/// one.
pub open spec fn retained(before: Seq<Seq<char>>, candidate: Seq<char>, kept: Seq<Seq<char>>) -> bool {
    exists|with: Seq<Seq<char>>|
        #![trigger names::inserted(before, candidate, with)]
        {
            &&& names::inserted(before, candidate, with)
            &&& names::in_order(with)
            &&& kept == (if with.len() > MAX_CONVERSATION_STATUS_RECORDS + 1 {
                with.drop_last()
            } else {
                with
            })
        }
}

/// Keeps a conversation where it is among the first behind the token.
pub fn retain_status_candidate(names: &mut SortedNames, candidate: String, after: Option<&str>)
    requires
        old(names).wf(),
    ensures
        final(names).wf(),
        ({
            let after = match after {
                Some(after) => Some(after@),
                None => None,
            };
            if behind(candidate@, after) {
                retained(old(names)@, candidate@, final(names)@)
            } else {
                final(names)@ == old(names)@
            }
        }),
{
    let eligible = match after {
        None => true,
        Some(after) => comes_before(after, candidate.as_str()),
    };
    if eligible {
        let ghost before = names@;
        names.insert(candidate);
        let ghost with = names@;
        assert(names::inserted(before, candidate@, with) && names::in_order(with));
        if names.len() > MAX_CONVERSATION_STATUS_RECORDS + 1 {
            let _ = names.pop_last();
        }
    }
}

fn look_at_entry(
    names: &mut SortedNames,
    budget: &mut StatusInventoryBudget,
    entry: InventoryEntry,
    after: Option<&str>,
) -> (result: Result<(), RuntimeError>)
    requires
        old(names).wf(),
        old(budget).entries <= MAX_CONVERSATION_SCAN_RECORDS,
    ensures
        final(names).wf(),
        error::failure(result) == inventory_entry_failure(entry, old(budget).entries as int),
        result is Ok ==> final(budget).entries == old(budget).entries + 1,
        final(budget).entries <= MAX_CONVERSATION_SCAN_RECORDS,
        result is Ok ==> {
            let after = match after {
                Some(after) => Some(after@),
                None => None,
            };
            if is_candidate(entry, after) {
                retained(old(names)@, entry->name->0@, final(names)@)
            } else {
                final(names)@ == old(names)@
            }
        },
{
    match entry {
        InventoryEntry::Failed(error) => Err(error),
        InventoryEntry::Found { name, kind, valid } => {
            budget.admit_entry()?;
            let name = match name {
                Some(name) => name,
                None => {
                    return Err(protocol("conversation directory name must be UTF-8"));
                },
            };
            let kind = kind?;
            if kind == EntryKind::Link {
                return Err(protocol("conversation inventory must not contain symlinks"));
            }
            if kind == EntryKind::Directory && valid {
                retain_status_candidate(names, name, after);
            }
            Ok(())
        },
    }
}

/// The conversations that come next, in order, one more than a page holds where there
/// are so many; and whether there are more than a page holds.
pub fn conversation_id_page(entries: Vec<InventoryEntry>, after: Option<&str>) -> (result: Result<
    (Vec<String>, bool),
    RuntimeError,
>)
    ensures
        error::failure(result) == inventory_failure(entries@, 0),
        result matches Ok((names, has_more)) ==> {
            &&& first_of(
                text::texts_view(names@),
                candidates(
                    entries@,
                    match after {
                        Some(after) => Some(after@),
                        None => None,
                    },
                    entries@.len() as int,
                ),
                MAX_CONVERSATION_STATUS_RECORDS + 1,
            )
            &&& has_more == (names@.len() > MAX_CONVERSATION_STATUS_RECORDS)
        },
{
    let ghost all = entries@;
    let ghost from = match after {
        Some(after) => Some(after@),
        None => None,
    };
    let mut names = SortedNames::new();
    let mut budget = StatusInventoryBudget::new();
    let mut pending = reversed(entries);
    while pending.len() > 0
        invariant
            all == entries@,
            from == (match after {
                Some(after) => Some(after@),
                None => None,
            }),
            names.wf(),
            budget.entries <= MAX_CONVERSATION_SCAN_RECORDS,
            budget.entries + pending@.len() == all.len(),
            inventory_failure(all, 0) == inventory_failure(all, budget.entries as int),
            first_of(
                names@,
                candidates(all, from, budget.entries as int),
                MAX_CONVERSATION_STATUS_RECORDS + 1,
            ),
            forall|k: int|
                0 <= k < pending@.len() ==> #[trigger] pending@[k] == all[all.len() - 1 - k],
        decreases pending@.len(),
    {
        let ghost seen = budget.entries as int;
        let ghost prior = names@;
        match pending.pop() {
            None => {},
            Some(entry) => {
                assert(entry == all[seen]);
                look_at_entry(&mut names, &mut budget, entry, after)?;
                proof {
                    if is_candidate(entry, from) {
                        let candidate = entry->name->0@;
                        let with = choose|with: Seq<Seq<char>>|
                            #![trigger names::inserted(prior, candidate, with)]
                            {
                                &&& names::inserted(prior, candidate, with)
                                &&& names::in_order(with)
                                &&& names@ == (if with.len() > MAX_CONVERSATION_STATUS_RECORDS + 1 {
                                    with.drop_last()
                                } else {
                                    with
                                })
                            };
                        lemma_retained(
                            prior,
                            candidates(all, from, seen),
                            candidate,
                            with,
                            MAX_CONVERSATION_STATUS_RECORDS + 1,
                        );
                    }
                }
            },
        }
    }
    let has_more = names.len() > MAX_CONVERSATION_STATUS_RECORDS;
    Ok((names.names, has_more))
}

/// The status of a conversation.
pub struct ConversationStatus {
    pub conversation_id: String,
    pub latest_entry_id: Option<String>,
    pub run_count: usize,
    pub uncertain_attempts: usize,
}

/// The status of a conversation, by its contents.
pub struct StatusModel {
    pub conversation_id: Seq<char>,
    pub latest_entry_id: Option<Seq<char>>,
    pub run_count: usize,
    pub uncertain_attempts: usize,
}

impl View for ConversationStatus {
    type V = StatusModel;

    open spec fn view(&self) -> StatusModel {
        StatusModel {
            conversation_id: self.conversation_id@,
            latest_entry_id: text::optional_view(self.latest_entry_id),
            run_count: self.run_count,
            uncertain_attempts: self.uncertain_attempts,
        }
    }
}

/// Statuses by their contents.
pub open spec fn statuses_view(statuses: Seq<ConversationStatus>) -> Seq<StatusModel> {
    statuses.map_values(|status: ConversationStatus| status@)
}

/// What is wrong with a summary as a status: a count that a size cannot hold.
pub open spec fn status_failure(summary: SummaryModel) -> Option<ErrorModel> {
    if summary.run_count > usize::MAX {
        error::protocol_failure("conversation Run count exceeds this platform"@)
    } else if summary.uncertain_attempts > usize::MAX {
        error::protocol_failure("uncertain attempt count exceeds this platform"@)
    } else {
        None
    }
}

/// The status that a summary gives.
pub fn conversation_status_summary(summary: ConversationStatusSummary) -> (result: Result<
    ConversationStatus,
    RuntimeError,
>)
    ensures
        error::failure(result) == status_failure(summary@),
        result matches Ok(status) ==> status@ == (StatusModel {
            conversation_id: summary@.conversation_id,
            latest_entry_id: summary@.latest_entry_id,
            run_count: summary.run_count as usize,
            uncertain_attempts: summary.uncertain_attempts as usize,
        }),
{
    if summary.run_count > usize::MAX as u64 {
        return Err(protocol("conversation Run count exceeds this platform"));
    }
    if summary.uncertain_attempts > usize::MAX as u64 {
        return Err(protocol("uncertain attempt count exceeds this platform"));
    }
    let latest_entry_id = match summary.latest_entry_id {
        Some(id) => Some(id.text),
        None => None,
    };
    Ok(
        ConversationStatus {
            conversation_id: summary.conversation_id.text,
            latest_entry_id,
            run_count: summary.run_count as usize,
            uncertain_attempts: summary.uncertain_attempts as usize,
        },
    )
}

/// The beginning of a page, up to its conversations. Tokens are made of identifiers,
/// which stand in a page as they are.
pub open spec fn status_head(token: Option<Seq<char>>) -> Seq<char> {
    match token {
        Some(token) => "{\"continuation_token\":\""@ + token + "\",\"conversations\":["@,
        None => "{\"conversations\":["@,
    }
}

/// The end of a page, from its conversations on.
pub open spec fn status_tail() -> Seq<char> {
    "],\"schema\":\""@ + CONVERSATION_STATUS_PAGE_SCHEMA@ + "\"}"@
}

/// A page in its canonical form.
pub open spec fn status_page_text(texts: Seq<Seq<char>>, token: Option<Seq<char>>) -> Seq<char> {
    status_head(token) + page::comma_joined(texts) + status_tail()
}

fn render_status_page(texts: &Vec<String>, token: &Option<String>) -> (page: String)
    ensures
        page@ == status_page_text(text::texts_view(texts@), text::optional_view(*token)),
{
    let mut page = match token {
        Some(token) => {
            let mut head = "{\"continuation_token\":\"".to_owned();
            append_text(&mut head, token.as_str());
            append_text(&mut head, "\",\"conversations\":[");
            head
        },
        None => "{\"conversations\":[".to_owned(),
    };
    let ghost head = status_head(text::optional_view(*token));
    let ghost all = text::texts_view(texts@);
    let mut i: usize = 0;
    assert(all.take(0) =~= Seq::<Seq<char>>::empty());
    assert(page@ =~= head + page::comma_joined(all.take(0)));
    while i < texts.len()
        invariant
            i <= texts.len(),
            all == text::texts_view(texts@),
            page@ == head + page::comma_joined(all.take(i as int)),
        decreases texts.len() - i,
    {
        if i > 0 {
            append_text(&mut page, ",");
        }
        append_text(&mut page, texts[i].as_str());
        proof {
            let more = all.take(i + 1);
            assert(more.drop_last() =~= all.take(i as int));
            assert(more.last() == texts@[i as int]@);
            assert(page@ =~= head + page::comma_joined(more));
        }
        i = i + 1;
    }
    assert(all.take(i as int) =~= all);
    append_text(&mut page, "],\"schema\":\"");
    append_text(&mut page, CONVERSATION_STATUS_PAGE_SCHEMA);
    append_text(&mut page, "\"}");
    assert(page@ =~= head + page::comma_joined(all) + status_tail());
    page
}

/// How many bytes a page has: an empty page with the same token, the conversations,
/// and the commas between them.
pub open spec fn status_bytes(record_bytes: usize, record_count: nat, token: Option<Seq<char>>) -> usize {
    page::size_sum(
        page::size_sum(
            encode_utf8(status_page_text(Seq::empty(), token)).len(),
            record_bytes as nat,
        ) as nat,
        if record_count > 0 {
            (record_count - 1) as nat
        } else {
            0
        },
    )
}

/// How many bytes a page has.
pub fn conversation_status_page_bytes(
    record_bytes: usize,
    record_count: usize,
    continuation_token: &Option<String>,
) -> (bytes: usize)
    ensures
        bytes == status_bytes(record_bytes, record_count as nat, text::optional_view(*continuation_token)),
{
    let none: Vec<String> = Vec::new();
    assert(text::texts_view(none@) =~= Seq::<Seq<char>>::empty());
    let empty = render_status_page(&none, continuation_token);
    empty.as_str().as_bytes().len().saturating_add(record_bytes).saturating_add(
        record_count.saturating_sub(1),
    )
}

/// The size that a page is held to is the size that it has.
pub proof fn law_status_page_size(texts: Seq<Seq<char>>, token: Option<Seq<char>>)
    requires
        encode_utf8(status_page_text(texts, token)).len() <= usize::MAX || page::total_bytes(texts)
            <= usize::MAX && status_bytes(page::total_bytes(texts) as usize, texts.len(), token)
            < usize::MAX,
    ensures
        status_bytes(page::total_bytes(texts) as usize, texts.len(), token) == encode_utf8(
            status_page_text(texts, token),
        ).len(),
{
    let none: Seq<Seq<char>> = Seq::empty();
    page::lemma_comma_joined_bytes(texts);
    page::lemma_comma_joined_bytes(none);
    text::lemma_encode_concat(status_head(token) + page::comma_joined(texts), status_tail());
    text::lemma_encode_concat(status_head(token), page::comma_joined(texts));
    text::lemma_encode_concat(status_head(token) + page::comma_joined(none), status_tail());
    text::lemma_encode_concat(status_head(token), page::comma_joined(none));
}

/// A page of status that is being filled.
pub struct StatusPageBuilder {
    /// The conversations that come next, in order.
    pub candidates: Vec<String>,
    pub conversations: Vec<ConversationStatus>,
    /// The canonical form of each conversation's status.
    pub texts: Vec<String>,
    pub conversation_bytes: usize,
    /// How many conversations the page is to hold at most.
    pub page_candidate_count: usize,
    /// Whether there are more conversations than that.
    pub inventory_has_more: bool,
    /// Whether the page is full before it holds them all.
    pub full: bool,
}

/// A page of status.
pub struct ConversationStatusPage {
    pub schema: String,
    pub conversations: Vec<ConversationStatus>,
    /// The canonical form of each conversation's status.
    pub texts: Vec<String>,
    pub continuation_token: Option<String>,
}

/// The least of two numbers.
pub open spec fn least(left: nat, right: nat) -> nat {
    if left < right {
        left
    } else {
        right
    }
}

impl StatusPageBuilder {
    /// The token of the page when so many conversations are on it, the last of which is
    /// given.
    pub open spec fn token_at(self, count: nat, id: Seq<char>) -> Option<Seq<char>> {
        if self.inventory_has_more || count < self.page_candidate_count {
            Some(token_of(id))
        } else {
            None
        }
    }

    /// The page fits, and counts what it holds: the status of the first conversations that
    /// come next.
    pub open spec fn wf(self) -> bool {
        &&& self.texts@.len() == self.conversations@.len()
        &&& self.conversations.len() <= self.page_candidate_count
        &&& self.page_candidate_count == least(
            self.candidates@.len(),
            MAX_CONVERSATION_STATUS_RECORDS as nat,
        )
        &&& forall|k: int|
            0 <= k < self.conversations@.len() ==> (#[trigger] self.conversations@[k]).conversation_id@
                == self.candidates@[k]@
        &&& self.conversation_bytes == page::total_bytes(text::texts_view(self.texts@))
        &&& self.full ==> self.conversations.len() < self.page_candidate_count
        &&& self.conversations@.len() > 0 ==> status_bytes(
            self.conversation_bytes,
            self.conversations@.len(),
            self.token_at(
                self.conversations@.len(),
                self.conversations@.last().conversation_id@,
            ),
        ) <= MAX_CONVERSATION_STATUS_BYTES
    }

    /// A page on which there is nothing yet.
    pub fn conversation_status_page(candidates: Vec<String>, inventory_has_more: bool) -> (builder: StatusPageBuilder)
        ensures
            builder.wf(),
            builder.candidates == candidates,
            builder.conversations@.len() == 0,
            builder.inventory_has_more == inventory_has_more,
            !builder.full,
    {
        let candidate_count: usize = candidates.len();
        let page_candidate_count: usize = if candidate_count < MAX_CONVERSATION_STATUS_RECORDS {
            candidate_count
        } else {
            MAX_CONVERSATION_STATUS_RECORDS
        };
        let builder = StatusPageBuilder {
            candidates,
            conversations: Vec::new(),
            texts: Vec::new(),
            conversation_bytes: 0,
            page_candidate_count,
            inventory_has_more,
            full: false,
        };
        assert(text::texts_view(builder.texts@) =~= Seq::<Seq<char>>::empty());
        builder
    }

    /// Whether the page takes another conversation.
    pub open spec fn wants(self) -> bool {
        !self.full && self.conversations@.len() < self.page_candidate_count
    }

    /// Whether the page takes another conversation.
    pub fn wants_more(&self) -> (wants: bool)
        ensures
            wants == self.wants(),
    {
        !self.full && self.conversations.len() < self.page_candidate_count
    }

    /// The conversation whose status the page takes next.
    pub fn next_conversation(&self) -> (id: Option<&String>)
        requires
            self.wf(),
        ensures
            id == (if self.wants() {
                Some(&self.candidates@[self.conversations@.len() as int])
            } else {
                None
            }),
    {
        if self.wants_more() {
            Some(&self.candidates[self.conversations.len()])
        } else {
            None
        }
    }

    /// Whether a conversation fits on the page behind the others.
    pub open spec fn fits(self, id: Seq<char>, canonical: Seq<char>) -> bool {
        status_bytes(
            page::size_sum(self.conversation_bytes as nat, encode_utf8(canonical).len()),
            self.conversations@.len() + 1,
            self.token_at(self.conversations@.len() + 1, id),
        ) <= MAX_CONVERSATION_STATUS_BYTES
    }

    /// Puts the conversation that comes next on the page where it fits; the page is full
    /// where it does not.
    pub fn add_status(&mut self, status: ConversationStatus, canonical: String)
        requires
            old(self).wf(),
            old(self).wants(),
            status.conversation_id@ == old(self).candidates@[old(self).conversations@.len() as int]@,
        ensures
            final(self).wf(),
            final(self).candidates == old(self).candidates,
            final(self).page_candidate_count == old(self).page_candidate_count,
            final(self).inventory_has_more == old(self).inventory_has_more,
            final(self).full == !old(self).fits(status.conversation_id@, canonical@),
            if final(self).full {
                &&& final(self).conversations@ == old(self).conversations@
                &&& final(self).texts@ == old(self).texts@
                &&& final(self).conversation_bytes == old(self).conversation_bytes
            } else {
                &&& final(self).conversations@ == old(self).conversations@.push(status)
                &&& final(self).texts@ == old(self).texts@.push(canonical)
            },
    {
        let status_bytes: usize = canonical.as_str().as_bytes().len();
        let count: usize = self.conversations.len() + 1;
        let candidate_token = if self.inventory_has_more || count < self.page_candidate_count {
            Some(status_token(status.conversation_id.as_str()))
        } else {
            None
        };
        let candidate_bytes: usize = self.conversation_bytes.saturating_add(status_bytes);
        let ghost before = text::texts_view(self.texts@);
        if conversation_status_page_bytes(candidate_bytes, count, &candidate_token)
            > MAX_CONVERSATION_STATUS_BYTES {
            self.full = true;
        } else {
            self.conversations.push(status);
            self.texts.push(canonical);
            self.conversation_bytes = candidate_bytes;
            proof {
                let now = text::texts_view(self.texts@);
                assert(now =~= before.push(canonical@));
                assert(now.drop_last() =~= before);
                assert(candidate_bytes < usize::MAX);
            }
        }
    }

    /// Whether conversations are left for a later page.
    pub open spec fn has_more(self) -> bool {
        self.full || self.inventory_has_more
    }

    /// The page as far as it is filled.
    pub fn finish(self) -> (page: ConversationStatusPage)
        requires
            self.wf(),
            !self.wants(),
        ensures
            page.schema@ == CONVERSATION_STATUS_PAGE_SCHEMA@,
            page.conversations == self.conversations,
            page.texts == self.texts,
            text::optional_view(page.continuation_token) == (if self.has_more()
                && self.conversations@.len() > 0 {
                Some(token_of(self.conversations@.last().conversation_id@))
            } else {
                None
            }),
            encode_utf8(
                status_page_text(text::texts_view(page.texts@), text::optional_view(page.continuation_token)),
            ).len() <= MAX_CONVERSATION_STATUS_BYTES,
    {
        let count: usize = self.conversations.len();
        let continuation_token = if (self.full || self.inventory_has_more) && count > 0 {
            Some(status_token(self.conversations[count - 1].conversation_id.as_str()))
        } else {
            None
        };
        proof {
            let texts = text::texts_view(self.texts@);
            let token = text::optional_view(continuation_token);
            if count > 0 {
                assert(self.has_more() ==> token == self.token_at(
                    self.conversations@.len(),
                    self.conversations@.last().conversation_id@,
                ));
            } else {
                assert(texts =~= Seq::<Seq<char>>::empty());
                lemma_empty_page_is_small();
            }
            law_status_page_size(texts, token);
        }
        ConversationStatusPage {
            schema: CONVERSATION_STATUS_PAGE_SCHEMA.to_owned(),
            conversations: self.conversations,
            texts: self.texts,
            continuation_token,
        }
    }
}

proof fn lemma_ascii_bytes(text: Seq<char>)
    ensures
        encode_utf8(text).len() <= 4 * text.len(),
    decreases text.len(),
{
    if text.len() > 0 {
        lemma_ascii_bytes(text.drop_first());
    }
}

proof fn lemma_empty_page_is_small()
    ensures
        encode_utf8(status_page_text(Seq::empty(), None)).len() <= 400,
{
    reveal_strlit("{\"conversations\":[");
    reveal_strlit("],\"schema\":\"");
    reveal_strlit("flow-conversation-status-page-v0");
    reveal_strlit("\"}");
    lemma_ascii_bytes(status_page_text(Seq::empty(), None));
}

proof fn lemma_token_page_is_small(id: Seq<char>)
    ensures
        encode_utf8(status_page_text(Seq::empty(), Some(token_of(id)))).len() <= 1000 + encode_utf8(
            id,
        ).len(),
{
    reveal_strlit("{\"continuation_token\":\"");
    reveal_strlit("flow-status-v0:");
    reveal_strlit("\",\"conversations\":[");
    reveal_strlit("],\"schema\":\"");
    reveal_strlit("flow-conversation-status-page-v0");
    reveal_strlit("\"}");
    let none: Seq<Seq<char>> = Seq::empty();
    let opening = "{\"continuation_token\":\""@ + STATUS_TOKEN_PREFIX@;
    let rest = "\",\"conversations\":["@ + page::comma_joined(none) + status_tail();
    assert(status_page_text(none, Some(token_of(id))) =~= opening + id + rest);
    text::lemma_encode_concat(opening + id, rest);
    text::lemma_encode_concat(opening, id);
    lemma_ascii_bytes(opening);
    lemma_ascii_bytes(rest);
}

/// A page always holds the first conversation that is offered to it, and so pages go
/// on: the status of a conversation is no larger than its summary may be.
pub proof fn law_status_pages_progress(page: StatusPageBuilder, id: Seq<char>, canonical: Seq<char>)
    requires
        page.wf(),
        page.conversations@.len() == 0,
        encode_utf8(canonical).len() <= MAX_CONVERSATION_STATUS_SUMMARY_BYTES,
        encode_utf8(id).len() <= MAX_CONVERSATION_STATUS_SUMMARY_BYTES,
    ensures
        page.fits(id, canonical),
{
    assert(text::texts_view(page.texts@) =~= Seq::<Seq<char>>::empty());
    lemma_empty_page_is_small();
    lemma_token_page_is_small(id);
}

/// The conversations on a page.
pub open spec fn page_names(conversations: Seq<ConversationStatus>) -> Seq<Seq<char>> {
    Seq::new(conversations.len(), |k: int| conversations[k].conversation_id@)
}

/// Whether a page is the one behind a token, when these are the conversations: the first
/// of them that come behind it, all of them where no page is to follow.
pub open spec fn is_page_behind(
    page: Seq<Seq<char>>,
    more: bool,
    entries: Seq<InventoryEntry>,
    after: Option<Seq<char>>,
) -> bool {
    exists|names: Seq<Seq<char>>|
        {
            &&& #[trigger] first_of(
                names,
                candidates(entries, after, entries.len() as int),
                MAX_CONVERSATION_STATUS_RECORDS + 1,
            )
            &&& page.len() <= names.len()
            &&& page == names.take(page.len() as int)
            &&& more ==> page.len() > 0
            &&& !more ==> page == names && names.len() <= MAX_CONVERSATION_STATUS_RECORDS
        }
}

/// A page holds the first conversations behind its token, in ascending order, and names
/// the last of them in its own token where any are left.
pub proof fn law_page_is_behind_its_token(
    page: StatusPageBuilder,
    entries: Seq<InventoryEntry>,
    after: Option<Seq<char>>,
)
    requires
        page.wf(),
        !page.wants(),
        first_of(
            text::texts_view(page.candidates@),
            candidates(entries, after, entries.len() as int),
            MAX_CONVERSATION_STATUS_RECORDS + 1,
        ),
        page.inventory_has_more == (page.candidates@.len() > MAX_CONVERSATION_STATUS_RECORDS),
        page.has_more() ==> page.conversations@.len() > 0,
    ensures
        is_page_behind(page_names(page.conversations@), page.has_more(), entries, after),
{
    let names = text::texts_view(page.candidates@);
    let held = page_names(page.conversations@);
    assert(held =~= names.take(held.len() as int));
    if !page.has_more() {
        assert(held =~= names);
    }
}

/// The names on pages, one page behind the other.
pub open spec fn joined_pages(pages: Seq<Seq<Seq<char>>>) -> Seq<Seq<char>>
    decreases pages.len(),
{
    if pages.len() == 0 {
        Seq::empty()
    } else {
        joined_pages(pages.drop_last()) + pages.last()
    }
}

/// Whether pages follow each other: each is the one behind the last conversation of the
/// page before it.
pub open spec fn pages_follow(
    pages: Seq<Seq<Seq<char>>>,
    more: bool,
    entries: Seq<InventoryEntry>,
) -> bool
    decreases pages.len(),
{
    pages.len() == 0 || {
        let before = pages.drop_last();
        &&& pages_follow(before, true, entries)
        &&& is_page_behind(
            pages.last(),
            more,
            entries,
            if before.len() == 0 {
                None
            } else {
                Some(before.last().last())
            },
        )
    }
}

proof fn lemma_candidates_behind(
    entries: Seq<InventoryEntry>,
    after: Option<Seq<char>>,
    count: int,
    name: Seq<char>,
)
    requires
        count <= entries.len(),
    ensures
        candidates(entries, after, count).contains(name) == (candidates(
            entries,
            None,
            count,
        ).contains(name) && behind(name, after)),
    decreases count,
{
    if count > 0 {
        lemma_candidates_behind(entries, after, count - 1, name);
    }
}

proof fn lemma_page_goes_on(
    before: Seq<Seq<char>>,
    page: Seq<Seq<char>>,
    more: bool,
    entries: Seq<InventoryEntry>,
)
    requires
        names::in_order(before),
        ({
            let all = candidates(entries, None, entries.len() as int);
            &&& forall|name: Seq<char>| #[trigger] before.contains(name) ==> all.contains(name)
            &&& forall|name: Seq<char>| #[trigger]
                all.contains(name) && !before.contains(name) ==> before.len() == 0
                    || names::name_before(before.last(), name)
        }),
        is_page_behind(
            page,
            more,
            entries,
            if before.len() == 0 {
                None
            } else {
                Some(before.last())
            },
        ),
    ensures
        names::in_order(before + page),
        ({
            let all = candidates(entries, None, entries.len() as int);
            let now = before + page;
            &&& forall|name: Seq<char>| #[trigger] now.contains(name) ==> all.contains(name)
            &&& forall|name: Seq<char>| #[trigger]
                all.contains(name) && !now.contains(name) ==> more && names::name_before(
                    now.last(),
                    name,
                )
        }),
        more ==> page.len() > 0,
{
    let all = candidates(entries, None, entries.len() as int);
    let after = if before.len() == 0 {
        None
    } else {
        Some(before.last())
    };
    let next = candidates(entries, after, entries.len() as int);
    let names = choose|names: Seq<Seq<char>>|
        {
            &&& #[trigger] first_of(names, next, MAX_CONVERSATION_STATUS_RECORDS + 1)
            &&& page.len() <= names.len()
            &&& page == names.take(page.len() as int)
            &&& more ==> page.len() > 0
            &&& !more ==> page == names && names.len() <= MAX_CONVERSATION_STATUS_RECORDS
        };
    let now = before + page;
    assert forall|k: int| 0 <= k < page.len() implies all.contains(#[trigger] page[k]) && behind(
        page[k],
        after,
    ) by {
        assert(page[k] == names[k]);
        assert(names.contains(names[k]));
        lemma_candidates_behind(entries, after, entries.len() as int, page[k]);
    }
    assert forall|i: int, j: int| 0 <= i < j < now.len() implies #[trigger] names::name_before(
        now[i],
        now[j],
    ) by {
        if j < before.len() {
            assert(names::name_before(before[i], before[j]));
        } else if i >= before.len() {
            assert(names::name_before(names[i - before.len()], names[j - before.len()]));
        } else {
            assert(behind(page[j - before.len()], after));
            if i < before.len() - 1 {
                assert(names::name_before(before[i], before[before.len() - 1]));
                names::lemma_names_transitive(now[i], before.last(), now[j]);
            }
        }
    }
    assert forall|name: Seq<char>| #[trigger] now.contains(name) implies all.contains(name) by {
        let k = choose|k: int| 0 <= k < now.len() && now[k] == name;
        if k < before.len() {
            assert(before.contains(name));
        } else {
            assert(page[k - before.len()] == name);
        }
    }
    assert forall|name: Seq<char>| #[trigger] all.contains(name) && !now.contains(name) implies more
        && names::name_before(now.last(), name) by {
        if before.contains(name) {
            let k = choose|k: int| 0 <= k < before.len() && before[k] == name;
            assert(now[k] == name);
        }
        lemma_candidates_behind(entries, after, entries.len() as int, name);
        assert(next.contains(name));
        if names.contains(name) {
            let k = choose|k: int| 0 <= k < names.len() && names[k] == name;
            if k < page.len() {
                assert(now[before.len() + k] == name);
            }
            assert(names::name_before(names[page.len() - 1], names[k]));
        } else {
            assert(names::name_before(names.last(), name));
            if page.len() < names.len() {
                assert(names::name_before(names[page.len() - 1], names[names.len() - 1]));
                names::lemma_names_transitive(page.last(), names.last(), name);
            }
        }
    }
}

proof fn lemma_pages_go_on(pages: Seq<Seq<Seq<char>>>, more: bool, entries: Seq<InventoryEntry>)
    requires
        pages.len() > 0,
        pages_follow(pages, more, entries),
    ensures
        names::in_order(joined_pages(pages)),
        ({
            let all = candidates(entries, None, entries.len() as int);
            let held = joined_pages(pages);
            &&& forall|name: Seq<char>| #[trigger] held.contains(name) ==> all.contains(name)
            &&& forall|name: Seq<char>| #[trigger]
                all.contains(name) && !held.contains(name) ==> more && names::name_before(
                    held.last(),
                    name,
                )
            &&& more ==> held.len() > 0 && held.last() == pages.last().last()
        }),
    decreases pages.len(),
{
    let before = pages.drop_last();
    let held = joined_pages(before);
    if before.len() > 0 {
        lemma_pages_go_on(before, true, entries);
    } else {
        assert(held =~= Seq::<Seq<char>>::empty());
    }
    lemma_page_goes_on(held, pages.last(), more, entries);
}

/// Pages that follow each other from the first one until no page is to follow hold every
/// conversation once, in ascending order.
pub proof fn law_pages_hold_every_conversation(
    pages: Seq<Seq<Seq<char>>>,
    entries: Seq<InventoryEntry>,
)
    requires
        pages.len() > 0,
        pages_follow(pages, false, entries),
    ensures
        names::in_order(joined_pages(pages)),
        forall|name: Seq<char>| #[trigger]
            joined_pages(pages).contains(name) <==> candidates(
                entries,
                None,
                entries.len() as int,
            ).contains(name),
{
    lemma_pages_go_on(pages, false, entries);
}

/// The line of a conversation on a page for people.
pub open spec fn status_line_text(status: StatusModel) -> Seq<char> {
    "conversation "@ + status.conversation_id + ": "@ + text::decimal(status.run_count as nat)
        + " runs, "@ + text::decimal(status.uncertain_attempts as nat) + " uncertain attempts"@ + (
    match status.latest_entry_id {
        Some(entry) => ", latest entry "@ + entry,
        None => Seq::empty(),
    }) + "\n"@
}

/// The lines of the conversations on a page for people.
pub open spec fn status_lines_text(statuses: Seq<StatusModel>) -> Seq<char>
    decreases statuses.len(),
{
    if statuses.len() == 0 {
        Seq::empty()
    } else {
        status_lines_text(statuses.drop_last()) + status_line_text(statuses.last())
    }
}

/// What a page for people says of the conversations that are left.
pub open spec fn more_text(token: Option<Seq<char>>) -> Seq<char> {
    match token {
        Some(token) =>
            "more conversations available; continue with flow sessions status --emit jsonl --continuation-token "@
            + token + "\n"@,
        None => Seq::empty(),
    }
}

fn append_status_line(output: &mut String, status: &ConversationStatus)
    ensures
        final(output)@ == old(output)@ + status_line_text(status@),
{
    append_text(output, "conversation ");
    append_text(output, status.conversation_id.as_str());
    append_text(output, ": ");
    let runs = decimal_text(status.run_count as u64);
    append_text(output, runs.as_str());
    append_text(output, " runs, ");
    let uncertain = decimal_text(status.uncertain_attempts as u64);
    append_text(output, uncertain.as_str());
    append_text(output, " uncertain attempts");
    if let Some(entry) = &status.latest_entry_id {
        append_text(output, ", latest entry ");
        append_text(output, entry.as_str());
    }
    append_text(output, "\n");
    assert(output@ =~= old(output)@ + status_line_text(status@));
}

/// Writes a page: as one line of canonical JSON, or for people.
pub fn conversation_status(page: &ConversationStatusPage, emit: EmitMode) -> (output: String)
    ensures
        output@ == (match emit {
            EmitMode::Jsonl => status_page_text(
                text::texts_view(page.texts@),
                text::optional_view(page.continuation_token),
            ) + "\n"@,
            EmitMode::Human => status_lines_text(statuses_view(page.conversations@)) + more_text(
                text::optional_view(page.continuation_token),
            ),
        }),
{
    match emit {
        EmitMode::Jsonl => {
            let text = render_status_page(&page.texts, &page.continuation_token);
            join2(text.as_str(), "\n")
        },
        EmitMode::Human => {
            let mut output = String::new();
            let ghost all = statuses_view(page.conversations@);
            let mut i: usize = 0;
            assert(all.take(0) =~= Seq::<StatusModel>::empty());
            assert(output@ =~= status_lines_text(all.take(0)));
            while i < page.conversations.len()
                invariant
                    i <= page.conversations.len(),
                    all == statuses_view(page.conversations@),
                    output@ == status_lines_text(all.take(i as int)),
                decreases page.conversations.len() - i,
            {
                append_status_line(&mut output, &page.conversations[i]);
                proof {
                    let more = all.take(i + 1);
                    assert(more.drop_last() =~= all.take(i as int));
                    assert(more.last() == page.conversations@[i as int]@);
                }
                i = i + 1;
            }
            assert(all.take(i as int) =~= all);
            let ghost lines = output@;
            match &page.continuation_token {
                Some(token) => {
                    append_text(
                        &mut output,
                        "more conversations available; continue with flow sessions status --emit jsonl --continuation-token ",
                    );
                    append_text(&mut output, token.as_str());
                    append_text(&mut output, "\n");
                },
                None => {},
            }
            assert(output@ =~= lines + more_text(text::optional_view(page.continuation_token)));
            output
        },
    }
}

proof fn lemma_lines_of_parts(left: Seq<StatusModel>, right: Seq<StatusModel>)
    ensures
        status_lines_text(left + right) == status_lines_text(left) + status_lines_text(right),
    decreases right.len(),
{
    if right.len() == 0 {
        assert(left + right =~= left);
        assert(status_lines_text(left) + status_lines_text(right) =~= status_lines_text(left));
    } else {
        lemma_lines_of_parts(left, right.drop_last());
        assert((left + right).drop_last() =~= left + right.drop_last());
        assert((left + right).last() == right.last());
        assert(status_lines_text(left + right) =~= status_lines_text(left) + status_lines_text(
            right,
        ));
    }
}

/// A page for people holds one line for every conversation on it, in the order of the page:
/// what is written of a page is what is written of those before any of them, then its own
/// line, then what is written of those behind it. The line says which conversation it is,
/// how many runs it has, how many of its attempts are uncertain, and its latest entry.
pub proof fn law_every_conversation_has_its_line(statuses: Seq<StatusModel>, k: int)
    requires
        0 <= k < statuses.len(),
    ensures
        status_lines_text(statuses) == status_lines_text(statuses.take(k)) + status_lines_text(
            seq![statuses[k]],
        ) + status_lines_text(statuses.skip(k + 1)),
        status_lines_text(seq![statuses[k]]) == "conversation "@ + statuses[k].conversation_id
            + ": "@ + text::decimal(statuses[k].run_count as nat) + " runs, "@ + text::decimal(
            statuses[k].uncertain_attempts as nat,
        ) + " uncertain attempts"@ + (if statuses[k].latest_entry_id is Some {
            ", latest entry "@ + statuses[k].latest_entry_id->0
        } else {
            Seq::empty()
        }) + "\n"@,
{
    let (head, one, tail) = (statuses.take(k), seq![statuses[k]], statuses.skip(k + 1));
    assert(statuses =~= (head + one) + tail);
    lemma_lines_of_parts(head + one, tail);
    lemma_lines_of_parts(head, one);
    assert(one.drop_last() =~= Seq::<StatusModel>::empty());
    assert(status_lines_text(one.drop_last()) =~= Seq::<char>::empty());
    assert(status_lines_text(one) =~= status_line_text(statuses[k]));
}

/// How many ends of lines a text has.
pub open spec fn line_ends(text: Seq<char>) -> nat
    decreases text.len(),
{
    if text.len() == 0 {
        0
    } else {
        line_ends(text.drop_last()) + (if text.last() == '\n' {
            1nat
        } else {
            0
        })
    }
}

proof fn lemma_line_ends_add(left: Seq<char>, right: Seq<char>)
    ensures
        line_ends(left + right) == line_ends(left) + line_ends(right),
    decreases right.len(),
{
    if right.len() == 0 {
        assert(left + right =~= left);
    } else {
        assert((left + right).drop_last() =~= left + right.drop_last());
        lemma_line_ends_add(left, right.drop_last());
    }
}

proof fn lemma_every_line_ends(status: StatusModel)
    ensures
        line_ends(status_line_text(status)) >= 1,
{
    reveal_strlit("\n");
    let text = status_line_text(status);
    assert("\n"@ =~= seq!['\n']);
    assert(text.last() == '\n');
}

/// A page for people has at least as many lines as there are conversations on it.
pub proof fn law_page_has_a_line_for_each(statuses: Seq<StatusModel>)
    ensures
        line_ends(status_lines_text(statuses)) >= statuses.len(),
    decreases statuses.len(),
{
    if statuses.len() > 0 {
        law_page_has_a_line_for_each(statuses.drop_last());
        lemma_every_line_ends(statuses.last());
        lemma_line_ends_add(
            status_lines_text(statuses.drop_last()),
            status_line_text(statuses.last()),
        );
    }
}

/// A page in JSON names the conversations behind which it continues, holds the canonical form
/// of each conversation in the order of the page, one comma between each two, and its schema.
pub proof fn law_page_in_json(texts: Seq<Seq<char>>, token: Option<Seq<char>>, k: int)
    requires
        0 <= k < texts.len(),
    ensures
        status_page_text(texts, token) == (match token {
            Some(token) => "{\"continuation_token\":\""@ + token + "\",\"conversations\":["@,
            None => "{\"conversations\":["@,
        }) + (page::comma_joined(texts.take(k)) + (if k > 0 {
            ","@
        } else {
            Seq::empty()
        }) + texts[k] + (if k + 1 < texts.len() {
            ","@
        } else {
            Seq::empty()
        }) + page::comma_joined(texts.skip(k + 1))) + ("],\"schema\":\""@
            + CONVERSATION_STATUS_PAGE_SCHEMA@ + "\"}"@),
{
    page::law_joined_texts_hold_each(texts, k);
}

proof fn lemma_candidates(entries: Seq<InventoryEntry>, after: Option<Seq<char>>, count: int)
    requires
        0 <= count <= entries.len(),
    ensures
        forall|name: Seq<char>| #[trigger]
            candidates(entries, after, count).contains(name) <==> exists|k: int|
                0 <= k < count && is_candidate(#[trigger] entries[k], after)
                    && entries[k]->name->0@ == name,
    decreases count,
{
    if count > 0 {
        lemma_candidates(entries, after, count - 1);
        let all = candidates(entries, after, count);
        let fewer = candidates(entries, after, count - 1);
        let last = entries[count - 1];
        assert forall|name: Seq<char>| #[trigger] all.contains(name) <==> exists|k: int|
            0 <= k < count && is_candidate(#[trigger] entries[k], after) && entries[k]->name->0@
                == name by {
            if all.contains(name) && !fewer.contains(name) {
                assert(is_candidate(entries[count - 1], after));
            }
            if fewer.contains(name) {
                let k = choose|k: int|
                    0 <= k < count - 1 && is_candidate(#[trigger] entries[k], after)
                        && entries[k]->name->0@ == name;
                assert(is_candidate(entries[k], after));
            }
        }
    }
}

/// The conversations that pages may hold are exactly the directories of the inventory whose
/// names are valid identifiers and, where there is a token, come behind the one that it
/// names.
pub proof fn law_candidates_are_the_conversations(
    entries: Seq<InventoryEntry>,
    after: Option<Seq<char>>,
    name: Seq<char>,
)
    ensures
        candidates(entries, after, entries.len() as int).contains(name) <==> exists|k: int|
            #![trigger entries[k]]
            {
                &&& 0 <= k < entries.len()
                &&& entries[k] is Found
                &&& entries[k]->valid
                &&& entries[k]->name is Some
                &&& entries[k]->name->0@ == name
                &&& entries[k]->kind == Ok::<EntryKind, RuntimeError>(EntryKind::Directory)
                &&& after is Some ==> names::name_before(after->0, name)
            },
{
    lemma_candidates(entries, after, entries.len() as int);
    let all = candidates(entries, after, entries.len() as int);
    if all.contains(name) {
        let k = choose|k: int|
            0 <= k < entries.len() && is_candidate(#[trigger] entries[k], after)
                && entries[k]->name->0@ == name;
        assert(entries[k] is Found);
    }
    if exists|k: int|
        #![trigger entries[k]]
        {
            &&& 0 <= k < entries.len()
            &&& entries[k] is Found
            &&& entries[k]->valid
            &&& entries[k]->name is Some
            &&& entries[k]->name->0@ == name
            &&& entries[k]->kind == Ok::<EntryKind, RuntimeError>(EntryKind::Directory)
            &&& after is Some ==> names::name_before(after->0, name)
        } {
        let k = choose|k: int|
            #![trigger entries[k]]
            {
                &&& 0 <= k < entries.len()
                &&& entries[k] is Found
                &&& entries[k]->valid
                &&& entries[k]->name is Some
                &&& entries[k]->name->0@ == name
                &&& entries[k]->kind == Ok::<EntryKind, RuntimeError>(EntryKind::Directory)
                &&& after is Some ==> names::name_before(after->0, name)
            };
        assert(is_candidate(entries[k], after));
    }
}

/// An inventory is accepted exactly where it could be read to its end, is no longer than one
/// scan, and holds only names that are text and no links.
pub proof fn law_inventory_is_accepted(entries: Seq<InventoryEntry>)
    ensures
        inventory_failure(entries, 0) is None <==> forall|k: int|
            0 <= k < entries.len() ==> {
                &&& (#[trigger] entries[k]) is Found
                &&& k < MAX_CONVERSATION_SCAN_RECORDS
                &&& entries[k]->name is Some
                &&& entries[k]->kind is Ok
                &&& entries[k]->kind->Ok_0 != EntryKind::Link
            },
{
    lemma_inventory_accepted(entries, 0);
}

proof fn lemma_inventory_accepted(entries: Seq<InventoryEntry>, from: int)
    requires
        0 <= from <= entries.len(),
    ensures
        inventory_failure(entries, from) is None <==> forall|k: int|
            from <= k < entries.len() ==> inventory_entry_failure(#[trigger] entries[k], k) is None,
    decreases entries.len() - from,
{
    if from < entries.len() {
        lemma_inventory_accepted(entries, from + 1);
    }
}

/// A page takes conversations until it holds as many as it may, or the next does not fit;
/// where conversations are left, it says behind which the next page continues.
pub proof fn law_page_says_where_to_continue(builder: StatusPageBuilder)
    requires
        builder.wf(),
        !builder.wants(),
    ensures
        builder.conversations@.len() <= MAX_CONVERSATION_STATUS_RECORDS,
        forall|k: int|
            0 <= k < builder.conversations@.len() ==> (#[trigger] builder.conversations@[k]).conversation_id@
                == builder.candidates@[k]@,
        !builder.has_more() && builder.candidates@.len() <= MAX_CONVERSATION_STATUS_RECORDS
            ==> builder.conversations@.len() == builder.candidates@.len(),
        builder.inventory_has_more || builder.conversations@.len() < least(
            builder.candidates@.len(),
            MAX_CONVERSATION_STATUS_RECORDS as nat,
        ) <==> builder.has_more(),
{
}

/// A page says how to continue exactly where it has a token, and then with that token; a
/// token is accepted exactly where it has the prefix and behind it a valid identifier.
pub proof fn law_page_says_how_to_continue(token: Seq<char>, valid: bool)
    ensures
        more_text(None).len() == 0,
        more_text(Some(token))
            == "more conversations available; continue with flow sessions status --emit jsonl --continuation-token "@
            + token + "\n"@,
        token_failure(token, valid) is None <==> STATUS_TOKEN_PREFIX@.is_prefix_of(token) && valid,
{
}

} // verus!

//! The objects of a run: bytes that are stored once, under their digest.

use crate::contract::parse_run_object_digest;
use crate::contract;
use crate::digest::sha256_hex;
use crate::digest;
use crate::error::{protocol, ErrorModel, RuntimeError};
use crate::error;
use crate::keyed::KeyedList;
use crate::keyed;
use crate::order::{compare_bytes, Relation};
use crate::order;
use crate::text::{same_bytes, same_text};
use vstd::prelude::*;
use vstd::utf8::*;

verus! {

/// What a run may store.
#[derive(Clone, Copy, Debug, PartialEq, Eq, Structural)]
pub struct ObjectLimits {
    pub max_objects: usize,
    pub max_object_bytes: u64,
    pub max_total_bytes: u64,
}

/// Bytes with the digest that they are stored under.
pub struct ContextObject {
    pub digest: String,
    pub bytes: Vec<u8>,
}

/// What is known of a stored object.
#[derive(Clone, Copy, Debug, PartialEq, Eq, Structural)]
pub struct RunObjectEntry {
    pub directory_synced: bool,
    pub length: u32,
}

/// How much a run has stored.
#[derive(Clone, Copy, Debug, PartialEq, Eq, Structural)]
pub struct RunObjectUsageSnapshot {
    pub object_bytes: u64,
    pub object_count: usize,
}

/// What a run has stored.
pub struct RunObjectStore {
    pub accounted_bytes: u64,
    pub failed: bool,
    pub limits: ObjectLimits,
    pub objects: KeyedList<RunObjectEntry>,
}

/// How many bytes the entries stand for.
pub open spec fn entry_bytes(entries: Seq<(String, RunObjectEntry)>) -> nat
    decreases entries.len(),
{
    if entries.len() == 0 {
        0
    } else {
        entry_bytes(entries.drop_last()) + entries.last().1.length as nat
    }
}

/// What is found in the directory of objects under a name.
pub struct ObjectListing {
    /// Nothing where the name is not valid UTF-8.
    pub name: Option<String>,
    /// Whether it is a file, and not a link to one.
    pub is_file: bool,
    pub length: u64,
}

/// What is wrong with a stored total.
pub open spec fn total_failure(bytes: nat, limits: ObjectLimits) -> Option<ErrorModel> {
    if bytes > limits.max_total_bytes {
        error::protocol_failure("session object data exceeds its byte limit"@)
    } else {
        None
    }
}

fn ensure_session_object_total(bytes: u64, limits: ObjectLimits) -> (result: Result<
    (),
    RuntimeError,
>)
    ensures
        error::failure(result) == total_failure(bytes as nat, limits),
{
    if bytes > limits.max_total_bytes {
        return Err(protocol("session object data exceeds its byte limit"));
    }
    Ok(())
}

/// What is wrong with one thing found among the objects, behind so many and so many
/// bytes.
pub open spec fn listing_failure(
    listing: ObjectListing,
    count: nat,
    bytes: nat,
    limits: ObjectLimits,
) -> Option<ErrorModel> {
    match listing.name {
        None => error::protocol_failure("run object name must be UTF-8"@),
        Some(name) => if !listing.is_file || listing.length > limits.max_object_bytes {
            error::protocol_failure("run object inventory is invalid"@)
        } else if count == limits.max_objects {
            error::protocol_failure("run object count exceeds its limit"@)
        } else if contract::run_object_name_failure(name@) is Some {
            contract::run_object_name_failure(name@)
        } else if listing.length > u32::MAX {
            error::protocol_failure("run object inventory is invalid"@)
        } else if bytes + listing.length > u64::MAX {
            error::protocol_failure("run object byte count overflow"@)
        } else {
            None
        },
    }
}

/// How many bytes are listed.
pub open spec fn listed_bytes(listings: Seq<ObjectListing>) -> nat
    decreases listings.len(),
{
    if listings.len() == 0 {
        0
    } else {
        listed_bytes(listings.drop_last()) + listings.last().length as nat
    }
}

/// What is wrong with what is found among the objects, taken in order.
pub open spec fn inventory_failure(listings: Seq<ObjectListing>, limits: ObjectLimits) -> Option<
    ErrorModel,
>
    decreases listings.len(),
{
    if listings.len() == 0 {
        None
    } else {
        let before = listings.drop_last();
        error::first_failure(
            inventory_failure(before, limits),
            listing_failure(listings.last(), before.len(), listed_bytes(before), limits),
        )
    }
}

/// No name is listed twice.
pub open spec fn listed_once(listings: Seq<ObjectListing>) -> bool {
    forall|i: int, j: int|
        0 <= i < j < listings.len() ==> (#[trigger] listings[i].name is Some
            && #[trigger] listings[j].name is Some ==> listings[i].name->0@
            != listings[j].name->0@)
}

impl RunObjectStore {
    /// What is accounted for is what the entries stand for, and there are no more of
    /// them than may be.
    pub open spec fn wf(self) -> bool {
        &&& self.objects.wf()
        &&& self.accounted_bytes == entry_bytes(self.objects.entries@)
        &&& self.objects.entries@.len() <= self.limits.max_objects
        &&& self.accounted_bytes <= self.limits.max_total_bytes
        &&& self.limits.max_object_bytes <= u32::MAX
    }

    /// Takes stock of a directory of objects.
    pub fn open(listings: &Vec<ObjectListing>, limits: ObjectLimits) -> (result: Result<
        RunObjectStore,
        RuntimeError,
    >)
        requires
            listed_once(listings@),
            limits.max_object_bytes <= u32::MAX,
        ensures
            error::failure(result) == error::first_failure(
                inventory_failure(listings@, limits),
                total_failure(listed_bytes(listings@), limits),
            ),
            result matches Ok(store) ==> {
                &&& store.wf()
                &&& !store.failed
                &&& store.limits == limits
                &&& store.accounted_bytes == listed_bytes(listings@)
                &&& store.objects.entries@.len() == listings@.len()
                &&& forall|k: int|
                    0 <= k < listings@.len() ==> {
                        &&& (#[trigger] listings@[k]).name is Some
                        &&& store.objects@.dom().contains(listings@[k].name->0@)
                        &&& store.objects@[listings@[k].name->0@] == (RunObjectEntry {
                            directory_synced: false,
                            length: listings@[k].length as u32,
                        })
                    }
            },
    {
        let mut accounted_bytes: u64 = 0;
        let mut objects: KeyedList<RunObjectEntry> = KeyedList::new();
        let mut i: usize = 0;
        assert(listings@.take(0) =~= Seq::<ObjectListing>::empty());
        proof {
            lemma_empty_map_has_no_entries(objects);
        }
        while i < listings.len()
            invariant
                i <= listings.len(),
                listed_once(listings@),
                objects.wf(),
                objects.entries@.len() == i,
                i <= limits.max_objects,
                accounted_bytes == entry_bytes(objects.entries@),
                accounted_bytes == listed_bytes(listings@.take(i as int)),
                inventory_failure(listings@.take(i as int), limits) is None,
                forall|name: Seq<char>| #[trigger]
                    objects@.dom().contains(name) ==> exists|k: int|
                        0 <= k < i && (#[trigger] listings@[k]).name is Some
                            && listings@[k].name->0@ == name,
                forall|k: int|
                    0 <= k < i ==> {
                        &&& (#[trigger] listings@[k]).name is Some
                        &&& objects@.dom().contains(listings@[k].name->0@)
                        &&& objects@[listings@[k].name->0@] == (RunObjectEntry {
                            directory_synced: false,
                            length: listings@[k].length as u32,
                        })
                    },
            decreases listings.len() - i,
        {
            let listing = &listings[i];
            let ghost head = listings@.take(i + 1);
            proof {
                assert(head.drop_last() =~= listings@.take(i as int));
                assert(head.last() == listings@[i as int]);
                lemma_inventory_prefix(listings@, i + 1, limits);
            }
            let name = match &listing.name {
                Some(name) => name,
                None => {
                    return Err(protocol("run object name must be UTF-8"));
                },
            };
            if !listing.is_file || listing.length > limits.max_object_bytes {
                return Err(protocol("run object inventory is invalid"));
            }
            if objects.len() == limits.max_objects {
                return Err(protocol("run object count exceeds its limit"));
            }
            let _ = parse_run_object_digest(name.as_str())?;
            if listing.length > 4_294_967_295 {
                return Err(protocol("run object inventory is invalid"));
            }
            accounted_bytes =
            match accounted_bytes.checked_add(listing.length) {
                Some(bytes) => bytes,
                None => {
                    return Err(protocol("run object byte count overflow"));
                },
            };
            let ghost before = objects;
            let entry = RunObjectEntry { directory_synced: false, length: listing.length as u32 };
            assert(!objects@.dom().contains(name@)) by {
                if objects@.dom().contains(name@) {
                    let k = choose|k: int|
                        0 <= k < i && (#[trigger] listings@[k]).name is Some
                            && listings@[k].name->0@ == name@;
                    assert(listings@[k].name is Some && listings@[i as int].name is Some);
                }
            }
            objects.insert(name.clone(), entry);
            proof {
                assert(objects.entries@.drop_last() =~= before.entries@);
                assert forall|other: Seq<char>| #[trigger]
                    objects@.dom().contains(other) implies exists|k: int|
                    0 <= k < i + 1 && (#[trigger] listings@[k]).name is Some
                        && listings@[k].name->0@ == other by {
                    if other == name@ {
                        assert(listings@[i as int].name->0@ == other);
                    } else {
                        assert(before@.dom().contains(other));
                    }
                }
                assert forall|k: int| 0 <= k < i + 1 implies {
                    &&& (#[trigger] listings@[k]).name is Some
                    &&& objects@.dom().contains(listings@[k].name->0@)
                    &&& objects@[listings@[k].name->0@] == (RunObjectEntry {
                        directory_synced: false,
                        length: listings@[k].length as u32,
                    })
                } by {
                    if k < i {
                        assert(listings@[k].name is Some && listings@[i as int].name is Some);
                    }
                }
            }
            i = i + 1;
        }
        assert(listings@.take(i as int) =~= listings@);
        ensure_session_object_total(accounted_bytes, limits)?;
        Ok(RunObjectStore { accounted_bytes, failed: false, limits, objects })
    }

    /// How much is stored.
    pub fn usage_snapshot(&self) -> (result: Result<RunObjectUsageSnapshot, RuntimeError>)
        ensures
            error::failure(result) == closed_failure(*self),
            result matches Ok(usage) ==> usage.object_bytes == self.accounted_bytes
                && usage.object_count == self.objects.entries@.len(),
    {
        if self.failed {
            return Err(protocol("run object store is closed after a prior failure"));
        }
        Ok(
            RunObjectUsageSnapshot {
                object_bytes: self.accounted_bytes,
                object_count: self.objects.len(),
            },
        )
    }
}

proof fn lemma_empty_map_has_no_entries(objects: KeyedList<RunObjectEntry>)
    requires
        objects@ == Map::<Seq<char>, RunObjectEntry>::empty(),
    ensures
        objects.entries@.len() == 0,
{
    if objects.entries@.len() > 0 {
        let keys = crate::keyed::keys_of(objects.entries@);
        assert(keys[0] == objects.entries@[0].0@);
        crate::engine::registry::lemma_text_position(keys, keys[0], 0);
        assert(objects@.dom().contains(keys[0]));
    }
}

proof fn lemma_inventory_prefix(listings: Seq<ObjectListing>, count: int, limits: ObjectLimits)
    requires
        0 <= count <= listings.len(),
    ensures
        inventory_failure(listings.take(count), limits) is Some ==> inventory_failure(
            listings,
            limits,
        ) == inventory_failure(listings.take(count), limits),
    decreases listings.len() - count,
{
    if count < listings.len() {
        lemma_inventory_prefix(listings, count + 1, limits);
        assert(listings.take(count + 1).drop_last() =~= listings.take(count));
    } else {
        assert(listings.take(count) =~= listings);
    }
}

/// What is wrong with a store that has failed before.
pub open spec fn closed_failure(store: RunObjectStore) -> Option<ErrorModel> {
    if store.failed {
        error::protocol_failure("run object store is closed after a prior failure"@)
    } else {
        None
    }
}

/// What is wrong with an object of a batch.
pub open spec fn object_failure(objects: Seq<ContextObject>, k: int, max_bytes: u64) -> Option<
    ErrorModel,
> {
    let object = objects[k];
    if contract::run_object_name_failure(object.digest@) is Some {
        contract::run_object_name_failure(object.digest@)
    } else if digest::digest_text(object.bytes@) != object.digest@ {
        error::protocol_failure("run object digest does not match its bytes"@)
    } else if object.bytes@.len() > max_bytes {
        error::protocol_failure("run object exceeds its size limit"@)
    } else if exists|j: int|
        0 <= j < k && (#[trigger] objects[j]).digest@ == object.digest@ && objects[j].bytes@
            != object.bytes@ {
        error::protocol_failure("run object batch maps one digest to different bytes"@)
    } else {
        None
    }
}

/// What is wrong with the first objects of a batch.
pub open spec fn batch_failure(objects: Seq<ContextObject>, count: nat, max_bytes: u64) -> Option<
    ErrorModel,
>
    decreases count,
{
    if count == 0 {
        None
    } else {
        error::first_failure(
            batch_failure(objects, (count - 1) as nat, max_bytes),
            object_failure(objects, count - 1, max_bytes),
        )
    }
}

/// Whether an object is the first of its batch under its digest.
pub open spec fn is_first(objects: Seq<ContextObject>, k: int) -> bool {
    forall|j: int| 0 <= j < k ==> (#[trigger] objects[j]).digest@ != objects[k].digest@
}

/// Whether an object of a batch is new to the store: it is not there, and no object
/// before it in the batch has the same digest.
pub open spec fn is_new(store: RunObjectStore, objects: Seq<ContextObject>, k: int) -> bool {
    is_first(objects, k) && !store.objects@.dom().contains(objects[k].digest@)
}

/// How many of the first objects of a batch are new.
pub open spec fn new_count(store: RunObjectStore, objects: Seq<ContextObject>, count: nat) -> nat
    decreases count,
{
    if count == 0 {
        0
    } else {
        new_count(store, objects, (count - 1) as nat) + (if is_new(store, objects, count - 1) {
            1nat
        } else {
            0nat
        })
    }
}

/// How many bytes the new ones among the first objects of a batch have.
pub open spec fn new_bytes(store: RunObjectStore, objects: Seq<ContextObject>, count: nat) -> nat
    decreases count,
{
    if count == 0 {
        0
    } else {
        new_bytes(store, objects, (count - 1) as nat) + (if is_new(store, objects, count - 1) {
            objects[count - 1].bytes@.len()
        } else {
            0nat
        })
    }
}

/// What is wrong with storing a batch. One that holds nothing is always stored.
pub open spec fn persist_failure(store: RunObjectStore, objects: Seq<ContextObject>) -> Option<
    ErrorModel,
> {
    let count = store.objects.entries@.len() + new_count(store, objects, objects.len());
    let bytes = store.accounted_bytes + new_bytes(store, objects, objects.len());
    if objects.len() == 0 {
        None
    } else if store.failed {
        closed_failure(store)
    } else if batch_failure(objects, objects.len(), store.limits.max_object_bytes) is Some {
        batch_failure(objects, objects.len(), store.limits.max_object_bytes)
    } else if count > usize::MAX {
        error::protocol_failure("run object count overflow"@)
    } else if count > store.limits.max_objects {
        error::protocol_failure("run object count exceeds its limit"@)
    } else if bytes > u64::MAX {
        error::protocol_failure("run object byte count overflow"@)
    } else {
        total_failure(bytes as nat, store.limits)
    }
}

/// The places of objects of a batch, ordered by digest, one for each digest.
pub open spec fn orders(objects: Seq<ContextObject>, places: Seq<usize>, count: nat) -> bool {
    &&& forall|i: int|
        0 <= i < places.len() ==> (#[trigger] places[i]) < count && is_first(
            objects,
            places[i] as int,
        )
    &&& forall|k: int|
        0 <= k < count && #[trigger] is_first(objects, k) ==> places.contains(k as usize)
    &&& forall|i: int, j: int|
        0 <= i < j < places.len() ==> order::bytes_before(
            encode_utf8(objects[(#[trigger] places[i]) as int].digest@),
            encode_utf8(objects[(#[trigger] places[j]) as int].digest@),
        )
}

/// Which candidate comes next of those that are stored, or of those that are not.
pub open spec fn next_candidate(
    store: RunObjectStore,
    objects: Seq<ContextObject>,
    places: Seq<usize>,
    from: int,
    stored: bool,
) -> Option<int>
    decreases places.len() - from,
{
    if from >= places.len() {
        None
    } else if store.objects@.dom().contains(objects[places[from] as int].digest@) == stored {
        Some(from)
    } else {
        next_candidate(store, objects, places, from + 1, stored)
    }
}

fn is_first_exec(objects: &Vec<ContextObject>, k: usize) -> (first: bool)
    requires
        k < objects@.len(),
    ensures
        first == is_first(objects@, k as int),
{
    let mut j: usize = 0;
    while j < k
        invariant
            j <= k,
            k < objects@.len(),
            forall|i: int|
                0 <= i < j ==> (#[trigger] objects@[i]).digest@ != objects@[k as int].digest@,
        decreases k - j,
    {
        if same_text(objects[j].digest.as_str(), objects[k].digest.as_str()) {
            assert(objects@[j as int].digest@ == objects@[k as int].digest@);
            return false;
        }
        j = j + 1;
    }
    true
}

fn check_object(objects: &Vec<ContextObject>, k: usize, max_bytes: u64) -> (result: Result<
    (),
    RuntimeError,
>)
    requires
        k < objects@.len(),
    ensures
        error::failure(result) == object_failure(objects@, k as int, max_bytes),
{
    let object = &objects[k];
    let _ = parse_run_object_digest(object.digest.as_str())?;
    let actual = sha256_hex(object.bytes.as_slice());
    if !same_text(actual.as_str(), object.digest.as_str()) {
        return Err(protocol("run object digest does not match its bytes"));
    }
    if object.bytes.len() as u64 > max_bytes {
        return Err(protocol("run object exceeds its size limit"));
    }
    let mut j: usize = 0;
    while j < k
        invariant
            j <= k,
            k < objects@.len(),
            *object == objects@[k as int],
            contract::run_object_name_failure(object.digest@) is None,
            digest::digest_text(object.bytes@) == object.digest@,
            object.bytes@.len() <= max_bytes,
            forall|i: int|
                0 <= i < j ==> !((#[trigger] objects@[i]).digest@ == object.digest@
                    && objects@[i].bytes@ != object.bytes@),
        decreases k - j,
    {
        if same_text(objects[j].digest.as_str(), object.digest.as_str()) && !same_bytes(
            objects[j].bytes.as_slice(),
            object.bytes.as_slice(),
        ) {
            assert(objects@[j as int].digest@ == object.digest@);
            return Err(protocol("run object batch maps one digest to different bytes"));
        }
        j = j + 1;
    }
    Ok(())
}

fn digest_before(objects: &Vec<ContextObject>, left: usize, right: usize) -> (before: bool)
    requires
        left < objects@.len(),
        right < objects@.len(),
    ensures
        before == order::bytes_before(
            encode_utf8(objects@[left as int].digest@),
            encode_utf8(objects@[right as int].digest@),
        ),
{
    proof {
        order::law_bytes_order_total(
            encode_utf8(objects@[left as int].digest@),
            encode_utf8(objects@[right as int].digest@),
        );
    }
    let relation = compare_bytes(
        objects[left].digest.as_str().as_bytes(),
        objects[right].digest.as_str().as_bytes(),
    );
    match relation {
        Relation::Before => true,
        _ => false,
    }
}

/// Puts a place where its digest belongs.
fn insert_place(objects: &Vec<ContextObject>, places: &mut Vec<usize>, k: usize)
    requires
        k < objects@.len(),
        orders(objects@, old(places)@, k as nat),
        is_first(objects@, k as int),
    ensures
        orders(objects@, final(places)@, (k + 1) as nat),
        exists|at: int|
            0 <= at <= old(places)@.len() && final(places)@ == #[trigger] old(places)@.insert(at, k),
{
    let ghost before = places@;
    let ghost wanted = encode_utf8(objects@[k as int].digest@);
    let mut at: usize = 0;
    while at < places.len() && digest_before(objects, places[at], k)
        invariant
            at <= places.len(),
            places@ == before,
            k < objects@.len(),
            orders(objects@, before, k as nat),
            wanted == encode_utf8(objects@[k as int].digest@),
            forall|i: int| 0 <= i < before.len() ==> (#[trigger] before[i]) < objects@.len(),
            forall|i: int|
                0 <= i < at ==> order::bytes_before(
                    encode_utf8(objects@[(#[trigger] before[i]) as int].digest@),
                    wanted,
                ),
        decreases places.len() - at,
    {
        at = at + 1;
    }
    places.insert(at, k);
    proof {
        let after = places@;
        assert(after =~= before.insert(at as int, k));
        assert forall|i: int| 0 <= i < after.len() implies (#[trigger] after[i]) < k + 1 && is_first(
            objects@,
            after[i] as int,
        ) by {
            if i < at {
                assert(after[i] == before[i]);
            } else if i > at {
                assert(after[i] == before[i - 1]);
            }
        }
        assert forall|n: int| 0 <= n < k + 1 && #[trigger] is_first(
            objects@,
            n,
        ) implies after.contains(n as usize) by {
            if n == k {
                assert(after[at as int] == k);
            } else {
                assert(before.contains(n as usize));
                let i = choose|i: int| 0 <= i < before.len() && before[i] == n as usize;
                if i < at {
                    assert(after[i] == n as usize);
                } else {
                    assert(after[i + 1] == n as usize);
                }
            }
        }
        if at < before.len() {
            let here = encode_utf8(objects@[before[at as int] as int].digest@);
            order::law_bytes_order_total(here, wanted);
            if here == wanted {
                encode_utf8_decode_utf8(objects@[before[at as int] as int].digest@);
                encode_utf8_decode_utf8(objects@[k as int].digest@);
                assert(objects@[before[at as int] as int].digest@ == objects@[k as int].digest@);
            }
            assert(order::bytes_before(wanted, here));
        }
        assert forall|i: int, j: int| 0 <= i < j < after.len() implies order::bytes_before(
            encode_utf8(objects@[(#[trigger] after[i]) as int].digest@),
            encode_utf8(objects@[(#[trigger] after[j]) as int].digest@),
        ) by {
            let p = if i < at { i } else { i - 1 };
            let q = if j < at { j } else { j - 1 };
            if i != at {
                assert(after[i] == before[p]);
            }
            if j != at {
                assert(after[j] == before[q]);
            }
            if i == at {
                let here = encode_utf8(objects@[before[at as int] as int].digest@);
                let there = encode_utf8(objects@[before[q] as int].digest@);
                if q > at {
                    assert(order::bytes_before(here, there));
                    order::law_bytes_order_transitive(wanted, here, there);
                }
            } else if j == at {
                assert(order::bytes_before(
                    encode_utf8(objects@[before[i] as int].digest@),
                    wanted,
                ));
            } else {
                assert(p < q);
            }
        }
    }
}

proof fn lemma_places_distinct(objects: Seq<ContextObject>, places: Seq<usize>, at: int)
    requires
        orders(objects, places, objects.len()),
        0 <= at < places.len(),
    ensures
        forall|i: int|
            0 <= i < places.len() && i != at ==> objects[(#[trigger] places[i]) as int].digest@
                != objects[places[at] as int].digest@,
{
    assert forall|i: int| 0 <= i < places.len() && i != at implies objects[(
    #[trigger] places[i]) as int].digest@ != objects[places[at] as int].digest@ by {
        let here = encode_utf8(objects[places[i] as int].digest@);
        let there = encode_utf8(objects[places[at] as int].digest@);
        order::law_bytes_order_total(here, there);
        order::law_bytes_order_total(there, here);
        if i < at {
            assert(order::bytes_before(here, there));
        } else {
            assert(order::bytes_before(there, here));
        }
    }
}

/// Where storing a batch stands.
#[derive(Clone, Copy, Debug, PartialEq, Eq, Structural)]
pub enum PersistStage {
    /// A stored object is compared with what is to be stored.
    Checking { at: usize },
    /// A stored object is made durable.
    Syncing { at: usize },
    /// The directory is made durable, as some stored objects want it.
    DirectorySync,
    /// An object is written.
    Creating { at: usize },
    Finished,
}

/// Storing a batch of objects.
pub struct PersistRun {
    pub places: Vec<usize>,
    pub unsynced: Vec<usize>,
    pub stage: PersistStage,
}

/// What was found of an object that is stored already.
pub enum ExistingObject {
    Unavailable(RuntimeError),
    Stored { is_file: bool, length: u64, bytes: Vec<u8> },
}

/// How many bytes a candidate would add to the store.
pub open spec fn added_bytes(store: RunObjectStore, object: ContextObject) -> nat {
    if store.objects@.dom().contains(object.digest@) {
        0
    } else {
        object.bytes@.len()
    }
}

/// How many bytes the candidates would add to the store.
pub open spec fn place_bytes(
    store: RunObjectStore,
    objects: Seq<ContextObject>,
    places: Seq<usize>,
) -> nat
    decreases places.len(),
{
    if places.len() == 0 {
        0
    } else {
        place_bytes(store, objects, places.drop_last()) + added_bytes(
            store,
            objects[places.last() as int],
        )
    }
}

/// How many of the candidates are not in the store.
pub open spec fn place_count(
    store: RunObjectStore,
    objects: Seq<ContextObject>,
    places: Seq<usize>,
) -> nat
    decreases places.len(),
{
    if places.len() == 0 {
        0
    } else {
        place_count(store, objects, places.drop_last()) + (if store.objects@.dom().contains(
            objects[places.last() as int].digest@,
        ) {
            0nat
        } else {
            1nat
        })
    }
}

/// The store has room for the candidates that are not in it.
pub open spec fn has_room(
    store: RunObjectStore,
    objects: Seq<ContextObject>,
    places: Seq<usize>,
) -> bool {
    &&& store.accounted_bytes + place_bytes(store, objects, places)
        <= store.limits.max_total_bytes
    &&& store.objects.entries@.len() + place_count(store, objects, places)
        <= store.limits.max_objects
    &&& forall|i: int|
        0 <= i < places.len() ==> objects[(#[trigger] places[i]) as int].bytes@.len()
            <= store.limits.max_object_bytes
}

proof fn lemma_place_insert(
    store: RunObjectStore,
    objects: Seq<ContextObject>,
    places: Seq<usize>,
    at: int,
    place: usize,
)
    requires
        0 <= at <= places.len(),
    ensures
        place_bytes(store, objects, places.insert(at, place)) == place_bytes(
            store,
            objects,
            places,
        ) + added_bytes(store, objects[place as int]),
        place_count(store, objects, places.insert(at, place)) == place_count(
            store,
            objects,
            places,
        ) + (if store.objects@.dom().contains(objects[place as int].digest@) {
            0nat
        } else {
            1nat
        }),
    decreases places.len(),
{
    let more = places.insert(at, place);
    if at == places.len() {
        assert(more.drop_last() =~= places);
    } else {
        assert(more.drop_last() =~= places.drop_last().insert(at, place));
        assert(more.last() == places.last());
        lemma_place_insert(store, objects, places.drop_last(), at, place);
    }
}

/// A candidate that is taken into the store is not counted any more.
proof fn lemma_place_stored(
    before: RunObjectStore,
    after: RunObjectStore,
    objects: Seq<ContextObject>,
    places: Seq<usize>,
    at: int,
)
    requires
        0 <= at < places.len(),
        !before.objects@.dom().contains(objects[places[at] as int].digest@),
        after.objects@.dom() == before.objects@.dom().insert(objects[places[at] as int].digest@),
        forall|i: int|
            0 <= i < places.len() && i != at ==> objects[(#[trigger] places[i]) as int].digest@
                != objects[places[at] as int].digest@,
    ensures
        place_bytes(after, objects, places) + objects[places[at] as int].bytes@.len()
            == place_bytes(before, objects, places),
        place_count(after, objects, places) + 1 == place_count(before, objects, places),
    decreases places.len(),
{
    let rest = places.drop_last();
    if at == places.len() - 1 {
        lemma_place_same(before, after, objects, rest, objects[places[at] as int].digest@);
    } else {
        assert(rest[at] == places[at]);
        assert(places.last() == places[places.len() - 1]);
        lemma_place_stored(before, after, objects, rest, at);
    }
}

proof fn lemma_place_same(
    before: RunObjectStore,
    after: RunObjectStore,
    objects: Seq<ContextObject>,
    places: Seq<usize>,
    digest: Seq<char>,
)
    requires
        after.objects@.dom() == before.objects@.dom().insert(digest),
        forall|i: int|
            0 <= i < places.len() ==> objects[(#[trigger] places[i]) as int].digest@ != digest,
    ensures
        place_bytes(after, objects, places) == place_bytes(before, objects, places),
        place_count(after, objects, places) == place_count(before, objects, places),
    decreases places.len(),
{
    if places.len() > 0 {
        assert(places.last() == places[places.len() - 1]);
        lemma_place_same(before, after, objects, places.drop_last(), digest);
    }
}

proof fn lemma_place_bytes_at(
    store: RunObjectStore,
    objects: Seq<ContextObject>,
    places: Seq<usize>,
    at: int,
)
    requires
        0 <= at < places.len(),
    ensures
        place_bytes(store, objects, places) >= added_bytes(store, objects[places[at] as int]),
        !store.objects@.dom().contains(objects[places[at] as int].digest@) ==> place_count(
            store,
            objects,
            places,
        ) >= 1,
    decreases places.len(),
{
    if at < places.len() - 1 {
        assert(places.drop_last()[at] == places[at]);
        lemma_place_bytes_at(store, objects, places.drop_last(), at);
    }
}

proof fn lemma_entry_bytes_update(
    entries: Seq<(String, RunObjectEntry)>,
    at: int,
    entry: (String, RunObjectEntry),
)
    requires
        0 <= at < entries.len(),
        entry.1.length == entries[at].1.length,
    ensures
        entry_bytes(entries.update(at, entry)) == entry_bytes(entries),
    decreases entries.len(),
{
    let changed = entries.update(at, entry);
    if at == entries.len() - 1 {
        assert(changed.drop_last() =~= entries.drop_last());
    } else {
        assert(changed.drop_last() =~= entries.drop_last().update(at, entry));
        lemma_entry_bytes_update(entries.drop_last(), at, entry);
    }
}

/// The batch as it goes on.
pub open spec fn run_fits(
    store: RunObjectStore,
    objects: Seq<ContextObject>,
    run: PersistRun,
) -> bool {
    &&& orders(objects, run.places@, objects.len())
    &&& has_room(store, objects, run.places@)
    &&& forall|i: int|
        0 <= i < run.unsynced@.len() ==> (#[trigger] run.unsynced@[i]) < objects.len()
            && store.objects@.dom().contains(objects[run.unsynced@[i] as int].digest@)
    &&& match run.stage {
        PersistStage::Checking { at } | PersistStage::Syncing { at } => at < run.places.len()
            && store.objects@.dom().contains(objects[run.places@[at as int] as int].digest@),
        PersistStage::Creating { at } => at < run.places.len()
            && !store.objects@.dom().contains(objects[run.places@[at as int] as int].digest@),
        _ => true,
    }
}

/// Where storing goes on when objects are written, from a candidate on.
pub open spec fn creating_stage(
    store: RunObjectStore,
    objects: Seq<ContextObject>,
    places: Seq<usize>,
    from: int,
) -> PersistStage {
    match next_candidate(store, objects, places, from, false) {
        Some(at) => PersistStage::Creating { at: at as usize },
        None => PersistStage::Finished,
    }
}

/// Where storing goes on when stored objects are looked at, from a candidate on.
pub open spec fn checking_stage(
    store: RunObjectStore,
    objects: Seq<ContextObject>,
    places: Seq<usize>,
    from: int,
    unsynced: bool,
) -> PersistStage {
    match next_candidate(store, objects, places, from, true) {
        Some(at) => PersistStage::Checking { at: at as usize },
        None => if unsynced {
            PersistStage::DirectorySync
        } else {
            creating_stage(store, objects, places, 0)
        },
    }
}

proof fn lemma_next_candidate(
    store: RunObjectStore,
    objects: Seq<ContextObject>,
    places: Seq<usize>,
    from: int,
    stored: bool,
)
    requires
        0 <= from,
    ensures
        next_candidate(store, objects, places, from, stored) matches Some(at) ==> from <= at
            < places.len() && store.objects@.dom().contains(objects[places[at] as int].digest@)
            == stored,
    decreases places.len() - from,
{
    if from < places.len() {
        lemma_next_candidate(store, objects, places, from + 1, stored);
    }
}

fn find_candidate(
    store: &RunObjectStore,
    objects: &Vec<ContextObject>,
    places: &Vec<usize>,
    from: usize,
    stored: bool,
) -> (found: Option<usize>)
    requires
        forall|i: int| 0 <= i < places@.len() ==> (#[trigger] places@[i]) < objects@.len(),
    ensures
        match found {
            Some(at) => next_candidate(*store, objects@, places@, from as int, stored) == Some(
                at as int,
            ),
            None => next_candidate(*store, objects@, places@, from as int, stored) is None,
        },
{
    let mut at: usize = from;
    while at < places.len()
        invariant
            forall|i: int| 0 <= i < places@.len() ==> (#[trigger] places@[i]) < objects@.len(),
            next_candidate(*store, objects@, places@, from as int, stored) == next_candidate(
                *store,
                objects@,
                places@,
                at as int,
                stored,
            ),
        decreases places.len() - at,
    {
        let object = &objects[places[at]];
        if store.objects.get(object.digest.as_str()).is_some() == stored {
            return Some(at);
        }
        at = at + 1;
    }
    None
}

impl RunObjectStore {
    /// Begins to store a batch of objects.
    pub fn persist(&self, objects: &Vec<ContextObject>) -> (result: Result<
        PersistRun,
        RuntimeError,
    >)
        requires
            self.wf(),
        ensures
            error::failure(result) == persist_failure(*self, objects@),
            result matches Ok(run) ==> {
                &&& run_fits(*self, objects@, run)
                &&& run.unsynced@.len() == 0
                &&& run.stage == checking_stage(*self, objects@, run.places@, 0, false)
            },
    {
        if objects.len() == 0 {
            return Ok(
                PersistRun {
                    places: Vec::new(),
                    unsynced: Vec::new(),
                    stage: PersistStage::Finished,
                },
            );
        }
        if self.failed {
            return Err(protocol("run object store is closed after a prior failure"));
        }
        let mut places: Vec<usize> = Vec::new();
        let mut count: usize = 0;
        let mut bytes: Option<u64> = Some(self.accounted_bytes);
        let mut k: usize = 0;
        while k < objects.len()
            invariant
                k <= objects.len(),
                self.wf(),
                orders(objects@, places@, k as nat),
                batch_failure(objects@, k as nat, self.limits.max_object_bytes) is None,
                !self.failed,
                count <= k,
                count == new_count(*self, objects@, k as nat),
                place_count(*self, objects@, places@) == count,
                place_bytes(*self, objects@, places@) == new_bytes(*self, objects@, k as nat),
                forall|i: int|
                    0 <= i < k ==> (#[trigger] objects@[i]).bytes@.len()
                        <= self.limits.max_object_bytes,
                match bytes {
                    Some(bytes) => bytes == self.accounted_bytes + new_bytes(
                        *self,
                        objects@,
                        k as nat,
                    ),
                    None => self.accounted_bytes + new_bytes(*self, objects@, k as nat) > u64::MAX,
                },
            decreases objects.len() - k,
        {
            proof {
                lemma_batch_prefix(
                    objects@,
                    (k + 1) as nat,
                    objects@.len(),
                    self.limits.max_object_bytes,
                );
            }
            check_object(objects, k, self.limits.max_object_bytes)?;
            if is_first_exec(objects, k) {
                let ghost before = places@;
                insert_place(objects, &mut places, k);
                proof {
                    let at = choose|at: int|
                        0 <= at <= before.len() && places@ == #[trigger] before.insert(at, k);
                    lemma_place_insert(*self, objects@, before, at, k);
                }
                if self.objects.get(objects[k].digest.as_str()).is_none() {
                    count = count + 1;
                    bytes = match bytes {
                        Some(bytes) => bytes.checked_add(objects[k].bytes.len() as u64),
                        None => None,
                    };
                }
            } else {
                assert(orders(objects@, places@, (k + 1) as nat)) by {
                    assert forall|n: int| 0 <= n < k + 1 && #[trigger] is_first(
                        objects@,
                        n,
                    ) implies places@.contains(n as usize) by {
                        assert(n < k);
                    }
                }
            }
            k = k + 1;
        }
        let total: usize = match self.objects.len().checked_add(count) {
            Some(total) => total,
            None => {
                return Err(protocol("run object count overflow"));
            },
        };
        if total > self.limits.max_objects {
            return Err(protocol("run object count exceeds its limit"));
        }
        match bytes {
            None => {
                return Err(protocol("run object byte count overflow"));
            },
            Some(bytes) => {
                ensure_session_object_total(bytes, self.limits)?;
            },
        }
        let mut run = PersistRun {
            places,
            unsynced: Vec::new(),
            stage: PersistStage::Finished,
        };
        run.settle_checking(self, objects, 0);
        Ok(run)
    }
}

proof fn lemma_batch_prefix(
    objects: Seq<ContextObject>,
    count: nat,
    whole: nat,
    max_bytes: u64,
)
    requires
        count <= whole,
    ensures
        batch_failure(objects, count, max_bytes) is Some ==> batch_failure(
            objects,
            whole,
            max_bytes,
        ) == batch_failure(objects, count, max_bytes),
    decreases whole - count,
{
    if count < whole {
        lemma_batch_prefix(objects, count + 1, whole, max_bytes);
    }
}

impl PersistRun {
    fn settle_creating(&mut self, store: &RunObjectStore, objects: &Vec<ContextObject>, from: usize)
        requires
            orders(objects@, old(self).places@, objects@.len()),
        ensures
            final(self).places == old(self).places,
            final(self).unsynced == old(self).unsynced,
            final(self).stage == creating_stage(*store, objects@, old(self).places@, from as int),
    {
        self.stage = match find_candidate(store, objects, &self.places, from, false) {
            Some(at) => PersistStage::Creating { at },
            None => PersistStage::Finished,
        };
    }

    fn settle_checking(&mut self, store: &RunObjectStore, objects: &Vec<ContextObject>, from: usize)
        requires
            orders(objects@, old(self).places@, objects@.len()),
            has_room(*store, objects@, old(self).places@),
            forall|i: int|
                0 <= i < old(self).unsynced@.len() ==> (#[trigger] old(self).unsynced@[i])
                    < objects@.len() && store.objects@.dom().contains(
                    objects@[old(self).unsynced@[i] as int].digest@,
                ),
        ensures
            final(self).places == old(self).places,
            final(self).unsynced == old(self).unsynced,
            final(self).stage == checking_stage(
                *store,
                objects@,
                old(self).places@,
                from as int,
                old(self).unsynced@.len() > 0,
            ),
            run_fits(*store, objects@, *final(self)),
    {
        proof {
            assert(self.places.len() == self.places@.len());
            lemma_next_candidate(*store, objects@, self.places@, from as int, true);
            lemma_next_candidate(*store, objects@, self.places@, 0, false);
        }
        match find_candidate(store, objects, &self.places, from, true) {
            Some(at) => {
                self.stage = PersistStage::Checking { at };
            },
            None => {
                if self.unsynced.len() > 0 {
                    self.stage = PersistStage::DirectorySync;
                } else {
                    self.settle_creating(store, objects, 0);
                }
            },
        }
    }

    /// Compares a stored object with the one that is to be stored. Where it cannot be
    /// read or is another, the store takes nothing more.
    pub fn existing_checked(
        &mut self,
        store: &mut RunObjectStore,
        objects: &Vec<ContextObject>,
        found: ExistingObject,
    ) -> (result: Result<(), RuntimeError>)
        requires
            old(store).wf(),
            run_fits(*old(store), objects@, *old(self)),
            old(self).stage is Checking,
        ensures
            ({
                let at = old(self).stage->Checking_at;
                let object = objects@[old(self).places@[at as int] as int];
                let entry = old(store).objects@[object.digest@];
                &&& error::failure(result) == (match found {
                    ExistingObject::Unavailable(error) => Some(error@),
                    ExistingObject::Stored { is_file, length, bytes } => if !is_file || length
                        != entry.length || length != object.bytes@.len() || bytes@ != object.bytes@ {
                        error::protocol_failure("existing run object does not match its digest"@)
                    } else {
                        None
                    },
                })
                &&& *final(store) == (RunObjectStore { failed: old(store).failed || result is Err, ..*old(
                    store,
                ) })
                &&& final(self).places == old(self).places
                &&& final(self).unsynced == old(self).unsynced
                &&& result is Err ==> *final(self) == *old(self)
                &&& result is Ok ==> final(self).stage == (PersistStage::Syncing { at })
                    && run_fits(*final(store), objects@, *final(self))
            }),
    {
        let at: usize = match self.stage {
            PersistStage::Checking { at } => at,
            _ => 0,
        };
        let object = &objects[self.places[at]];
        match found {
            ExistingObject::Unavailable(error) => {
                store.failed = true;
                Err(error)
            },
            ExistingObject::Stored { is_file, length, bytes } => {
                let known: u64 = match store.objects.get(object.digest.as_str()) {
                    Some(entry) => entry.length as u64,
                    None => 0,
                };
                if !is_file || length != known || length != object.bytes.len() as u64 || !same_bytes(
                    bytes.as_slice(),
                    object.bytes.as_slice(),
                ) {
                    store.failed = true;
                    return Err(protocol("existing run object does not match its digest"));
                }
                self.stage = PersistStage::Syncing { at };
                Ok(())
            },
        }
    }

    /// Goes on when a stored object was made durable.
    pub fn existing_synced(&mut self, store: &RunObjectStore, objects: &Vec<ContextObject>)
        requires
            store.wf(),
            run_fits(*store, objects@, *old(self)),
            old(self).stage is Syncing,
        ensures
            ({
                let at = old(self).stage->Syncing_at;
                let place = old(self).places@[at as int];
                let unsynced = if store.objects@[objects@[place as int].digest@].directory_synced {
                    old(self).unsynced@
                } else {
                    old(self).unsynced@.push(place)
                };
                &&& final(self).places == old(self).places
                &&& final(self).unsynced@ == unsynced
                &&& final(self).stage == checking_stage(
                    *store,
                    objects@,
                    old(self).places@,
                    at + 1,
                    unsynced.len() > 0,
                )
                &&& run_fits(*store, objects@, *final(self))
            }),
    {
        let at: usize = match self.stage {
            PersistStage::Syncing { at } => at,
            _ => 0,
        };
        let place: usize = self.places[at];
        let synced = match store.objects.get(objects[place].digest.as_str()) {
            Some(entry) => entry.directory_synced,
            None => false,
        };
        if !synced {
            self.unsynced.push(place);
        }
        self.settle_checking(store, objects, at + 1);
    }

    /// Goes on when the directory was made durable.
    pub fn directory_synced(&mut self, store: &RunObjectStore, objects: &Vec<ContextObject>)
        requires
            store.wf(),
            run_fits(*store, objects@, *old(self)),
            old(self).stage is DirectorySync,
        ensures
            final(self).places == old(self).places,
            final(self).unsynced == old(self).unsynced,
            final(self).stage == creating_stage(*store, objects@, old(self).places@, 0),
            run_fits(*store, objects@, *final(self)),
    {
        proof {
            assert(self.places.len() == self.places@.len());
            lemma_next_candidate(*store, objects@, self.places@, 0, false);
        }
        self.settle_creating(store, objects, 0);
    }

    /// Takes an object that was written into the store, and goes on.
    pub fn created(&mut self, store: &mut RunObjectStore, objects: &Vec<ContextObject>)
        requires
            old(store).wf(),
            run_fits(*old(store), objects@, *old(self)),
            old(self).stage is Creating,
        ensures
            ({
                let at = old(self).stage->Creating_at;
                let object = objects@[old(self).places@[at as int] as int];
                &&& final(store).wf()
                &&& final(store).objects@ == old(store).objects@.insert(
                    object.digest@,
                    RunObjectEntry { directory_synced: true, length: object.bytes@.len() as u32 },
                )
                &&& final(store).accounted_bytes == old(store).accounted_bytes
                    + object.bytes@.len()
                &&& final(store).objects.entries@.len() == old(store).objects.entries@.len() + 1
                &&& final(store).limits == old(store).limits
                &&& final(store).failed == old(store).failed
                &&& final(self).places == old(self).places
                &&& final(self).unsynced == old(self).unsynced
                &&& final(self).stage == creating_stage(
                    *final(store),
                    objects@,
                    old(self).places@,
                    at + 1,
                )
                &&& run_fits(*final(store), objects@, *final(self))
            }),
    {
        let at: usize = match self.stage {
            PersistStage::Creating { at } => at,
            _ => 0,
        };
        let object = &objects[self.places[at]];
        proof {
            lemma_place_bytes_at(*store, objects@, self.places@, at as int);
            assert(self.places@[at as int] < objects@.len());
        }
        let length: u32 = object.bytes.len() as u32;
        let ghost before = store.objects;
        let ghost first = *store;
        store.objects.insert(
            object.digest.clone(),
            RunObjectEntry { directory_synced: true, length },
        );
        assert(store.objects.entries@.drop_last() =~= before.entries@);
        store.accounted_bytes = store.accounted_bytes + length as u64;
        proof {
            assert(self.places.len() == self.places@.len());
            lemma_next_candidate(*store, objects@, self.places@, at + 1, false);
            lemma_places_distinct(objects@, self.places@, at as int);
            lemma_place_stored(first, *store, objects@, self.places@, at as int);
        }
        self.settle_creating(store, objects, at + 1);
    }

    /// Ends storing: what the directory was made durable for needs it no more.
    pub fn finish(&self, store: &mut RunObjectStore, objects: &Vec<ContextObject>)
        requires
            old(store).wf(),
            run_fits(*old(store), objects@, *self),
        ensures
            final(store).wf(),
            final(store).accounted_bytes == old(store).accounted_bytes,
            final(store).limits == old(store).limits,
            final(store).failed == old(store).failed,
            final(store).objects@.dom() == old(store).objects@.dom(),
            forall|digest: Seq<char>| #[trigger]
                old(store).objects@.dom().contains(digest) ==> final(store).objects@[digest] == (
                RunObjectEntry {
                    directory_synced: old(store).objects@[digest].directory_synced || exists|i: int|
                        0 <= i < self.unsynced@.len() && objects@[(
                        #[trigger] self.unsynced@[i]) as int].digest@ == digest,
                    length: old(store).objects@[digest].length,
                }),
    {
        let ghost first = store.objects@;
        let mut i: usize = 0;
        while i < self.unsynced.len()
            invariant
                i <= self.unsynced.len(),
                store.wf(),
                run_fits(*old(store), objects@, *self),
                first == old(store).objects@,
                store.accounted_bytes == old(store).accounted_bytes,
                store.limits == old(store).limits,
                store.failed == old(store).failed,
                store.objects@.dom() == first.dom(),
                forall|digest: Seq<char>| #[trigger]
                    first.dom().contains(digest) ==> store.objects@[digest] == (RunObjectEntry {
                        directory_synced: first[digest].directory_synced || exists|j: int|
                            0 <= j < i && objects@[(
                            #[trigger] self.unsynced@[j]) as int].digest@ == digest,
                        length: first[digest].length,
                    }),
            decreases self.unsynced.len() - i,
        {
            let place: usize = self.unsynced[i];
            let ghost digest = objects@[place as int].digest@;
            let ghost before = store.objects@;
            assert(first.dom().contains(digest));
            store.mark_synced(objects[place].digest.as_str());
            proof {
                assert(store.objects@.dom() =~= first.dom());
                assert forall|other: Seq<char>| #[trigger]
                    first.dom().contains(other) implies store.objects@[other] == (RunObjectEntry {
                    directory_synced: first[other].directory_synced || exists|j: int|
                        0 <= j < i + 1 && objects@[(
                        #[trigger] self.unsynced@[j]) as int].digest@ == other,
                    length: first[other].length,
                }) by {
                    if other == digest {
                        assert(objects@[self.unsynced@[i as int] as int].digest@ == other);
                    } else {
                        assert(before[other] == store.objects@[other]);
                        if exists|j: int|
                            0 <= j < i + 1 && objects@[(
                            #[trigger] self.unsynced@[j]) as int].digest@ == other {
                            let j = choose|j: int|
                                0 <= j < i + 1 && objects@[(
                                #[trigger] self.unsynced@[j]) as int].digest@ == other;
                            assert(j < i);
                        }
                    }
                }
            }
            i = i + 1;
        }
    }
}

impl RunObjectStore {
    fn mark_synced(&mut self, digest: &str)
        requires
            old(self).wf(),
            old(self).objects@.dom().contains(digest@),
        ensures
            final(self).wf(),
            final(self).accounted_bytes == old(self).accounted_bytes,
            final(self).limits == old(self).limits,
            final(self).failed == old(self).failed,
            final(self).objects@ == old(self).objects@.insert(
                digest@,
                RunObjectEntry {
                    directory_synced: true,
                    length: old(self).objects@[digest@].length,
                },
            ),
    {
        let length: u32 = match self.objects.get(digest) {
            Some(entry) => entry.length,
            None => 0,
        };
        let ghost before = self.objects;
        self.objects.insert(digest.to_owned(), RunObjectEntry { directory_synced: true, length });
        proof {
            let keys = crate::keyed::keys_of(before.entries@);
            crate::engine::registry::lemma_text_position_bounds(keys, digest@);
            let at = crate::engine::registry::text_position(keys, digest@)->0;
            lemma_entry_bytes_update(before.entries@, at, self.objects.entries@[at]);
        }
    }

    /// Takes note that an object could not be created: the store takes nothing more.
    pub fn creation_failed(&mut self)
        ensures
            *final(self) == (RunObjectStore { failed: true, ..*old(self) }),
    {
        self.failed = true;
    }

    /// Takes note that an object was created but not made durable: where what is left
    /// of it could not be taken away, the store takes nothing more.
    pub fn publication_failed(&mut self, cleaned: bool)
        ensures
            *final(self) == (RunObjectStore { failed: old(self).failed || !cleaned, ..*old(self) }),
    {
        if !cleaned {
            self.failed = true;
        }
    }
}

/// The address of a stored object, with the digest that it names where it is valid.
pub struct ObjectUri {
    pub uri: String,
    pub digest: Option<String>,
}

impl Clone for ObjectUri {
    fn clone(&self) -> (copy: Self)
        ensures
            copy == *self,
    {
        let digest = match &self.digest {
            Some(digest) => Some(digest.clone()),
            None => None,
        };
        ObjectUri { uri: self.uri.clone(), digest }
    }
}

/// What is wrong with an address.
pub open spec fn uri_failure(uri: ObjectUri) -> Option<ErrorModel> {
    if uri.digest is Some {
        None
    } else {
        error::protocol_failure("productive recovery object URI is invalid"@)
    }
}

/// The digest that an address names.
pub fn validate_recovery_object_uri(uri: &ObjectUri) -> (result: Result<&str, RuntimeError>)
    ensures
        error::failure(result) == uri_failure(*uri),
        result matches Ok(digest) ==> uri.digest is Some && digest@ == uri.digest->0@,
{
    match &uri.digest {
        Some(digest) => Ok(digest.as_str()),
        None => Err(protocol("productive recovery object URI is invalid")),
    }
}

/// What is wrong with the size of an object that is about to be read.
pub open spec fn stored_size_failure(length: u64, limits: ObjectLimits) -> Option<ErrorModel> {
    if length > limits.max_object_bytes {
        error::protocol_failure("productive recovery object exceeds its byte limit"@)
    } else {
        None
    }
}

/// Accepts the size of an object that is about to be read.
pub fn check_stored_size(length: u64, limits: ObjectLimits) -> (result: Result<(), RuntimeError>)
    ensures
        error::failure(result) == stored_size_failure(length, limits),
{
    if length > limits.max_object_bytes {
        return Err(protocol("productive recovery object exceeds its byte limit"));
    }
    Ok(())
}

/// What is wrong with what was read under an address.
pub open spec fn read_failure(
    uri: ObjectUri,
    length: u64,
    bytes: Seq<u8>,
    limits: ObjectLimits,
) -> Option<ErrorModel> {
    if uri_failure(uri) is Some {
        uri_failure(uri)
    } else if stored_size_failure(length, limits) is Some {
        stored_size_failure(length, limits)
    } else if digest::digest_text(bytes) != uri.digest->0@ {
        error::protocol_failure("productive recovery object does not match its URI digest"@)
    } else {
        None
    }
}

/// Accepts what was read under an address: bytes with the digest that it names.
pub fn read_run_object_uri(uri: &ObjectUri, length: u64, bytes: Vec<u8>, limits: ObjectLimits) -> (result:
    Result<Vec<u8>, RuntimeError>)
    ensures
        error::failure(result) == read_failure(*uri, length, bytes@, limits),
        result matches Ok(read) ==> read == bytes,
{
    let digest = validate_recovery_object_uri(uri)?;
    check_stored_size(length, limits)?;
    let actual = sha256_hex(bytes.as_slice());
    if !same_text(actual.as_str(), digest) {
        return Err(protocol("productive recovery object does not match its URI digest"));
    }
    Ok(bytes)
}

impl RunObjectStore {
    /// What a store hands out under an address: nothing after a failure, and else what
    /// was read.
    pub fn read(&self, uri: &ObjectUri, length: u64, bytes: Vec<u8>) -> (result: Result<
        Vec<u8>,
        RuntimeError,
    >)
        ensures
            error::failure(result) == (if self.failed {
                closed_failure(*self)
            } else {
                read_failure(*uri, length, bytes@, self.limits)
            }),
            result matches Ok(read) ==> read == bytes,
    {
        if self.failed {
            return Err(protocol("run object store is closed after a prior failure"));
        }
        read_run_object_uri(uri, length, bytes, self.limits)
    }
}

/// What a batch stores can be read back: under an address that names the digest of an
/// object that was accepted, its bytes are accepted.
pub proof fn law_stored_object_is_read(
    store: RunObjectStore,
    objects: Seq<ContextObject>,
    k: int,
    uri: ObjectUri,
)
    requires
        persist_failure(store, objects) is None,
        0 <= k < objects.len(),
        uri.digest matches Some(digest) && digest@ == objects[k].digest@,
    ensures
        read_failure(
            uri,
            objects[k].bytes@.len() as u64,
            objects[k].bytes@,
            store.limits,
        ) is None,
{
    lemma_batch_accepts_each(objects, objects.len(), k, store.limits.max_object_bytes);
}

proof fn lemma_batch_accepts_each(
    objects: Seq<ContextObject>,
    count: nat,
    k: int,
    max_bytes: u64,
)
    requires
        batch_failure(objects, count, max_bytes) is None,
        0 <= k < count,
    ensures
        object_failure(objects, k, max_bytes) is None,
    decreases count,
{
    if k < count - 1 {
        lemma_batch_accepts_each(objects, (count - 1) as nat, k, max_bytes);
    }
}

/// The next place to work on is the first behind the given one whose object is stored, or is
/// not, as asked for; there is none exactly where no such place is left.
pub proof fn law_next_place_is_the_first_left(
    store: RunObjectStore,
    objects: Seq<ContextObject>,
    places: Seq<usize>,
    from: int,
    stored: bool,
)
    requires
        0 <= from,
    ensures
        match next_candidate(store, objects, places, from, stored) {
            Some(at) => {
                &&& from <= at < places.len()
                &&& store.objects@.dom().contains(objects[places[at] as int].digest@) == stored
                &&& forall|i: int|
                    from <= i < at ==> store.objects@.dom().contains(
                        objects[(#[trigger] places[i]) as int].digest@,
                    ) != stored
            },
            None => forall|i: int|
                from <= i < places.len() ==> store.objects@.dom().contains(
                    objects[(#[trigger] places[i]) as int].digest@,
                ) != stored,
        },
    decreases places.len() - from,
{
    if from < places.len() && store.objects@.dom().contains(
        objects[places[from] as int].digest@,
    ) != stored {
        law_next_place_is_the_first_left(store, objects, places, from + 1, stored);
    }
}

/// Nothing is created before every stored object was checked, and a run is finished only
/// where every object of the batch is stored.
pub proof fn law_objects_are_checked_before_they_are_created(
    store: RunObjectStore,
    objects: Seq<ContextObject>,
    places: Seq<usize>,
    from: int,
    unsynced: bool,
)
    requires
        0 <= from,
    ensures
        ({
            let stage = checking_stage(store, objects, places, from, unsynced);
            &&& stage !is Checking ==> forall|i: int|
                from <= i < places.len() ==> !store.objects@.dom().contains(
                    objects[(#[trigger] places[i]) as int].digest@,
                )
            &&& stage is Checking || stage is DirectorySync || !unsynced
            &&& stage is DirectorySync ==> unsynced
            &&& stage is Finished ==> forall|i: int|
                0 <= i < places.len() ==> store.objects@.dom().contains(
                    objects[(#[trigger] places[i]) as int].digest@,
                )
        }),
        creating_stage(store, objects, places, from) is Finished ==> forall|i: int|
            from <= i < places.len() ==> store.objects@.dom().contains(
                objects[(#[trigger] places[i]) as int].digest@,
            ),
{
    law_next_place_is_the_first_left(store, objects, places, from, true);
    law_next_place_is_the_first_left(store, objects, places, from, false);
    law_next_place_is_the_first_left(store, objects, places, 0, false);
}

/// The bytes of the objects listed, and of those stored, are the sums of their lengths.
pub proof fn law_lengths_are_summed(
    listings: Seq<ObjectListing>,
    listing: ObjectListing,
    entries: Seq<(String, RunObjectEntry)>,
    entry: (String, RunObjectEntry),
)
    ensures
        listed_bytes(listings.push(listing)) == listed_bytes(listings) + listing.length,
        listed_bytes(Seq::empty()) == 0,
        entry_bytes(entries.push(entry)) == entry_bytes(entries) + entry.1.length,
        entry_bytes(Seq::empty()) == 0,
{
    assert(listings.push(listing).drop_last() =~= listings);
    assert(entries.push(entry).drop_last() =~= entries);
}

/// Whether a listed object may be part of an inventory.
pub open spec fn is_sound(listing: ObjectListing, limits: ObjectLimits) -> bool {
    &&& listing.name is Some
    &&& listing.is_file
    &&& listing.length <= limits.max_object_bytes
    &&& listing.length <= u32::MAX
    &&& contract::run_object_name_failure(listing.name->0@) is None
}

/// An inventory is accepted exactly where each of its objects is a file that is named by a
/// digest and no longer than it may be, there are no more than there may be, and their bytes
/// can be counted.
pub proof fn law_inventory_holds_sound_objects(
    listings: Seq<ObjectListing>,
    limits: ObjectLimits,
)
    ensures
        inventory_failure(listings, limits) is None <==> {
            &&& forall|k: int| 0 <= k < listings.len() ==> is_sound(#[trigger] listings[k], limits)
            &&& listings.len() <= limits.max_objects
            &&& listed_bytes(listings) <= u64::MAX
        },
    decreases listings.len(),
{
    if listings.len() > 0 {
        let before = listings.drop_last();
        law_inventory_holds_sound_objects(before, limits);
        assert forall|k: int| 0 <= k < before.len() implies #[trigger] before[k] == listings[k] by {}
        assert forall|k: int| 0 <= k < before.len() implies #[trigger] listings[k] == before[k] by {}
        assert(listings[listings.len() - 1] == listings.last());
    }
}

proof fn lemma_batch(objects: Seq<ContextObject>, count: nat, max_bytes: u64)
    requires
        count <= objects.len(),
    ensures
        batch_failure(objects, count, max_bytes) is None <==> forall|k: int|
            0 <= k < count ==> #[trigger] object_failure(objects, k, max_bytes) is None,
    decreases count,
{
    if count > 0 {
        lemma_batch(objects, (count - 1) as nat, max_bytes);
    }
}

/// A batch is accepted exactly where each of its objects has the digest that it is named by
/// and is no longer than it may be, and no digest names different bytes.
pub proof fn law_batch_holds_what_it_names(objects: Seq<ContextObject>, max_bytes: u64)
    ensures
        batch_failure(objects, objects.len(), max_bytes) is None <==> {
            &&& forall|k: int|
                0 <= k < objects.len() ==> {
                    &&& contract::run_object_name_failure((#[trigger] objects[k]).digest@) is None
                    &&& digest::digest_text(objects[k].bytes@) == objects[k].digest@
                    &&& objects[k].bytes@.len() <= max_bytes
                }
            &&& forall|j: int, k: int|
                0 <= j < k < objects.len() && (#[trigger] objects[j]).digest@ == (
                #[trigger] objects[k]).digest@ ==> objects[j].bytes@ == objects[k].bytes@
        },
{
    lemma_batch(objects, objects.len(), max_bytes);
    if batch_failure(objects, objects.len(), max_bytes) is None {
        assert forall|k: int| 0 <= k < objects.len() implies {
            &&& contract::run_object_name_failure((#[trigger] objects[k]).digest@) is None
            &&& digest::digest_text(objects[k].bytes@) == objects[k].digest@
            &&& objects[k].bytes@.len() <= max_bytes
        } by {
            assert(object_failure(objects, k, max_bytes) is None);
        }
        assert forall|j: int, k: int|
            0 <= j < k < objects.len() && (#[trigger] objects[j]).digest@ == (
            #[trigger] objects[k]).digest@ implies objects[j].bytes@ == objects[k].bytes@ by {
            assert(object_failure(objects, k, max_bytes) is None);
        }
    } else {
        let k = choose|k: int|
            0 <= k < objects.len() && #[trigger] object_failure(objects, k, max_bytes) is Some;
        let object = objects[k];
        if contract::run_object_name_failure(object.digest@) is None && digest::digest_text(
            object.bytes@,
        ) == object.digest@ && object.bytes@.len() <= max_bytes {
            let j = choose|j: int|
                0 <= j < k && (#[trigger] objects[j]).digest@ == object.digest@
                    && objects[j].bytes@ != object.bytes@;
            assert(objects[j].digest@ == objects[k].digest@);
        }
    }
}

/// What a batch adds is counted object by object: one, and its bytes, for each whose digest
/// is not stored and does not stand earlier in the batch, and nothing for any other.
pub proof fn law_new_objects_are_counted_once(
    store: RunObjectStore,
    objects: Seq<ContextObject>,
    k: nat,
)
    requires
        k < objects.len(),
    ensures
        ({
            let adds = !store.objects@.dom().contains(objects[k as int].digest@) && forall|j: int|
                0 <= j < k ==> (#[trigger] objects[j]).digest@ != objects[k as int].digest@;
            &&& new_count(store, objects, k + 1) == new_count(store, objects, k) + (if adds {
                1nat
            } else {
                0
            })
            &&& new_bytes(store, objects, k + 1) == new_bytes(store, objects, k) + (if adds {
                objects[k as int].bytes@.len()
            } else {
                0
            })
        }),
        new_count(store, objects, 0) == 0,
        new_bytes(store, objects, 0) == 0,
{
}

} // verus!

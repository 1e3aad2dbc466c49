//! Which segments a stream consists of.

use crate::error::{protocol, ErrorModel, IoKind, RuntimeError};
use crate::error;
use crate::text::join3;
use vstd::prelude::*;

verus! {

/// What a name in a directory is with regard to a stream.
#[derive(Clone, Copy, Debug, PartialEq, Eq, Structural)]
pub enum SegmentLeaf {
    /// The segment with a number.
    Ordinal(u64),
    /// A name like that of a segment, with a number that none has.
    Invalid,
    /// Something else.
    Unrelated,
}

/// An entry of the directory that a stream lies in.
#[derive(Clone, Copy, Debug, PartialEq, Eq, Structural)]
pub struct SegmentListing {
    pub is_base: bool,
    pub leaf: SegmentLeaf,
    pub is_symlink: bool,
    pub is_file: bool,
    pub bytes: u64,
}

/// The number of the segment that an entry is, if it is one: only the base name
/// stands for the first.
pub open spec fn listed_ordinal(listing: SegmentListing) -> Option<u64> {
    match listing.leaf {
        SegmentLeaf::Ordinal(ordinal) => if ordinal >= 2 || listing.is_base {
            Some(ordinal)
        } else {
            None
        },
        _ => None,
    }
}

/// What is wrong with an entry.
pub open spec fn listing_failure(listing: SegmentListing, segment_limit: u64) -> Option<ErrorModel> {
    if listing.leaf is Invalid {
        error::protocol_failure("conversation stream segment ordinal is invalid"@)
    } else if listed_ordinal(listing) is None {
        None
    } else if listing.is_symlink || !listing.is_file {
        error::protocol_failure("conversation stream segment must be a real file"@)
    } else if listing.bytes > segment_limit {
        error::protocol_failure("conversation stream segment exceeds its byte limit"@)
    } else {
        None
    }
}

/// The first thing that is wrong with some entries.
pub open spec fn listings_failure(listings: Seq<SegmentListing>, segment_limit: u64) -> Option<
    ErrorModel,
>
    decreases listings.len(),
{
    if listings.len() == 0 {
        None
    } else if listings_failure(listings.drop_last(), segment_limit) is Some {
        listings_failure(listings.drop_last(), segment_limit)
    } else {
        listing_failure(listings.last(), segment_limit)
    }
}

/// The numbers of the segments among some entries.
pub open spec fn listed_ordinals(listings: Seq<SegmentListing>) -> Seq<u64>
    decreases listings.len(),
{
    if listings.len() == 0 {
        Seq::empty()
    } else {
        let rest = listed_ordinals(listings.drop_last());
        match listed_ordinal(listings.last()) {
            Some(ordinal) => rest.push(ordinal),
            None => rest,
        }
    }
}

/// The largest of some numbers, or zero.
pub open spec fn largest(ordinals: Seq<u64>) -> u64
    decreases ordinals.len(),
{
    if ordinals.len() == 0 {
        0
    } else if largest(ordinals.drop_last()) < ordinals.last() {
        ordinals.last()
    } else {
        largest(ordinals.drop_last())
    }
}

/// The name of the file that a stream begins in: whether it has a directory, whether its
/// name is text, and whether it is a name that a stream can have.
#[derive(Clone, Copy, Debug, PartialEq, Eq, Structural)]
pub struct StreamBase {
    pub has_parent: bool,
    pub is_text: bool,
    pub is_jsonl: bool,
}

/// What is wrong with the name of the file that a stream begins in.
pub open spec fn base_failure(base: StreamBase) -> Option<ErrorModel> {
    if !base.has_parent {
        error::protocol_failure("conversation stream has no parent directory"@)
    } else if !base.is_text {
        error::protocol_failure("conversation stream name is not valid UTF-8"@)
    } else if !base.is_jsonl {
        error::protocol_failure("conversation stream name must end in .jsonl"@)
    } else {
        None
    }
}

fn check_stream_base(base: StreamBase) -> (result: Result<(), RuntimeError>)
    ensures
        error::failure(result) == base_failure(base),
{
    if !base.has_parent {
        return Err(protocol("conversation stream has no parent directory"));
    }
    if !base.is_text {
        return Err(protocol("conversation stream name is not valid UTF-8"));
    }
    if !base.is_jsonl {
        return Err(protocol("conversation stream name must end in .jsonl"));
    }
    Ok(())
}

/// Why a directory could not be read on, where it could not.
pub open spec fn stop_failure(stopped: Option<RuntimeError>) -> Option<ErrorModel> {
    match stopped {
        Some(error) => Some(error@),
        None => None,
    }
}

/// What is wrong with the segments of a stream.
pub open spec fn inventory_failure(
    base: StreamBase,
    listings: Seq<SegmentListing>,
    stopped: Option<RuntimeError>,
    segment_limit: u64,
    path: Seq<char>,
) -> Option<ErrorModel> {
    if base_failure(base) is Some {
        base_failure(base)
    } else if listings_failure(listings, segment_limit) is Some {
        listings_failure(listings, segment_limit)
    } else if stop_failure(stopped) is Some {
        stop_failure(stopped)
    } else if largest(listed_ordinals(listings)) == 0 {
        Some(ErrorModel::Io { path, kind: IoKind::NotFound, message: "entity not found"@ })
    } else if listed_ordinals(listings).len() != largest(listed_ordinals(listings)) {
        error::protocol_failure("conversation stream segment ordinals are not contiguous"@)
    } else {
        None
    }
}

proof fn lemma_listings_failure_prefix(
    listings: Seq<SegmentListing>,
    count: int,
    segment_limit: u64,
)
    requires
        0 <= count <= listings.len(),
        listings_failure(listings.take(count), segment_limit) is Some,
    ensures
        listings_failure(listings, segment_limit) == listings_failure(
            listings.take(count),
            segment_limit,
        ),
    decreases listings.len(),
{
    if count < listings.len() {
        let rest = listings.drop_last();
        assert(rest.take(count) =~= listings.take(count));
        lemma_listings_failure_prefix(rest, count, segment_limit);
    } else {
        assert(listings.take(count) =~= listings);
    }
}

/// Takes the inventory of a stream: gives the number of its last segment. `listings` is
/// what its directory lists, up to where it could not be read on.
pub fn conversation_segment_inventory(
    base: StreamBase,
    listings: &Vec<SegmentListing>,
    stopped: Option<RuntimeError>,
    segment_limit: u64,
    path: &str,
) -> (result: Result<u64, RuntimeError>)
    ensures
        error::failure(result) == inventory_failure(base, listings@, stopped, segment_limit, path@),
        result matches Ok(last) ==> last == largest(listed_ordinals(listings@)) && last >= 1,
{
    check_stream_base(base)?;
    let mut count: usize = 0;
    let mut last: u64 = 0;
    let mut i: usize = 0;
    assert(listings@.take(0) =~= Seq::empty());
    while i < listings.len()
        invariant
            i <= listings.len(),
            base_failure(base) is None,
            listings_failure(listings@.take(i as int), segment_limit) is None,
            count == listed_ordinals(listings@.take(i as int)).len(),
            count <= i,
            last == largest(listed_ordinals(listings@.take(i as int))),
        decreases listings.len() - i,
    {
        let listing = listings[i];
        let ghost head = listings@.take(i + 1);
        assert(head.drop_last() =~= listings@.take(i as int));
        assert(head.last() == listing);
        let ghost wrong = listing_failure(listing, segment_limit);
        proof {
            if wrong is Some {
                lemma_listings_failure_prefix(listings@, i + 1, segment_limit);
            }
        }
        let ordinal: u64 = match listing.leaf {
            SegmentLeaf::Invalid => {
                return Err(protocol("conversation stream segment ordinal is invalid"));
            },
            SegmentLeaf::Unrelated => {
                i = i + 1;
                continue;
            },
            SegmentLeaf::Ordinal(ordinal) => ordinal,
        };
        if ordinal < 2 && !listing.is_base {
            i = i + 1;
            continue;
        }
        if listing.is_symlink || !listing.is_file {
            return Err(protocol("conversation stream segment must be a real file"));
        }
        if listing.bytes > segment_limit {
            return Err(protocol("conversation stream segment exceeds its byte limit"));
        }
        let ghost ordinals = listed_ordinals(listings@.take(i as int));
        assert(ordinals.push(ordinal).drop_last() =~= ordinals);
        count = count + 1;
        if last < ordinal {
            last = ordinal;
        }
        i = i + 1;
    }
    assert(listings@.take(i as int) =~= listings@);
    match stopped {
        Some(error) => {
            return Err(error);
        },
        None => {},
    }
    if last == 0 {
        return Err(
            RuntimeError::Io {
                path: path.to_owned(),
                kind: IoKind::NotFound,
                message: "entity not found".to_owned(),
            },
        );
    }
    if count as u64 != last {
        return Err(protocol("conversation stream segment ordinals are not contiguous"));
    }
    Ok(last)
}

/// The number that the segment behind another one has: `named` is whether there is a name
/// for it.
pub fn conversation_segment_path(base: StreamBase, ordinal: u64, named: bool) -> (result: Result<
    (),
    RuntimeError,
>)
    ensures
        error::failure(result) == (if ordinal < 2 {
            error::protocol_failure("conversation stream segment ordinal is exhausted"@)
        } else if !base.is_text || !base.is_jsonl {
            error::protocol_failure("conversation stream name must end in .jsonl"@)
        } else if !named {
            error::protocol_failure("conversation stream segment ordinal is exhausted"@)
        } else {
            None
        }),
{
    if ordinal < 2 {
        return Err(protocol("conversation stream segment ordinal is exhausted"));
    }
    if !base.is_text || !base.is_jsonl {
        return Err(protocol("conversation stream name must end in .jsonl"));
    }
    if !named {
        return Err(protocol("conversation stream segment ordinal is exhausted"));
    }
    Ok(())
}

/// An entry of the directory of a run, with regard to one of its streams.
#[derive(Clone, Copy, Debug, PartialEq, Eq, Structural)]
pub struct RunListing {
    pub is_symlink: bool,
    pub is_text: bool,
    pub is_base: bool,
    /// The number of the segment that it is, where it is one and the number can be held.
    pub ordinal: Option<usize>,
    pub is_file: bool,
}

/// The number of the segment that an entry of a run is, if it is one.
pub open spec fn run_ordinal(listing: RunListing) -> Option<usize> {
    if listing.is_base {
        Some(1usize)
    } else {
        listing.ordinal
    }
}

/// The numbers of the segments among some entries of a run.
pub open spec fn run_ordinals(listings: Seq<RunListing>) -> Seq<u64>
    decreases listings.len(),
{
    if listings.len() == 0 {
        Seq::empty()
    } else {
        let rest = run_ordinals(listings.drop_last());
        match run_ordinal(listings.last()) {
            Some(ordinal) => rest.push(ordinal as u64),
            None => rest,
        }
    }
}

/// What is wrong with an entry of a run, where so many segments were listed before it.
pub open spec fn run_listing_failure(
    listing: RunListing,
    before: nat,
    stem: Seq<char>,
    max_segments: u64,
) -> Option<ErrorModel> {
    if listing.is_symlink {
        error::protocol_failure("run stream inventory must not contain symlinks"@)
    } else if !listing.is_text {
        error::protocol_failure("run stream name must be UTF-8"@)
    } else if run_ordinal(listing) is None {
        None
    } else if !listing.is_file {
        if listing.is_base {
            error::protocol_failure("run base stream must be a real file"@)
        } else {
            error::protocol_failure("run stream segment must be a real file"@)
        }
    } else if before + 1 > max_segments {
        error::protocol_failure(
            "productive recovery "@ + stem + " prefix has too many segments"@,
        )
    } else {
        None
    }
}

/// The first thing that is wrong with some entries of a run.
pub open spec fn run_listings_failure(
    listings: Seq<RunListing>,
    stem: Seq<char>,
    max_segments: u64,
) -> Option<ErrorModel>
    decreases listings.len(),
{
    if listings.len() == 0 {
        None
    } else {
        let rest = listings.drop_last();
        error::first_failure(
            run_listings_failure(rest, stem, max_segments),
            run_listing_failure(listings.last(), run_ordinals(rest).len(), stem, max_segments),
        )
    }
}

/// Whether the first segment is among some entries of a run.
pub open spec fn base_listed(listings: Seq<RunListing>) -> bool {
    exists|i: int| 0 <= i < listings.len() && (#[trigger] listings[i]).is_base
}

/// What is wrong with the segments of a stream of a run.
pub open spec fn run_count_failure(
    listings: Seq<RunListing>,
    stopped: Option<RuntimeError>,
    stem: Seq<char>,
    max_segments: u64,
) -> Option<ErrorModel> {
    if run_listings_failure(listings, stem, max_segments) is Some {
        run_listings_failure(listings, stem, max_segments)
    } else if stop_failure(stopped) is Some {
        stop_failure(stopped)
    } else if !base_listed(listings) {
        error::protocol_failure("run "@ + stem + " stream is missing"@)
    } else if run_ordinals(listings).len() != largest(run_ordinals(listings)) {
        error::protocol_failure("run stream segment ordinals are not contiguous"@)
    } else {
        None
    }
}

proof fn lemma_run_listings_failure_prefix(
    listings: Seq<RunListing>,
    count: int,
    stem: Seq<char>,
    max_segments: u64,
)
    requires
        0 <= count <= listings.len(),
        run_listings_failure(listings.take(count), stem, max_segments) is Some,
    ensures
        run_listings_failure(listings, stem, max_segments) == run_listings_failure(
            listings.take(count),
            stem,
            max_segments,
        ),
    decreases listings.len(),
{
    if count < listings.len() {
        let rest = listings.drop_last();
        assert(rest.take(count) =~= listings.take(count));
        lemma_run_listings_failure_prefix(rest, count, stem, max_segments);
    } else {
        assert(listings.take(count) =~= listings);
    }
}

fn check_run_listing(listing: RunListing, before: usize, stem: &str, max_segments: u64) -> (result:
    Result<(), RuntimeError>)
    ensures
        error::failure(result) == run_listing_failure(listing, before as nat, stem@, max_segments),
{
    if listing.is_symlink {
        return Err(protocol("run stream inventory must not contain symlinks"));
    }
    if !listing.is_text {
        return Err(protocol("run stream name must be UTF-8"));
    }
    if !listing.is_base && listing.ordinal.is_none() {
        return Ok(());
    }
    if !listing.is_file {
        return Err(
            if listing.is_base {
                protocol("run base stream must be a real file")
            } else {
                protocol("run stream segment must be a real file")
            },
        );
    }
    if before as u64 >= max_segments {
        let message = join3("productive recovery ", stem, " prefix has too many segments");
        return Err(protocol(message.as_str()));
    }
    Ok(())
}

/// Counts the segments of a stream of a run. `listings` is what the directory of the run
/// lists, up to where it could not be read on.
pub fn run_segment_count(
    listings: &Vec<RunListing>,
    stopped: Option<RuntimeError>,
    stem: &str,
    max_segments: u64,
) -> (result: Result<usize, RuntimeError>)
    ensures
        error::failure(result) == run_count_failure(listings@, stopped, stem@, max_segments),
        result matches Ok(count) ==> count == run_ordinals(listings@).len(),
{
    let mut base_present = false;
    let mut count: usize = 0;
    let mut last: usize = 0;
    let mut i: usize = 0;
    assert(listings@.take(0) =~= Seq::empty());
    while i < listings.len()
        invariant
            i <= listings.len(),
            run_listings_failure(listings@.take(i as int), stem@, max_segments) is None,
            base_present == base_listed(listings@.take(i as int)),
            count == run_ordinals(listings@.take(i as int)).len(),
            count <= i,
            last == largest(run_ordinals(listings@.take(i as int))),
        decreases listings.len() - i,
    {
        let listing = listings[i];
        let ghost head = listings@.take(i + 1);
        let ghost rest = listings@.take(i as int);
        proof {
            assert(head.drop_last() =~= rest);
            assert(head.last() == listing);
            if run_listing_failure(listing, count as nat, stem@, max_segments) is Some {
                lemma_run_listings_failure_prefix(listings@, i + 1, stem@, max_segments);
            }
            if base_listed(rest) {
                let k = choose|k: int| 0 <= k < rest.len() && (#[trigger] rest[k]).is_base;
                assert(head[k].is_base);
            }
            if base_listed(head) && !listing.is_base {
                let k = choose|k: int| 0 <= k < head.len() && (#[trigger] head[k]).is_base;
                assert(rest[k].is_base);
            }
            if listing.is_base {
                assert(head[i as int].is_base);
            }
        }
        check_run_listing(listing, count, stem, max_segments)?;
        let ordinal: Option<usize> = if listing.is_base {
            base_present = true;
            Some(1)
        } else {
            listing.ordinal
        };
        match ordinal {
            Some(ordinal) => {
                let ghost ordinals = run_ordinals(rest);
                assert(ordinals.push(ordinal as u64).drop_last() =~= ordinals);
                count = count + 1;
                if last < ordinal {
                    last = ordinal;
                }
            },
            None => {},
        }
        i = i + 1;
    }
    assert(listings@.take(i as int) =~= listings@);
    match stopped {
        Some(error) => {
            return Err(error);
        },
        None => {},
    }
    if !base_present {
        let message = join3("run ", stem, " stream is missing");
        return Err(protocol(message.as_str()));
    }
    if count != last {
        return Err(protocol("run stream segment ordinals are not contiguous"));
    }
    Ok(count)
}

/// Where segments have different numbers from one on, counting them against the
/// largest number tells that none is missing.
pub proof fn law_counted_segments_are_contiguous(ordinals: Seq<u64>, wanted: u64)
    requires
        forall|i: int| 0 <= i < ordinals.len() ==> #[trigger] ordinals[i] >= 1,
        forall|i: int, j: int|
            #![trigger ordinals[i], ordinals[j]]
            0 <= i < j < ordinals.len() ==> ordinals[i] != ordinals[j],
        ordinals.len() == largest(ordinals),
        1 <= wanted <= ordinals.len(),
    ensures
        ordinals.contains(wanted),
{
    lemma_largest(ordinals);
    let values = ordinals.map_values(|ordinal: u64| ordinal as int);
    assert(values.no_duplicates()) by {
        assert forall|i: int, j: int|
            0 <= i < values.len() && 0 <= j < values.len() && i != j implies values[i]
            != values[j] by {
            if i < j {
                assert(ordinals[i] != ordinals[j]);
            } else {
                assert(ordinals[j] != ordinals[i]);
            }
        }
    }
    values.unique_seq_to_set();
    let all = vstd::set_lib::set_int_range(1, ordinals.len() as int + 1);
    vstd::set_lib::lemma_int_range(1, ordinals.len() as int + 1);
    assert forall|v: int| values.to_set().contains(v) implies all.contains(v) by {
        let i = choose|i: int| 0 <= i < values.len() && values[i] == v;
        assert(ordinals[i] >= 1);
    }
    assert(values.to_set().subset_of(all));
    if !values.to_set().contains(wanted as int) {
        assert(values.to_set().subset_of(all.remove(wanted as int)));
        vstd::set_lib::lemma_len_subset(values.to_set(), all.remove(wanted as int));
        assert(false);
    }
    let i = choose|i: int| 0 <= i < values.len() && values[i] == wanted as int;
    assert(ordinals[i] == wanted);
}

proof fn lemma_largest(ordinals: Seq<u64>)
    ensures
        forall|i: int| 0 <= i < ordinals.len() ==> #[trigger] ordinals[i] <= largest(ordinals),
    decreases ordinals.len(),
{
    if ordinals.len() > 0 {
        let rest = ordinals.drop_last();
        lemma_largest(rest);
        assert forall|i: int| 0 <= i < ordinals.len() implies #[trigger] ordinals[i] <= largest(
            ordinals,
        ) by {
            if i < rest.len() {
                assert(rest[i] == ordinals[i]);
            }
        }
    }
}

/// The largest ordinal is among the ordinals, and none of them is larger; of none it is zero.
pub proof fn law_largest_is_the_largest(ordinals: Seq<u64>)
    ensures
        forall|k: int| 0 <= k < ordinals.len() ==> #[trigger] ordinals[k] <= largest(ordinals),
        ordinals.len() == 0 ==> largest(ordinals) == 0,
        largest(ordinals) != 0 ==> ordinals.contains(largest(ordinals)),
    decreases ordinals.len(),
{
    if ordinals.len() > 0 {
        let rest = ordinals.drop_last();
        law_largest_is_the_largest(rest);
        assert forall|k: int| 0 <= k < ordinals.len() implies #[trigger] ordinals[k] <= largest(
            ordinals,
        ) by {
            if k < rest.len() {
                assert(rest[k] == ordinals[k]);
            }
        }
        if rest.contains(largest(rest)) {
            let k = choose|k: int| 0 <= k < rest.len() && rest[k] == largest(rest);
            assert(ordinals[k] == rest[k]);
        }
        assert(ordinals[ordinals.len() - 1] == ordinals.last());
    }
}

/// The ordinals of a listing are those of its segments, in its order: one for each name that
/// is a segment's, and nothing for any other.
pub proof fn law_each_segment_has_its_ordinal(
    listings: Seq<SegmentListing>,
    listing: SegmentListing,
    runs: Seq<RunListing>,
    run: RunListing,
)
    ensures
        listed_ordinals(listings.push(listing)) == listed_ordinals(listings) + (
        if listing.leaf is Ordinal && (listing.is_base || listing.leaf->Ordinal_0 >= 2) {
            seq![listing.leaf->Ordinal_0]
        } else {
            Seq::empty()
        }),
        listed_ordinals(Seq::empty()) == Seq::<u64>::empty(),
        run_ordinals(runs.push(run)) == run_ordinals(runs) + (if run.is_base {
            seq![1u64]
        } else if run.ordinal is Some {
            seq![run.ordinal->0 as u64]
        } else {
            Seq::empty()
        }),
        run_ordinals(Seq::empty()) == Seq::<u64>::empty(),
{
    assert(listings.push(listing).drop_last() =~= listings);
    assert(runs.push(run).drop_last() =~= runs);
    assert(listed_ordinals(listings.push(listing)) =~= listed_ordinals(listings) + (
    if listing.leaf is Ordinal && (listing.is_base || listing.leaf->Ordinal_0 >= 2) {
        seq![listing.leaf->Ordinal_0]
    } else {
        Seq::empty()
    }));
    assert(run_ordinals(runs.push(run)) =~= run_ordinals(runs) + (if run.is_base {
        seq![1u64]
    } else if run.ordinal is Some {
        seq![run.ordinal->0 as u64]
    } else {
        Seq::empty()
    }));
}

/// Listed segments are accepted exactly where each of them is a real file that is no longer
/// than a segment may be, and no name has an invalid ordinal.
pub proof fn law_listed_segments_are_real_files(
    listings: Seq<SegmentListing>,
    segment_limit: u64,
)
    ensures
        listings_failure(listings, segment_limit) is None <==> forall|k: int|
            0 <= k < listings.len() ==> listing_failure(#[trigger] listings[k], segment_limit)
                is None,
        forall|k: int|
            0 <= k < listings.len() && listing_failure(#[trigger] listings[k], segment_limit)
                is None ==> {
                &&& listings[k].leaf !is Invalid
                &&& listings[k].leaf is Ordinal && (listings[k].is_base
                    || listings[k].leaf->Ordinal_0 >= 2) ==> !listings[k].is_symlink
                    && listings[k].is_file && listings[k].bytes <= segment_limit
            },
    decreases listings.len(),
{
    if listings.len() > 0 {
        let rest = listings.drop_last();
        law_listed_segments_are_real_files(rest, segment_limit);
        assert forall|k: int| 0 <= k < rest.len() implies #[trigger] rest[k] == listings[k] by {}
        assert forall|k: int| 0 <= k < rest.len() implies #[trigger] listings[k] == rest[k] by {}
        assert(listings[listings.len() - 1] == listings.last());
    }
}

} // verus!

//! What holds of listings and pages as a whole: which contracts they come to, in
//! which order, and where they go on after a cursor.
use vstd::prelude::*;

use crate::admission;
use crate::bytes;
use crate::bytes::Record;
use crate::error::Failure;
use crate::keys;
use crate::keys::{KeyKind, Place};
use crate::models::{ContractID, Order};
use crate::order;
use crate::pagination;
use crate::scan;
use crate::window;
use crate::window::Window;

pub mod addresses;
pub mod limits;
pub mod listing;
pub mod listing_addresses;
pub mod listing_numbers;
pub mod listing_texts;
pub mod numbers;
pub mod pages;
pub mod reading;
pub mod relations;
pub mod showing;
pub mod texts;
pub mod values;
pub mod words;

verus! {

/// Whether the key of a record is one of the given kind.
pub open spec fn is_readable(kind: KeyKind, record: Record) -> bool {
    keys::place_of(kind, record.0) is Ok
}

/// The records whose keys are of the given kind. A listing that succeeds comes
/// to no others.
pub open spec fn readable(kind: KeyKind, records: Seq<Record>) -> Seq<Record> {
    records.filter(|record: Record| is_readable(kind, record))
}

/// Whether every record of an index stands under a key of the index's kind.
pub open spec fn well_filed(kind: KeyKind, records: Seq<Record>) -> bool {
    forall|i: int| 0 <= i < records.len() ==> keys::place_of(kind, #[trigger] records[i].0) is Ok
}

/// Whether `listing` is the places of the first `limit` records within a
/// window, which stand in order, and there is at least one.
pub open spec fn is_page(
    kind: KeyKind,
    records: Seq<Record>,
    window: Window,
    order: Order,
    limit: u32,
    listing: Seq<Place>,
) -> bool {
    let rows = window::within(records, window, order);
    &&& bytes::sorted(bytes::keys_of(rows), order)
    &&& pagination::places(kind, rows, limit) == Ok::<Seq<Place>, Failure>(listing)
    &&& listing.len() > 0
}

/// Whether a walk over the window `rest` is a walk over the window `whole`
/// without its first `count` records.
pub open spec fn is_rest(
    records: Seq<Record>,
    whole: Window,
    rest: Window,
    order: Order,
    count: nat,
) -> bool {
    window::within(records, rest, order) == window::within(records, whole, order).skip(count as int)
}

/// The text that a listing by tag goes by: that of the cursor, or else the one asked for.
pub open spec fn text_in_force(asked: Seq<char>, cursor: Option<Place>) -> Seq<char> {
    match cursor {
        Some((text, _)) => text,
        None => asked,
    }
}

/// Whether a walk in the given order comes to the contract `id` after the cursor.
pub open spec fn after_cursor(order: Order, cursor: Option<Place>, id: ContractID) -> bool {
    cursor matches Some((_, seen)) ==> match order {
        Order::Ascending => seen < id,
        Order::Descending => id < seen,
    }
}

/// Values that all pass are those of the results, one by one.
pub proof fn lemma_passed<A>(results: Seq<Result<A, Failure>>, values: Seq<A>)
    requires
        pagination::all_or_first_failure(results) == Ok::<Seq<A>, Failure>(values),
    ensures
        values.len() == results.len(),
        forall|i: int|
            0 <= i < results.len() ==> #[trigger] results[i] == Ok::<A, Failure>(values[i]),
    decreases results.len(),
{
    if results.len() > 0 {
        let rest = results.drop_last();
        let passed = pagination::all_or_first_failure(rest)->Ok_0;
        lemma_passed(rest, passed);
        assert(values == passed.push(results.last()->Ok_0));
        assert forall|i: int| 0 <= i < results.len() implies #[trigger] results[i] == Ok::<
            A,
            Failure,
        >(values[i]) by {
            if i < rest.len() {
                assert(rest[i] == Ok::<A, Failure>(passed[i]));
            }
        }
    }
}

/// The places of a listing are those of the first records, one by one.
pub proof fn lemma_listed(kind: KeyKind, rows: Seq<Record>, limit: u32, listing: Seq<Place>)
    requires
        pagination::places(kind, rows, limit) == Ok::<Seq<Place>, Failure>(listing),
    ensures
        listing.len() == pagination::at_most(rows.len(), limit),
        forall|i: int|
            0 <= i < listing.len() ==> keys::place_of(kind, rows[i].0) == Ok::<Place, Failure>(
                #[trigger] listing[i],
            ),
{
    let first = pagination::first_of(rows, limit);
    let results = first.map_values(|record: Record| pagination::record_place(kind, record));
    lemma_passed(results, listing);
    assert forall|i: int| 0 <= i < listing.len() implies keys::place_of(kind, rows[i].0) == Ok::<
        Place,
        Failure,
    >(#[trigger] listing[i]) by {
        assert(results[i] == Ok::<Place, Failure>(listing[i]));
        assert(results[i] == pagination::record_place(kind, rows[i]));
    }
}

/// Readable records are well filed, and those of a well filed index are all readable.
pub proof fn lemma_readable(kind: KeyKind, records: Seq<Record>)
    ensures
        well_filed(kind, readable(kind, records)),
        well_filed(kind, records) ==> readable(kind, records) == records,
{
    let reads = |record: Record| is_readable(kind, record);
    let kept = readable(kind, records);
    assert forall|i: int| 0 <= i < kept.len() implies keys::place_of(
        kind,
        #[trigger] kept[i].0,
    ) is Ok by {
        bytes::lemma_filtered(records, reads, i);
        assert(reads(kept[i]));
    }
    if well_filed(kind, records) {
        assert forall|i: int| 0 <= i < records.len() implies reads(#[trigger] records[i]) == (0 <= i
            < records.len()) by {
            assert(keys::place_of(kind, records[i].0) is Ok);
        }
        scan::lemma_filter_run(records, reads, 0, records.len() as int);
        assert(records.subrange(0, records.len() as int) =~= records);
    }
}

/// A walk over the readable records is a walk over all records, without those
/// that are not readable.
pub proof fn lemma_readable_walk(
    kind: KeyKind,
    records: Seq<Record>,
    window: Window,
    order: Order,
)
    ensures
        window::within(readable(kind, records), window, order) == readable(
            kind,
            window::within(records, window, order),
        ),
{
    let reads = |record: Record| is_readable(kind, record);
    let inside = |record: Record|
        bytes::above(window.lower, record.0) && bytes::below(window.upper, record.0);
    let both = |record: Record| reads(record) && inside(record);
    scan::lemma_filter_twice(records, both, reads, inside);
    scan::lemma_filter_twice(records, both, inside, reads);
    scan::lemma_filter_reverse(records.filter(inside), reads);
}

/// A listing that succeeds is one of the readable records.
pub proof fn lemma_readable_places(
    kind: KeyKind,
    records: Seq<Record>,
    window: Window,
    order: Order,
    limit: u32,
    listing: Seq<Place>,
)
    requires
        pagination::places(kind, window::within(records, window, order), limit) == Ok::<
            Seq<Place>,
            Failure,
        >(listing),
    ensures
        pagination::places(
            kind,
            window::within(readable(kind, records), window, order),
            limit,
        ) == Ok::<Seq<Place>, Failure>(listing),
{
    let reads = |record: Record| is_readable(kind, record);
    let rows = window::within(records, window, order);
    let count = pagination::at_most(rows.len(), limit);
    let first = rows.take(count);
    let others = rows.skip(count);
    lemma_readable_walk(kind, records, window, order);
    lemma_listed(kind, rows, limit, listing);
    assert forall|i: int| 0 <= i < first.len() implies reads(#[trigger] first[i]) == (0 <= i
        < first.len()) by {
        assert(keys::place_of(kind, rows[i].0) == Ok::<Place, Failure>(listing[i]));
    }
    scan::lemma_filter_run(first, reads, 0, first.len() as int);
    assert(first.subrange(0, first.len() as int) =~= first);
    assert(rows =~= first + others);
    Seq::filter_distributes_over_add(first, others, reads);
    others.lemma_filter_len(reads);
    let kept = readable(kind, rows);
    assert(pagination::first_of(kept, limit) =~= pagination::first_of(rows, limit));
}

/// The readable records stand in order where all records do.
pub proof fn lemma_readable_sorted(
    kind: KeyKind,
    records: Seq<Record>,
    window: Window,
    order: Order,
)
    requires
        bytes::sorted(bytes::keys_of(window::within(records, window, order)), order),
    ensures
        bytes::sorted(
            bytes::keys_of(window::within(readable(kind, records), window, order)),
            order,
        ),
{
    let reads = |record: Record| is_readable(kind, record);
    let rows = window::within(records, window, order);
    let kept = window::within(readable(kind, records), window, order);
    let all_keys = bytes::keys_of(rows);
    let kept_keys = bytes::keys_of(kept);
    lemma_readable_walk(kind, records, window, order);
    assert forall|i: int, j: int| 0 <= i < j < kept_keys.len() implies bytes::comes_before(
        order,
        #[trigger] kept_keys[i],
        #[trigger] kept_keys[j],
    ) by {
        scan::lemma_filter_order(rows, reads, i, j);
        let (m, n) = choose|m: int, n: int|
            0 <= m < n < rows.len() && #[trigger] rows[m] == kept[i] && #[trigger] rows[n]
                == kept[j];
        assert(bytes::comes_before(order, all_keys[m], all_keys[n]));
    }
}

/// A page is one of the readable records.
pub proof fn lemma_readable_page(
    kind: KeyKind,
    records: Seq<Record>,
    window: Window,
    order: Order,
    limit: u32,
    listing: Seq<Place>,
)
    requires
        is_page(kind, records, window, order, limit, listing),
    ensures
        is_page(kind, readable(kind, records), window, order, limit, listing),
        well_filed(kind, readable(kind, records)),
{
    lemma_readable(kind, records);
    lemma_readable_places(kind, records, window, order, limit, listing);
    lemma_readable_sorted(kind, records, window, order);
}

/// A component with its length, and what follows it, can be told apart.
pub proof fn lemma_splits(component: Seq<u8>, rest: Seq<u8>)
    requires
        component.len() <= bytes::MAX_COMPONENT,
    ensures
        keys::pair_splits(bytes::length_prefixed(component) + rest),
        ({
            let key = bytes::length_prefixed(component) + rest;
            key.skip(2 + key[0] * 256 + key[1]) == rest
        }),
{
    let key = bytes::length_prefixed(component) + rest;
    reveal_with_fuel(bytes::big_endian, 3);
    let length = bytes::big_endian(component.len(), 2);
    assert(length.len() == 2);
    assert(length[0] == (component.len() / 256 % 256) as u8);
    assert(length[1] == (component.len() % 256) as u8);
    assert(key[0] == length[0] && key[1] == length[1]);
    assert(key.skip(2 + component.len() as int) =~= rest);
}

/// Entries with one key are one entry.
pub proof fn lemma_same_entry(a: admission::Entry, b: admission::Entry)
    requires
        a.0.len() <= bytes::MAX_COMPONENT,
        b.0.len() <= bytes::MAX_COMPONENT,
        bytes::pair_key(a.0, a.1) == bytes::pair_key(b.0, b.1),
    ensures
        a == b,
{
    admission::lemma_entry_order(a, b);
    admission::lemma_entry_order(b, a);
    admission::lemma_entries(a, b, a);
    order::lemma_irreflexive(bytes::pair_key(a.0, a.1));
}

} // verus!

//! What is listed of each target, told by what the records of its namespace
//! are filed under: which contracts, in which order, how many, and what becomes
//! of records that cannot be read.
use cosmwasm_std::StdError;
use vstd::prelude::*;

use crate::bytes;
use crate::bytes::{Edge, Record};
use crate::error::Failure;
use crate::keys;
use crate::keys::{KeyKind, Place};
use crate::laws;
use crate::models::Order;
use crate::order;
use crate::pagination;
use crate::scan;
use crate::store;
use crate::window;
use crate::window::Window;

verus! {

/// Whether a record stands under `key`.
pub open spec fn is_stored(records: Seq<Record>, key: Seq<u8>) -> bool {
    exists|i: int| 0 <= i < records.len() && #[trigger] records[i].0 == key
}

/// Whether `entries` are the first `limit` of the entries that are stored and
/// wanted: there are no more than `limit`, each is stored and wanted, they
/// stand in order, and one that is not among them comes after all of them, of
/// which there are then as many as the limit allows.
pub open spec fn are_first<E>(
    records: Seq<Record>,
    key: spec_fn(E) -> Seq<u8>,
    can_file: spec_fn(E) -> bool,
    wanted: spec_fn(E) -> bool,
    before: spec_fn(E, E) -> bool,
    limit: u32,
    entries: Seq<E>,
) -> bool {
    &&& entries.len() <= limit
    &&& forall|i: int|
        0 <= i < entries.len() ==> can_file(#[trigger] entries[i]) && wanted(entries[i])
            && is_stored(records, key(entries[i]))
    &&& forall|i: int, j: int|
        0 <= i < j < entries.len() ==> before(#[trigger] entries[i], #[trigger] entries[j])
    &&& forall|entry: E|
        can_file(entry) && wanted(entry) && is_stored(records, #[trigger] key(entry))
            && !entries.contains(entry) ==> entries.len() == limit && forall|i: int|
            0 <= i < entries.len() ==> before(#[trigger] entries[i], entry)
}

/// Whether every record that stands between two of `entries` is one of them.
pub open spec fn skip_none<E>(
    records: Seq<Record>,
    key: spec_fn(E) -> Seq<u8>,
    order: Order,
    entries: Seq<E>,
) -> bool {
    forall|i: int, a: int, b: int|
        0 <= i < records.len() && 0 <= a < entries.len() && 0 <= b < entries.len()
            && bytes::comes_before(order, key(#[trigger] entries[a]), (#[trigger] records[i]).0)
            && bytes::comes_before(order, records[i].0, key(#[trigger] entries[b])) ==> exists|
            c: int,
        |
            a < c < b && key(#[trigger] entries[c]) == records[i].0
}

/// Whether the records of all `entries` hold truth values.
pub open spec fn hold_truths<E>(
    records: Seq<Record>,
    key: spec_fn(E) -> Seq<u8>,
    entries: Seq<E>,
) -> bool {
    forall|i: int, c: int|
        0 <= i < records.len() && 0 <= c < entries.len() && (#[trigger] records[i]).0 == key(
            #[trigger] entries[c],
        ) ==> store::bool_value(records[i].1) is Ok
}

/// Whether a walk over what is stored and wanted comes to the record `broken`
/// after `entries`, of which there are fewer than `limit`. Nothing that is not
/// wanted lies between that record and what is wanted.
pub open spec fn come_before<E>(
    records: Seq<Record>,
    key: spec_fn(E) -> Seq<u8>,
    can_file: spec_fn(E) -> bool,
    wanted: spec_fn(E) -> bool,
    order: Order,
    limit: u32,
    entries: Seq<E>,
    broken: Record,
) -> bool {
    &&& entries.len() < limit
    &&& records.contains(broken)
    &&& forall|i: int|
        0 <= i < entries.len() ==> can_file(#[trigger] entries[i]) && wanted(entries[i])
            && is_stored(records, key(entries[i])) && bytes::comes_before(
            order,
            key(entries[i]),
            broken.0,
        )
    &&& forall|entry: E|
        can_file(entry) && wanted(entry) && is_stored(records, #[trigger] key(entry))
            && bytes::comes_before(order, key(entry), broken.0) ==> entries.contains(entry)
    &&& forall|entry: E| can_file(entry) && #[trigger] key(entry) == broken.0 ==> wanted(entry)
    &&& forall|near: E, entry: E|
        can_file(near) && wanted(near) && can_file(entry) && bytes::comes_before(
            order,
            #[trigger] key(near),
            #[trigger] key(entry),
        ) && bytes::comes_before(order, key(entry), broken.0) ==> wanted(entry)
    &&& forall|near: E, entry: E|
        can_file(near) && wanted(near) && can_file(entry) && bytes::comes_before(
            order,
            broken.0,
            #[trigger] key(entry),
        ) && bytes::comes_before(order, key(entry), #[trigger] key(near)) ==> wanted(entry)
}

/// Whether a record that is no entry of an index fails with `failure`: its key
/// is cut short, or it is the key of something else, or, where the key is one
/// of the index, its value is no truth value.
pub open spec fn fails<E>(
    key: spec_fn(E) -> Seq<u8>,
    can_file: spec_fn(E) -> bool,
    is_whole: spec_fn(Seq<u8>) -> bool,
    key_error: spec_fn(Seq<u8>) -> StdError,
    broken: Record,
    failure: Failure,
) -> bool {
    if exists|entry: E| can_file(entry) && #[trigger] key(entry) == broken.0 {
        store::bool_value(broken.1) matches Err(error) && failure == Failure::Std(error)
    } else if is_whole(broken.0) {
        failure == Failure::Std(key_error(broken.0))
    } else {
        failure == Failure::MalformedKey(broken.0)
    }
}

/// Whether `outcome` is the listing of the entries of an index that are wanted:
/// the places of the first `limit` of them, which the walk comes to without
/// passing over a record, or the failure of a record that cannot be read and
/// that the walk comes to before it has found that many.
pub open spec fn lists<E>(
    records: Seq<Record>,
    key: spec_fn(E) -> Seq<u8>,
    can_file: spec_fn(E) -> bool,
    place: spec_fn(E) -> Place,
    is_whole: spec_fn(Seq<u8>) -> bool,
    key_error: spec_fn(Seq<u8>) -> StdError,
    wanted: spec_fn(E) -> bool,
    before: spec_fn(E, E) -> bool,
    order: Order,
    limit: u32,
    outcome: Result<Seq<Place>, Failure>,
) -> bool {
    match outcome {
        Ok(listing) => exists|entries: Seq<E>| #[trigger]
            are_first(records, key, can_file, wanted, before, limit, entries) && skip_none(
                records,
                key,
                order,
                entries,
            ) && hold_truths(records, key, entries) && listing == entries.map_values(place),
        Err(failure) => exists|entries: Seq<E>, broken: Record| #[trigger]
            come_before(records, key, can_file, wanted, order, limit, entries, broken) && fails(
                key,
                can_file,
                is_whole,
                key_error,
                broken,
                failure,
            ),
    }
}

/// The first failure among results, and what stands before it.
pub proof fn lemma_failed<A>(results: Seq<Result<A, Failure>>, failure: Failure) -> (n: int)
    requires
        pagination::all_or_first_failure(results) == Err::<Seq<A>, Failure>(failure),
    ensures
        0 <= n < results.len(),
        results[n] == Err::<A, Failure>(failure),
        forall|i: int| 0 <= i < n ==> #[trigger] results[i] is Ok,
    decreases results.len(),
{
    let rest = results.drop_last();
    if pagination::all_or_first_failure(rest) is Err {
        let n = lemma_failed(rest, failure);
        assert forall|i: int| 0 <= i < n implies #[trigger] results[i] is Ok by {
            assert(rest[i] is Ok);
        }
        n
    } else {
        let values = pagination::all_or_first_failure(rest)->Ok_0;
        laws::lemma_passed(rest, values);
        assert forall|i: int| 0 <= i < rest.len() implies #[trigger] results[i] is Ok by {
            assert(rest[i] == Ok::<A, Failure>(values[i]));
        }
        results.len() - 1
    }
}

/// What lies between two keys of a window lies in the window.
pub proof fn lemma_between(window: Window, order: Order, a: Seq<u8>, key: Seq<u8>, b: Seq<u8>)
    requires
        scan::inside(window, a),
        scan::inside(window, b),
        bytes::comes_before(order, a, key),
        bytes::comes_before(order, key, b),
    ensures
        scan::inside(window, key),
{
    let (low, high) = match order {
        Order::Ascending => (a, b),
        Order::Descending => (b, a),
    };
    order::lemma_total(low, key);
    order::lemma_total(key, high);
    match window.lower {
        Some(Edge::Inclusive(edge)) => {
            order::lemma_total(key, edge);
            order::lemma_total(low, edge);
            if bytes::precedes(key, edge) {
                order::lemma_transitive(low, key, edge);
            }
        },
        Some(Edge::Exclusive(edge)) => {
            order::lemma_transitive(edge, low, key);
        },
        None => {},
    }
    match window.upper {
        Some(Edge::Inclusive(edge)) => {
            order::lemma_total(key, edge);
            order::lemma_total(high, edge);
            if bytes::precedes(edge, key) {
                order::lemma_transitive(edge, key, high);
            }
        },
        Some(Edge::Exclusive(edge)) => {
            order::lemma_transitive(key, high, edge);
        },
        None => {},
    }
}

/// A record that stands between two rows of a walk is a row between them.
pub proof fn lemma_row_between(
    records: Seq<Record>,
    window: Window,
    order: Order,
    i: int,
    a: int,
    b: int,
) -> (c: int)
    requires
        bytes::sorted(bytes::keys_of(window::within(records, window, order)), order),
        0 <= i < records.len(),
        0 <= a < window::within(records, window, order).len(),
        0 <= b < window::within(records, window, order).len(),
        bytes::comes_before(order, window::within(records, window, order)[a].0, records[i].0),
        bytes::comes_before(order, records[i].0, window::within(records, window, order)[b].0),
    ensures
        a < c < b,
        window::within(records, window, order)[c] == records[i],
{
    let rows = window::within(records, window, order);
    let row_keys = bytes::keys_of(rows);
    scan::lemma_walked(records, window, order, a);
    scan::lemma_walked(records, window, order, b);
    lemma_between(window, order, rows[a].0, records[i].0, rows[b].0);
    scan::lemma_comes_to(records, window, order, records[i]);
    assert(rows.contains(records[i]));
    let c = choose|c: int| 0 <= c < rows.len() && rows[c] == records[i];
    assert(row_keys[a] == rows[a].0 && row_keys[b] == rows[b].0 && row_keys[c] == rows[c].0);
    scan::lemma_behind(row_keys, order, a, c);
    scan::lemma_behind(row_keys, order, c, b);
    c
}

/// The places of a walk over a window are the listing of what the window lets in.
pub proof fn lemma_lists<E>(
    kind: KeyKind,
    records: Seq<Record>,
    window: Window,
    key: spec_fn(E) -> Seq<u8>,
    entry_of: spec_fn(Seq<u8>) -> E,
    can_file: spec_fn(E) -> bool,
    place: spec_fn(E) -> Place,
    is_whole: spec_fn(Seq<u8>) -> bool,
    key_error: spec_fn(Seq<u8>) -> StdError,
    wanted: spec_fn(E) -> bool,
    before: spec_fn(E, E) -> bool,
    order: Order,
    limit: u32,
    outcome: Result<Seq<Place>, Failure>,
)
    requires
        bytes::sorted(bytes::keys_of(window::within(records, window, order)), order),
        outcome == pagination::places(kind, window::within(records, window, order), limit),
        forall|k: Seq<u8>| #[trigger]
            keys::place_of(kind, k) == (if !is_whole(k) {
                Err(Failure::MalformedKey(k))
            } else if exists|entry: E| can_file(entry) && #[trigger] key(entry) == k {
                Ok(place(entry_of(k)))
            } else {
                Err(Failure::Std(key_error(k)))
            }),
        forall|entry: E|
            can_file(entry) ==> is_whole(#[trigger] key(entry)) && entry_of(key(entry)) == entry,
        forall|entry: E|
            can_file(entry) ==> scan::inside(window, #[trigger] key(entry)) == wanted(entry),
        forall|a: E, b: E|
            can_file(a) && wanted(a) && can_file(b) && wanted(b) ==> bytes::comes_before(
                order,
                #[trigger] key(a),
                #[trigger] key(b),
            ) == before(a, b),
    ensures
        lists(
            records,
            key,
            can_file,
            place,
            is_whole,
            key_error,
            wanted,
            before,
            order,
            limit,
            outcome,
        ),
{
    let rows = window::within(records, window, order);
    let row_keys = bytes::keys_of(rows);
    let results = pagination::first_of(rows, limit).map_values(
        |record: Record| pagination::record_place(kind, record),
    );
    let n: int = match outcome {
        Ok(listing) => results.len() as int,
        Err(failure) => lemma_failed(results, failure),
    };
    if let Ok(listing) = outcome {
        laws::lemma_passed(results, listing);
    }
    let entries = Seq::new(n as nat, |i: int| entry_of(rows[i].0));
    assert forall|i: int| 0 <= i < n implies can_file(#[trigger] entries[i]) && key(entries[i])
        == rows[i].0 && wanted(entries[i]) && is_stored(records, key(entries[i])) && results[i]
        == Ok::<Place, Failure>(place(entries[i])) by {
        assert(results[i] is Ok);
        assert(results[i] == pagination::record_place(kind, rows[i]));
        assert(keys::place_of(kind, rows[i].0) is Ok);
        let entry = choose|entry: E| can_file(entry) && #[trigger] key(entry) == rows[i].0;
        assert(entry_of(key(entry)) == entry);
        scan::lemma_walked(records, window, order, i);
        let m = choose|m: int| 0 <= m < records.len() && records[m] == rows[i];
        assert(records[m].0 == key(entry));
    }
    assert forall|i: int, j: int| 0 <= i < j < n implies before(
        #[trigger] entries[i],
        #[trigger] entries[j],
    ) by {
        assert(can_file(entries[i]) && can_file(entries[j]));
        assert(bytes::comes_before(order, row_keys[i], row_keys[j]));
        assert(key(entries[i]) == row_keys[i] && key(entries[j]) == row_keys[j]);
    }
    assert forall|entry: E|
        can_file(entry) && wanted(entry) && is_stored(
            records,
            #[trigger] key(entry),
        ) implies exists|j: int| 0 <= j < rows.len() && #[trigger] rows[j].0 == key(entry) by {
        let m = choose|m: int| 0 <= m < records.len() && #[trigger] records[m].0 == key(entry);
        scan::lemma_comes_to(records, window, order, records[m]);
        assert(rows.contains(records[m]));
        let j = choose|j: int| 0 <= j < rows.len() && rows[j] == records[m];
        assert(rows[j].0 == key(entry));
    }
    match outcome {
        Ok(listing) => {
            assert forall|entry: E|
                can_file(entry) && wanted(entry) && is_stored(records, #[trigger] key(entry))
                    && !entries.contains(entry) implies entries.len() == limit && forall|i: int|
                0 <= i < entries.len() ==> before(#[trigger] entries[i], entry) by {
                let j = choose|j: int| 0 <= j < rows.len() && #[trigger] rows[j].0 == key(entry);
                if j < n {
                    assert(key(entries[j]) == key(entry));
                    assert(entry_of(key(entry)) == entry);
                    assert(entries[j] == entry);
                }
                assert forall|i: int| 0 <= i < entries.len() implies before(
                    #[trigger] entries[i],
                    entry,
                ) by {
                    assert(bytes::comes_before(order, row_keys[i], row_keys[j]));
                    assert(can_file(entries[i]) && key(entries[i]) == row_keys[i]);
                }
            }
            assert(are_first(records, key, can_file, wanted, before, limit, entries));
            assert forall|i: int, a: int, b: int|
                0 <= i < records.len() && 0 <= a < entries.len() && 0 <= b < entries.len()
                    && bytes::comes_before(
                    order,
                    key(#[trigger] entries[a]),
                    (#[trigger] records[i]).0,
                ) && bytes::comes_before(
                    order,
                    records[i].0,
                    key(#[trigger] entries[b]),
                ) implies exists|c: int|
                a < c < b && key(#[trigger] entries[c]) == records[i].0 by {
                let c = lemma_row_between(records, window, order, i, a, b);
                assert(key(entries[c]) == rows[c].0);
            }
            assert forall|i: int, c: int|
                0 <= i < records.len() && 0 <= c < entries.len() && (#[trigger] records[i]).0
                    == key(#[trigger] entries[c]) implies store::bool_value(
                records[i].1,
            ) is Ok by {
                assert(key(entries[c]) == rows[c].0);
                scan::lemma_walked(records, window, order, c);
                scan::lemma_comes_to(records, window, order, records[i]);
                assert(rows.contains(records[i]));
                let d = choose|d: int| 0 <= d < rows.len() && rows[d] == records[i];
                assert(row_keys[c] == row_keys[d]);
                scan::lemma_behind(row_keys, order, c, d);
                scan::lemma_behind(row_keys, order, d, c);
                order::lemma_total(row_keys[c], row_keys[d]);
                assert(results[c] == pagination::record_place(kind, rows[c]));
                assert(results[c] is Ok);
            }
            assert forall|i: int| 0 <= i < n implies listing[i] == entries.map_values(place)[i] by {
                assert(results[i] == Ok::<Place, Failure>(listing[i]));
                assert(can_file(entries[i]));
            }
            assert(listing =~= entries.map_values(place));
        },
        Err(failure) => {
            let broken = rows[n];
            assert(results[n] == pagination::record_place(kind, broken));
            scan::lemma_walked(records, window, order, n);
            assert forall|i: int| 0 <= i < entries.len() implies can_file(#[trigger] entries[i])
                && wanted(entries[i]) && is_stored(records, key(entries[i]))
                && bytes::comes_before(order, key(entries[i]), broken.0) by {
                assert(bytes::comes_before(order, row_keys[i], row_keys[n]));
                assert(key(entries[i]) == row_keys[i]);
            }
            assert forall|entry: E|
                can_file(entry) && wanted(entry) && is_stored(records, #[trigger] key(entry))
                    && bytes::comes_before(
                    order,
                    key(entry),
                    broken.0,
                ) implies entries.contains(entry) by {
                let j = choose|j: int| 0 <= j < rows.len() && #[trigger] rows[j].0 == key(entry);
                assert(row_keys[j] == key(entry) && row_keys[n] == broken.0);
                scan::lemma_behind(row_keys, order, j, n);
                assert(entry_of(key(entry)) == entry);
                assert(entries[j] == entry);
            }
            assert forall|near: E, entry: E|
                can_file(near) && wanted(near) && can_file(entry) && bytes::comes_before(
                    order,
                    #[trigger] key(near),
                    #[trigger] key(entry),
                ) && bytes::comes_before(order, key(entry), broken.0) implies wanted(entry) by {
                lemma_between(window, order, key(near), key(entry), broken.0);
            }
            assert forall|near: E, entry: E|
                can_file(near) && wanted(near) && can_file(entry) && bytes::comes_before(
                    order,
                    broken.0,
                    #[trigger] key(entry),
                ) && bytes::comes_before(order, key(entry), #[trigger] key(near)) implies wanted(
                entry,
            ) by {
                lemma_between(window, order, broken.0, key(entry), key(near));
            }
            assert(come_before(records, key, can_file, wanted, order, limit, entries, broken));
            assert(keys::place_of(kind, broken.0) == keys::place_of(kind, broken.0));
            assert(fails(key, can_file, is_whole, key_error, broken, failure));
        },
    }
}

} // verus!

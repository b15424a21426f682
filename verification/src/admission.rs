//! Which entries of an index a window lets in, told by what the entries are
//! filed under and not by the bytes of their keys.
use vstd::prelude::*;

use crate::bytes;
use crate::bytes::Record;
use crate::keys::Place;
use crate::models::{ContractID, Order};
use crate::order;
use crate::scan;
use crate::window;

verus! {

/// An entry of an index: the bytes of the value that a contract is filed
/// under, and the number of the contract.
pub type Entry = (Seq<u8>, ContractID);

/// The order in which values are filed: a shorter one before a longer one, and
/// those of one length by their bytes.
pub open spec fn filed_before(a: Seq<u8>, b: Seq<u8>) -> bool {
    a.len() < b.len() || (a.len() == b.len() && bytes::precedes(a, b))
}

/// The order of entries: by value, and then by the number of the contract.
pub open spec fn entry_before(a: Entry, b: Entry) -> bool {
    filed_before(a.0, b.0) || (a.0 == b.0 && a.1 < b.1)
}

/// Whether a walk in the given order comes to `b` after `a`.
pub open spec fn follows(order: Order, a: Entry, b: Entry) -> bool {
    match order {
        Order::Ascending => entry_before(a, b),
        Order::Descending => entry_before(b, a),
    }
}

/// Whether an entry belongs to a listing. A listing that begins anew goes from
/// `start` to `stop`, without `stop` if `exclusive`. One that goes on after a
/// cursor goes from the entry `from` towards `stop`: up to the entry of `stop`
/// with the lowest number, without it, if `exclusive`, and else up to the
/// entry of `stop` and `last_id`, with it.
pub open spec fn admits(
    order: Order,
    cursor: Option<Place>,
    from: Option<Entry>,
    start: Option<Seq<u8>>,
    stop: Option<Seq<u8>>,
    exclusive: bool,
    last_id: ContractID,
    entry: Entry,
) -> bool {
    match cursor {
        None => {
            &&& start matches Some(value) ==> !filed_before(entry.0, value)
            &&& stop matches Some(value) ==> if exclusive {
                filed_before(entry.0, value)
            } else {
                !filed_before(value, entry.0)
            }
        },
        Some(_) => {
            &&& from matches Some(seen) ==> follows(order, seen, entry)
            &&& stop matches Some(value) ==> if exclusive {
                follows(order, entry, (value, 0))
            } else {
                !follows(order, (value, last_id), entry)
            }
        },
    }
}

/// Whether a value, if there is one, is short enough for a key.
pub open spec fn short(value: Option<Seq<u8>>) -> bool {
    value matches Some(value) ==> value.len() <= bytes::MAX_COMPONENT
}

/// Whether counting up the last byte of what keys under `value` begin with
/// gives the end of these keys, as seen from the keys under `other`: the
/// count carries into no other byte, or both values are of one length.
pub open spec fn counts_up(value: Seq<u8>, other: Seq<u8>) -> bool {
    ||| value.len() == 0
    ||| value.last() != 255
    ||| value.len() < 0xFF00 && value.len() == other.len()
}

/// The order of keys is that of the entries.
pub proof fn lemma_entry_order(a: Entry, b: Entry)
    requires
        a.0.len() <= bytes::MAX_COMPONENT,
        b.0.len() <= bytes::MAX_COMPONENT,
    ensures
        bytes::precedes(bytes::pair_key(a.0, a.1), bytes::pair_key(b.0, b.1)) == entry_before(a, b),
{
    order::lemma_length_prefixed(a.0, b.0);
    order::lemma_key_order(
        bytes::length_prefixed(a.0),
        a.1,
        bytes::length_prefixed(b.0),
        b.1,
    );
}

/// The order of entries is a strict and total one.
pub proof fn lemma_entries(a: Entry, b: Entry, c: Entry)
    ensures
        entry_before(a, b) && entry_before(b, c) ==> entry_before(a, c),
        a == b || entry_before(a, b) || entry_before(b, a),
        !(entry_before(a, b) && entry_before(b, a)),
        filed_before(a.0, b.0) && filed_before(b.0, c.0) ==> filed_before(a.0, c.0),
        a.0 == b.0 || filed_before(a.0, b.0) || filed_before(b.0, a.0),
        !(filed_before(a.0, b.0) && filed_before(b.0, a.0)),
{
    order::lemma_total(a.0, b.0);
    order::lemma_total(b.0, c.0);
    order::lemma_total(a.0, c.0);
    if bytes::precedes(a.0, b.0) && bytes::precedes(b.0, c.0) {
        order::lemma_transitive(a.0, b.0, c.0);
    }
}

/// What the bytes of a window let in is what the listing admits.
pub proof fn lemma_admits(
    order: Order,
    cursor: Option<Place>,
    from: Option<Entry>,
    start: Option<Seq<u8>>,
    stop: Option<Seq<u8>>,
    exclusive: bool,
    last_id: ContractID,
    entry: Entry,
)
    requires
        short(Some(entry.0)),
        cursor is None ==> short(start),
        short(stop),
        from matches Some(seen) ==> short(Some(seen.0)),
        stop matches Some(value) ==> exclusive || counts_up(value, entry.0),
    ensures
        scan::inside(
            window::listing_window(order, cursor, from, start, stop, exclusive, last_id),
            bytes::pair_key(entry.0, entry.1),
        ) == admits(order, cursor, from, start, stop, exclusive, last_id, entry),
{
    let head = bytes::length_prefixed(entry.0);
    match cursor {
        None => {
            if let Some(value) = start {
                order::lemma_length_prefixed(entry.0, value);
                order::lemma_key_order(head, entry.1, bytes::length_prefixed(value), 0);
            }
            if let Some(value) = stop {
                let edge = bytes::length_prefixed(value);
                order::lemma_length_prefixed(entry.0, value);
                order::lemma_length_prefixed(value, entry.0);
                order::lemma_key_order(head, entry.1, edge, 0);
                if !exclusive {
                    lemma_steady(value);
                    order::lemma_increment_head(edge, head, bytes::big_endian(entry.1 as nat, 8));
                }
            }
        },
        Some(_) => {
            if let Some(seen) = from {
                lemma_entry_order(seen, entry);
                lemma_entry_order(entry, seen);
            }
            if let Some(value) = stop {
                lemma_entry_order((value, 0), entry);
                lemma_entry_order(entry, (value, 0));
                lemma_entry_order((value, last_id), entry);
                lemma_entry_order(entry, (value, last_id));
            }
        },
    }
}

/// How a value with its length ends, and where it can be counted up.
pub proof fn lemma_steady(value: Seq<u8>)
    requires
        value.len() <= bytes::MAX_COMPONENT,
    ensures
        bytes::length_prefixed(value).len() > 0,
        value.len() == 0 || value.last() != 255 ==> bytes::length_prefixed(value).last() != 255,
        value.len() < 0xFF00 ==> bytes::length_prefixed(value)[0] != 255,
{
    let edge = bytes::length_prefixed(value);
    reveal_with_fuel(bytes::big_endian, 3);
    let length = bytes::big_endian(value.len(), 2);
    assert(length.len() == 2);
    assert(length[0] == (value.len() / 256 % 256) as u8);
    assert(length[1] == (value.len() % 256) as u8);
    assert(edge[0] == length[0]);
    if value.len() > 0 {
        assert(edge.last() == value.last());
    } else {
        assert(edge.last() == length[1]);
    }
}

/// A listing that goes on after the last of the first `count` entries of a
/// listing is the rest of that listing.
pub proof fn lemma_goes_on(
    records: Seq<Record>,
    entry_of: spec_fn(Seq<u8>) -> Entry,
    order: Order,
    cursor: Option<Place>,
    from: Option<Entry>,
    start: Option<Seq<u8>>,
    stop: Option<Seq<u8>>,
    exclusive: bool,
    last_id: ContractID,
    next: Place,
    count: int,
)
    requires
        forall|i: int|
            0 <= i < records.len() ==> {
                let entry = entry_of(#[trigger] records[i].0);
                &&& records[i].0 == bytes::pair_key(entry.0, entry.1)
                &&& short(Some(entry.0))
                &&& stop matches Some(value) ==> exclusive || counts_up(value, entry.0)
            },
        cursor is None ==> short(start),
        short(stop),
        from matches Some(seen) ==> short(Some(seen.0)),
        cursor is Some || match order {
            Order::Ascending => stop is None || exclusive || last_id == ContractID::MAX,
            Order::Descending => (start is None && stop is None) || (start == stop && !exclusive
                && last_id == ContractID::MIN),
        },
        0 < count <= window::within(
            records,
            window::listing_window(order, cursor, from, start, stop, exclusive, last_id),
            order,
        ).len(),
        bytes::sorted(
            bytes::keys_of(
                window::within(
                    records,
                    window::listing_window(order, cursor, from, start, stop, exclusive, last_id),
                    order,
                ),
            ),
            order,
        ),
    ensures
        ({
            let whole = window::listing_window(
                order,
                cursor,
                from,
                start,
                stop,
                exclusive,
                last_id,
            );
            let seen = entry_of(window::within(records, whole, order)[count - 1].0);
            window::within(
                records,
                window::listing_window(
                    order,
                    Some(next),
                    Some(seen),
                    start,
                    stop,
                    exclusive,
                    last_id,
                ),
                order,
            ) == window::within(records, whole, order).skip(count)
        }),
{
    let whole = window::listing_window(order, cursor, from, start, stop, exclusive, last_id);
    let walk = window::within(records, whole, order);
    let keys = bytes::keys_of(walk);
    let key = walk[count - 1].0;
    let seen = entry_of(key);
    let part = window::listing_window(
        order,
        Some(next),
        Some(seen),
        start,
        stop,
        exclusive,
        last_id,
    );
    let behind = |other: Seq<u8>| bytes::comes_before(order, key, other);
    scan::lemma_walked(records, whole, order, count - 1);
    lemma_admits(order, cursor, from, start, stop, exclusive, last_id, seen);
    assert forall|i: int| 0 <= i < records.len() implies scan::inside(part, #[trigger] records[i].0)
        == (scan::inside(whole, records[i].0) && behind(records[i].0)) by {
        let entry = entry_of(records[i].0);
        lemma_admits(order, cursor, from, start, stop, exclusive, last_id, entry);
        lemma_admits(order, Some(next), Some(seen), start, stop, exclusive, last_id, entry);
        lemma_entry_order(seen, entry);
        lemma_entry_order(entry, seen);
        if let Some(before) = from {
            lemma_entries(before, seen, entry);
            lemma_entries(entry, seen, before);
        }
        if let Some(value) = start {
            lemma_entries((value, 0), seen, entry);
            lemma_entries(seen, entry, (value, 0));
        }
    }
    assert forall|i: int| 0 <= i < walk.len() implies behind(#[trigger] walk[i].0) == (count
        <= i) by {
        assert(keys[i] == walk[i].0 && keys[count - 1] == key);
        scan::lemma_behind(keys, order, count - 1, i);
    }
    scan::lemma_rest_of_walk(records, whole, part, order, behind, count);
}

} // verus!

//! Listings of numbers, of points in time and of truth values.
use vstd::prelude::*;
use vstd::utf8::*;

use crate::admission;
use crate::bytes;
use crate::bytes::Record;
use crate::decimal;
use crate::error::Failure;
use crate::keys;
use crate::keys::{KeyKind, Place};
use crate::laws;
use crate::models::{Between, ContractID, Order};
use crate::order;
use crate::scan;
use crate::text;
use crate::window;

verus! {

/// Whether a listing of numbers goes on where its cursor tells. After a cursor
/// it stops at the upper limit in either order. A descending listing that
/// began with limits stopped at the lower one.
pub open spec fn numbers_go_on<V>(
    order: Order,
    start: Option<V>,
    stop: Option<V>,
    cursor: Option<Place>,
) -> bool {
    order is Ascending || cursor is Some || (start is None && stop is None)
}

/// The entry that a key of an index of `u64` values stands for.
spec fn u64_entry(key: Seq<u8>) -> admission::Entry {
    let parts = keys::u64_parts(key)->0;
    (bytes::big_endian(parts.0 as nat, 8), parts.1)
}

proof fn lemma_u64_component(value: u64)
    ensures
        bytes::big_endian(value as nat, 8).len() == 8,
{
    order::lemma_holds(value as nat);
    order::lemma_big_endian(value as nat, value as nat, 8);
}

/// The keys of an index of `u64` values are those of its entries.
proof fn lemma_u64_entries(records: Seq<Record>)
    requires
        laws::well_filed(KeyKind::U64, records),
    ensures
        forall|i: int|
            0 <= i < records.len() ==> {
                let entry = u64_entry(#[trigger] records[i].0);
                &&& records[i].0 == bytes::pair_key(entry.0, entry.1)
                &&& entry.0.len() == 8
            },
{
    assert forall|i: int| 0 <= i < records.len() implies {
        let entry = u64_entry(#[trigger] records[i].0);
        &&& records[i].0 == bytes::pair_key(entry.0, entry.1)
        &&& entry.0.len() == 8
    } by {
        assert(keys::place_of(KeyKind::U64, records[i].0) is Ok);
        let parts = keys::u64_parts(records[i].0)->0;
        lemma_u64_component(parts.0);
    }
}

/// The key of a pair of a `u64` and a contract number is read as that pair.
pub proof fn lemma_u64_parts(parts: (u64, ContractID))
    ensures
        keys::pair_splits(keys::u64_key(parts)),
        keys::u64_parts(keys::u64_key(parts)) == Some(parts),
{
    let key = keys::u64_key(parts);
    let read = keys::u64_parts(key)->0;
    lemma_u64_component(parts.0);
    lemma_u64_component(read.0);
    laws::lemma_splits(
        bytes::big_endian(parts.0 as nat, 8),
        bytes::big_endian(parts.1 as nat, 8),
    );
    assert(key == keys::u64_key(read));
    laws::lemma_same_entry(
        (bytes::big_endian(parts.0 as nat, 8), parts.1),
        (bytes::big_endian(read.0 as nat, 8), read.1),
    );
    order::lemma_holds(parts.0 as nat);
    order::lemma_holds(read.0 as nat);
    order::lemma_big_endian(parts.0 as nat, read.0 as nat, 8);
}

/// A key of an index of `u64` values marks the place of its value and its contract.
pub proof fn u64_key_marks_place(parts: (u64, ContractID))
    ensures
        keys::u64_place(keys::u64_key(parts)) == Ok::<Place, Failure>(
            (decimal::decimal(parts.0 as nat), parts.1),
        ),
{
    lemma_u64_parts(parts);
}

/// An index of `u64` values is listed in the order of the values, and under one
/// value in the order of the contracts.
pub proof fn u64_listing_in_order(a: (u64, ContractID), b: (u64, ContractID), order: Order)
    ensures
        bytes::comes_before(order, keys::u64_key(a), keys::u64_key(b)) == match order {
            Order::Ascending => a.0 < b.0 || (a.0 == b.0 && a.1 < b.1),
            Order::Descending => b.0 < a.0 || (b.0 == a.0 && b.1 < a.1),
        },
{
    order::lemma_holds(a.0 as nat);
    order::lemma_holds(b.0 as nat);
    order::lemma_big_endian(a.0 as nat, b.0 as nat, 8);
    order::lemma_big_endian(b.0 as nat, a.0 as nat, 8);
    let x = (bytes::big_endian(a.0 as nat, 8), a.1);
    let y = (bytes::big_endian(b.0 as nat, 8), b.1);
    admission::lemma_entry_order(x, y);
    admission::lemma_entry_order(y, x);
}

/// Whether a value is asked for: it is the one named by `equals`, or, where
/// none is named, not below the lower limit and below the upper one.
pub open spec fn u64_asked_for(equals: Option<u64>, between: Option<Between<u64>>, value: u64) -> bool {
    match (equals, between) {
        (Some(wanted), _) => value == wanted,
        (None, Some((lower, upper))) => {
            &&& lower matches Some(lower) ==> lower <= value
            &&& upper matches Some(upper) ==> value < upper
        },
        (None, None) => true,
    }
}

/// A listing of an index of `u64` values that begins anew comes to a contract
/// exactly if its value is asked for.
pub proof fn u64_listing_selects(
    records: Seq<Record>,
    equals: Option<u64>,
    between: Option<Between<u64>>,
    order: Order,
    record: Record,
    parts: (u64, ContractID),
)
    requires
        records.contains(record),
        record.0 == keys::u64_key(parts),
    ensures
        window::within(
            records,
            window::u64_window(equals, between, order, None),
            order,
        ).contains(record) == u64_asked_for(equals, between, parts.0),
{
    let start = window::start_of(equals, between);
    let stop = window::stop_of(equals, between);
    scan::lemma_comes_to(records, window::u64_window(equals, between, order, None), order, record);
    order::lemma_holds(parts.0 as nat);
    lemma_u64_component(parts.0);
    if let Some(value) = start {
        order::lemma_holds(value as nat);
        order::lemma_big_endian(parts.0 as nat, value as nat, 8);
    }
    if let Some(value) = stop {
        order::lemma_holds(value as nat);
        order::lemma_big_endian(value as nat, parts.0 as nat, 8);
        order::lemma_big_endian(parts.0 as nat, value as nat, 8);
    }
    admission::lemma_admits(
        order,
        None,
        None,
        window::u64_component(start),
        window::u64_component(stop),
        equals is None,
        ContractID::MAX,
        (bytes::big_endian(parts.0 as nat, 8), parts.1),
    );
}

/// A listing of an index of `u64` values that goes on after the cursor of a
/// page lists what that page left of the readable records.
pub proof fn u64_listing_goes_on(
    records: Seq<Record>,
    equals: Option<u64>,
    between: Option<Between<u64>>,
    order: Order,
    cursor: Option<Place>,
    limit: u32,
    listing: Seq<Place>,
)
    requires
        numbers_go_on(
            order,
            window::start_of(equals, between),
            window::stop_of(equals, between),
            cursor,
        ),
        laws::is_page(
            KeyKind::U64,
            records,
            window::u64_window(equals, between, order, cursor),
            order,
            limit,
            listing,
        ),
    ensures
        laws::is_rest(
            laws::readable(KeyKind::U64, records),
            window::u64_window(equals, between, order, cursor),
            window::u64_window(equals, between, order, Some(listing.last())),
            order,
            listing.len(),
        ),
{
    let given = records;
    let records = laws::readable(KeyKind::U64, given);
    laws::lemma_readable_page(
        KeyKind::U64,
        given,
        window::u64_window(equals, between, order, cursor),
        order,
        limit,
        listing,
    );
    let walk = window::within(records, window::u64_window(equals, between, order, cursor), order);
    let next = listing.last();
    let key = walk[listing.len() - 1].0;
    let parts = keys::u64_parts(key)->0;
    laws::lemma_listed(KeyKind::U64, walk, limit, listing);
    assert(next == (decimal::decimal(parts.0 as nat), parts.1));
    decimal::numerals_read_back(parts.0 as nat, u64::MAX as nat);
    if let Some((text, _)) = cursor {
        if let Some(number) = decimal::parsed(text, u64::MAX as nat) {
            lemma_u64_component(number as u64);
        }
    }
    if let Some(value) = window::start_of(equals, between) {
        lemma_u64_component(value);
    }
    if let Some(value) = window::stop_of(equals, between) {
        lemma_u64_component(value);
    }
    lemma_u64_entries(records);
    admission::lemma_goes_on(
        records,
        |key: Seq<u8>| u64_entry(key),
        order,
        cursor,
        window::number_key(cursor, u64::MAX as nat, 8),
        window::u64_component(window::start_of(equals, between)),
        window::u64_component(window::stop_of(equals, between)),
        equals is None,
        ContractID::MAX,
        next,
        listing.len() as int,
    );
}

/// The entry that a key of an index of `u128` values stands for.
spec fn u128_entry(key: Seq<u8>) -> admission::Entry {
    let parts = keys::u128_parts(key)->0;
    (bytes::big_endian(parts.0 as nat, 16), parts.1)
}

proof fn lemma_u128_component(value: u128)
    ensures
        bytes::big_endian(value as nat, 16).len() == 16,
{
    order::lemma_holds(value as nat);
    order::lemma_big_endian(value as nat, value as nat, 16);
}

/// The keys of an index of `u128` values are those of its entries.
proof fn lemma_u128_entries(records: Seq<Record>)
    requires
        laws::well_filed(KeyKind::U128, records),
    ensures
        forall|i: int|
            0 <= i < records.len() ==> {
                let entry = u128_entry(#[trigger] records[i].0);
                &&& records[i].0 == bytes::pair_key(entry.0, entry.1)
                &&& entry.0.len() == 16
            },
{
    assert forall|i: int| 0 <= i < records.len() implies {
        let entry = u128_entry(#[trigger] records[i].0);
        &&& records[i].0 == bytes::pair_key(entry.0, entry.1)
        &&& entry.0.len() == 16
    } by {
        assert(keys::place_of(KeyKind::U128, records[i].0) is Ok);
        let parts = keys::u128_parts(records[i].0)->0;
        lemma_u128_component(parts.0);
    }
}

/// The key of a pair of a `u128` and a contract number is read as that pair.
pub proof fn lemma_u128_parts(parts: (u128, ContractID))
    ensures
        keys::pair_splits(keys::u128_key(parts)),
        keys::u128_parts(keys::u128_key(parts)) == Some(parts),
{
    let key = keys::u128_key(parts);
    let read = keys::u128_parts(key)->0;
    lemma_u128_component(parts.0);
    lemma_u128_component(read.0);
    laws::lemma_splits(
        bytes::big_endian(parts.0 as nat, 16),
        bytes::big_endian(parts.1 as nat, 8),
    );
    assert(key == keys::u128_key(read));
    laws::lemma_same_entry(
        (bytes::big_endian(parts.0 as nat, 16), parts.1),
        (bytes::big_endian(read.0 as nat, 16), read.1),
    );
    order::lemma_holds(parts.0 as nat);
    order::lemma_holds(read.0 as nat);
    order::lemma_big_endian(parts.0 as nat, read.0 as nat, 16);
}

/// A key of an index of `u128` values marks the place of its value and its contract.
pub proof fn u128_key_marks_place(parts: (u128, ContractID))
    ensures
        keys::u128_place(keys::u128_key(parts)) == Ok::<Place, Failure>(
            (decimal::decimal(parts.0 as nat), parts.1),
        ),
{
    lemma_u128_parts(parts);
}

/// An index of `u128` values is listed in the order of the values, and under one
/// value in the order of the contracts.
pub proof fn u128_listing_in_order(a: (u128, ContractID), b: (u128, ContractID), order: Order)
    ensures
        bytes::comes_before(order, keys::u128_key(a), keys::u128_key(b)) == match order {
            Order::Ascending => a.0 < b.0 || (a.0 == b.0 && a.1 < b.1),
            Order::Descending => b.0 < a.0 || (b.0 == a.0 && b.1 < a.1),
        },
{
    order::lemma_holds(a.0 as nat);
    order::lemma_holds(b.0 as nat);
    order::lemma_big_endian(a.0 as nat, b.0 as nat, 16);
    order::lemma_big_endian(b.0 as nat, a.0 as nat, 16);
    let x = (bytes::big_endian(a.0 as nat, 16), a.1);
    let y = (bytes::big_endian(b.0 as nat, 16), b.1);
    admission::lemma_entry_order(x, y);
    admission::lemma_entry_order(y, x);
}

/// Whether a value is asked for: it is the one named by `equals`, or, where
/// none is named, not below the lower limit and below the upper one.
pub open spec fn u128_asked_for(equals: Option<u128>, between: Option<Between<u128>>, value: u128) -> bool {
    match (equals, between) {
        (Some(wanted), _) => value == wanted,
        (None, Some((lower, upper))) => {
            &&& lower matches Some(lower) ==> lower <= value
            &&& upper matches Some(upper) ==> value < upper
        },
        (None, None) => true,
    }
}

/// A listing of an index of `u128` values that begins anew comes to a contract
/// exactly if its value is asked for.
pub proof fn u128_listing_selects(
    records: Seq<Record>,
    equals: Option<u128>,
    between: Option<Between<u128>>,
    order: Order,
    record: Record,
    parts: (u128, ContractID),
)
    requires
        records.contains(record),
        record.0 == keys::u128_key(parts),
    ensures
        window::within(
            records,
            window::u128_window(equals, between, order, None),
            order,
        ).contains(record) == u128_asked_for(equals, between, parts.0),
{
    let start = window::start_of(equals, between);
    let stop = window::stop_of(equals, between);
    scan::lemma_comes_to(records, window::u128_window(equals, between, order, None), order, record);
    order::lemma_holds(parts.0 as nat);
    lemma_u128_component(parts.0);
    if let Some(value) = start {
        order::lemma_holds(value as nat);
        order::lemma_big_endian(parts.0 as nat, value as nat, 16);
    }
    if let Some(value) = stop {
        order::lemma_holds(value as nat);
        order::lemma_big_endian(value as nat, parts.0 as nat, 16);
        order::lemma_big_endian(parts.0 as nat, value as nat, 16);
    }
    admission::lemma_admits(
        order,
        None,
        None,
        window::u128_component(start),
        window::u128_component(stop),
        equals is None,
        ContractID::MAX,
        (bytes::big_endian(parts.0 as nat, 16), parts.1),
    );
}

/// A listing of an index of `u128` values that goes on after the cursor of a
/// page lists what that page left of the readable records.
pub proof fn u128_listing_goes_on(
    records: Seq<Record>,
    equals: Option<u128>,
    between: Option<Between<u128>>,
    order: Order,
    cursor: Option<Place>,
    limit: u32,
    listing: Seq<Place>,
)
    requires
        numbers_go_on(
            order,
            window::start_of(equals, between),
            window::stop_of(equals, between),
            cursor,
        ),
        laws::is_page(
            KeyKind::U128,
            records,
            window::u128_window(equals, between, order, cursor),
            order,
            limit,
            listing,
        ),
    ensures
        laws::is_rest(
            laws::readable(KeyKind::U128, records),
            window::u128_window(equals, between, order, cursor),
            window::u128_window(equals, between, order, Some(listing.last())),
            order,
            listing.len(),
        ),
{
    let given = records;
    let records = laws::readable(KeyKind::U128, given);
    laws::lemma_readable_page(
        KeyKind::U128,
        given,
        window::u128_window(equals, between, order, cursor),
        order,
        limit,
        listing,
    );
    let walk = window::within(records, window::u128_window(equals, between, order, cursor), order);
    let next = listing.last();
    let key = walk[listing.len() - 1].0;
    let parts = keys::u128_parts(key)->0;
    laws::lemma_listed(KeyKind::U128, walk, limit, listing);
    assert(next == (decimal::decimal(parts.0 as nat), parts.1));
    decimal::numerals_read_back(parts.0 as nat, u128::MAX as nat);
    if let Some((text, _)) = cursor {
        if let Some(number) = decimal::parsed(text, u128::MAX as nat) {
            lemma_u128_component(number as u128);
        }
    }
    if let Some(value) = window::start_of(equals, between) {
        lemma_u128_component(value);
    }
    if let Some(value) = window::stop_of(equals, between) {
        lemma_u128_component(value);
    }
    lemma_u128_entries(records);
    admission::lemma_goes_on(
        records,
        |key: Seq<u8>| u128_entry(key),
        order,
        cursor,
        window::number_key(cursor, u128::MAX as nat, 16),
        window::u128_component(window::start_of(equals, between)),
        window::u128_component(window::stop_of(equals, between)),
        equals is None,
        ContractID::MAX,
        next,
        listing.len() as int,
    );
}

/// The entry that a key of an index of `u8` values stands for.
spec fn u8_entry(key: Seq<u8>) -> admission::Entry {
    let parts = keys::u8_parts(key)->0;
    (bytes::big_endian(parts.0 as nat, 1), parts.1)
}

proof fn lemma_u8_component(value: u8)
    ensures
        bytes::big_endian(value as nat, 1).len() == 1,
{
    order::lemma_holds(value as nat);
    order::lemma_big_endian(value as nat, value as nat, 1);
}

/// The keys of an index of `u8` values are those of its entries.
proof fn lemma_u8_entries(records: Seq<Record>)
    requires
        laws::well_filed(KeyKind::U8, records),
    ensures
        forall|i: int|
            0 <= i < records.len() ==> {
                let entry = u8_entry(#[trigger] records[i].0);
                &&& records[i].0 == bytes::pair_key(entry.0, entry.1)
                &&& entry.0.len() == 1
            },
{
    assert forall|i: int| 0 <= i < records.len() implies {
        let entry = u8_entry(#[trigger] records[i].0);
        &&& records[i].0 == bytes::pair_key(entry.0, entry.1)
        &&& entry.0.len() == 1
    } by {
        assert(keys::place_of(KeyKind::U8, records[i].0) is Ok);
        let parts = keys::u8_parts(records[i].0)->0;
        lemma_u8_component(parts.0);
    }
}

/// The key of a pair of a `u8` and a contract number is read as that pair.
pub proof fn lemma_u8_parts(parts: (u8, ContractID))
    ensures
        keys::pair_splits(keys::u8_key(parts)),
        keys::u8_parts(keys::u8_key(parts)) == Some(parts),
{
    let key = keys::u8_key(parts);
    let read = keys::u8_parts(key)->0;
    lemma_u8_component(parts.0);
    lemma_u8_component(read.0);
    laws::lemma_splits(
        bytes::big_endian(parts.0 as nat, 1),
        bytes::big_endian(parts.1 as nat, 8),
    );
    assert(key == keys::u8_key(read));
    laws::lemma_same_entry(
        (bytes::big_endian(parts.0 as nat, 1), parts.1),
        (bytes::big_endian(read.0 as nat, 1), read.1),
    );
    order::lemma_holds(parts.0 as nat);
    order::lemma_holds(read.0 as nat);
    order::lemma_big_endian(parts.0 as nat, read.0 as nat, 1);
}

/// A key of an index of `u8` values marks the place of its value and its contract.
pub proof fn u8_key_marks_place(parts: (u8, ContractID))
    ensures
        keys::u8_place(keys::u8_key(parts)) == Ok::<Place, Failure>(
            (decimal::decimal(parts.0 as nat), parts.1),
        ),
{
    lemma_u8_parts(parts);
}

/// An index of truth values is listed in the order of the values, and under one
/// value in the order of the contracts.
pub proof fn u8_listing_in_order(a: (u8, ContractID), b: (u8, ContractID), order: Order)
    ensures
        bytes::comes_before(order, keys::u8_key(a), keys::u8_key(b)) == match order {
            Order::Ascending => a.0 < b.0 || (a.0 == b.0 && a.1 < b.1),
            Order::Descending => b.0 < a.0 || (b.0 == a.0 && b.1 < a.1),
        },
{
    order::lemma_holds(a.0 as nat);
    order::lemma_holds(b.0 as nat);
    order::lemma_big_endian(a.0 as nat, b.0 as nat, 1);
    order::lemma_big_endian(b.0 as nat, a.0 as nat, 1);
    let x = (bytes::big_endian(a.0 as nat, 1), a.1);
    let y = (bytes::big_endian(b.0 as nat, 1), b.1);
    admission::lemma_entry_order(x, y);
    admission::lemma_entry_order(y, x);
}

/// Whether a place is that of a contract with a truth value, and not with some
/// other number.
pub open spec fn is_truth(place: Place) -> bool {
    place.0 == decimal::decimal(0) || place.0 == decimal::decimal(1)
}

/// The numbers that truth values are stored as are read as these values.
proof fn lemma_truths_read_back(number: u8)
    requires
        number <= 1,
    ensures
        text::stands_for_false(decimal::decimal(number as nat)) == (number == 0),
{
    reveal_strlit("0");
    reveal_strlit("false");
    let numeral = decimal::decimal(number as nat);
    assert(number == 0 ==> numeral =~= "0"@);
    assert(number == 1 ==> numeral[0] == '1');
    assert(is_ascii_chars(numeral));
    assert(text::lowered(numeral).len() == 1);
}

/// Whether a truth value, stored as `number`, is asked for: it is not below
/// `start` and below `stop`, where `false` is below `true`.
pub open spec fn bool_asked_for(start: Option<bool>, stop: Option<bool>, number: u8) -> bool {
    &&& start matches Some(start) ==> (start ==> number >= 1)
    &&& stop matches Some(stop) ==> stop && number < 1
}

/// A listing of an index of truth values that begins anew comes to a contract
/// exactly if its value is asked for.
pub proof fn bool_listing_selects(
    records: Seq<Record>,
    start: Option<bool>,
    stop: Option<bool>,
    order: Order,
    record: Record,
    parts: (u8, ContractID),
)
    requires
        records.contains(record),
        record.0 == keys::u8_key(parts),
    ensures
        window::within(
            records,
            window::bool_window(start, stop, order, None),
            order,
        ).contains(record) == bool_asked_for(start, stop, parts.0),
{
    let number = parts.0 as nat;
    scan::lemma_comes_to(records, window::bool_window(start, stop, order, None), order, record);
    order::lemma_holds(0);
    order::lemma_holds(1);
    order::lemma_holds(number);
    order::lemma_big_endian(number, 0, 1);
    order::lemma_big_endian(number, 1, 1);
    admission::lemma_admits(
        order,
        None,
        None,
        window::bool_component(start),
        window::bool_component(stop),
        true,
        0,
        (bytes::big_endian(number, 1), parts.1),
    );
}

/// A listing of an index of truth values that goes on after the cursor of a
/// page lists what that page left of the readable records, if the cursor is
/// that of a truth value.
pub proof fn bool_listing_goes_on(
    records: Seq<Record>,
    start: Option<bool>,
    stop: Option<bool>,
    order: Order,
    cursor: Option<Place>,
    limit: u32,
    listing: Seq<Place>,
)
    requires
        is_truth(listing.last()),
        numbers_go_on(order, start, stop, cursor),
        laws::is_page(
            KeyKind::U8,
            records,
            window::bool_window(start, stop, order, cursor),
            order,
            limit,
            listing,
        ),
    ensures
        laws::is_rest(
            laws::readable(KeyKind::U8, records),
            window::bool_window(start, stop, order, cursor),
            window::bool_window(start, stop, order, Some(listing.last())),
            order,
            listing.len(),
        ),
{
    let given = records;
    let records = laws::readable(KeyKind::U8, given);
    laws::lemma_readable_page(
        KeyKind::U8,
        given,
        window::bool_window(start, stop, order, cursor),
        order,
        limit,
        listing,
    );
    let whole = window::bool_window(start, stop, order, cursor);
    let walk = window::within(records, whole, order);
    let next = listing.last();
    let at = listing.len() - 1;
    laws::lemma_listed(KeyKind::U8, walk, limit, listing);
    let parts = keys::u8_parts(walk[at].0)->0;
    assert(next == (decimal::decimal(parts.0 as nat), parts.1));
    decimal::numerals_read_back(parts.0 as nat, u64::MAX as nat);
    decimal::numerals_read_back(0, u64::MAX as nat);
    decimal::numerals_read_back(1, u64::MAX as nat);
    lemma_truths_read_back(parts.0);
    lemma_u8_component(0);
    lemma_u8_component(1);
    lemma_u8_entries(records);
    let from = match cursor {
        Some((text, id)) => Some(
            (bytes::big_endian(if text::stands_for_false(text) { 0 } else { 1 }, 1), id),
        ),
        None => None,
    };
    admission::lemma_goes_on(
        records,
        |key: Seq<u8>| u8_entry(key),
        order,
        cursor,
        from,
        window::bool_component(start),
        window::bool_component(stop),
        true,
        0,
        next,
        listing.len() as int,
    );
}

} // verus!

//! What a read of an index of numbers, of points in time or of truth values lists.
use cosmwasm_std::StdError;
use vstd::prelude::*;

use crate::admission;
use crate::bytes;
use crate::bytes::Record;
use crate::decimal;
use crate::error::Failure;
use crate::keys;
use crate::keys::{KeyKind, Place};
use crate::laws::listing;
use crate::laws::numbers;
use crate::layout::Layout;
use crate::models::{Between, ContractID, ContractMetadata, IndexBounds, Order, Timestamp};
use crate::order;
use crate::pagination;
use crate::read;
use crate::read::Target;
use crate::scan;
use crate::store;
use crate::store::Chain;
use crate::text;
use crate::window;

verus! {

/// Whether a `u64` value is wanted. A listing that begins anew wants the value
/// that is named, or else those from the lower limit up to, but without, the
/// upper one. A listing that goes on wants what comes after the cursor, if the
/// text of the cursor is a number, as far as the named value, or else the upper
/// limit, lets it go.
pub open spec fn u64_wanted(
    equals: Option<u64>,
    between: Option<Between<u64>>,
    order: Order,
    cursor: Option<Place>,
    value: u64,
    id: ContractID,
) -> bool {
    match cursor {
        None => match (equals, between) {
            (Some(named), _) => value == named,
            (None, Some((lower, upper))) => {
                &&& lower matches Some(lower) ==> lower <= value
                &&& upper matches Some(upper) ==> value < upper
            },
            (None, None) => true,
        },
        Some((text, seen)) => {
            &&& decimal::parsed(text, u64::MAX as nat) matches Some(number) ==> match order {
                Order::Ascending => number < value || (number == value && seen < id),
                Order::Descending => value < number || (value == number && id < seen),
            }
            &&& match (equals, between, order) {
                (Some(named), _, Order::Ascending) => value <= named,
                (Some(named), _, Order::Descending) => named < value || (named == value && id
                    == u64::MAX),
                (None, Some((_, Some(upper))), Order::Ascending) => value < upper,
                (None, Some((_, Some(upper))), Order::Descending) => upper < value || (upper
                    == value && id > 0),
                _ => true,
            }
        },
    }
}

/// The order in which a listing of `u64` values comes to two of them.
pub open spec fn u64_before(order: Order, a: (u64, ContractID), b: (u64, ContractID)) -> bool {
    match order {
        Order::Ascending => a.0 < b.0 || (a.0 == b.0 && a.1 < b.1),
        Order::Descending => b.0 < a.0 || (b.0 == a.0 && b.1 < a.1),
    }
}

/// Whether `outcome` is the listing of what is wanted of an index of `u64` values.
pub open spec fn lists_u64(
    records: Seq<Record>,
    equals: Option<u64>,
    between: Option<Between<u64>>,
    order: Order,
    limit: u32,
    cursor: Option<Place>,
    outcome: Result<Seq<Place>, Failure>,
) -> bool {
    listing::lists(
        records,
        |entry: (u64, ContractID)| keys::u64_key(entry),
        |entry: (u64, ContractID)| true,
        |entry: (u64, ContractID)| (decimal::decimal(entry.0 as nat), entry.1),
        |key: Seq<u8>| keys::pair_splits(key),
        |key: Seq<u8>| keys::u64_key_error(key),
        |entry: (u64, ContractID)| u64_wanted(equals, between, order, cursor, entry.0, entry.1),
        |a: (u64, ContractID), b: (u64, ContractID)| u64_before(order, a, b),
        order,
        limit,
        outcome,
    )
}

/// What a window of an index of `u64` values lets in.
proof fn lemma_u64_inside(
    equals: Option<u64>,
    between: Option<Between<u64>>,
    order: Order,
    cursor: Option<Place>,
    entry: (u64, ContractID),
)
    ensures
        scan::inside(window::u64_window(equals, between, order, cursor), keys::u64_key(entry))
            == u64_wanted(equals, between, order, cursor, entry.0, entry.1),
{
    let v = entry.0 as nat;
    let start = window::start_of(equals, between);
    let stop = window::stop_of(equals, between);
    order::lemma_holds(v);
    order::lemma_big_endian(v, v, 8);
    if let Some(value) = start {
        order::lemma_holds(value as nat);
        order::lemma_big_endian(v, value as nat, 8);
        order::lemma_big_endian(value as nat, v, 8);
    }
    if let Some(value) = stop {
        order::lemma_holds(value as nat);
        order::lemma_big_endian(v, value as nat, 8);
        order::lemma_big_endian(value as nat, v, 8);
    }
    if let Some((text, _)) = cursor {
        if let Some(number) = decimal::parsed(text, u64::MAX as nat) {
            order::lemma_holds(number);
            order::lemma_big_endian(v, number, 8);
            order::lemma_big_endian(number, v, 8);
        }
    }
    admission::lemma_admits(
        order,
        cursor,
        window::number_key(cursor, u64::MAX as nat, 8),
        window::u64_component(start),
        window::u64_component(stop),
        equals is None,
        ContractID::MAX,
        (bytes::big_endian(v, 8), entry.1),
    );
}

/// The places within a window of an index of `u64` values are its listing.
proof fn lemma_lists_u64(
    records: Seq<Record>,
    equals: Option<u64>,
    between: Option<Between<u64>>,
    order: Order,
    limit: u32,
    cursor: Option<Place>,
    outcome: Result<Seq<Place>, Failure>,
)
    requires
        bytes::sorted(
            bytes::keys_of(
                window::within(records, window::u64_window(equals, between, order, cursor), order),
            ),
            order,
        ),
        outcome == pagination::places(
            KeyKind::U64,
            window::within(records, window::u64_window(equals, between, order, cursor), order),
            limit,
        ),
    ensures
        lists_u64(records, equals, between, order, limit, cursor, outcome),
{
    let key = |entry: (u64, ContractID)| keys::u64_key(entry);
    let entry_of = |key: Seq<u8>| keys::u64_parts(key)->0;
    let can_file = |entry: (u64, ContractID)| true;
    let window = window::u64_window(equals, between, order, cursor);
    let place = |entry: (u64, ContractID)| (decimal::decimal(entry.0 as nat), entry.1);
    let wanted = |entry: (u64, ContractID)|
        u64_wanted(equals, between, order, cursor, entry.0, entry.1);
    let before = |a: (u64, ContractID), b: (u64, ContractID)| u64_before(order, a, b);
    assert forall|k: Seq<u8>| #[trigger]
        keys::place_of(KeyKind::U64, k) == (if !keys::pair_splits(k) {
            Err(Failure::MalformedKey(k))
        } else if exists|entry: (u64, ContractID)| can_file(entry) && #[trigger] key(entry) == k {
            Ok(place(entry_of(k)))
        } else {
            Err(Failure::Std(keys::u64_key_error(k)))
        }) by {
        if exists|entry: (u64, ContractID)| can_file(entry) && #[trigger] key(entry) == k {
            let entry = choose|entry: (u64, ContractID)| can_file(entry) && #[trigger] key(entry) == k;
            assert(k == keys::u64_key(entry));
        }
        if keys::u64_parts(k) is Some {
            let entry = keys::u64_parts(k)->0;
            assert(key(entry) == k && can_file(entry));
        }
    }
    assert forall|entry: (u64, ContractID)| can_file(entry) implies keys::pair_splits(
        #[trigger] key(entry),
    ) && entry_of(key(entry)) == entry by {
        numbers::lemma_u64_parts(entry);
    }
    assert forall|entry: (u64, ContractID)| can_file(entry) implies scan::inside(
        window,
        #[trigger] key(entry),
    ) == wanted(entry) by {
        lemma_u64_inside(equals, between, order, cursor, entry);
    }
    assert forall|a: (u64, ContractID), b: (u64, ContractID)|
        can_file(a) && wanted(a) && can_file(b) && wanted(b) implies bytes::comes_before(
        order,
        #[trigger] key(a),
        #[trigger] key(b),
    ) == before(a, b) by {
        numbers::u64_listing_in_order(a, b, order);
    }
    listing::lemma_lists(
        KeyKind::U64,
        records,
        window,
        key,
        entry_of,
        can_file,
        place,
        |key: Seq<u8>| keys::pair_splits(key),
        |key: Seq<u8>| keys::u64_key_error(key),
        wanted,
        before,
        order,
        limit,
        outcome,
    );
}

/// Whether a `u128` value is wanted. A listing that begins anew wants the value
/// that is named, or else those from the lower limit up to, but without, the
/// upper one. A listing that goes on wants what comes after the cursor, if the
/// text of the cursor is a number, as far as the named value, or else the upper
/// limit, lets it go.
pub open spec fn u128_wanted(
    equals: Option<u128>,
    between: Option<Between<u128>>,
    order: Order,
    cursor: Option<Place>,
    value: u128,
    id: ContractID,
) -> bool {
    match cursor {
        None => match (equals, between) {
            (Some(named), _) => value == named,
            (None, Some((lower, upper))) => {
                &&& lower matches Some(lower) ==> lower <= value
                &&& upper matches Some(upper) ==> value < upper
            },
            (None, None) => true,
        },
        Some((text, seen)) => {
            &&& decimal::parsed(text, u128::MAX as nat) matches Some(number) ==> match order {
                Order::Ascending => number < value || (number == value && seen < id),
                Order::Descending => value < number || (value == number && id < seen),
            }
            &&& match (equals, between, order) {
                (Some(named), _, Order::Ascending) => value <= named,
                (Some(named), _, Order::Descending) => named < value || (named == value && id
                    == u64::MAX),
                (None, Some((_, Some(upper))), Order::Ascending) => value < upper,
                (None, Some((_, Some(upper))), Order::Descending) => upper < value || (upper
                    == value && id > 0),
                _ => true,
            }
        },
    }
}

/// The order in which a listing of `u128` values comes to two of them.
pub open spec fn u128_before(order: Order, a: (u128, ContractID), b: (u128, ContractID)) -> bool {
    match order {
        Order::Ascending => a.0 < b.0 || (a.0 == b.0 && a.1 < b.1),
        Order::Descending => b.0 < a.0 || (b.0 == a.0 && b.1 < a.1),
    }
}

/// Whether `outcome` is the listing of what is wanted of an index of `u128` values.
pub open spec fn lists_u128(
    records: Seq<Record>,
    equals: Option<u128>,
    between: Option<Between<u128>>,
    order: Order,
    limit: u32,
    cursor: Option<Place>,
    outcome: Result<Seq<Place>, Failure>,
) -> bool {
    listing::lists(
        records,
        |entry: (u128, ContractID)| keys::u128_key(entry),
        |entry: (u128, ContractID)| true,
        |entry: (u128, ContractID)| (decimal::decimal(entry.0 as nat), entry.1),
        |key: Seq<u8>| keys::pair_splits(key),
        |key: Seq<u8>| keys::u128_key_error(key),
        |entry: (u128, ContractID)| u128_wanted(equals, between, order, cursor, entry.0, entry.1),
        |a: (u128, ContractID), b: (u128, ContractID)| u128_before(order, a, b),
        order,
        limit,
        outcome,
    )
}

/// What a window of an index of `u128` values lets in.
proof fn lemma_u128_inside(
    equals: Option<u128>,
    between: Option<Between<u128>>,
    order: Order,
    cursor: Option<Place>,
    entry: (u128, ContractID),
)
    ensures
        scan::inside(window::u128_window(equals, between, order, cursor), keys::u128_key(entry))
            == u128_wanted(equals, between, order, cursor, entry.0, entry.1),
{
    let v = entry.0 as nat;
    let start = window::start_of(equals, between);
    let stop = window::stop_of(equals, between);
    order::lemma_holds(v);
    order::lemma_big_endian(v, v, 16);
    if let Some(value) = start {
        order::lemma_holds(value as nat);
        order::lemma_big_endian(v, value as nat, 16);
        order::lemma_big_endian(value as nat, v, 16);
    }
    if let Some(value) = stop {
        order::lemma_holds(value as nat);
        order::lemma_big_endian(v, value as nat, 16);
        order::lemma_big_endian(value as nat, v, 16);
    }
    if let Some((text, _)) = cursor {
        if let Some(number) = decimal::parsed(text, u128::MAX as nat) {
            order::lemma_holds(number);
            order::lemma_big_endian(v, number, 16);
            order::lemma_big_endian(number, v, 16);
        }
    }
    admission::lemma_admits(
        order,
        cursor,
        window::number_key(cursor, u128::MAX as nat, 16),
        window::u128_component(start),
        window::u128_component(stop),
        equals is None,
        ContractID::MAX,
        (bytes::big_endian(v, 16), entry.1),
    );
}

/// The places within a window of an index of `u128` values are its listing.
proof fn lemma_lists_u128(
    records: Seq<Record>,
    equals: Option<u128>,
    between: Option<Between<u128>>,
    order: Order,
    limit: u32,
    cursor: Option<Place>,
    outcome: Result<Seq<Place>, Failure>,
)
    requires
        bytes::sorted(
            bytes::keys_of(
                window::within(records, window::u128_window(equals, between, order, cursor), order),
            ),
            order,
        ),
        outcome == pagination::places(
            KeyKind::U128,
            window::within(records, window::u128_window(equals, between, order, cursor), order),
            limit,
        ),
    ensures
        lists_u128(records, equals, between, order, limit, cursor, outcome),
{
    let key = |entry: (u128, ContractID)| keys::u128_key(entry);
    let entry_of = |key: Seq<u8>| keys::u128_parts(key)->0;
    let can_file = |entry: (u128, ContractID)| true;
    let window = window::u128_window(equals, between, order, cursor);
    let place = |entry: (u128, ContractID)| (decimal::decimal(entry.0 as nat), entry.1);
    let wanted = |entry: (u128, ContractID)|
        u128_wanted(equals, between, order, cursor, entry.0, entry.1);
    let before = |a: (u128, ContractID), b: (u128, ContractID)| u128_before(order, a, b);
    assert forall|k: Seq<u8>| #[trigger]
        keys::place_of(KeyKind::U128, k) == (if !keys::pair_splits(k) {
            Err(Failure::MalformedKey(k))
        } else if exists|entry: (u128, ContractID)| can_file(entry) && #[trigger] key(entry) == k {
            Ok(place(entry_of(k)))
        } else {
            Err(Failure::Std(keys::u128_key_error(k)))
        }) by {
        if exists|entry: (u128, ContractID)| can_file(entry) && #[trigger] key(entry) == k {
            let entry = choose|entry: (u128, ContractID)| can_file(entry) && #[trigger] key(entry) == k;
            assert(k == keys::u128_key(entry));
        }
        if keys::u128_parts(k) is Some {
            let entry = keys::u128_parts(k)->0;
            assert(key(entry) == k && can_file(entry));
        }
    }
    assert forall|entry: (u128, ContractID)| can_file(entry) implies keys::pair_splits(
        #[trigger] key(entry),
    ) && entry_of(key(entry)) == entry by {
        numbers::lemma_u128_parts(entry);
    }
    assert forall|entry: (u128, ContractID)| can_file(entry) implies scan::inside(
        window,
        #[trigger] key(entry),
    ) == wanted(entry) by {
        lemma_u128_inside(equals, between, order, cursor, entry);
    }
    assert forall|a: (u128, ContractID), b: (u128, ContractID)|
        can_file(a) && wanted(a) && can_file(b) && wanted(b) implies bytes::comes_before(
        order,
        #[trigger] key(a),
        #[trigger] key(b),
    ) == before(a, b) by {
        numbers::u128_listing_in_order(a, b, order);
    }
    listing::lemma_lists(
        KeyKind::U128,
        records,
        window,
        key,
        entry_of,
        can_file,
        place,
        |key: Seq<u8>| keys::pair_splits(key),
        |key: Seq<u8>| keys::u128_key_error(key),
        wanted,
        before,
        order,
        limit,
        outcome,
    );
}

/// Whether a contract with the truth value `number`, a zero or a one, is
/// wanted. A listing that begins anew wants the values from `start` up to, but
/// without, `stop`. A listing that goes on wants what comes after the cursor,
/// as far as `stop` lets it go; the text of the cursor stands for `true` unless
/// it stands for `false`.
pub open spec fn bool_wanted(
    start: Option<bool>,
    stop: Option<bool>,
    order: Order,
    cursor: Option<Place>,
    number: u8,
    id: ContractID,
) -> bool {
    match cursor {
        None => {
            &&& start == Some(true) ==> number >= 1
            &&& stop == Some(false) ==> false
            &&& stop == Some(true) ==> number < 1
        },
        Some((text, seen)) => {
            let told: int = if text::stands_for_false(text) {
                0
            } else {
                1
            };
            &&& match order {
                Order::Ascending => told < number || (told == number && seen < id),
                Order::Descending => number < told || (number == told && id < seen),
            }
            &&& match (stop, order) {
                (None, _) => true,
                (Some(false), Order::Ascending) => false,
                (Some(true), Order::Ascending) => number < 1,
                (Some(false), Order::Descending) => 0 < number || id > 0,
                (Some(true), Order::Descending) => 1 < number || (number == 1 && id > 0),
            }
        },
    }
}

/// The order in which a listing of truth values comes to two of them.
pub open spec fn number_before(order: Order, a: (u8, ContractID), b: (u8, ContractID)) -> bool {
    match order {
        Order::Ascending => a.0 < b.0 || (a.0 == b.0 && a.1 < b.1),
        Order::Descending => b.0 < a.0 || (b.0 == a.0 && b.1 < a.1),
    }
}

/// Whether `outcome` is the listing of what is wanted of an index of truth values.
pub open spec fn lists_bool(
    records: Seq<Record>,
    start: Option<bool>,
    stop: Option<bool>,
    order: Order,
    limit: u32,
    cursor: Option<Place>,
    outcome: Result<Seq<Place>, Failure>,
) -> bool {
    listing::lists(
        records,
        |entry: (u8, ContractID)| keys::u8_key(entry),
        |entry: (u8, ContractID)| true,
        |entry: (u8, ContractID)| (decimal::decimal(entry.0 as nat), entry.1),
        |key: Seq<u8>| keys::pair_splits(key),
        |key: Seq<u8>| keys::u8_key_error(key),
        |entry: (u8, ContractID)| bool_wanted(start, stop, order, cursor, entry.0, entry.1),
        |a: (u8, ContractID), b: (u8, ContractID)| number_before(order, a, b),
        order,
        limit,
        outcome,
    )
}

/// What a window of an index of truth values lets in.
proof fn lemma_bool_inside(
    start: Option<bool>,
    stop: Option<bool>,
    order: Order,
    cursor: Option<Place>,
    entry: (u8, ContractID),
)
    ensures
        scan::inside(window::bool_window(start, stop, order, cursor), keys::u8_key(entry))
            == bool_wanted(start, stop, order, cursor, entry.0, entry.1),
{
    let v = entry.0 as nat;
    order::lemma_holds(v);
    order::lemma_big_endian(v, v, 1);
    order::lemma_holds(0);
    order::lemma_holds(1);
    order::lemma_big_endian(v, 0, 1);
    order::lemma_big_endian(v, 1, 1);
    order::lemma_big_endian(0, v, 1);
    order::lemma_big_endian(1, v, 1);
    admission::lemma_admits(
        order,
        cursor,
        match cursor {
            Some((text, id)) => Some(
                (bytes::big_endian(if text::stands_for_false(text) { 0 } else { 1 }, 1), id),
            ),
            None => None,
        },
        window::bool_component(start),
        window::bool_component(stop),
        true,
        0,
        (bytes::big_endian(v, 1), entry.1),
    );
}

/// The places within a window of an index of truth values are its listing.
proof fn lemma_lists_bool(
    records: Seq<Record>,
    start: Option<bool>,
    stop: Option<bool>,
    order: Order,
    limit: u32,
    cursor: Option<Place>,
    outcome: Result<Seq<Place>, Failure>,
)
    requires
        bytes::sorted(
            bytes::keys_of(
                window::within(records, window::bool_window(start, stop, order, cursor), order),
            ),
            order,
        ),
        outcome == pagination::places(
            KeyKind::U8,
            window::within(records, window::bool_window(start, stop, order, cursor), order),
            limit,
        ),
    ensures
        lists_bool(records, start, stop, order, limit, cursor, outcome),
{
    let key = |entry: (u8, ContractID)| keys::u8_key(entry);
    let entry_of = |key: Seq<u8>| keys::u8_parts(key)->0;
    let can_file = |entry: (u8, ContractID)| true;
    let window = window::bool_window(start, stop, order, cursor);
    let place = |entry: (u8, ContractID)| (decimal::decimal(entry.0 as nat), entry.1);
    let wanted = |entry: (u8, ContractID)|
        bool_wanted(start, stop, order, cursor, entry.0, entry.1);
    let before = |a: (u8, ContractID), b: (u8, ContractID)| number_before(order, a, b);
    assert forall|k: Seq<u8>| #[trigger]
        keys::place_of(KeyKind::U8, k) == (if !keys::pair_splits(k) {
            Err(Failure::MalformedKey(k))
        } else if exists|entry: (u8, ContractID)| can_file(entry) && #[trigger] key(entry) == k {
            Ok(place(entry_of(k)))
        } else {
            Err(Failure::Std(keys::u8_key_error(k)))
        }) by {
        if exists|entry: (u8, ContractID)| can_file(entry) && #[trigger] key(entry) == k {
            let entry = choose|entry: (u8, ContractID)| can_file(entry) && #[trigger] key(entry) == k;
            assert(k == keys::u8_key(entry));
        }
        if keys::u8_parts(k) is Some {
            let entry = keys::u8_parts(k)->0;
            assert(key(entry) == k && can_file(entry));
        }
    }
    assert forall|entry: (u8, ContractID)| can_file(entry) implies keys::pair_splits(
        #[trigger] key(entry),
    ) && entry_of(key(entry)) == entry by {
        numbers::lemma_u8_parts(entry);
    }
    assert forall|entry: (u8, ContractID)| can_file(entry) implies scan::inside(
        window,
        #[trigger] key(entry),
    ) == wanted(entry) by {
        lemma_bool_inside(start, stop, order, cursor, entry);
    }
    assert forall|a: (u8, ContractID), b: (u8, ContractID)|
        can_file(a) && wanted(a) && can_file(b) && wanted(b) implies bytes::comes_before(
        order,
        #[trigger] key(a),
        #[trigger] key(b),
    ) == before(a, b) by {
        numbers::u8_listing_in_order(a, b, order);
    }
    listing::lemma_lists(
        KeyKind::U8,
        records,
        window,
        key,
        entry_of,
        can_file,
        place,
        |key: Seq<u8>| keys::pair_splits(key),
        |key: Seq<u8>| keys::u8_key_error(key),
        wanted,
        before,
        order,
        limit,
        outcome,
    );
}

/// A point in time as a number of nanoseconds.
pub open spec fn nanos_of(time: Option<Timestamp>) -> Option<u64> {
    match time {
        Some(time) => Some(time.nanos),
        None => None,
    }
}

/// Limits in time as numbers of nanoseconds.
pub open spec fn nanos_between(between: Option<Between<Timestamp>>) -> Option<Between<u64>> {
    match between {
        Some((lower, upper)) => Some((nanos_of(lower), nanos_of(upper))),
        None => None,
    }
}

/// A read of the index of revisions lists exactly what is wanted of its records, in
/// order and up to the limit.
pub proof fn rev_index_lists<P>(
    chain: Chain,
    layout: Layout,
    parse: P,
    equals: Option<u64>,
    between: Option<Between<u64>>,
    order: Order,
    limit: u32,
    cursor: Option<Place>,
    outcome: Result<Seq<Place>, Failure>,
) where P: Fn(Vec<u8>) -> Result<ContractMetadata, StdError>
    requires
        read::can_list(
            chain,
            layout,
            parse,
            Target::Index(IndexBounds::Rev { equals, between }),
            order,
            limit,
            cursor,
            outcome,
        ),
    ensures
        lists_u64(
            store::records(chain, layout.ix_rev@),
            equals,
            between,
            order,
            limit,
            cursor,
            outcome,
        ),
{
    let records = store::records(chain, layout.ix_rev@);
    lemma_lists_u64(records, equals, between, order, limit, cursor, outcome);
}

/// A read of the index of code numbers lists exactly what is wanted of its records, in
/// order and up to the limit.
pub proof fn code_id_index_lists<P>(
    chain: Chain,
    layout: Layout,
    parse: P,
    equals: Option<u64>,
    between: Option<Between<u64>>,
    order: Order,
    limit: u32,
    cursor: Option<Place>,
    outcome: Result<Seq<Place>, Failure>,
) where P: Fn(Vec<u8>) -> Result<ContractMetadata, StdError>
    requires
        read::can_list(
            chain,
            layout,
            parse,
            Target::Index(IndexBounds::CodeId { equals, between }),
            order,
            limit,
            cursor,
            outcome,
        ),
    ensures
        lists_u64(
            store::records(chain, layout.ix_code_id@),
            equals,
            between,
            order,
            limit,
            cursor,
            outcome,
        ),
{
    let records = store::records(chain, layout.ix_code_id@);
    lemma_lists_u64(records, equals, between, order, limit, cursor, outcome);
}

/// A read of the index of heights lists exactly what is wanted of its records, in
/// order and up to the limit.
pub proof fn height_index_lists<P>(
    chain: Chain,
    layout: Layout,
    parse: P,
    equals: Option<u64>,
    between: Option<Between<u64>>,
    order: Order,
    limit: u32,
    cursor: Option<Place>,
    outcome: Result<Seq<Place>, Failure>,
) where P: Fn(Vec<u8>) -> Result<ContractMetadata, StdError>
    requires
        read::can_list(
            chain,
            layout,
            parse,
            Target::Index(IndexBounds::Height { equals, between }),
            order,
            limit,
            cursor,
            outcome,
        ),
    ensures
        lists_u64(
            store::records(chain, layout.ix_height@),
            equals,
            between,
            order,
            limit,
            cursor,
            outcome,
        ),
{
    let records = store::records(chain, layout.ix_height@);
    lemma_lists_u64(records, equals, between, order, limit, cursor, outcome);
}

/// A read of the index of times of creation lists exactly what is wanted of its records, in
/// order and up to the limit.
pub proof fn created_at_index_lists<P>(
    chain: Chain,
    layout: Layout,
    parse: P,
    equals: Option<Timestamp>,
    between: Option<Between<Timestamp>>,
    order: Order,
    limit: u32,
    cursor: Option<Place>,
    outcome: Result<Seq<Place>, Failure>,
) where P: Fn(Vec<u8>) -> Result<ContractMetadata, StdError>
    requires
        read::can_list(
            chain,
            layout,
            parse,
            Target::Index(IndexBounds::CreatedAt { equals, between }),
            order,
            limit,
            cursor,
            outcome,
        ),
    ensures
        lists_u64(
            store::records(chain, layout.ix_created_at@),
            nanos_of(equals),
            nanos_between(between),
            order,
            limit,
            cursor,
            outcome,
        ),
{
    let records = store::records(chain, layout.ix_created_at@);
    lemma_lists_u64(records, nanos_of(equals), nanos_between(between), order, limit, cursor, outcome);
}

/// A read of the index of times of change lists exactly what is wanted of its records, in
/// order and up to the limit.
pub proof fn updated_at_index_lists<P>(
    chain: Chain,
    layout: Layout,
    parse: P,
    equals: Option<Timestamp>,
    between: Option<Between<Timestamp>>,
    order: Order,
    limit: u32,
    cursor: Option<Place>,
    outcome: Result<Seq<Place>, Failure>,
) where P: Fn(Vec<u8>) -> Result<ContractMetadata, StdError>
    requires
        read::can_list(
            chain,
            layout,
            parse,
            Target::Index(IndexBounds::UpdatedAt { equals, between }),
            order,
            limit,
            cursor,
            outcome,
        ),
    ensures
        lists_u64(
            store::records(chain, layout.ix_updated_at@),
            nanos_of(equals),
            nanos_between(between),
            order,
            limit,
            cursor,
            outcome,
        ),
{
    let records = store::records(chain, layout.ix_updated_at@);
    lemma_lists_u64(records, nanos_of(equals), nanos_between(between), order, limit, cursor, outcome);
}

/// A read of an index of points in time lists exactly what is wanted of its records, in
/// order and up to the limit; where no index stands at the slot, it fails.
pub proof fn timestamp_index_lists<P>(
    chain: Chain,
    layout: Layout,
    parse: P,
    slot: u8,
    equals: Option<Timestamp>,
    between: Option<Between<Timestamp>>,
    order: Order,
    limit: u32,
    cursor: Option<Place>,
    outcome: Result<Seq<Place>, Failure>,
) where P: Fn(Vec<u8>) -> Result<ContractMetadata, StdError>
    requires
        read::can_list(
            chain,
            layout,
            parse,
            Target::Index(IndexBounds::Timestamp { slot, equals, between }),
            order,
            limit,
            cursor,
            outcome,
        ),
    ensures
        slot >= layout.timestamp_indices@.len() ==> outcome == Err::<Seq<Place>, Failure>(
            Failure::IndexNotFound(slot),
        ),
        slot < layout.timestamp_indices@.len() ==> lists_u64(
            store::records(chain, layout.timestamp_indices@[slot as int]@),
            nanos_of(equals),
            nanos_between(between),
            order,
            limit,
            cursor,
            outcome,
        ),
{
    if slot < layout.timestamp_indices@.len() {
        let records = store::records(chain, layout.timestamp_indices@[slot as int]@);
        lemma_lists_u64(records, nanos_of(equals), nanos_between(between), order, limit, cursor, outcome);
    }
}

/// A read of an index of `u64` values lists exactly what is wanted of its records, in
/// order and up to the limit; where no index stands at the slot, it fails.
pub proof fn uint64_index_lists<P>(
    chain: Chain,
    layout: Layout,
    parse: P,
    slot: u8,
    equals: Option<u64>,
    between: Option<Between<u64>>,
    order: Order,
    limit: u32,
    cursor: Option<Place>,
    outcome: Result<Seq<Place>, Failure>,
) where P: Fn(Vec<u8>) -> Result<ContractMetadata, StdError>
    requires
        read::can_list(
            chain,
            layout,
            parse,
            Target::Index(IndexBounds::Uint64 { slot, equals, between }),
            order,
            limit,
            cursor,
            outcome,
        ),
    ensures
        slot >= layout.u64_indices@.len() ==> outcome == Err::<Seq<Place>, Failure>(
            Failure::IndexNotFound(slot),
        ),
        slot < layout.u64_indices@.len() ==> lists_u64(
            store::records(chain, layout.u64_indices@[slot as int]@),
            equals,
            between,
            order,
            limit,
            cursor,
            outcome,
        ),
{
    if slot < layout.u64_indices@.len() {
        let records = store::records(chain, layout.u64_indices@[slot as int]@);
        lemma_lists_u64(records, equals, between, order, limit, cursor, outcome);
    }
}

/// A read of an index of `u128` values lists exactly what is wanted of its records, in
/// order and up to the limit; where no index stands at the slot, it fails.
pub proof fn uint128_index_lists<P>(
    chain: Chain,
    layout: Layout,
    parse: P,
    slot: u8,
    equals: Option<u128>,
    between: Option<Between<u128>>,
    order: Order,
    limit: u32,
    cursor: Option<Place>,
    outcome: Result<Seq<Place>, Failure>,
) where P: Fn(Vec<u8>) -> Result<ContractMetadata, StdError>
    requires
        read::can_list(
            chain,
            layout,
            parse,
            Target::Index(IndexBounds::Uint128 { slot, equals, between }),
            order,
            limit,
            cursor,
            outcome,
        ),
    ensures
        slot >= layout.u128_indices@.len() ==> outcome == Err::<Seq<Place>, Failure>(
            Failure::IndexNotFound(slot),
        ),
        slot < layout.u128_indices@.len() ==> lists_u128(
            store::records(chain, layout.u128_indices@[slot as int]@),
            equals,
            between,
            order,
            limit,
            cursor,
            outcome,
        ),
{
    if slot < layout.u128_indices@.len() {
        let records = store::records(chain, layout.u128_indices@[slot as int]@);
        lemma_lists_u128(records, equals, between, order, limit, cursor, outcome);
    }
}

/// A read of an index of truth values lists exactly what is wanted of its records, in
/// order and up to the limit; where no index stands at the slot, it fails.
pub proof fn boolean_index_lists<P>(
    chain: Chain,
    layout: Layout,
    parse: P,
    slot: u8,
    start: Option<bool>,
    stop: Option<bool>,
    order: Order,
    limit: u32,
    cursor: Option<Place>,
    outcome: Result<Seq<Place>, Failure>,
) where P: Fn(Vec<u8>) -> Result<ContractMetadata, StdError>
    requires
        read::can_list(
            chain,
            layout,
            parse,
            Target::Index(IndexBounds::Boolean { slot, start, stop }),
            order,
            limit,
            cursor,
            outcome,
        ),
    ensures
        slot >= layout.bool_indices@.len() ==> outcome == Err::<Seq<Place>, Failure>(
            Failure::IndexNotFound(slot),
        ),
        slot < layout.bool_indices@.len() ==> lists_bool(
            store::records(chain, layout.bool_indices@[slot as int]@),
            start,
            stop,
            order,
            limit,
            cursor,
            outcome,
        ),
{
    if slot < layout.bool_indices@.len() {
        let records = store::records(chain, layout.bool_indices@[slot as int]@);
        lemma_lists_bool(records, start, stop, order, limit, cursor, outcome);
    }
}

} // verus!

//! Pages of contract numbers, walked off the indices of the store.
use cosmwasm_std::StdError;
use vstd::prelude::*;
use vstd::std_specs::convert::*;
use vstd::std_specs::iter::*;

use crate::bytes;
use crate::bytes::{count_up, Record};
use crate::decimal::parse_decimal;
use crate::error::{ContractError, Failure};
use crate::keys;
use crate::keys::{
    encode_relation_key, encode_relation_prefix, encode_text_key, encode_text_prefix,
    encode_u128_key, encode_u128_prefix, encode_u64_key, encode_u64_prefix, encode_u8_key,
    encode_u8_prefix, key_cursor, Cursor, KeyKind, Place,
};
use crate::models::{Between, ContractID, Order, Timestamp};
use crate::store;
use crate::store::{decode_bool, next_row, walk, Chain, Limit, Rows};
use crate::text;
use crate::text::{is_true, validate_address};
use crate::window;
use crate::window::Window;

verus! {

/// Whether `outcome` is what becomes of `item`: what `parse_fn` makes of a key
/// and its value, or the item's own error.
pub open spec fn becomes<D, T, R, E, F>(
    item: Result<(D, T), StdError>,
    parse_fn: F,
    outcome: Result<R, E>,
) -> bool where E: From<StdError>, F: Fn(D, T) -> Result<R, E> {
    match item {
        Ok((key, value)) => call_ensures(parse_fn, (key, value), outcome),
        Err(error) => outcome matches Err(converted) && (E::obeys_from_spec() ==> converted
            == E::from_spec(error)),
    }
}

/// Whether something other than an error can become of `item`.
pub open spec fn can_pass<D, T, R, E, F>(item: Result<(D, T), StdError>, parse_fn: F) -> bool where
    E: From<StdError>,
    F: Fn(D, T) -> Result<R, E>,
 {
    exists|parsed: R| #[trigger] becomes(item, parse_fn, Ok::<R, E>(parsed))
}

/// Whether something other than an error can become of each of the items.
pub open spec fn all_can_pass<D, T, R, E, F>(
    items: Seq<Result<(D, T), StdError>>,
    parse_fn: F,
) -> bool where E: From<StdError>, F: Fn(D, T) -> Result<R, E> {
    forall|i: int| 0 <= i < items.len() ==> can_pass::<D, T, R, E, F>(#[trigger] items[i], parse_fn)
}

/// Whether `parse_fn` can be called on `item`, unless the item is an error.
pub open spec fn can_be_given<D, T, R, E, F>(
    item: Result<(D, T), StdError>,
    parse_fn: F,
) -> bool where F: Fn(D, T) -> Result<R, E> {
    item matches Ok((key, value)) ==> call_requires(parse_fn, (key, value))
}

/// How many of `available` things are taken where at most `limit` are asked for.
pub open spec fn at_most(available: nat, limit: u32) -> int {
    if available < limit {
        available as int
    } else {
        limit as int
    }
}

/// Whether `result` is what becomes of the first `limit` items: everything
/// that they become, in their order, or the error of the first of them that fails.
pub open spec fn collected<D, T, R, E, F>(
    items: Seq<Result<(D, T), StdError>>,
    limit: u32,
    parse_fn: F,
    result: Result<Vec<R>, E>,
) -> bool where E: From<StdError>, F: Fn(D, T) -> Result<R, E> {
    let count = at_most(items.len(), limit);
    match result {
        Ok(parsed) => {
            &&& parsed@.len() == count
            &&& forall|i: int|
                0 <= i < count ==> becomes(
                    items[i],
                    parse_fn,
                    Ok::<R, E>(#[trigger] parsed@[i]),
                )
        },
        Err(error) => exists|n: int|
            {
                &&& 0 <= n < count
                &&& becomes(#[trigger] items[n], parse_fn, Err::<R, E>(error))
                &&& forall|i: int|
                    0 <= i < n ==> can_pass::<D, T, R, E, F>(#[trigger] items[i], parse_fn)
            },
    }
}

/// Takes at most `limit` items off `iter` and makes `parse_fn` of each of
/// them, until the first error. `parse_fn` has to be defined on the items that
/// it comes to.
pub fn collect<D, T, R, E, F, I>(iter: I, limit: u32, parse_fn: F) -> (result: Result<Vec<R>, E>)
    where
        I: Iterator<Item = Result<(D, T), StdError>>,
        F: Fn(D, T) -> Result<R, E>,
        E: From<StdError>,
    requires
        iter.obeys_prophetic_iter_laws() ==> forall|i: int|
            0 <= i < at_most(iter.remaining().len(), limit) && all_can_pass::<D, T, R, E, F>(
                iter.remaining().take(i),
                parse_fn,
            ) ==> can_be_given(#[trigger] iter.remaining()[i], parse_fn),
        !iter.obeys_prophetic_iter_laws() ==> forall|key: D, value: T|
            call_requires(parse_fn, (key, value)),
    ensures
        iter.obeys_prophetic_iter_laws() ==> collected(iter.remaining(), limit, parse_fn, result),
        result matches Ok(parsed) ==> parsed@.len() <= limit,
{
    let ghost items = iter.remaining();
    let ghost lawful = iter.obeys_prophetic_iter_laws();
    let mut rest = iter;
    let mut results: Vec<R> = Vec::new();
    let mut left: u32 = limit;
    while left > 0
        invariant
            lawful ==> forall|i: int|
                0 <= i < at_most(items.len(), limit) && all_can_pass::<D, T, R, E, F>(
                    items.take(i),
                    parse_fn,
                ) ==> can_be_given(#[trigger] items[i], parse_fn),
            !lawful ==> forall|key: D, value: T| call_requires(parse_fn, (key, value)),
            left <= limit,
            results@.len() == limit - left,
            items == iter.remaining(),
            lawful == iter.obeys_prophetic_iter_laws(),
            lawful == rest.obeys_prophetic_iter_laws(),
            lawful ==> {
                &&& results@.len() <= items.len()
                &&& rest.remaining() == items.skip(results@.len() as int)
            },
            lawful ==> forall|i: int|
                0 <= i < results@.len() ==> becomes(
                    items[i],
                    parse_fn,
                    Ok::<R, E>(#[trigger] results@[i]),
                ),
        decreases left,
    {
        let ghost done = results@.len() as int;
        assert forall|i: int| lawful && 0 <= i < done implies can_pass::<D, T, R, E, F>(
            #[trigger] items[i],
            parse_fn,
        ) by {
            assert(becomes(items[i], parse_fn, Ok::<R, E>(results@[i])));
        }
        assert(lawful ==> all_can_pass::<D, T, R, E, F>(items.take(done), parse_fn));
        match rest.next() {
            None => {
                return Ok(results);
            },
            Some(Err(error)) => {
                let converted = E::from(error);
                assert(lawful ==> becomes(items[done], parse_fn, Err::<R, E>(converted)));
                return Err(converted);
            },
            Some(Ok((key, value))) => {
                assert(lawful ==> can_be_given(items[done], parse_fn));
                match parse_fn(key, value) {
                    Ok(parsed) => {
                        results.push(parsed);
                        left -= 1;
                    },
                    Err(error) => {
                        assert(lawful ==> becomes(items[done], parse_fn, Err::<R, E>(error)));
                        return Err(error);
                    },
                }
            },
        }
    }
    Ok(results)
}

/// Every value of `results`, in their order, or the first failure among them.
pub open spec fn all_or_first_failure<A>(results: Seq<Result<A, Failure>>) -> Result<Seq<A>, Failure>
    decreases results.len(),
{
    if results.len() == 0 {
        Ok(Seq::empty())
    } else {
        match all_or_first_failure(results.drop_last()) {
            Err(failure) => Err(failure),
            Ok(values) => match results.last() {
                Ok(value) => Ok(values.push(value)),
                Err(failure) => Err(failure),
            },
        }
    }
}

/// The place of a record whose value decodes to `value`, or why the value decodes to none.
pub open spec fn kept(place: Place, value: Result<bool, StdError>) -> Result<Place, Failure> {
    match value {
        Ok(_) => Ok(place),
        Err(error) => Err(Failure::Std(error)),
    }
}

/// The place that a record of an index marks, or why it marks none. The key of
/// a record is read before its value.
pub open spec fn record_place(kind: KeyKind, record: Record) -> Result<Place, Failure> {
    match keys::place_of(kind, record.0) {
        Ok(place) => kept(place, store::bool_value(record.1)),
        Err(failure) => Err(failure),
    }
}

/// The first `limit` of `records`, or all of them if there are fewer.
pub open spec fn first_of(records: Seq<Record>, limit: u32) -> Seq<Record> {
    records.take(at_most(records.len(), limit))
}

/// The places that all of the records mark, or the failure of the first of
/// them that marks none.
pub open spec fn all_places(kind: KeyKind, records: Seq<Record>) -> Result<Seq<Place>, Failure> {
    all_or_first_failure(records.map_values(|record: Record| record_place(kind, record)))
}

/// The places that the first `limit` of the records mark, or the failure of
/// the first of those that marks none.
pub open spec fn places(kind: KeyKind, records: Seq<Record>, limit: u32) -> Result<
    Seq<Place>,
    Failure,
> {
    all_places(kind, first_of(records, limit))
}

/// Whether `listing` is the places of the first `limit` records of an index
/// within a window, which stand in the given order of keys.
pub open spec fn lists(
    chain: Chain,
    namespace: Seq<char>,
    kind: KeyKind,
    window: Window,
    order: Order,
    limit: u32,
    listing: Result<Seq<Place>, Failure>,
) -> bool {
    let rows = window::within(store::records(chain, namespace), window, order);
    &&& bytes::sorted(bytes::keys_of(rows), order)
    &&& listing == places(kind, rows, limit)
}

/// What a result that may hold cursors holds.
pub open spec fn places_view(result: Result<Vec<Cursor>, ContractError>) -> Result<
    Seq<Place>,
    Failure,
> {
    match result {
        Ok(cursors) => Ok(keys::places_of(cursors@)),
        Err(error) => Err(error@),
    }
}

/// Results without a failure give their values.
pub proof fn lemma_all_pass<A>(results: Seq<Result<A, Failure>>, values: Seq<A>)
    requires
        values.len() == results.len(),
        forall|i: int|
            0 <= i < results.len() ==> #[trigger] results[i] == Ok::<A, Failure>(values[i]),
    ensures
        all_or_first_failure(results) == Ok::<Seq<A>, Failure>(values),
    decreases results.len(),
{
    if results.len() > 0 {
        lemma_all_pass(results.drop_last(), values.drop_last());
        assert(results.last() == Ok::<A, Failure>(values.last()));
        assert(values.drop_last().push(values.last()) =~= values);
    } else {
        assert(values =~= Seq::empty());
    }
}

/// The first failure among results is what they give.
pub proof fn lemma_first_fails<A>(results: Seq<Result<A, Failure>>, n: int)
    requires
        0 <= n < results.len(),
        results[n] is Err,
        forall|i: int| 0 <= i < n ==> #[trigger] results[i] is Ok,
    ensures
        all_or_first_failure(results) == Err::<Seq<A>, Failure>(results[n]->Err_0),
    decreases results.len(),
{
    if n < results.len() - 1 {
        lemma_first_fails(results.drop_last(), n);
    } else {
        let values = Seq::new(n as nat, |i: int| results[i]->Ok_0);
        assert forall|i: int| 0 <= i < n implies #[trigger] results.drop_last()[i] == Ok::<
            A,
            Failure,
        >(values[i]) by {
            assert(results[i] is Ok);
        }
        lemma_all_pass(results.drop_last(), values);
    }
}

/// Keeps the place of a record whose value decodes.
pub fn keep_place(cursor: Cursor, value: Result<bool, StdError>) -> (kept_cursor: Result<
    Cursor,
    ContractError,
>)
    ensures
        keys::place_view(kept_cursor) == kept((cursor.0@, cursor.1), value),
{
    match value {
        Ok(_) => Ok(cursor),
        Err(error) => Err(ContractError::from(error)),
    }
}

/// Reads the place that a record of an index marks.
pub fn mark_row(kind: KeyKind, key: Vec<u8>, value: Vec<u8>) -> (cursor: Result<
    Cursor,
    ContractError,
>)
    ensures
        keys::place_view(cursor) == record_place(kind, (key@, value@)),
{
    match key_cursor(kind, key) {
        Ok(cursor) => keep_place(cursor, decode_bool(value)),
        Err(error) => Err(error),
    }
}

/// The places that the first `limit` of the records mark, one by one.
spec fn marks(kind: KeyKind, records: Seq<Record>, limit: u32) -> Seq<Result<Place, Failure>> {
    first_of(records, limit).map_values(|record: Record| record_place(kind, record))
}

/// Reads the place that the next record of a walk marks.
fn mark_next(rows: &mut Rows, kind: KeyKind) -> (cursor: Option<Result<Cursor, ContractError>>)
    ensures
        store::pending(*old(rows)).len() == 0 ==> cursor is None,
        store::pending(*old(rows)).len() > 0 ==> {
            &&& cursor is Some
            &&& keys::place_view(cursor->0) == record_place(kind, store::pending(*old(rows))[0])
            &&& store::pending(*final(rows)) == store::pending(*old(rows)).drop_first()
        },
{
    match next_row(rows) {
        None => None,
        Some((key, value)) => Some(mark_row(kind, key, value)),
    }
}

/// Reads the places that the first `limit` records of a walk mark, row by row,
/// until the first that marks none.
fn list_rows(rows: Rows, kind: KeyKind, limit: u32) -> (listing: Result<Vec<Cursor>, ContractError>)
    ensures
        places_view(listing) == places(kind, store::pending(rows), limit),
{
    let ghost all = store::pending(rows);
    let ghost results = marks(kind, all, limit);
    let mut rest = rows;
    let mut cursors: Vec<Cursor> = Vec::new();
    let mut left: u32 = limit;
    assert forall|i: int| 0 <= i < results.len() implies #[trigger] results[i] == record_place(
        kind,
        all[i],
    ) by {}
    while left > 0
        invariant_except_break
            cursors@.len() == limit - left,
            store::pending(rest) == all.skip(cursors@.len() as int),
        invariant
            results.len() == at_most(all.len(), limit),
            forall|i: int|
                0 <= i < results.len() ==> #[trigger] results[i] == record_place(kind, all[i]),
            all_or_first_failure(results) == places(kind, store::pending(rows), limit),
            left <= limit,
            cursors@.len() <= results.len(),
            forall|i: int|
                0 <= i < cursors@.len() ==> #[trigger] results[i] == Ok::<Place, Failure>(
                    (cursors@[i].0@, cursors@[i].1),
                ),
        ensures
            cursors@.len() == results.len(),
        decreases left,
    {
        let ghost done = cursors@.len() as int;
        match mark_next(&mut rest, kind) {
            None => {
                break;
            },
            Some(marked) => {
                assert(all.skip(done)[0] == all[done]);
                assert(results[done] == keys::place_view(marked));
                match marked {
                    Ok(cursor) => {
                        cursors.push(cursor);
                        left -= 1;
                        assert(all.skip(done).drop_first() =~= all.skip(done + 1));
                    },
                    Err(error) => {
                        proof {
                            lemma_first_fails(results, done);
                        }
                        return Err(error);
                    },
                }
            },
        }
    }
    proof {
        lemma_all_pass(results, keys::places_of(cursors@));
    }
    Ok(cursors)
}

/// The bytes that may be there.
pub open spec fn prefix_view(prefix: Option<Vec<u8>>) -> Option<Seq<u8>> {
    match prefix {
        Some(prefix) => Some(prefix@),
        None => None,
    }
}

/// Sets out on a walk from the keys that begin with `start` to those that
/// begin with `stop`; `is_exclusive` says whether the latter stay out.
fn walk_anew<'a>(
    chain: &Chain<'a>,
    namespace: &str,
    start: Option<Vec<u8>>,
    stop: Option<Vec<u8>>,
    is_exclusive: bool,
    order: Order,
) -> (rows: Rows<'a>)
    requires
        bytes::fits(namespace@),
    ensures
        store::pending(rows) == window::within(
            store::records(*chain, namespace@),
            window::prefix_window(prefix_view(start), prefix_view(stop), is_exclusive),
            order,
        ),
        bytes::sorted(bytes::keys_of(store::pending(rows)), order),
{
    let min = match start {
        Some(prefix) => Some(Limit::Inclusive(prefix)),
        None => None,
    };
    let max = match stop {
        Some(prefix) => Some(
            Limit::Exclusive(
                if is_exclusive {
                    prefix
                } else {
                    count_up(prefix)
                },
            ),
        ),
        None => None,
    };
    walk(chain, namespace, min, max, order)
}

/// Sets out on a walk in the given order from one end to the other.
fn walk_on<'a>(
    chain: &Chain<'a>,
    namespace: &str,
    from: Option<Limit>,
    until: Option<Limit>,
    order: Order,
) -> (rows: Rows<'a>)
    requires
        bytes::fits(namespace@),
    ensures
        store::pending(rows) == window::within(
            store::records(*chain, namespace@),
            window::directed_window(order, store::edge_of(from), store::edge_of(until)),
            order,
        ),
        bytes::sorted(bytes::keys_of(store::pending(rows)), order),
{
    match order {
        Order::Ascending => walk(chain, namespace, from, until, order),
        Order::Descending => walk(chain, namespace, until, from, order),
    }
}

/// The limits that a request sets: where to start, where to stop, and whether
/// the latter stays out.
fn limits<V: Copy>(equals: Option<V>, between: Option<Between<V>>) -> (limits: (
    Option<V>,
    Option<V>,
    bool,
))
    ensures
        limits.0 == window::start_of(equals, between),
        limits.1 == window::stop_of(equals, between),
        limits.2 == (equals is None),
{
    if let Some(value) = equals {
        (Some(value), Some(value), false)
    } else if let Some((lower, upper)) = between {
        (lower, upper, true)
    } else {
        (None, None, true)
    }
}

/// Lists the contracts of an index of `u64` values.
pub fn paginate_u64_index(
    chain: &Chain,
    namespace: &str,
    equals: Option<u64>,
    between: Option<Between<u64>>,
    order: Order,
    limit: u32,
    cursor: Option<Cursor>,
) -> (listing: Result<Vec<Cursor>, ContractError>)
    requires
        bytes::fits(namespace@),
    ensures
        lists(
            *chain,
            namespace@,
            KeyKind::U64,
            window::u64_window(equals, between, order, window::cursor_view(cursor)),
            order,
            limit,
            places_view(listing),
        ),
{
    let (start, stop, is_exclusive) = limits(equals, between);
    let rows = if let Some((text, id)) = cursor {
        let from = match parse_decimal(text.as_str(), u64::MAX as u128) {
            Some(number) => Some(Limit::Exclusive(encode_u64_key(number as u64, id))),
            None => None,
        };
        let until = match stop {
            Some(value) => Some(
                if is_exclusive {
                    Limit::Exclusive(encode_u64_key(value, 0))
                } else {
                    Limit::Inclusive(encode_u64_key(value, ContractID::MAX))
                },
            ),
            None => None,
        };
        walk_on(chain, namespace, from, until, order)
    } else {
        let start = match start {
            Some(value) => Some(encode_u64_prefix(value)),
            None => None,
        };
        let stop = match stop {
            Some(value) => Some(encode_u64_prefix(value)),
            None => None,
        };
        walk_anew(chain, namespace, start, stop, is_exclusive, order)
    };
    list_rows(rows, KeyKind::U64, limit)
}

/// Lists the contracts of an index of `u128` values.
pub fn paginate_u128_index(
    chain: &Chain,
    namespace: &str,
    equals: Option<u128>,
    between: Option<Between<u128>>,
    order: Order,
    limit: u32,
    cursor: Option<Cursor>,
) -> (listing: Result<Vec<Cursor>, ContractError>)
    requires
        bytes::fits(namespace@),
    ensures
        lists(
            *chain,
            namespace@,
            KeyKind::U128,
            window::u128_window(equals, between, order, window::cursor_view(cursor)),
            order,
            limit,
            places_view(listing),
        ),
{
    let (start, stop, is_exclusive) = limits(equals, between);
    let rows = if let Some((text, id)) = cursor {
        let from = match parse_decimal(text.as_str(), u128::MAX) {
            Some(number) => Some(Limit::Exclusive(encode_u128_key(number, id))),
            None => None,
        };
        let until = match stop {
            Some(value) => Some(
                if is_exclusive {
                    Limit::Exclusive(encode_u128_key(value, 0))
                } else {
                    Limit::Inclusive(encode_u128_key(value, ContractID::MAX))
                },
            ),
            None => None,
        };
        walk_on(chain, namespace, from, until, order)
    } else {
        let start = match start {
            Some(value) => Some(encode_u128_prefix(value)),
            None => None,
        };
        let stop = match stop {
            Some(value) => Some(encode_u128_prefix(value)),
            None => None,
        };
        walk_anew(chain, namespace, start, stop, is_exclusive, order)
    };
    list_rows(rows, KeyKind::U128, limit)
}

/// Lists the contracts of an index of points in time.
pub fn paginate_ts_index(
    chain: &Chain,
    namespace: &str,
    equals: Option<Timestamp>,
    between: Option<Between<Timestamp>>,
    order: Order,
    limit: u32,
    cursor: Option<Cursor>,
) -> (listing: Result<Vec<Cursor>, ContractError>)
    requires
        bytes::fits(namespace@),
    ensures
        lists(
            *chain,
            namespace@,
            KeyKind::U64,
            window::u64_window(
                window::nanos_view(equals),
                window::nanos_between(between),
                order,
                window::cursor_view(cursor),
            ),
            order,
            limit,
            places_view(listing),
        ),
{
    let between = match between {
        Some((lower, upper)) => Some((nanos_of(lower), nanos_of(upper))),
        None => None,
    };
    paginate_u64_index(chain, namespace, nanos_of(equals), between, order, limit, cursor)
}

fn nanos_of(time: Option<Timestamp>) -> (nanos: Option<u64>)
    ensures
        nanos == window::nanos_view(time),
{
    match time {
        Some(time) => Some(time.nanos()),
        None => None,
    }
}

/// Lists the contracts of an index of truth values, from `start` up to, but
/// without, `stop`.
pub fn paginate_bool_index(
    chain: &Chain,
    namespace: &str,
    start: Option<bool>,
    stop: Option<bool>,
    order: Order,
    limit: u32,
    cursor: Option<Cursor>,
) -> (listing: Result<Vec<Cursor>, ContractError>)
    requires
        bytes::fits(namespace@),
    ensures
        lists(
            *chain,
            namespace@,
            KeyKind::U8,
            window::bool_window(start, stop, order, window::cursor_view(cursor)),
            order,
            limit,
            places_view(listing),
        ),
{
    let rows = if let Some((text, id)) = cursor {
        let from = Some(Limit::Exclusive(encode_u8_key(bool_number(is_true(&text)), id)));
        let until = match stop {
            Some(value) => Some(Limit::Exclusive(encode_u8_key(bool_number(value), 0))),
            None => None,
        };
        walk_on(chain, namespace, from, until, order)
    } else {
        let start = match start {
            Some(value) => Some(encode_u8_prefix(bool_number(value))),
            None => None,
        };
        let stop = match stop {
            Some(value) => Some(encode_u8_prefix(bool_number(value))),
            None => None,
        };
        walk_anew(chain, namespace, start, stop, true, order)
    };
    list_rows(rows, KeyKind::U8, limit)
}

/// The number that a truth value is stored as.
fn bool_number(value: bool) -> (number: u8)
    ensures
        number == if value { 1u8 } else { 0u8 },
{
    if value {
        1
    } else {
        0
    }
}

/// The limits that a request sets on texts: where to start, where to stop, and
/// whether the latter stays out.
pub(crate) fn text_limits(equals: Option<String>, between: Option<Between<String>>) -> (limits: (
    Option<String>,
    Option<String>,
    bool,
))
    ensures
        window::text_view(limits.0) == window::start_of(
            window::text_view(equals),
            window::text_between(between),
        ),
        window::text_view(limits.1) == window::stop_of(
            window::text_view(equals),
            window::text_between(between),
        ),
        limits.2 == (equals is None),
{
    if let Some(value) = equals {
        (Some(value.clone()), Some(value), false)
    } else if let Some((lower, upper)) = between {
        (lower, upper, true)
    } else {
        (None, None, true)
    }
}

/// Lists the contracts of an index of texts.
pub fn paginate_str_index(
    chain: &Chain,
    namespace: &str,
    equals: Option<String>,
    between: Option<Between<String>>,
    order: Order,
    limit: u32,
    cursor: Option<Cursor>,
) -> (listing: Result<Vec<Cursor>, ContractError>)
    requires
        bytes::fits(namespace@),
        window::limits_fit(
            window::text_view(equals),
            window::text_between(between),
            window::cursor_view(cursor),
            window::cursor_text(window::cursor_view(cursor)),
        ),
    ensures
        lists(
            *chain,
            namespace@,
            KeyKind::Text,
            window::text_window(
                window::text_view(equals),
                window::text_between(between),
                order,
                window::cursor_view(cursor),
            ),
            order,
            limit,
            places_view(listing),
        ),
{
    let (start, stop, is_exclusive) = text_limits(equals, between);
    let rows = if let Some((text, id)) = cursor {
        let from = Some(Limit::Exclusive(encode_text_key(&text, id)));
        let until = match stop {
            Some(value) => Some(
                if is_exclusive {
                    Limit::Exclusive(encode_text_key(&value, 0))
                } else {
                    Limit::Inclusive(encode_text_key(&value, 0))
                },
            ),
            None => None,
        };
        walk_on(chain, namespace, from, until, order)
    } else {
        let start = match start {
            Some(value) => Some(encode_text_prefix(&value)),
            None => None,
        };
        let stop = match stop {
            Some(value) => Some(encode_text_prefix(&value)),
            None => None,
        };
        walk_anew(chain, namespace, start, stop, is_exclusive, order)
    };
    list_rows(rows, KeyKind::Text, limit)
}

/// Lists the contracts of an index of addresses. `is_address` says whether the
/// text of the cursor is an address.
pub fn paginate_addr_index_from(
    chain: &Chain,
    namespace: &str,
    equals: Option<String>,
    between: Option<Between<String>>,
    order: Order,
    limit: u32,
    cursor: Option<Cursor>,
    is_address: bool,
) -> (listing: Result<Vec<Cursor>, ContractError>)
    requires
        bytes::fits(namespace@),
        window::limits_fit(
            window::text_view(equals),
            window::text_between(between),
            window::cursor_view(cursor),
            window::cursor_address(window::cursor_view(cursor), is_address),
        ),
    ensures
        lists(
            *chain,
            namespace@,
            KeyKind::Text,
            window::address_window(
                window::text_view(equals),
                window::text_between(between),
                order,
                window::cursor_view(cursor),
                is_address,
            ),
            order,
            limit,
            places_view(listing),
        ),
{
    let (start, stop, is_exclusive) = text_limits(equals, between);
    let rows = if let Some((text, id)) = cursor {
        let from = if is_address {
            Some(Limit::Exclusive(encode_text_key(&text, id)))
        } else {
            None
        };
        let until = match stop {
            Some(value) => Some(
                if is_exclusive {
                    Limit::Exclusive(encode_text_key(&value, 0))
                } else {
                    Limit::Inclusive(encode_text_key(&value, 0))
                },
            ),
            None => None,
        };
        walk_on(chain, namespace, from, until, order)
    } else {
        let start = match start {
            Some(value) => Some(encode_text_prefix(&value)),
            None => None,
        };
        let stop = match stop {
            Some(value) => Some(encode_text_prefix(&value)),
            None => None,
        };
        walk_anew(chain, namespace, start, stop, is_exclusive, order)
    };
    list_rows(rows, KeyKind::Text, limit)
}

/// Lists the contracts of an index of addresses.
pub fn paginate_addr_index(
    chain: &Chain,
    namespace: &str,
    equals: Option<String>,
    between: Option<Between<String>>,
    order: Order,
    limit: u32,
    cursor: Option<Cursor>,
) -> (listing: Result<Vec<Cursor>, ContractError>)
    requires
        bytes::fits(namespace@),
        window::limits_fit(
            window::text_view(equals),
            window::text_between(between),
            window::cursor_view(cursor),
            window::cursor_address(
                window::cursor_view(cursor),
                text::at_address(*chain, window::cursor_view(cursor)),
            ),
        ),
    ensures
        lists(
            *chain,
            namespace@,
            KeyKind::Text,
            window::address_window(
                window::text_view(equals),
                window::text_between(between),
                order,
                window::cursor_view(cursor),
                text::at_address(*chain, window::cursor_view(cursor)),
            ),
            order,
            limit,
            places_view(listing),
        ),
{
    let is_address = match &cursor {
        Some((text, _)) => validate_address(chain, text.as_str()).is_some(),
        None => false,
    };
    paginate_addr_index_from(
        chain,
        namespace,
        equals,
        between,
        order,
        limit,
        cursor,
        is_address,
    )
}

/// The number of a contract that a walk in the given order comes to last.
fn farthest_id(order: Order) -> (id: ContractID)
    ensures
        id == window::farthest_id(order),
{
    match order {
        Order::Ascending => ContractID::MAX,
        Order::Descending => ContractID::MIN,
    }
}

/// Lists the contracts that carry a tag.
pub fn read_tags(
    chain: &Chain,
    namespace: &str,
    tag: &String,
    order: Order,
    limit: u32,
    cursor: Option<Cursor>,
) -> (listing: Result<Vec<Cursor>, ContractError>)
    requires
        bytes::fits(namespace@),
        bytes::fits(match cursor {
            Some((tag, _)) => tag@,
            None => tag@,
        }),
    ensures
        lists(
            *chain,
            namespace@,
            KeyKind::Text,
            window::tag_window(tag@, order, window::cursor_view(cursor)),
            order,
            limit,
            places_view(listing),
        ),
{
    let rows = if let Some((tag, id)) = cursor {
        let from = Some(Limit::Exclusive(encode_text_key(&tag, id)));
        let until = Some(Limit::Inclusive(encode_text_key(&tag, farthest_id(order))));
        walk_on(chain, namespace, from, until, order)
    } else {
        let start = Some(encode_text_prefix(tag));
        let stop = Some(encode_text_prefix(tag));
        walk_anew(chain, namespace, start, stop, false, order)
    };
    list_rows(rows, KeyKind::Text, limit)
}

/// Lists the contracts that `subject` has the relationship `name` to.
pub fn read_relationship(
    chain: &Chain,
    namespace: &str,
    subject: &String,
    name: &String,
    order: Order,
    limit: u32,
    cursor: Option<Cursor>,
) -> (listing: Result<Vec<Cursor>, ContractError>)
    requires
        bytes::fits(namespace@),
        bytes::fits(subject@),
        bytes::fits(match cursor {
            Some((name, _)) => name@,
            None => name@,
        }),
    ensures
        lists(
            *chain,
            namespace@,
            KeyKind::Relation,
            window::relation_window(subject@, name@, order, window::cursor_view(cursor)),
            order,
            limit,
            places_view(listing),
        ),
{
    let rows = if let Some((name, id)) = cursor {
        let from = Some(Limit::Exclusive(encode_relation_key(subject, &name, id)));
        let last = encode_relation_key(subject, &name, farthest_id(order));
        walk_on(chain, namespace, from, Some(Limit::Inclusive(last)), order)
    } else {
        let start = Some(encode_relation_prefix(subject, name));
        let stop = Some(encode_relation_prefix(subject, name));
        walk_anew(chain, namespace, start, stop, false, order)
    };
    list_rows(rows, KeyKind::Relation, limit)
}

} // verus!

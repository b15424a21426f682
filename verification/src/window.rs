//! The part of an index that a request asks for.
use vstd::prelude::*;
use vstd::utf8::*;

use crate::bytes;
use crate::bytes::{Edge, Record};
use crate::decimal;
use crate::keys;
use crate::keys::{Cursor, Place};
use crate::text;
use crate::models::{Between, ContractID, Order, Timestamp};

verus! {

/// A range of keys.
#[verifier::ext_equal]
pub struct Window {
    pub lower: Option<Edge>,
    pub upper: Option<Edge>,
}

/// The records of a window, in the given order.
pub open spec fn within(records: Seq<Record>, window: Window, order: Order) -> Seq<Record> {
    bytes::between(records, window.lower, window.upper, order)
}

/// The value to start at: the one asked for, or else the lower limit.
pub open spec fn start_of<V>(equals: Option<V>, between: Option<Between<V>>) -> Option<V> {
    match (equals, between) {
        (Some(value), _) => Some(value),
        (None, Some((lower, _))) => lower,
        (None, None) => None,
    }
}

/// The value to stop at: the one asked for, or else the upper limit. The
/// value asked for belongs to the listing, the upper limit does not.
pub open spec fn stop_of<V>(equals: Option<V>, between: Option<Between<V>>) -> Option<V> {
    match (equals, between) {
        (Some(value), _) => Some(value),
        (None, Some((_, upper))) => upper,
        (None, None) => None,
    }
}

/// The window of the keys from those that begin with `start` to those that
/// begin with `stop`; `exclusive` says whether the latter stay out.
pub open spec fn prefix_window(
    start: Option<Seq<u8>>,
    stop: Option<Seq<u8>>,
    exclusive: bool,
) -> Window {
    Window {
        lower: match start {
            Some(prefix) => Some(Edge::Inclusive(prefix)),
            None => None,
        },
        upper: match stop {
            Some(prefix) => Some(
                Edge::Exclusive(
                    if exclusive {
                        prefix
                    } else {
                        bytes::increment(prefix)
                    },
                ),
            ),
            None => None,
        },
    }
}

/// What the keys under a first component begin with.
pub open spec fn prefix_of(component: Option<Seq<u8>>) -> Option<Seq<u8>> {
    match component {
        Some(component) => Some(bytes::length_prefixed(component)),
        None => None,
    }
}

/// The window of a listing that begins anew. Both limits are first components
/// of keys; `exclusive` says whether `stop` itself stays out.
pub open spec fn fresh_window(
    start: Option<Seq<u8>>,
    stop: Option<Seq<u8>>,
    exclusive: bool,
) -> Window {
    prefix_window(prefix_of(start), prefix_of(stop), exclusive)
}

/// The window between the end where a walk in the given order sets out and
/// the end where it stops.
pub open spec fn directed_window(order: Order, from: Option<Edge>, until: Option<Edge>) -> Window {
    match order {
        Order::Ascending => Window { lower: from, upper: until },
        Order::Descending => Window { lower: until, upper: from },
    }
}

/// The window of a listing that goes on after the key of a cursor. It stops
/// before every key of `stop` if `exclusive`, and else at the key of `stop` and `last_id`.
pub open spec fn resumed_window(
    order: Order,
    from: Option<(Seq<u8>, ContractID)>,
    stop: Option<Seq<u8>>,
    exclusive: bool,
    last_id: ContractID,
) -> Window {
    directed_window(
        order,
        match from {
            Some((first, id)) => Some(Edge::Exclusive(bytes::pair_key(first, id))),
            None => None,
        },
        match stop {
            Some(first) => Some(
                if exclusive {
                    Edge::Exclusive(bytes::pair_key(first, 0))
                } else {
                    Edge::Inclusive(bytes::pair_key(first, last_id))
                },
            ),
            None => None,
        },
    )
}

/// The window of a listing, anew or after a cursor whose key `from` gives.
pub open spec fn listing_window(
    order: Order,
    cursor: Option<Place>,
    from: Option<(Seq<u8>, ContractID)>,
    start: Option<Seq<u8>>,
    stop: Option<Seq<u8>>,
    exclusive: bool,
    last_id: ContractID,
) -> Window {
    match cursor {
        Some(_) => resumed_window(order, from, stop, exclusive, last_id),
        None => fresh_window(start, stop, exclusive),
    }
}

/// The first component of the keys of a `u64` value.
pub open spec fn u64_component(value: Option<u64>) -> Option<Seq<u8>> {
    match value {
        Some(value) => Some(bytes::big_endian(value as nat, 8)),
        None => None,
    }
}

/// The first component of the keys of a `u128` value.
pub open spec fn u128_component(value: Option<u128>) -> Option<Seq<u8>> {
    match value {
        Some(value) => Some(bytes::big_endian(value as nat, 16)),
        None => None,
    }
}

/// The first component of the keys of a truth value.
pub open spec fn bool_component(value: Option<bool>) -> Option<Seq<u8>> {
    match value {
        Some(value) => Some(bytes::big_endian(if value { 1 } else { 0 }, 1)),
        None => None,
    }
}

/// The first component of the keys of a text.
pub open spec fn text_component(text: Option<Seq<char>>) -> Option<Seq<u8>> {
    match text {
        Some(text) => Some(encode_utf8(text)),
        None => None,
    }
}

/// The key after which a listing of an index of numbers of `size` bytes goes
/// on: none if the text of the cursor is no such number.
pub open spec fn number_key(cursor: Option<Place>, max: nat, size: nat) -> Option<
    (Seq<u8>, ContractID),
> {
    match cursor {
        Some((text, id)) => match decimal::parsed(text, max) {
            Some(number) => Some((bytes::big_endian(number, size), id)),
            None => None,
        },
        None => None,
    }
}

/// The window of a listing of an index of `u64` values.
pub open spec fn u64_window(
    equals: Option<u64>,
    between: Option<Between<u64>>,
    order: Order,
    cursor: Option<Place>,
) -> Window {
    listing_window(
        order,
        cursor,
        number_key(cursor, u64::MAX as nat, 8),
        u64_component(start_of(equals, between)),
        u64_component(stop_of(equals, between)),
        equals is None,
        u64::MAX,
    )
}

/// The window of a listing of an index of `u128` values.
pub open spec fn u128_window(
    equals: Option<u128>,
    between: Option<Between<u128>>,
    order: Order,
    cursor: Option<Place>,
) -> Window {
    listing_window(
        order,
        cursor,
        number_key(cursor, u128::MAX as nat, 16),
        u128_component(start_of(equals, between)),
        u128_component(stop_of(equals, between)),
        equals is None,
        u64::MAX,
    )
}

/// A point in time as a number of nanoseconds.
pub open spec fn nanos_view(time: Option<Timestamp>) -> Option<u64> {
    match time {
        Some(time) => Some(time.nanos),
        None => None,
    }
}

/// Limits that are points in time, as numbers of nanoseconds.
pub open spec fn nanos_between(between: Option<Between<Timestamp>>) -> Option<Between<u64>> {
    match between {
        Some((lower, upper)) => Some((nanos_view(lower), nanos_view(upper))),
        None => None,
    }
}

/// A cursor with its text as characters.
pub open spec fn cursor_view(cursor: Option<Cursor>) -> Option<Place> {
    match cursor {
        Some((text, id)) => Some((text@, id)),
        None => None,
    }
}

/// A text as characters.
pub open spec fn text_view(text: Option<String>) -> Option<Seq<char>> {
    match text {
        Some(text) => Some(text@),
        None => None,
    }
}

/// Limits that are texts, as characters.
pub open spec fn text_between(between: Option<Between<String>>) -> Option<
    (Option<Seq<char>>, Option<Seq<char>>),
> {
    match between {
        Some((lower, upper)) => Some((text_view(lower), text_view(upper))),
        None => None,
    }
}

/// Whether a text, if there is one, can be a component of a composite key.
pub open spec fn text_fits(text: Option<Seq<char>>) -> bool {
    match text {
        Some(text) => bytes::fits(text),
        None => true,
    }
}

/// Whether the texts that a listing of an index of texts sets its ends by can
/// be components of keys. `after` is the text that it goes on after, if any.
pub open spec fn limits_fit(
    equals: Option<Seq<char>>,
    between: Option<Between<Seq<char>>>,
    cursor: Option<Place>,
    after: Option<Seq<char>>,
) -> bool {
    &&& text_fits(stop_of(equals, between))
    &&& match cursor {
        Some(_) => text_fits(after),
        None => text_fits(start_of(equals, between)),
    }
}

/// The text of a cursor.
pub open spec fn cursor_text(cursor: Option<Place>) -> Option<Seq<char>> {
    match cursor {
        Some((text, _)) => Some(text),
        None => None,
    }
}

/// The text of a cursor if it is an address.
pub open spec fn cursor_address(cursor: Option<Place>, is_address: bool) -> Option<Seq<char>> {
    if is_address {
        cursor_text(cursor)
    } else {
        None
    }
}

/// The window of a listing of an index of texts.
pub open spec fn text_window(
    equals: Option<Seq<char>>,
    between: Option<Between<Seq<char>>>,
    order: Order,
    cursor: Option<Place>,
) -> Window {
    listing_window(
        order,
        cursor,
        match cursor {
            Some((text, id)) => Some((encode_utf8(text), id)),
            None => None,
        },
        text_component(start_of(equals, between)),
        text_component(stop_of(equals, between)),
        equals is None,
        0,
    )
}

/// The window of a listing of an index of truth values.
pub open spec fn bool_window(
    start: Option<bool>,
    stop: Option<bool>,
    order: Order,
    cursor: Option<Place>,
) -> Window {
    listing_window(
        order,
        cursor,
        match cursor {
            Some((text, id)) => Some(
                (bytes::big_endian(if text::stands_for_false(text) { 0 } else { 1 }, 1), id),
            ),
            None => None,
        },
        bool_component(start),
        bool_component(stop),
        true,
        0,
    )
}

/// The window of a listing of an index of addresses. `is_address` says whether
/// the text of the cursor is an address; if it is none, the listing goes on from the beginning.
pub open spec fn address_window(
    equals: Option<Seq<char>>,
    between: Option<Between<Seq<char>>>,
    order: Order,
    cursor: Option<Place>,
    is_address: bool,
) -> Window {
    listing_window(
        order,
        cursor,
        match cursor {
            Some((text, id)) => if is_address {
                Some((encode_utf8(text), id))
            } else {
                None
            },
            None => None,
        },
        text_component(start_of(equals, between)),
        text_component(stop_of(equals, between)),
        equals is None,
        0,
    )
}

/// The window of a listing of all contracts by address, where the address is
/// the whole key. A cursor that is an address takes the place of the lower limit.
pub open spec fn metadata_window(
    equals: Option<Seq<char>>,
    between: Option<Between<Seq<char>>>,
    order: Order,
    cursor: Option<Place>,
    is_address: bool,
) -> Window {
    directed_window(
        order,
        match (cursor, start_of(equals, between)) {
            (Some((text, _)), start) => if is_address {
                Some(Edge::Inclusive(encode_utf8(text)))
            } else {
                match start {
                    Some(address) => Some(Edge::Inclusive(encode_utf8(address))),
                    None => None,
                }
            },
            (None, Some(address)) => Some(Edge::Inclusive(encode_utf8(address))),
            (None, None) => None,
        },
        match stop_of(equals, between) {
            Some(address) => Some(
                if equals is None {
                    Edge::Exclusive(encode_utf8(address))
                } else {
                    Edge::Inclusive(encode_utf8(address))
                },
            ),
            None => None,
        },
    )
}

/// The window of a listing of the contracts that carry a tag. After a cursor,
/// it is the cursor that names the tag.
pub open spec fn tag_window(tag: Seq<char>, order: Order, cursor: Option<Place>) -> Window {
    match cursor {
        Some((tag, id)) => directed_window(
            order,
            Some(Edge::Exclusive(bytes::pair_key(encode_utf8(tag), id))),
            Some(Edge::Inclusive(bytes::pair_key(encode_utf8(tag), farthest_id(order)))),
        ),
        None => fresh_window(Some(encode_utf8(tag)), Some(encode_utf8(tag)), false),
    }
}

/// The number of a contract that a walk in the given order comes to last.
pub open spec fn farthest_id(order: Order) -> ContractID {
    match order {
        Order::Ascending => ContractID::MAX,
        Order::Descending => ContractID::MIN,
    }
}

/// The window of a listing of the contracts in a relationship. After a cursor,
/// it is the cursor that names the relationship.
pub open spec fn relation_window(
    subject: Seq<char>,
    name: Seq<char>,
    order: Order,
    cursor: Option<Place>,
) -> Window {
    match cursor {
        Some((name, id)) => directed_window(
            order,
            Some(
                Edge::Exclusive(bytes::triple_key(encode_utf8(subject), encode_utf8(name), id)),
            ),
            Some(
                Edge::Inclusive(
                    bytes::triple_key(
                        encode_utf8(subject),
                        encode_utf8(name),
                        farthest_id(order),
                    ),
                ),
            ),
        ),
        None => prefix_window(
            Some(keys::relation_prefix(subject, name)),
            Some(keys::relation_prefix(subject, name)),
            false,
        ),
    }
}

} // verus!

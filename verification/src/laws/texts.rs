//! Listings of texts, of addresses and of tags.
use vstd::prelude::*;
use vstd::utf8::*;

use crate::admission;
use crate::bytes;
use crate::bytes::Record;
use crate::error::Failure;
use crate::keys;
use crate::keys::{KeyKind, Place};
use crate::laws;
use crate::models::{Between, ContractID, Order};
use crate::order;
use crate::pagination;
use crate::scan;
use crate::window;

verus! {

/// The entry that a key of an index of texts stands for.
spec fn text_entry(key: Seq<u8>) -> admission::Entry {
    let parts = keys::text_parts(key)->0;
    (encode_utf8(parts.0), parts.1)
}

/// The keys of an index of texts are those of its entries.
proof fn lemma_text_entries(records: Seq<Record>)
    requires
        laws::well_filed(KeyKind::Text, records),
    ensures
        forall|i: int|
            0 <= i < records.len() ==> {
                let entry = text_entry(#[trigger] records[i].0);
                &&& records[i].0 == bytes::pair_key(entry.0, entry.1)
                &&& entry.0.len() <= bytes::MAX_COMPONENT
            },
{
    assert forall|i: int| 0 <= i < records.len() implies {
        let entry = text_entry(#[trigger] records[i].0);
        &&& records[i].0 == bytes::pair_key(entry.0, entry.1)
        &&& entry.0.len() <= bytes::MAX_COMPONENT
    } by {
        assert(keys::place_of(KeyKind::Text, records[i].0) is Ok);
    }
}

/// A key of an index of texts marks the place of its text and its contract.
pub proof fn text_key_marks_place(place: Place)
    requires
        bytes::fits(place.0),
    ensures
        keys::text_place(keys::text_key(place)) == Ok::<Place, Failure>(place),
{
    let key = keys::text_key(place);
    let read = keys::text_parts(key)->0;
    laws::lemma_splits(encode_utf8(place.0), bytes::big_endian(place.1 as nat, 8));
    assert(key == keys::text_key(read));
    laws::lemma_same_entry((encode_utf8(place.0), place.1), (encode_utf8(read.0), read.1));
    order::lemma_texts_differ(place.0, read.0);
}

/// The order of texts in an index: those with fewer bytes first, and those
/// with equally many by their bytes.
pub open spec fn text_before(a: Seq<char>, b: Seq<char>) -> bool {
    admission::filed_before(encode_utf8(a), encode_utf8(b))
}

/// An index of texts, or of addresses, is listed in the order of the texts,
/// and under one text in the order of the contracts.
pub proof fn text_listing_in_order(a: Place, b: Place, order: Order)
    requires
        bytes::fits(a.0),
        bytes::fits(b.0),
    ensures
        bytes::comes_before(order, keys::text_key(a), keys::text_key(b)) == match order {
            Order::Ascending => text_before(a.0, b.0) || (a.0 == b.0 && a.1 < b.1),
            Order::Descending => text_before(b.0, a.0) || (b.0 == a.0 && b.1 < a.1),
        },
{
    let x = (encode_utf8(a.0), a.1);
    let y = (encode_utf8(b.0), b.1);
    admission::lemma_entry_order(x, y);
    admission::lemma_entry_order(y, x);
    if x.0 == y.0 {
        order::lemma_texts_differ(a.0, b.0);
    }
}

/// Whether a text is asked for: it is the one named by `equals`, or, where
/// none is named, not before the lower limit and before the upper one.
pub open spec fn text_asked_for(
    equals: Option<Seq<char>>,
    between: Option<Between<Seq<char>>>,
    text: Seq<char>,
) -> bool {
    match (equals, between) {
        (Some(wanted), _) => text == wanted,
        (None, Some((lower, upper))) => {
            &&& lower matches Some(lower) ==> !text_before(text, lower)
            &&& upper matches Some(upper) ==> text_before(text, upper)
        },
        (None, None) => true,
    }
}

/// A listing of an index of texts, or of addresses, that begins anew comes to
/// a contract exactly if its text is asked for.
pub proof fn text_listing_selects(
    records: Seq<Record>,
    equals: Option<Seq<char>>,
    between: Option<Between<Seq<char>>>,
    order: Order,
    record: Record,
    place: Place,
)
    requires
        window::text_fits(window::start_of(equals, between)),
        window::text_fits(window::stop_of(equals, between)),
        records.contains(record),
        record.0 == keys::text_key(place),
        bytes::fits(place.0),
    ensures
        window::text_window(equals, between, order, None) == window::address_window(
            equals,
            between,
            order,
            None,
            false,
        ),
        window::within(
            records,
            window::text_window(equals, between, order, None),
            order,
        ).contains(record) == text_asked_for(equals, between, place.0),
{
    let start = window::start_of(equals, between);
    let stop = window::stop_of(equals, between);
    let entry = (encode_utf8(place.0), place.1);
    scan::lemma_comes_to(records, window::text_window(equals, between, order, None), order, record);
    if let Some(text) = stop {
        order::lemma_text_end(text);
        admission::lemma_entries(entry, (encode_utf8(text), 0), entry);
        if encode_utf8(place.0) == encode_utf8(text) {
            order::lemma_texts_differ(place.0, text);
        }
    }
    admission::lemma_admits(
        order,
        None,
        None,
        window::text_component(start),
        window::text_component(stop),
        equals is None,
        0,
        entry,
    );
}

/// Whether a listing of texts goes on where its cursor tells. After a cursor
/// it stops at the upper limit in either order, and at the lowest number of a
/// single text that is asked for.
pub open spec fn texts_go_on(
    order: Order,
    equals: Option<Seq<char>>,
    between: Option<Between<Seq<char>>>,
    cursor: Option<Place>,
) -> bool {
    cursor is Some || match order {
        Order::Ascending => equals is None,
        Order::Descending => equals is Some || (window::start_of(equals, between) is None
            && window::stop_of(equals, between) is None),
    }
}

/// A listing of texts, or of addresses, that goes on after the entry of the
/// cursor of a page lists what that page left to be listed.
proof fn lemma_texts_go_on(
    records: Seq<Record>,
    equals: Option<Seq<char>>,
    between: Option<Between<Seq<char>>>,
    order: Order,
    cursor: Option<Place>,
    from: Option<admission::Entry>,
    limit: u32,
    listing: Seq<Place>,
)
    requires
        laws::well_filed(KeyKind::Text, records),
        texts_go_on(order, equals, between, cursor),
        cursor is None ==> window::text_fits(window::start_of(equals, between)),
        window::text_fits(window::stop_of(equals, between)),
        from matches Some(seen) ==> admission::short(Some(seen.0)),
        laws::is_page(
            KeyKind::Text,
            records,
            window::listing_window(
                order,
                cursor,
                from,
                window::text_component(window::start_of(equals, between)),
                window::text_component(window::stop_of(equals, between)),
                equals is None,
                0,
            ),
            order,
            limit,
            listing,
        ),
    ensures
        laws::is_rest(
            records,
            window::listing_window(
                order,
                cursor,
                from,
                window::text_component(window::start_of(equals, between)),
                window::text_component(window::stop_of(equals, between)),
                equals is None,
                0,
            ),
            window::listing_window(
                order,
                Some(listing.last()),
                Some((encode_utf8(listing.last().0), listing.last().1)),
                window::text_component(window::start_of(equals, between)),
                window::text_component(window::stop_of(equals, between)),
                equals is None,
                0,
            ),
            order,
            listing.len(),
        ),
{
    let start = window::text_component(window::start_of(equals, between));
    let stop = window::text_component(window::stop_of(equals, between));
    let whole = window::listing_window(order, cursor, from, start, stop, equals is None, 0);
    let walk = window::within(records, whole, order);
    let key = walk[listing.len() - 1].0;
    laws::lemma_listed(KeyKind::Text, walk, limit, listing);
    assert(listing.last() == keys::text_parts(key)->0);
    if let Some(text) = window::stop_of(equals, between) {
        order::lemma_text_end(text);
    }
    lemma_text_entries(records);
    admission::lemma_goes_on(
        records,
        |key: Seq<u8>| text_entry(key),
        order,
        cursor,
        from,
        start,
        stop,
        equals is None,
        0,
        listing.last(),
        listing.len() as int,
    );
}

/// A listing of an index of texts that goes on after the cursor of a page
/// lists what that page left of the readable records.
pub proof fn text_listing_goes_on(
    records: Seq<Record>,
    equals: Option<Seq<char>>,
    between: Option<Between<Seq<char>>>,
    order: Order,
    cursor: Option<Place>,
    limit: u32,
    listing: Seq<Place>,
)
    requires
        texts_go_on(order, equals, between, cursor),
        window::limits_fit(equals, between, cursor, window::cursor_text(cursor)),
        laws::is_page(
            KeyKind::Text,
            records,
            window::text_window(equals, between, order, cursor),
            order,
            limit,
            listing,
        ),
    ensures
        laws::is_rest(
            laws::readable(KeyKind::Text, records),
            window::text_window(equals, between, order, cursor),
            window::text_window(equals, between, order, Some(listing.last())),
            order,
            listing.len(),
        ),
{
    let given = records;
    let records = laws::readable(KeyKind::Text, given);
    laws::lemma_readable_page(
        KeyKind::Text,
        given,
        window::text_window(equals, between, order, cursor),
        order,
        limit,
        listing,
    );
    let from = match cursor {
        Some((text, id)) => Some((encode_utf8(text), id)),
        None => None,
    };
    lemma_texts_go_on(records, equals, between, order, cursor, from, limit, listing);
}

/// A listing of a single text in ascending order ends with its first page: no
/// entry comes after a cursor of that text, and a listing that succeeds is empty.
pub proof fn text_listing_of_one_text_ends(
    records: Seq<Record>,
    text: Seq<char>,
    between: Option<Between<Seq<char>>>,
    id: ContractID,
    limit: u32,
)
    requires
        bytes::fits(text),
    ensures
        window::within(
            laws::readable(KeyKind::Text, records),
            window::text_window(Some(text), between, Order::Ascending, Some((text, id))),
            Order::Ascending,
        ).len() == 0,
        pagination::places(
            KeyKind::Text,
            window::within(
                records,
                window::text_window(Some(text), between, Order::Ascending, Some((text, id))),
                Order::Ascending,
            ),
            limit,
        ) matches Ok(listing) ==> listing.len() == 0,
{
    let given = records;
    let records = laws::readable(KeyKind::Text, given);
    laws::lemma_readable(KeyKind::Text, given);
    let window = window::text_window(Some(text), between, Order::Ascending, Some((text, id)));
    let walk = window::within(records, window, Order::Ascending);
    let value = encode_utf8(text);
    let page = pagination::places(
        KeyKind::Text,
        window::within(given, window, Order::Ascending),
        limit,
    );
    if let Ok(listing) = page {
        laws::lemma_readable_places(
            KeyKind::Text,
            given,
            window,
            Order::Ascending,
            limit,
            listing,
        );
        laws::lemma_listed(KeyKind::Text, walk, limit, listing);
    }
    if walk.len() > 0 {
        scan::lemma_walked(records, window, Order::Ascending, 0);
        lemma_text_entries(records);
        let i = choose|i: int| 0 <= i < records.len() && records[i] == walk[0];
        assert(records[i].0 == walk[0].0);
        let entry = text_entry(records[i].0);
        order::lemma_text_end(text);
        admission::lemma_admits(
            Order::Ascending,
            Some((text, id)),
            Some((value, id)),
            Some(value),
            Some(value),
            false,
            0,
            entry,
        );
        admission::lemma_entries((value, id), entry, (value, 0));
        admission::lemma_entries(entry, (value, 0), entry);
    }
}

/// A listing of an index of addresses that goes on after the cursor of a page
/// lists what that page left of the readable records, if the chain takes the
/// text of the cursor for an address.
pub proof fn address_listing_goes_on(
    records: Seq<Record>,
    equals: Option<Seq<char>>,
    between: Option<Between<Seq<char>>>,
    order: Order,
    cursor: Option<Place>,
    is_address: bool,
    limit: u32,
    listing: Seq<Place>,
)
    requires
        texts_go_on(order, equals, between, cursor),
        window::limits_fit(equals, between, cursor, window::cursor_address(cursor, is_address)),
        laws::is_page(
            KeyKind::Text,
            records,
            window::address_window(equals, between, order, cursor, is_address),
            order,
            limit,
            listing,
        ),
    ensures
        laws::is_rest(
            laws::readable(KeyKind::Text, records),
            window::address_window(equals, between, order, cursor, is_address),
            window::address_window(equals, between, order, Some(listing.last()), true),
            order,
            listing.len(),
        ),
{
    let given = records;
    let records = laws::readable(KeyKind::Text, given);
    laws::lemma_readable_page(
        KeyKind::Text,
        given,
        window::address_window(equals, between, order, cursor, is_address),
        order,
        limit,
        listing,
    );
    let from = match cursor {
        Some((text, id)) => if is_address {
            Some((encode_utf8(text), id))
        } else {
            None
        },
        None => None,
    };
    lemma_texts_go_on(records, equals, between, order, cursor, from, limit, listing);
}

/// The window of a listing by tag is that of a listing of one text.
proof fn lemma_tag_window(tag: Seq<char>, order: Order, cursor: Option<Place>)
    ensures
        window::tag_window(tag, order, cursor) == window::listing_window(
            order,
            cursor,
            match cursor {
                Some((text, id)) => Some((encode_utf8(text), id)),
                None => None,
            },
            Some(encode_utf8(laws::text_in_force(tag, cursor))),
            Some(encode_utf8(laws::text_in_force(tag, cursor))),
            false,
            window::farthest_id(order),
        ),
{
}

/// A listing by tag comes to a contract exactly if the contract carries the
/// tag, and its number comes after that of the cursor.
pub proof fn tag_listing_selects(
    records: Seq<Record>,
    tag: Seq<char>,
    order: Order,
    cursor: Option<Place>,
    record: Record,
    place: Place,
)
    requires
        bytes::fits(laws::text_in_force(tag, cursor)),
        records.contains(record),
        record.0 == keys::text_key(place),
        bytes::fits(place.0),
    ensures
        window::within(records, window::tag_window(tag, order, cursor), order).contains(record) == (
        place.0 == laws::text_in_force(tag, cursor) && laws::after_cursor(order, cursor, place.1)),
{
    let entry = (encode_utf8(place.0), place.1);
    let text = laws::text_in_force(tag, cursor);
    let from = match cursor {
        Some((text, id)) => Some((encode_utf8(text), id)),
        None => None,
    };
    scan::lemma_comes_to(records, window::tag_window(tag, order, cursor), order, record);
    lemma_tag_window(tag, order, cursor);
    order::lemma_text_end(text);
    admission::lemma_admits(
        order,
        cursor,
        from,
        Some(encode_utf8(text)),
        Some(encode_utf8(text)),
        false,
        window::farthest_id(order),
        entry,
    );
    admission::lemma_entries(entry, (encode_utf8(text), 0), entry);
    if encode_utf8(place.0) == encode_utf8(text) {
        order::lemma_texts_differ(place.0, text);
    }
}

/// A listing by tag that goes on after the cursor of a page lists what that
/// page left of the readable records.
pub proof fn tag_listing_goes_on(
    records: Seq<Record>,
    tag: Seq<char>,
    order: Order,
    cursor: Option<Place>,
    limit: u32,
    listing: Seq<Place>,
)
    requires
        bytes::fits(laws::text_in_force(tag, cursor)),
        laws::is_page(
            KeyKind::Text,
            records,
            window::tag_window(tag, order, cursor),
            order,
            limit,
            listing,
        ),
    ensures
        listing.last().0 == laws::text_in_force(tag, cursor),
        laws::is_rest(
            laws::readable(KeyKind::Text, records),
            window::tag_window(tag, order, cursor),
            window::tag_window(tag, order, Some(listing.last())),
            order,
            listing.len(),
        ),
{
    let given = records;
    let records = laws::readable(KeyKind::Text, given);
    laws::lemma_readable_page(
        KeyKind::Text,
        given,
        window::tag_window(tag, order, cursor),
        order,
        limit,
        listing,
    );
    let whole = window::tag_window(tag, order, cursor);
    let walk = window::within(records, whole, order);
    let at = listing.len() - 1;
    let text = laws::text_in_force(tag, cursor);
    let from = match cursor {
        Some((text, id)) => Some((encode_utf8(text), id)),
        None => None,
    };
    laws::lemma_listed(KeyKind::Text, walk, limit, listing);
    lemma_text_entries(records);
    scan::lemma_walked(records, whole, order, at);
    let i = choose|i: int| 0 <= i < records.len() && records[i] == walk[at];
    assert(records[i].0 == walk[at].0);
    assert(listing[at] == keys::text_parts(walk[at].0)->0);
    tag_listing_selects(records, tag, order, cursor, walk[at], listing.last());
    lemma_tag_window(tag, order, cursor);
    lemma_tag_window(tag, order, Some(listing.last()));
    order::lemma_text_end(text);
    admission::lemma_goes_on(
        records,
        |key: Seq<u8>| text_entry(key),
        order,
        cursor,
        from,
        Some(encode_utf8(text)),
        Some(encode_utf8(text)),
        false,
        window::farthest_id(order),
        listing.last(),
        listing.len() as int,
    );
}

} // verus!

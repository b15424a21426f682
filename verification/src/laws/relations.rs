//! Listings of relationships.
use vstd::prelude::*;
use vstd::utf8::*;

use crate::admission;
use crate::bytes;
use crate::bytes::Record;
use crate::error::Failure;
use crate::keys;
use crate::keys::{KeyKind, Place};
use crate::laws;
use crate::models::{ContractID, Order};
use crate::order;
use crate::scan;
use crate::window;

verus! {

/// The leading components of keys of relationships are equal or diverge.
proof fn lemma_relation_prefixes(s: Seq<char>, n: Seq<char>, t: Seq<char>, m: Seq<char>)
    requires
        bytes::fits(s),
        bytes::fits(n),
        bytes::fits(t),
        bytes::fits(m),
    ensures
        (keys::relation_prefix(s, n) == keys::relation_prefix(t, m)) == (s == t && n == m),
        s == t && n == m || order::diverge(
            keys::relation_prefix(s, n),
            keys::relation_prefix(t, m),
        ),
{
    let (a, b) = (encode_utf8(s), encode_utf8(n));
    let (c, d) = (encode_utf8(t), encode_utf8(m));
    let (p, q) = (bytes::length_prefixed(a), bytes::length_prefixed(c));
    let (x, y) = (bytes::length_prefixed(b), bytes::length_prefixed(d));
    order::lemma_length_prefixed(a, c);
    order::lemma_length_prefixed(b, d);
    if a != c {
        order::lemma_diverged(p, q, x, y);
    } else {
        order::lemma_texts_differ(s, t);
        if b != d {
            let i = choose|i: int|
                0 <= i < x.len() && i < y.len() && #[trigger] x[i] != #[trigger] y[i];
            assert((p + x)[p.len() + i] != (q + y)[p.len() + i]);
        } else {
            order::lemma_texts_differ(n, m);
        }
    }
}

/// The key of a relationship is read as its subject, its name and its contract.
pub proof fn lemma_relation_parts(parts: (Seq<char>, Seq<char>, ContractID))
    requires
        bytes::fits(parts.0),
        bytes::fits(parts.1),
    ensures
        keys::triple_splits(keys::relation_key(parts)),
        keys::relation_parts(keys::relation_key(parts)) == Some(parts),
{
    let key = keys::relation_key(parts);
    let read = keys::relation_parts(key)->0;
    let tail = bytes::big_endian(parts.2 as nat, 8);
    let rest = bytes::length_prefixed(encode_utf8(parts.1)) + tail;
    let g = keys::relation_prefix(parts.0, parts.1);
    let h = keys::relation_prefix(read.0, read.1);
    assert(key =~= bytes::length_prefixed(encode_utf8(parts.0)) + rest);
    laws::lemma_splits(encode_utf8(parts.0), rest);
    laws::lemma_splits(encode_utf8(parts.1), tail);
    assert(key == keys::relation_key(read));
    lemma_relation_prefixes(parts.0, parts.1, read.0, read.1);
    order::lemma_key_order(g, parts.2, h, read.2);
    order::lemma_total(g, h);
    if g != h {
        order::lemma_diverged(g, h, tail, bytes::big_endian(read.2 as nat, 8));
        let other = h + bytes::big_endian(read.2 as nat, 8);
        let i = choose|i: int|
            0 <= i < key.len() && i < other.len() && #[trigger] key[i] != #[trigger] other[i];
        assert(key == other);
    }
    order::lemma_irreflexive(key);
    order::lemma_key_order(h, read.2, g, parts.2);
}

/// A key of a relationship marks the place of its name and its contract.
pub proof fn relation_key_marks_place(parts: (Seq<char>, Seq<char>, ContractID))
    requires
        bytes::fits(parts.0),
        bytes::fits(parts.1),
    ensures
        keys::relation_place(keys::relation_key(parts)) == Ok::<Place, Failure>((parts.1, parts.2)),
{
    lemma_relation_parts(parts);
}

/// What the window of a listing of a relationship lets in.
pub proof fn lemma_relation_inside(
    subject: Seq<char>,
    name: Seq<char>,
    order: Order,
    cursor: Option<Place>,
    parts: (Seq<char>, Seq<char>, ContractID),
)
    requires
        bytes::fits(subject),
        bytes::fits(laws::text_in_force(name, cursor)),
        bytes::fits(parts.0),
        bytes::fits(parts.1),
    ensures
        scan::inside(
            window::relation_window(subject, name, order, cursor),
            keys::relation_key(parts),
        ) == (parts.0 == subject && parts.1 == laws::text_in_force(name, cursor) && laws::after_cursor(
            order,
            cursor,
            parts.2,
        )),
{
    let named = laws::text_in_force(name, cursor);
    let g = keys::relation_prefix(subject, named);
    let h = keys::relation_prefix(parts.0, parts.1);
    let tail = bytes::big_endian(parts.2 as nat, 8);
    lemma_relation_prefixes(subject, named, parts.0, parts.1);
    lemma_relation_prefixes(parts.0, parts.1, subject, named);
    order::lemma_total(g, h);
    assert(keys::relation_key(parts) == h + tail);
    match cursor {
        None => {
            let last = bytes::length_prefixed(encode_utf8(named));
            order::lemma_text_end(named);
            admission::lemma_steady(encode_utf8(named));
            assert(g.last() == last.last());
            order::lemma_key_order(h, parts.2, g, 0);
            order::lemma_increment_head(g, h, tail);
        },
        Some((_, seen)) => {
            order::lemma_key_order(h, parts.2, g, seen);
            order::lemma_key_order(g, seen, h, parts.2);
            order::lemma_key_order(h, parts.2, g, window::farthest_id(order));
            order::lemma_key_order(g, window::farthest_id(order), h, parts.2);
        },
    }
}

/// A listing of a relationship comes to a contract exactly if the contract is
/// in the relationship, and its number comes after that of the cursor.
pub proof fn relation_listing_selects(
    records: Seq<Record>,
    subject: Seq<char>,
    name: Seq<char>,
    order: Order,
    cursor: Option<Place>,
    record: Record,
    parts: (Seq<char>, Seq<char>, ContractID),
)
    requires
        bytes::fits(subject),
        bytes::fits(laws::text_in_force(name, cursor)),
        records.contains(record),
        record.0 == keys::relation_key(parts),
        bytes::fits(parts.0),
        bytes::fits(parts.1),
    ensures
        window::within(
            records,
            window::relation_window(subject, name, order, cursor),
            order,
        ).contains(record) == (parts.0 == subject && parts.1 == laws::text_in_force(name, cursor)
            && laws::after_cursor(order, cursor, parts.2)),
{
    let window = window::relation_window(subject, name, order, cursor);
    scan::lemma_comes_to(records, window, order, record);
    lemma_relation_inside(subject, name, order, cursor, parts);
}

/// A listing of a relationship that goes on after the cursor of a page lists
/// what that page left of the readable records.
pub proof fn relation_listing_goes_on(
    records: Seq<Record>,
    subject: Seq<char>,
    name: Seq<char>,
    order: Order,
    cursor: Option<Place>,
    limit: u32,
    listing: Seq<Place>,
)
    requires
        bytes::fits(subject),
        bytes::fits(laws::text_in_force(name, cursor)),
        laws::is_page(
            KeyKind::Relation,
            records,
            window::relation_window(subject, name, order, cursor),
            order,
            limit,
            listing,
        ),
    ensures
        listing.last().0 == laws::text_in_force(name, cursor),
        laws::is_rest(
            laws::readable(KeyKind::Relation, records),
            window::relation_window(subject, name, order, cursor),
            window::relation_window(subject, name, order, Some(listing.last())),
            order,
            listing.len(),
        ),
{
    let given = records;
    let records = laws::readable(KeyKind::Relation, given);
    laws::lemma_readable_page(
        KeyKind::Relation,
        given,
        window::relation_window(subject, name, order, cursor),
        order,
        limit,
        listing,
    );
    let whole = window::relation_window(subject, name, order, cursor);
    let next = listing.last();
    let part = window::relation_window(subject, name, order, Some(next));
    let walk = window::within(records, whole, order);
    let keys = bytes::keys_of(walk);
    let count = listing.len() as int;
    let key = walk[count - 1].0;
    let seen = keys::relation_parts(key)->0;
    laws::lemma_listed(KeyKind::Relation, walk, limit, listing);
    scan::lemma_walked(records, whole, order, count - 1);
    assert(listing[count - 1] == (seen.1, seen.2));
    lemma_relation_inside(subject, name, order, cursor, seen);
    let behind = |other: Seq<u8>| bytes::comes_before(order, key, other);
    assert forall|i: int| 0 <= i < records.len() implies scan::inside(part, #[trigger] records[i].0)
        == (scan::inside(whole, records[i].0) && behind(records[i].0)) by {
        assert(keys::place_of(KeyKind::Relation, records[i].0) is Ok);
        let parts = keys::relation_parts(records[i].0)->0;
        lemma_relation_inside(subject, name, order, cursor, parts);
        lemma_relation_inside(subject, name, order, Some(next), parts);
        if parts.0 == subject && parts.1 == seen.1 {
            let head = keys::relation_prefix(subject, seen.1);
            order::lemma_key_order(head, seen.2, head, parts.2);
            order::lemma_key_order(head, parts.2, head, seen.2);
            order::lemma_irreflexive(head);
        }
    }
    assert forall|i: int| 0 <= i < walk.len() implies behind(#[trigger] walk[i].0) == (count
        <= i) by {
        assert(keys[i] == walk[i].0 && keys[count - 1] == key);
        scan::lemma_behind(keys, order, count - 1, i);
    }
    scan::lemma_rest_of_walk(records, whole, part, order, behind, count);
}

} // verus!

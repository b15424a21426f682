//! What a read of an index of texts or addresses, of a tag or of a
//! relationship lists.
use cosmwasm_std::StdError;
use vstd::prelude::*;
use vstd::utf8::*;

use crate::admission;
use crate::bytes;
use crate::bytes::Record;
use crate::error::Failure;
use crate::keys;
use crate::keys::{KeyKind, Place};
use crate::laws::listing;
use crate::laws::relations;
use crate::laws::texts;
use crate::layout::Layout;
use crate::models::{Between, ContractID, ContractMetadata, IndexBounds, Order};
use crate::order;
use crate::pagination;
use crate::read;
use crate::read::Target;
use crate::scan;
use crate::store;
use crate::store::Chain;
use crate::text;
use crate::window;
use crate::window::Window;

verus! {

/// The characters of a text, if there is one.
pub open spec fn chars_of(text: Option<String>) -> Option<Seq<char>> {
    match text {
        Some(text) => Some(text@),
        None => None,
    }
}

/// The characters of limits that are texts.
pub open spec fn chars_between(between: Option<Between<String>>) -> Option<Between<Seq<char>>> {
    match between {
        Some((lower, upper)) => Some((chars_of(lower), chars_of(upper))),
        None => None,
    }
}

/// The order of texts: those with fewer bytes first, and those with equally
/// many by their bytes.
pub open spec fn is_lower(a: Seq<char>, b: Seq<char>) -> bool {
    let (x, y) = (encode_utf8(a), encode_utf8(b));
    x.len() < y.len() || (x.len() == y.len() && bytes::precedes(x, y))
}

/// Whether a text is wanted. A listing that begins anew wants the text that is
/// named, or else those from the lower limit up to, but without, the upper
/// one. A listing that goes on wants what comes after the cursor, if the
/// cursor `counts`, as far as the named text, or else the upper limit, lets it go.
pub open spec fn text_wanted(
    equals: Option<Seq<char>>,
    between: Option<Between<Seq<char>>>,
    order: Order,
    cursor: Option<Place>,
    counts: bool,
    text: Seq<char>,
    id: ContractID,
) -> bool {
    match cursor {
        None => match (equals, between) {
            (Some(named), _) => text == named,
            (None, Some((lower, upper))) => {
                &&& lower matches Some(lower) ==> !is_lower(text, lower)
                &&& upper matches Some(upper) ==> is_lower(text, upper)
            },
            (None, None) => true,
        },
        Some((last, seen)) => {
            &&& counts ==> match order {
                Order::Ascending => is_lower(last, text) || (last == text && seen < id),
                Order::Descending => is_lower(text, last) || (text == last && id < seen),
            }
            &&& match (equals, between, order) {
                (Some(named), _, Order::Ascending) => is_lower(text, named) || (text == named && id
                    == 0),
                (Some(named), _, Order::Descending) => !is_lower(text, named),
                (None, Some((_, Some(upper))), Order::Ascending) => is_lower(text, upper),
                (None, Some((_, Some(upper))), Order::Descending) => is_lower(upper, text) || (upper
                    == text && id > 0),
                _ => true,
            }
        },
    }
}

/// The order in which a listing of texts comes to two of them.
pub open spec fn text_before(order: Order, a: Place, b: Place) -> bool {
    match order {
        Order::Ascending => is_lower(a.0, b.0) || (a.0 == b.0 && a.1 < b.1),
        Order::Descending => is_lower(b.0, a.0) || (b.0 == a.0 && b.1 < a.1),
    }
}

/// Whether the texts that a listing begins and stops at can be in keys.
pub open spec fn ends_fit(
    equals: Option<Seq<char>>,
    between: Option<Between<Seq<char>>>,
    cursor: Option<Place>,
    counts: bool,
) -> bool {
    &&& match (equals, between) {
        (Some(named), _) => bytes::fits(named),
        (None, Some((lower, upper))) => {
            &&& cursor is None ==> (lower matches Some(text) ==> bytes::fits(text))
            &&& upper matches Some(text) ==> bytes::fits(text)
        },
        (None, None) => true,
    }
    &&& cursor matches Some((last, _)) ==> counts ==> bytes::fits(last)
}

/// Whether `outcome` is the listing of what is wanted of an index of texts.
pub open spec fn lists_texts(
    records: Seq<Record>,
    wanted: spec_fn(Place) -> bool,
    before: spec_fn(Place, Place) -> bool,
    order: Order,
    limit: u32,
    outcome: Result<Seq<Place>, Failure>,
) -> bool {
    listing::lists(
        records,
        |entry: Place| keys::text_key(entry),
        |entry: Place| bytes::fits(entry.0),
        |entry: Place| entry,
        |key: Seq<u8>| keys::pair_splits(key),
        |key: Seq<u8>| keys::text_key_error(key),
        wanted,
        before,
        order,
        limit,
        outcome,
    )
}

/// The places within a window of an index of texts are its listing.
proof fn lemma_lists_texts(
    records: Seq<Record>,
    window: Window,
    wanted: spec_fn(Place) -> bool,
    before: spec_fn(Place, Place) -> bool,
    order: Order,
    limit: u32,
    outcome: Result<Seq<Place>, Failure>,
)
    requires
        bytes::sorted(bytes::keys_of(window::within(records, window, order)), order),
        outcome == pagination::places(KeyKind::Text, window::within(records, window, order), limit),
        forall|entry: Place|
            bytes::fits(entry.0) ==> scan::inside(window, #[trigger] keys::text_key(entry))
                == wanted(entry),
        forall|a: Place, b: Place|
            bytes::fits(a.0) && wanted(a) && bytes::fits(b.0) && wanted(b) ==> bytes::comes_before(
                order,
                #[trigger] keys::text_key(a),
                #[trigger] keys::text_key(b),
            ) == before(a, b),
    ensures
        lists_texts(records, wanted, before, order, limit, outcome),
{
    let key = |entry: Place| keys::text_key(entry);
    let entry_of = |key: Seq<u8>| keys::text_parts(key)->0;
    let can_file = |entry: Place| bytes::fits(entry.0);
    let place = |entry: Place| entry;
    assert forall|k: Seq<u8>| #[trigger]
        keys::place_of(KeyKind::Text, k) == (if !keys::pair_splits(k) {
            Err(Failure::MalformedKey(k))
        } else if exists|entry: Place| can_file(entry) && #[trigger] key(entry) == k {
            Ok(place(entry_of(k)))
        } else {
            Err(Failure::Std(keys::text_key_error(k)))
        }) by {
        if exists|entry: Place| can_file(entry) && #[trigger] key(entry) == k {
            let entry = choose|entry: Place| can_file(entry) && #[trigger] key(entry) == k;
            assert(bytes::fits(entry.0) && k == keys::text_key(entry));
        }
        if keys::text_parts(k) is Some {
            let entry = keys::text_parts(k)->0;
            assert(key(entry) == k && can_file(entry));
        }
    }
    assert forall|entry: Place| can_file(entry) implies keys::pair_splits(#[trigger] key(entry))
        && entry_of(key(entry)) == entry by {
        texts::text_key_marks_place(entry);
    }
    assert forall|entry: Place| can_file(entry) implies scan::inside(window, #[trigger] key(entry))
        == wanted(entry) by {
        assert(scan::inside(window, keys::text_key(entry)) == wanted(entry));
    }
    assert forall|a: Place, b: Place|
        can_file(a) && wanted(a) && can_file(b) && wanted(b) implies bytes::comes_before(
        order,
        #[trigger] key(a),
        #[trigger] key(b),
    ) == before(a, b) by {
        assert(bytes::comes_before(order, keys::text_key(a), keys::text_key(b)) == before(a, b));
    }
    listing::lemma_lists(
        KeyKind::Text,
        records,
        window,
        key,
        entry_of,
        can_file,
        place,
        |key: Seq<u8>| keys::pair_splits(key),
        |key: Seq<u8>| keys::text_key_error(key),
        wanted,
        before,
        order,
        limit,
        outcome,
    );
}

/// The window of an index of addresses, which is that of an index of texts
/// where the cursor `counts`, lets in exactly what is wanted.
pub proof fn window_of_texts_lets_in_the_wanted(
    equals: Option<Seq<char>>,
    between: Option<Between<Seq<char>>>,
    order: Order,
    cursor: Option<Place>,
    counts: bool,
    entry: Place,
)
    requires
        ends_fit(equals, between, cursor, counts),
        bytes::fits(entry.0),
    ensures
        counts ==> window::text_window(equals, between, order, cursor) == window::address_window(
            equals,
            between,
            order,
            cursor,
            counts,
        ),
        scan::inside(
            window::address_window(equals, between, order, cursor, counts),
            keys::text_key(entry),
        ) == text_wanted(equals, between, order, cursor, counts, entry.0, entry.1),
{
    let start = window::start_of(equals, between);
    let stop = window::stop_of(equals, between);
    let filed = (encode_utf8(entry.0), entry.1);
    if let Some(text) = stop {
        let end = (encode_utf8(text), 0);
        order::lemma_text_end(text);
        admission::lemma_entries(filed, end, filed);
        admission::lemma_entries(end, filed, end);
        if encode_utf8(entry.0) == encode_utf8(text) {
            order::lemma_texts_differ(entry.0, text);
        }
    }
    if let Some((last, seen)) = cursor {
        if encode_utf8(entry.0) == encode_utf8(last) {
            order::lemma_texts_differ(entry.0, last);
        }
    }
    admission::lemma_admits(
        order,
        cursor,
        match cursor {
            Some((text, id)) => if counts {
                Some((encode_utf8(text), id))
            } else {
                None
            },
            None => None,
        },
        window::text_component(start),
        window::text_component(stop),
        equals is None,
        0,
        filed,
    );
}

/// The places within a window of an index of texts, or of addresses, are what is wanted of it.
proof fn lemma_lists_wanted(
    records: Seq<Record>,
    equals: Option<Seq<char>>,
    between: Option<Between<Seq<char>>>,
    order: Order,
    limit: u32,
    cursor: Option<Place>,
    counts: bool,
    outcome: Result<Seq<Place>, Failure>,
)
    requires
        ends_fit(equals, between, cursor, counts),
        ({
            let window = window::address_window(equals, between, order, cursor, counts);
            &&& bytes::sorted(bytes::keys_of(window::within(records, window, order)), order)
            &&& outcome == pagination::places(
                KeyKind::Text,
                window::within(records, window, order),
                limit,
            )
        }),
    ensures
        lists_texts(
            records,
            |entry: Place|
                text_wanted(equals, between, order, cursor, counts, entry.0, entry.1),
            |a: Place, b: Place| text_before(order, a, b),
            order,
            limit,
            outcome,
        ),
{
    let window = window::address_window(equals, between, order, cursor, counts);
    let wanted = |entry: Place|
        text_wanted(equals, between, order, cursor, counts, entry.0, entry.1);
    let before = |a: Place, b: Place| text_before(order, a, b);
    assert forall|entry: Place| bytes::fits(entry.0) implies scan::inside(
        window,
        #[trigger] keys::text_key(entry),
    ) == wanted(entry) by {
        window_of_texts_lets_in_the_wanted(equals, between, order, cursor, counts, entry);
    }
    assert forall|a: Place, b: Place|
        bytes::fits(a.0) && wanted(a) && bytes::fits(b.0) && wanted(b) implies bytes::comes_before(
        order,
        #[trigger] keys::text_key(a),
        #[trigger] keys::text_key(b),
    ) == before(a, b) by {
        texts::text_listing_in_order(a, b, order);
    }
    lemma_lists_texts(records, window, wanted, before, order, limit, outcome);
}

/// A read of an index of texts lists exactly what is wanted of its records, in
/// order and up to the limit; where no index stands at the slot, it fails.
pub proof fn text_index_lists<P>(
    chain: Chain,
    layout: Layout,
    parse: P,
    slot: u8,
    equals: Option<String>,
    between: Option<Between<String>>,
    order: Order,
    limit: u32,
    cursor: Option<Place>,
    outcome: Result<Seq<Place>, Failure>,
) where P: Fn(Vec<u8>) -> Result<ContractMetadata, StdError>
    requires
        ends_fit(chars_of(equals), chars_between(between), cursor, true),
        read::can_list(
            chain,
            layout,
            parse,
            Target::Index(IndexBounds::Text { slot, equals, between }),
            order,
            limit,
            cursor,
            outcome,
        ),
    ensures
        slot >= layout.text_indices@.len() ==> outcome == Err::<Seq<Place>, Failure>(
            Failure::IndexNotFound(slot),
        ),
        slot < layout.text_indices@.len() ==> lists_texts(
            store::records(chain, layout.text_indices@[slot as int]@),
            |entry: Place|
                text_wanted(
                    chars_of(equals),
                    chars_between(between),
                    order,
                    cursor,
                    true,
                    entry.0,
                    entry.1,
                ),
            |a: Place, b: Place| text_before(order, a, b),
            order,
            limit,
            outcome,
        ),
{
    if slot < layout.text_indices@.len() {
        let (named, limits) = (chars_of(equals), chars_between(between));
        let records = store::records(chain, layout.text_indices@[slot as int]@);
        assert(window::text_window(named, limits, order, cursor) == window::address_window(
            named,
            limits,
            order,
            cursor,
            true,
        ));
        lemma_lists_wanted(records, named, limits, order, limit, cursor, true, outcome);
    }
}

/// A read of the index of creators lists exactly what is wanted of its records, in
/// order and up to the limit. The text of a cursor counts if
/// the chain takes it for an address.
pub proof fn created_by_index_lists<P>(
    chain: Chain,
    layout: Layout,
    parse: P,
    equals: Option<String>,
    between: Option<Between<String>>,
    order: Order,
    limit: u32,
    cursor: Option<Place>,
    outcome: Result<Seq<Place>, Failure>,
) where P: Fn(Vec<u8>) -> Result<ContractMetadata, StdError>
    requires
        ends_fit(
            chars_of(equals),
            chars_between(between),
            cursor,
            cursor is Some && text::is_address(chain, (cursor->0).0),
        ),
        read::can_list(
            chain,
            layout,
            parse,
            Target::Index(IndexBounds::CreatedBy { equals, between }),
            order,
            limit,
            cursor,
            outcome,
        ),
    ensures
        lists_texts(
            store::records(chain, layout.ix_created_by@),
            |entry: Place|
                text_wanted(
                    chars_of(equals),
                    chars_between(between),
                    order,
                    cursor,
                    cursor is Some && text::is_address(chain, (cursor->0).0),
                    entry.0,
                    entry.1,
                ),
            |a: Place, b: Place| text_before(order, a, b),
            order,
            limit,
            outcome,
        ),
{
    let (named, limits) = (chars_of(equals), chars_between(between));
    let records = store::records(chain, layout.ix_created_by@);
    let counts = cursor is Some && text::is_address(chain, (cursor->0).0);
    lemma_lists_wanted(records, named, limits, order, limit, cursor, counts, outcome);
}

/// Whether a contract that carries `carried` is wanted where `tag` is asked
/// for: it carries the tag of the cursor, or else the one asked for, and its
/// number comes after that of the cursor.
pub open spec fn tag_wanted(
    tag: Seq<char>,
    order: Order,
    cursor: Option<Place>,
    carried: Seq<char>,
    id: ContractID,
) -> bool {
    match (cursor, order) {
        (None, _) => carried == tag,
        (Some((text, seen)), Order::Ascending) => carried == text && seen < id,
        (Some((text, seen)), Order::Descending) => carried == text && id < seen,
    }
}

/// The order in which a listing comes to two contracts under one text.
pub open spec fn number_before(order: Order, a: ContractID, b: ContractID) -> bool {
    match order {
        Order::Ascending => a < b,
        Order::Descending => b < a,
    }
}

/// The text that a cursor, if there is one, puts in the place of the one asked for.
pub open spec fn in_force(asked: Seq<char>, cursor: Option<Place>) -> Seq<char> {
    match cursor {
        Some((text, _)) => text,
        None => asked,
    }
}

/// A read of a tag lists exactly the contracts that carry the tag in force and
/// come after the cursor, in order and up to the limit.
pub proof fn tag_lists<P>(
    chain: Chain,
    layout: Layout,
    parse: P,
    tag: String,
    order: Order,
    limit: u32,
    cursor: Option<Place>,
    outcome: Result<Seq<Place>, Failure>,
) where P: Fn(Vec<u8>) -> Result<ContractMetadata, StdError>
    requires
        bytes::fits(in_force(tag@, cursor)),
        read::can_list(
            chain,
            layout,
            parse,
            Target::Tag(tag),
            order,
            limit,
            cursor,
            outcome,
        ),
    ensures
        lists_texts(
            store::records(chain, layout.tagged_contract_ids@),
            |entry: Place| tag_wanted(tag@, order, cursor, entry.0, entry.1),
            |a: Place, b: Place| number_before(order, a.1, b.1),
            order,
            limit,
            outcome,
        ),
{
    let records = store::records(chain, layout.tagged_contract_ids@);
    let window = window::tag_window(tag@, order, cursor);
    let wanted = |entry: Place| tag_wanted(tag@, order, cursor, entry.0, entry.1);
    let before = |a: Place, b: Place| number_before(order, a.1, b.1);
    assert forall|entry: Place| bytes::fits(entry.0) implies scan::inside(
        window,
        #[trigger] keys::text_key(entry),
    ) == wanted(entry) by {
        let record: Record = (keys::text_key(entry), Seq::empty());
        assert(seq![record][0] == record);
        texts::tag_listing_selects(seq![record], tag@, order, cursor, record, entry);
        scan::lemma_comes_to(seq![record], window, order, record);
    }
    assert forall|a: Place, b: Place|
        bytes::fits(a.0) && wanted(a) && bytes::fits(b.0) && wanted(b) implies bytes::comes_before(
        order,
        #[trigger] keys::text_key(a),
        #[trigger] keys::text_key(b),
    ) == before(a, b) by {
        texts::text_listing_in_order(a, b, order);
        order::lemma_irreflexive(encode_utf8(a.0));
    }
    lemma_lists_texts(records, window, wanted, before, order, limit, outcome);
}

/// An entry of a relationship: its subject, its name and a contract in it.
pub type Relation = (Seq<char>, Seq<char>, ContractID);

/// Whether `outcome` is the listing of what is wanted of the relationships.
pub open spec fn lists_relations(
    records: Seq<Record>,
    wanted: spec_fn(Relation) -> bool,
    before: spec_fn(Relation, Relation) -> bool,
    order: Order,
    limit: u32,
    outcome: Result<Seq<Place>, Failure>,
) -> bool {
    listing::lists(
        records,
        |entry: Relation| keys::relation_key(entry),
        |entry: Relation| bytes::fits(entry.0) && bytes::fits(entry.1),
        |entry: Relation| (entry.1, entry.2),
        |key: Seq<u8>| keys::triple_splits(key),
        |key: Seq<u8>| keys::relation_key_error(key),
        wanted,
        before,
        order,
        limit,
        outcome,
    )
}

/// Two contracts of one relationship are filed in the order of their numbers.
proof fn lemma_relation_order(a: Relation, b: Relation, order: Order)
    requires
        a.0 == b.0,
        a.1 == b.1,
    ensures
        bytes::comes_before(order, keys::relation_key(a), keys::relation_key(b)) == number_before(
            order,
            a.2,
            b.2,
        ),
{
    let head = keys::relation_prefix(a.0, a.1);
    order::lemma_key_order(head, a.2, head, b.2);
    order::lemma_key_order(head, b.2, head, a.2);
    order::lemma_irreflexive(head);
}

/// A read of a relationship lists exactly the contracts that are in it under
/// the subject asked for, and under the name of the cursor, or else the one
/// asked for, and that come after the cursor, in order and up to the limit.
pub proof fn relationship_lists<P>(
    chain: Chain,
    layout: Layout,
    parse: P,
    subject: String,
    name: String,
    order: Order,
    limit: u32,
    cursor: Option<Place>,
    outcome: Result<Seq<Place>, Failure>,
) where P: Fn(Vec<u8>) -> Result<ContractMetadata, StdError>
    requires
        bytes::fits(subject@),
        bytes::fits(in_force(name@, cursor)),
        read::can_list(
            chain,
            layout,
            parse,
            Target::Relationship((subject, name)),
            order,
            limit,
            cursor,
            outcome,
        ),
    ensures
        lists_relations(
            store::records(chain, layout.relationships@),
            |entry: Relation|
                entry.0 == subject@ && tag_wanted(name@, order, cursor, entry.1, entry.2),
            |a: Relation, b: Relation| number_before(order, a.2, b.2),
            order,
            limit,
            outcome,
        ),
{
    let records = store::records(chain, layout.relationships@);
    let window = window::relation_window(subject@, name@, order, cursor);
    let key = |entry: Relation| keys::relation_key(entry);
    let entry_of = |key: Seq<u8>| keys::relation_parts(key)->0;
    let can_file = |entry: Relation| bytes::fits(entry.0) && bytes::fits(entry.1);
    let place = |entry: Relation| (entry.1, entry.2);
    let wanted = |entry: Relation|
        entry.0 == subject@ && tag_wanted(name@, order, cursor, entry.1, entry.2);
    let before = |a: Relation, b: Relation| number_before(order, a.2, b.2);
    assert forall|k: Seq<u8>| #[trigger]
        keys::place_of(KeyKind::Relation, k) == (if !keys::triple_splits(k) {
            Err(Failure::MalformedKey(k))
        } else if exists|entry: Relation| can_file(entry) && #[trigger] key(entry) == k {
            Ok(place(entry_of(k)))
        } else {
            Err(Failure::Std(keys::relation_key_error(k)))
        }) by {
        if exists|entry: Relation| can_file(entry) && #[trigger] key(entry) == k {
            let entry = choose|entry: Relation| can_file(entry) && #[trigger] key(entry) == k;
            assert(bytes::fits(entry.0) && bytes::fits(entry.1) && k == keys::relation_key(entry));
        }
        if keys::relation_parts(k) is Some {
            let entry = keys::relation_parts(k)->0;
            assert(key(entry) == k && can_file(entry));
        }
    }
    assert forall|entry: Relation| can_file(entry) implies keys::triple_splits(
        #[trigger] key(entry),
    ) && entry_of(key(entry)) == entry by {
        relations::lemma_relation_parts(entry);
    }
    assert forall|entry: Relation| can_file(entry) implies scan::inside(
        window,
        #[trigger] key(entry),
    ) == wanted(entry) by {
        relations::lemma_relation_inside(subject@, name@, order, cursor, entry);
    }
    assert forall|a: Relation, b: Relation|
        can_file(a) && wanted(a) && can_file(b) && wanted(b) implies bytes::comes_before(
        order,
        #[trigger] key(a),
        #[trigger] key(b),
    ) == before(a, b) by {
        lemma_relation_order(a, b, order);
    }
    listing::lemma_lists(
        KeyKind::Relation,
        records,
        window,
        key,
        entry_of,
        can_file,
        place,
        |key: Seq<u8>| keys::triple_splits(key),
        |key: Seq<u8>| keys::relation_key_error(key),
        wanted,
        before,
        order,
        limit,
        outcome,
    );
}

} // verus!

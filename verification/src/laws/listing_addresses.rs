//! What a read of all contracts by address lists, and what following its
//! cursors comes to.
use cosmwasm_std::StdError;
use vstd::prelude::*;
use vstd::utf8::*;

use crate::bytes;
use crate::bytes::Record;
use crate::error::Failure;
use crate::keys;
use crate::keys::Place;
use crate::laws;
use crate::laws::listing;
use crate::laws::listing_texts;
use crate::layout::Layout;
use crate::metadata;
use crate::models::{Between, ContractMetadata, IndexBounds, MetadataView, Order};
use crate::order;
use crate::pagination;
use crate::read;
use crate::read::Target;
use crate::scan;
use crate::store;
use crate::store::Chain;
use crate::text;
use crate::window;
use crate::window::Window;

verus! {

/// Whether a walk in the given order comes to the address `a` before it comes to `b`.
pub open spec fn address_before(order: Order, a: Seq<char>, b: Seq<char>) -> bool {
    match order {
        Order::Ascending => bytes::precedes(encode_utf8(a), encode_utf8(b)),
        Order::Descending => bytes::precedes(encode_utf8(b), encode_utf8(a)),
    }
}

/// Whether an address is wanted. A listing sets out at the address of the
/// cursor, if the cursor `counts`, or else at the one that is named, or else
/// at the lower limit, and it comes to that address itself. It ends at the one
/// that is named, with it, or else at the upper limit, without it. Which
/// address lies before which is told in the direction of the walk.
pub open spec fn address_wanted(
    equals: Option<Seq<char>>,
    between: Option<Between<Seq<char>>>,
    order: Order,
    cursor: Option<Place>,
    counts: bool,
    address: Seq<char>,
) -> bool {
    &&& match (cursor, equals, between) {
        (Some((last, _)), _, _) if counts => !address_before(order, address, last),
        (_, Some(named), _) => !address_before(order, address, named),
        (_, None, Some((Some(lower), _))) => !address_before(order, address, lower),
        _ => true,
    }
    &&& match (equals, between) {
        (Some(named), _) => !address_before(order, named, address),
        (None, Some((_, Some(upper)))) => address_before(order, address, upper),
        _ => true,
    }
}

/// Whether `document` is read as the metadata of the contract `id`.
pub open spec fn tells_number<P>(parse: P, document: Seq<u8>, id: u64) -> bool where
    P: Fn(Vec<u8>) -> Result<ContractMetadata, StdError>,
 {
    exists|stored: Vec<u8>, known: ContractMetadata|
        stored@ == document && known.id == id && #[trigger] call_ensures(
            parse,
            (stored,),
            Ok::<ContractMetadata, StdError>(known),
        )
}

/// Whether reading `document` as metadata can fail with `error`.
pub open spec fn tells_nothing<P>(parse: P, document: Seq<u8>, error: StdError) -> bool where
    P: Fn(Vec<u8>) -> Result<ContractMetadata, StdError>,
 {
    exists|stored: Vec<u8>|
        stored@ == document && #[trigger] call_ensures(
            parse,
            (stored,),
            Err::<ContractMetadata, StdError>(error),
        )
}

/// Whether `outcome` is the listing of the addresses that are wanted: each of
/// the first `limit` of them, with the number that its metadata holds, or the
/// failure of a record that cannot be read and that the walk comes to before
/// it has found that many.
pub open spec fn lists_addresses<P>(
    records: Seq<Record>,
    parse: P,
    wanted: spec_fn(Seq<char>) -> bool,
    order: Order,
    limit: u32,
    outcome: Result<Seq<Place>, Failure>,
) -> bool where P: Fn(Vec<u8>) -> Result<ContractMetadata, StdError> {
    let key = |address: Seq<char>| encode_utf8(address);
    let can_file = |address: Seq<char>| true;
    let before = |a: Seq<char>, b: Seq<char>| address_before(order, a, b);
    match outcome {
        Ok(places) => {
            &&& listing::are_first(
                records,
                key,
                can_file,
                wanted,
                before,
                limit,
                places.map_values(|place: Place| place.0),
            )
            &&& listing::skip_none(
                records,
                key,
                order,
                places.map_values(|place: Place| place.0),
            )
            &&& forall|i: int|
                0 <= i < places.len() ==> exists|k: int|
                    0 <= k < records.len() && #[trigger] records[k].0 == encode_utf8(
                        (#[trigger] places[i]).0,
                    ) && tells_number(parse, records[k].1, places[i].1)
        },
        Err(failure) => exists|addresses: Seq<Seq<char>>, broken: Record|
            {
                &&& #[trigger] listing::come_before(
                    records,
                    key,
                    can_file,
                    wanted,
                    order,
                    limit,
                    addresses,
                    broken,
                )
                &&& failure matches Failure::Std(error) && if exists|address: Seq<char>|
                    broken.0 == #[trigger] encode_utf8(address) {
                    tells_nothing(parse, broken.1, error)
                } else {
                    error == keys::address_key_error(broken.0)
                }
            },
    }
}

/// The window of a listing by address lets in exactly the addresses that are
/// wanted, whatever is known of the text of the cursor.
pub proof fn window_of_addresses_lets_in_the_wanted(
    equals: Option<Seq<char>>,
    between: Option<Between<Seq<char>>>,
    order: Order,
    cursor: Option<Place>,
    counts: bool,
    address: Seq<char>,
)
    ensures
        scan::inside(
            window::metadata_window(equals, between, order, cursor, counts),
            encode_utf8(address),
        ) == address_wanted(equals, between, order, cursor, counts, address),
{
}

/// What an outcome of marking a record says of its document.
proof fn lemma_told<P>(parse: P, record: Record, outcome: Result<Place, Failure>) where
    P: Fn(Vec<u8>) -> Result<ContractMetadata, StdError>,

    requires
        metadata::can_mark(parse, record, outcome),
    ensures
        match outcome {
            Ok(place) => record.0 == encode_utf8(place.0) && tells_number(parse, record.1, place.1),
            Err(failure) => failure matches Failure::Std(error) && if exists|address: Seq<char>|
                record.0 == #[trigger] encode_utf8(address) {
                tells_nothing(parse, record.1, error)
            } else {
                error == keys::address_key_error(record.0)
            },
        },
{
    if keys::address_parts(record.0) is Some {
        let address = keys::address_parts(record.0)->0;
        let parsed = choose|parsed: Result<MetadataView, StdError>| #[trigger]
            metadata::can_parse(parse, record.1, parsed) && outcome == metadata::marked(
                address,
                parsed,
            );
        let (stored, known) = choose|
            stored: Vec<u8>,
            known: Result<ContractMetadata, StdError>,
        |
            stored@ == record.1 && metadata::parsed_view(known) == parsed && #[trigger] call_ensures(
                parse,
                (stored,),
                known,
            );
        match known {
            Ok(held) => {
                assert(call_ensures(parse, (stored,), Ok::<ContractMetadata, StdError>(held)));
                assert(tells_number(parse, record.1, held.id));
            },
            Err(error) => {
                assert(call_ensures(parse, (stored,), Err::<ContractMetadata, StdError>(error)));
                assert(tells_nothing(parse, record.1, error));
            },
        }
    }
}

/// The places within a window of addresses are what is wanted of them.
proof fn lemma_lists_addresses<P>(
    records: Seq<Record>,
    parse: P,
    window: Window,
    wanted: spec_fn(Seq<char>) -> bool,
    order: Order,
    limit: u32,
    outcome: Result<Seq<Place>, Failure>,
) where P: Fn(Vec<u8>) -> Result<ContractMetadata, StdError>
    requires
        bytes::sorted(bytes::keys_of(window::within(records, window, order)), order),
        metadata::can_list(window::within(records, window, order), parse, limit, outcome),
        forall|address: Seq<char>|
            scan::inside(window, #[trigger] encode_utf8(address)) == wanted(address),
    ensures
        lists_addresses(records, parse, wanted, order, limit, outcome),
{
    let key = |address: Seq<char>| encode_utf8(address);
    let can_file = |address: Seq<char>| true;
    let before = |a: Seq<char>, b: Seq<char>| address_before(order, a, b);
    let rows = window::within(records, window, order);
    let row_keys = bytes::keys_of(rows);
    let count = pagination::at_most(rows.len(), limit);
    let outcomes = choose|outcomes: Seq<Result<Place, Failure>>|
        {
            &&& #[trigger] metadata::is_run(outcomes, count)
            &&& forall|i: int|
                0 <= i < outcomes.len() ==> metadata::can_mark(
                    parse,
                    rows[i],
                    #[trigger] outcomes[i],
                )
            &&& outcome == pagination::all_or_first_failure(outcomes)
        };
    let n: int = match outcome {
        Ok(places) => outcomes.len() as int,
        Err(failure) => listing::lemma_failed(outcomes, failure),
    };
    if let Ok(places) = outcome {
        laws::lemma_passed(outcomes, places);
        if n < count {
            assert(outcomes[n - 1] is Ok);
        }
    }
    let addresses = Seq::new(n as nat, |i: int| (outcomes[i]->Ok_0).0);
    assert forall|i: int| 0 <= i < n implies key(#[trigger] addresses[i]) == rows[i].0 && wanted(
        addresses[i],
    ) && listing::is_stored(records, key(addresses[i])) by {
        assert(metadata::can_mark(parse, rows[i], outcomes[i]));
        assert(outcomes[i] is Ok);
        lemma_told(parse, rows[i], outcomes[i]);
        scan::lemma_walked(records, window, order, i);
        let m = choose|m: int| 0 <= m < records.len() && records[m] == rows[i];
        assert(records[m].0 == key(addresses[i]));
        assert(scan::inside(window, encode_utf8(addresses[i])) == wanted(addresses[i]));
    }
    assert forall|i: int, j: int| 0 <= i < j < n implies before(
        #[trigger] addresses[i],
        #[trigger] addresses[j],
    ) by {
        assert(bytes::comes_before(order, row_keys[i], row_keys[j]));
        assert(key(addresses[i]) == row_keys[i] && key(addresses[j]) == row_keys[j]);
    }
    assert forall|address: Seq<char>|
        wanted(address) && listing::is_stored(
            records,
            #[trigger] key(address),
        ) implies exists|j: int| 0 <= j < rows.len() && #[trigger] rows[j].0 == key(address) by {
        let m = choose|m: int| 0 <= m < records.len() && #[trigger] records[m].0 == key(address);
        assert(scan::inside(window, encode_utf8(address)) == wanted(address));
        scan::lemma_comes_to(records, window, order, records[m]);
        assert(rows.contains(records[m]));
        let j = choose|j: int| 0 <= j < rows.len() && rows[j] == records[m];
        assert(rows[j].0 == key(address));
    }
    match outcome {
        Ok(places) => {
            assert forall|address: Seq<char>|
                can_file(address) && wanted(address) && listing::is_stored(
                    records,
                    #[trigger] key(address),
                ) && !addresses.contains(address) implies addresses.len() == limit && forall|
                i: int,
            |
                0 <= i < addresses.len() ==> before(#[trigger] addresses[i], address) by {
                let j = choose|j: int| 0 <= j < rows.len() && #[trigger] rows[j].0 == key(address);
                if j < n {
                    assert(key(addresses[j]) == key(address));
                    order::lemma_texts_differ(addresses[j], address);
                }
                assert forall|i: int| 0 <= i < addresses.len() implies before(
                    #[trigger] addresses[i],
                    address,
                ) by {
                    assert(bytes::comes_before(order, row_keys[i], row_keys[j]));
                    assert(key(addresses[i]) == row_keys[i]);
                }
            }
            assert(places.map_values(|place: Place| place.0) =~= addresses) by {
                assert forall|i: int| 0 <= i < n implies places[i].0 == addresses[i] by {
                    assert(outcomes[i] == Ok::<Place, Failure>(places[i]));
                }
            }
            assert forall|i: int, a: int, b: int|
                0 <= i < records.len() && 0 <= a < addresses.len() && 0 <= b < addresses.len()
                    && bytes::comes_before(
                    order,
                    key(#[trigger] addresses[a]),
                    (#[trigger] records[i]).0,
                ) && bytes::comes_before(
                    order,
                    records[i].0,
                    key(#[trigger] addresses[b]),
                ) implies exists|c: int|
                a < c < b && key(#[trigger] addresses[c]) == records[i].0 by {
                let c = listing::lemma_row_between(records, window, order, i, a, b);
                assert(key(addresses[c]) == rows[c].0);
            }
            assert forall|i: int| 0 <= i < places.len() implies exists|k: int|
                0 <= k < records.len() && #[trigger] records[k].0 == encode_utf8(
                    (#[trigger] places[i]).0,
                ) && tells_number(parse, records[k].1, places[i].1) by {
                assert(outcomes[i] == Ok::<Place, Failure>(places[i]));
                lemma_told(parse, rows[i], outcomes[i]);
                scan::lemma_walked(records, window, order, i);
                let m = choose|m: int| 0 <= m < records.len() && records[m] == rows[i];
                assert(records[m].0 == encode_utf8(places[i].0));
            }
        },
        Err(failure) => {
            let broken = rows[n];
            assert(metadata::can_mark(parse, broken, outcomes[n]));
            lemma_told(parse, broken, outcomes[n]);
            scan::lemma_walked(records, window, order, n);
            assert forall|i: int| 0 <= i < addresses.len() implies can_file(#[trigger] addresses[i])
                && wanted(addresses[i]) && listing::is_stored(records, key(addresses[i]))
                && bytes::comes_before(order, key(addresses[i]), broken.0) by {
                assert(bytes::comes_before(order, row_keys[i], row_keys[n]));
                assert(key(addresses[i]) == row_keys[i]);
            }
            assert forall|address: Seq<char>|
                can_file(address) && wanted(address) && listing::is_stored(
                    records,
                    #[trigger] key(address),
                ) && bytes::comes_before(
                    order,
                    key(address),
                    broken.0,
                ) implies addresses.contains(address) by {
                let j = choose|j: int| 0 <= j < rows.len() && #[trigger] rows[j].0 == key(address);
                assert(row_keys[j] == key(address) && row_keys[n] == broken.0);
                scan::lemma_behind(row_keys, order, j, n);
                assert(key(addresses[j]) == key(address));
                order::lemma_texts_differ(addresses[j], address);
            }
            assert forall|address: Seq<char>|
                can_file(address) && #[trigger] key(address) == broken.0 implies wanted(
                address,
            ) by {
                assert(scan::inside(window, encode_utf8(address)) == wanted(address));
            }
            assert forall|near: Seq<char>, address: Seq<char>|
                can_file(near) && wanted(near) && can_file(address) && bytes::comes_before(
                    order,
                    #[trigger] key(near),
                    #[trigger] key(address),
                ) && bytes::comes_before(order, key(address), broken.0) implies wanted(
                address,
            ) by {
                assert(scan::inside(window, encode_utf8(near)) == wanted(near));
                assert(scan::inside(window, encode_utf8(address)) == wanted(address));
                listing::lemma_between(window, order, key(near), key(address), broken.0);
            }
            assert forall|near: Seq<char>, address: Seq<char>|
                can_file(near) && wanted(near) && can_file(address) && bytes::comes_before(
                    order,
                    broken.0,
                    #[trigger] key(address),
                ) && bytes::comes_before(order, key(address), #[trigger] key(near)) implies wanted(
                address,
            ) by {
                assert(scan::inside(window, encode_utf8(near)) == wanted(near));
                assert(scan::inside(window, encode_utf8(address)) == wanted(address));
                listing::lemma_between(window, order, broken.0, key(address), key(near));
            }
            assert(listing::come_before(
                records,
                key,
                can_file,
                wanted,
                order,
                limit,
                addresses,
                broken,
            ));
        },
    }
}

/// A read of all contracts by address lists exactly the contracts whose
/// addresses are wanted, in order and up to the limit. The text of a cursor
/// counts if the chain takes it for an address: nothing that is listed then lies
/// before it in the direction of the walk.
pub proof fn address_index_lists<P>(
    chain: Chain,
    layout: Layout,
    parse: P,
    equals: Option<String>,
    between: Option<Between<String>>,
    order: Order,
    limit: u32,
    cursor: Option<Place>,
    outcome: Result<Seq<Place>, Failure>,
) where P: Fn(Vec<u8>) -> Result<ContractMetadata, StdError>
    requires
        read::can_list(
            chain,
            layout,
            parse,
            Target::Index(IndexBounds::Address { equals, between }),
            order,
            limit,
            cursor,
            outcome,
        ),
    ensures
        lists_addresses(
            store::records(chain, layout.metadata@),
            parse,
            |address: Seq<char>|
                address_wanted(
                    listing_texts::chars_of(equals),
                    listing_texts::chars_between(between),
                    order,
                    cursor,
                    cursor is Some && text::is_address(chain, (cursor->0).0),
                    address,
                ),
            order,
            limit,
            outcome,
        ),
{
    let records = store::records(chain, layout.metadata@);
    let (named, limits) = (listing_texts::chars_of(equals), listing_texts::chars_between(between));
    let counts = cursor is Some && text::is_address(chain, (cursor->0).0);
    let window = window::metadata_window(named, limits, order, cursor, counts);
    let wanted = |address: Seq<char>|
        address_wanted(named, limits, order, cursor, counts, address);
    assert forall|address: Seq<char>|
        scan::inside(window, #[trigger] encode_utf8(address)) == wanted(address) by {
        window_of_addresses_lets_in_the_wanted(named, limits, order, cursor, counts, address);
    }
    lemma_lists_addresses(records, parse, window, wanted, order, limit, outcome);
}

/// Whether the page `i` of `pages` is a listing by address: the first of them
/// from the beginning, and each other after the last place of the one before it.
pub open spec fn goes_on_at<P>(
    chain: Chain,
    layout: Layout,
    parse: P,
    bounds: IndexBounds,
    order: Order,
    limit: u32,
    pages: Seq<Seq<Place>>,
    i: int,
) -> bool where P: Fn(Vec<u8>) -> Result<ContractMetadata, StdError> {
    &&& i > 0 ==> pages[i - 1].len() > 0
    &&& read::can_list(
        chain,
        layout,
        parse,
        Target::Index(bounds),
        order,
        limit,
        if i == 0 {
            None
        } else {
            Some(pages[i - 1].last())
        },
        Ok(pages[i]),
    )
}

/// Whether each of `pages` is a listing by address that goes on where the one
/// before it ended.
pub open spec fn are_pages<P>(
    chain: Chain,
    layout: Layout,
    parse: P,
    bounds: IndexBounds,
    order: Order,
    limit: u32,
    pages: Seq<Seq<Place>>,
) -> bool where P: Fn(Vec<u8>) -> Result<ContractMetadata, StdError> {
    forall|i: int|
        0 <= i < pages.len() ==> #[trigger] goes_on_at(
            chain,
            layout,
            parse,
            bounds,
            order,
            limit,
            pages,
            i,
        )
}

/// An address that is stored and wanted stands on the page, or comes after
/// the last place of the page, which is then full.
proof fn lemma_page_reaches<P>(
    chain: Chain,
    layout: Layout,
    parse: P,
    equals: Option<String>,
    between: Option<Between<String>>,
    order: Order,
    limit: u32,
    cursor: Option<Place>,
    places: Seq<Place>,
    address: Seq<char>,
) where P: Fn(Vec<u8>) -> Result<ContractMetadata, StdError>
    requires
        limit > 0,
        read::can_list(
            chain,
            layout,
            parse,
            Target::Index(IndexBounds::Address { equals, between }),
            order,
            limit,
            cursor,
            Ok(places),
        ),
        listing::is_stored(store::records(chain, layout.metadata@), encode_utf8(address)),
        address_wanted(
            listing_texts::chars_of(equals),
            listing_texts::chars_between(between),
            order,
            cursor,
            cursor is Some && text::is_address(chain, (cursor->0).0),
            address,
        ),
    ensures
        (exists|j: int| 0 <= j < places.len() && (#[trigger] places[j]).0 == address) || (
        places.len() == limit && address_before(order, places.last().0, address)),
{
    let listed = places.map_values(|place: Place| place.0);
    let key = |address: Seq<char>| encode_utf8(address);
    let records = store::records(chain, layout.metadata@);
    address_index_lists(chain, layout, parse, equals, between, order, limit, cursor, Ok(places));
    assert(listing::is_stored(records, key(address)));
    if listed.contains(address) {
        let j = choose|j: int| 0 <= j < listed.len() && listed[j] == address;
        assert(places[j].0 == address);
    } else {
        assert(address_before(order, listed[limit - 1], address));
    }
}

/// What the pages of a listing by address have come to: an address that is
/// stored and wanted stands on one of them, or comes after the last place of the last.
proof fn lemma_pages_reach<P>(
    chain: Chain,
    layout: Layout,
    parse: P,
    equals: Option<String>,
    between: Option<Between<String>>,
    order: Order,
    limit: u32,
    pages: Seq<Seq<Place>>,
    count: int,
    address: Seq<char>,
) where P: Fn(Vec<u8>) -> Result<ContractMetadata, StdError>
    requires
        limit > 0,
        0 < count <= pages.len(),
        are_pages(
            chain,
            layout,
            parse,
            IndexBounds::Address { equals, between },
            order,
            limit,
            pages,
        ),
        forall|i: int|
            0 <= i < pages.len() - 1 ==> text::is_address(chain, (#[trigger] pages[i]).last().0),
        listing::is_stored(store::records(chain, layout.metadata@), encode_utf8(address)),
        address_wanted(
            listing_texts::chars_of(equals),
            listing_texts::chars_between(between),
            order,
            None,
            false,
            address,
        ),
    ensures
        (exists|i: int, j: int|
            0 <= i < count && 0 <= j < pages[i].len() && (#[trigger] pages[i][j]).0 == address) || (
        pages[count - 1].len() == limit && address_before(
            order,
            pages[count - 1].last().0,
            address,
        )),
    decreases count,
{
    let places = pages[count - 1];
    let cursor = if count == 1 {
        None
    } else {
        Some(pages[count - 2].last())
    };
    assert(goes_on_at(
        chain,
        layout,
        parse,
        IndexBounds::Address { equals, between },
        order,
        limit,
        pages,
        count - 1,
    ));
    if count > 1 {
        lemma_pages_reach(
            chain,
            layout,
            parse,
            equals,
            between,
            order,
            limit,
            pages,
            count - 1,
            address,
        );
    }
    if !(exists|i: int, j: int|
        0 <= i < count - 1 && 0 <= j < pages[i].len() && (#[trigger] pages[i][j]).0 == address) {
        if count > 1 {
            order::lemma_total(encode_utf8(pages[count - 2].last().0), encode_utf8(address));
            assert(text::is_address(chain, pages[count - 2].last().0));
        }
        lemma_page_reaches(
            chain,
            layout,
            parse,
            equals,
            between,
            order,
            limit,
            cursor,
            places,
            address,
        );
        if exists|j: int| 0 <= j < places.len() && (#[trigger] places[j]).0 == address {
            let j = choose|j: int| 0 <= j < places.len() && (#[trigger] places[j]).0 == address;
            assert(pages[count - 1][j].0 == address);
        }
    }
}

/// Following the cursors of pages by address, as long as the chain takes them
/// for addresses, comes to every contract that is stored under an address that
/// is wanted: once a page is not full, each of them stands on one of the
/// pages. With a limit above one, each full page that follows another comes to
/// an address that lies behind those of the page before it.
pub proof fn pages_by_address_reach_all<P>(
    chain: Chain,
    layout: Layout,
    parse: P,
    equals: Option<String>,
    between: Option<Between<String>>,
    order: Order,
    limit: u32,
    pages: Seq<Seq<Place>>,
    address: Seq<char>,
) where P: Fn(Vec<u8>) -> Result<ContractMetadata, StdError>
    requires
        limit > 1,
        pages.len() > 0,
        are_pages(
            chain,
            layout,
            parse,
            IndexBounds::Address { equals, between },
            order,
            limit,
            pages,
        ),
        forall|i: int|
            0 <= i < pages.len() - 1 ==> text::is_address(chain, (#[trigger] pages[i]).last().0),
        listing::is_stored(store::records(chain, layout.metadata@), encode_utf8(address)),
        address_wanted(
            listing_texts::chars_of(equals),
            listing_texts::chars_between(between),
            order,
            None,
            false,
            address,
        ),
    ensures
        pages.last().len() < limit ==> exists|i: int, j: int|
            0 <= i < pages.len() && 0 <= j < pages[i].len() && (#[trigger] pages[i][j]).0
                == address,
        forall|i: int|
            0 < i < pages.len() && (#[trigger] pages[i]).len() == limit ==> address_before(
                order,
                pages[i - 1].last().0,
                pages[i].last().0,
            ),
{
    lemma_pages_reach(
        chain,
        layout,
        parse,
        equals,
        between,
        order,
        limit,
        pages,
        pages.len() as int,
        address,
    );
    assert forall|i: int| 0 < i < pages.len() && (#[trigger] pages[i]).len() == limit implies
        address_before(order, pages[i - 1].last().0, pages[i].last().0) by {
        let last = pages[i - 1].last();
        assert(goes_on_at(
            chain,
            layout,
            parse,
            IndexBounds::Address { equals, between },
            order,
            limit,
            pages,
            i,
        ));
        let listed = pages[i].map_values(|place: Place| place.0);
        assert(text::is_address(chain, pages[i - 1].last().0));
        address_index_lists(
            chain,
            layout,
            parse,
            equals,
            between,
            order,
            limit,
            Some(last),
            Ok(pages[i]),
        );
        let (x, y, z) = (
            encode_utf8(last.0),
            encode_utf8(listed[0]),
            encode_utf8(listed[limit - 1]),
        );
        assert(address_before(order, listed[0], listed[limit - 1]));
        assert(!address_before(order, listed[0], last.0));
        order::lemma_total(x, y);
        if x != y {
            match order {
                Order::Ascending => order::lemma_transitive(x, y, z),
                Order::Descending => order::lemma_transitive(z, y, x),
            }
        }
    }
}

} // verus!

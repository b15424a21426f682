//! Listings of all contracts by address.
use cosmwasm_std::StdError;
use vstd::prelude::*;
use vstd::utf8::*;

use crate::bytes;
use crate::bytes::{Edge, Record};
use crate::error::Failure;
use crate::keys::Place;
use crate::laws;
use crate::metadata;
use crate::models::{Between, ContractMetadata, Order};
use crate::order;
use crate::pagination;
use crate::scan;
use crate::window;

verus! {

/// The places of a listing by address are those of the first records, one by one.
pub proof fn lemma_listed<P>(rows: Seq<Record>, parse: P, limit: u32, listing: Seq<Place>) where
    P: Fn(Vec<u8>) -> Result<ContractMetadata, StdError>,

    requires
        metadata::can_list(rows, parse, limit, Ok(listing)),
    ensures
        listing.len() == pagination::at_most(rows.len(), limit),
        forall|i: int|
            0 <= i < listing.len() ==> metadata::can_mark(
                parse,
                rows[i],
                Ok(#[trigger] listing[i]),
            ),
{
    let outcomes = choose|outcomes: Seq<Result<Place, Failure>>|
        {
            &&& #[trigger] metadata::is_run(outcomes, pagination::at_most(rows.len(), limit))
            &&& forall|i: int|
                0 <= i < outcomes.len() ==> metadata::can_mark(
                    parse,
                    rows[i],
                    #[trigger] outcomes[i],
                )
            &&& Ok::<Seq<Place>, Failure>(listing) == pagination::all_or_first_failure(outcomes)
        };
    laws::lemma_passed(outcomes, listing);
    assert forall|i: int| 0 <= i < listing.len() implies metadata::can_mark(
        parse,
        rows[i],
        Ok(#[trigger] listing[i]),
    ) by {
        assert(outcomes[i] == Ok::<Place, Failure>(listing[i]));
    }
}

/// A listing of all contracts by address that goes on after the cursor of a
/// page begins with the contract that the page ended with, if the chain takes
/// the text of the cursor for an address.
pub proof fn metadata_listing_goes_on<P>(
    records: Seq<Record>,
    parse: P,
    equals: Option<Seq<char>>,
    between: Option<Between<Seq<char>>>,
    order: Order,
    cursor: Option<Place>,
    is_address: bool,
    limit: u32,
    listing: Seq<Place>,
) where P: Fn(Vec<u8>) -> Result<ContractMetadata, StdError>
    requires
        bytes::sorted(
            bytes::keys_of(
                window::within(
                    records,
                    window::metadata_window(equals, between, order, cursor, is_address),
                    order,
                ),
            ),
            order,
        ),
        metadata::can_list(
            window::within(
                records,
                window::metadata_window(equals, between, order, cursor, is_address),
                order,
            ),
            parse,
            limit,
            Ok(listing),
        ),
        listing.len() > 0,
    ensures
        laws::is_rest(
            records,
            window::metadata_window(equals, between, order, cursor, is_address),
            window::metadata_window(equals, between, order, Some(listing.last()), true),
            order,
            (listing.len() - 1) as nat,
        ),
{
    let whole = window::metadata_window(equals, between, order, cursor, is_address);
    let part = window::metadata_window(equals, between, order, Some(listing.last()), true);
    let walk = window::within(records, whole, order);
    let keys = bytes::keys_of(walk);
    let at = listing.len() - 1;
    lemma_listed(walk, parse, limit, listing);
    assert(metadata::can_mark(parse, walk[at], Ok(listing[at])));
    let key = walk[at].0;
    assert(key == keys[at]);
    assert(encode_utf8(listing.last().0) == key);
    scan::lemma_walked(records, whole, order, at);
    let behind = |other: Seq<u8>| !bytes::comes_before(order, other, key);
    assert forall|i: int| 0 <= i < records.len() implies scan::inside(part, #[trigger] records[i].0)
        == (scan::inside(whole, records[i].0) && behind(records[i].0)) by {
        let other = records[i].0;
        order::lemma_total(other, key);
        let near = if order is Ascending { whole.lower } else { whole.upper };
        if let Some(Edge::Inclusive(edge)) = near {
            order::lemma_total(edge, key);
            order::lemma_total(edge, other);
            if bytes::comes_before(order, edge, key) && bytes::comes_before(order, key, other) {
                if order is Ascending {
                    order::lemma_transitive(edge, key, other);
                } else {
                    order::lemma_transitive(other, key, edge);
                }
            }
        }
    }
    assert forall|i: int| 0 <= i < walk.len() implies behind(#[trigger] walk[i].0) == (at <= i) by {
        assert(keys[i] == walk[i].0);
        scan::lemma_behind(keys, order, i, at);
    }
    scan::lemma_rest_of_walk(records, whole, part, order, behind, at);
}

} // verus!

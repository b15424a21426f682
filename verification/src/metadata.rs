//! What the registry keeps about contracts, by address. It is stored as
//! documents, and whoever reads them says how a document is parsed.
use cosmwasm_std::StdError;
use vstd::prelude::*;
use vstd::string::*;
use vstd::utf8::*;

use crate::bytes;
use crate::bytes::Record;
use crate::error::{ContractError, Failure};
use crate::hex;
use crate::hex::hex_text;
use crate::keys;
use crate::keys::{decode_address_key, encode_address_key, Cursor, Place};
use crate::models::{Between, ContractMetadata, MetadataView, Order};
use crate::pagination;
use crate::store;
use crate::store::{next_row, storage_key, stored_value, walk, Chain, Limit, Rows};
use crate::text;
use crate::text::validate_address;
use crate::window;
use crate::window::Window;

verus! {

/// What a result that may hold metadata holds.
pub open spec fn parsed_view(parsed: Result<ContractMetadata, StdError>) -> Result<
    MetadataView,
    StdError,
> {
    match parsed {
        Ok(metadata) => Ok(metadata@),
        Err(error) => Err(error),
    }
}

/// Whether `parse` can make `outcome` of the document `value`.
pub open spec fn can_parse<P>(
    parse: P,
    value: Seq<u8>,
    outcome: Result<MetadataView, StdError>,
) -> bool where P: Fn(Vec<u8>) -> Result<ContractMetadata, StdError> {
    exists|document: Vec<u8>, parsed: Result<ContractMetadata, StdError>|
        document@ == value && parsed_view(parsed) == outcome && #[trigger] call_ensures(
            parse,
            (document,),
            parsed,
        )
}

/// Whether looking up the metadata of the contract at `address` can end in `outcome`.
pub open spec fn can_load<P>(
    records: Seq<Record>,
    parse: P,
    address: Seq<char>,
    outcome: Result<Option<MetadataView>, Failure>,
) -> bool where P: Fn(Vec<u8>) -> Result<ContractMetadata, StdError> {
    match bytes::lookup(records, encode_utf8(address)) {
        None => outcome == Ok::<Option<MetadataView>, Failure>(None),
        Some(value) => match outcome {
            Ok(Some(metadata)) => can_parse(parse, value, Ok(metadata)),
            Ok(None) => false,
            Err(Failure::Std(error)) => can_parse(parse, value, Err(error)),
            Err(_) => false,
        },
    }
}

/// The text that tells that no metadata is stored for the contract at
/// `address`: what was looked for, and the key in storage.
pub open spec fn missing_metadata(namespace: Seq<char>, address: Seq<char>) -> Seq<char> {
    "type: contract_reads::models::ContractMetadata; key: "@ + hex::hex_list(
        bytes::length_prefixed(encode_utf8(namespace)) + encode_utf8(address),
    )
}

/// Tells that no metadata is stored for the contract at `address`.
pub fn missing_metadata_text(namespace: &str, address: &str) -> (text: String)
    requires
        bytes::fits(namespace@),
    ensures
        text@ == missing_metadata(namespace@, address@),
{
    let mut text = "type: contract_reads::models::ContractMetadata; key: ".to_owned();
    text.append(hex_text(&storage_key(namespace, address)).as_str());
    text
}

/// What metadata that may be there holds.
pub open spec fn meta_view(metadata: Option<ContractMetadata>) -> Option<MetadataView> {
    match metadata {
        Some(metadata) => Some(metadata@),
        None => None,
    }
}

/// What a result that may hold metadata, if there is any, holds.
pub open spec fn loaded_view(loaded: Result<Option<ContractMetadata>, ContractError>) -> Result<
    Option<MetadataView>,
    Failure,
> {
    match loaded {
        Ok(metadata) => Ok(meta_view(metadata)),
        Err(error) => Err(error@),
    }
}

/// Looks up the metadata of the contract at `address`.
pub fn may_load_metadata<P>(
    chain: &Chain,
    namespace: &str,
    parse: &P,
    address: &str,
) -> (loaded: Result<Option<ContractMetadata>, ContractError>) where
    P: Fn(Vec<u8>) -> Result<ContractMetadata, StdError>,

    requires
        bytes::fits(namespace@),
        forall|document: Vec<u8>| call_requires(*parse, (document,)),
    ensures
        can_load(store::records(*chain, namespace@), *parse, address@, loaded_view(loaded)),
{
    match stored_value(chain, namespace, address) {
        None => Ok(None),
        Some(document) => {
            let parsed = (*parse)(document);
            assert(call_ensures(*parse, (document,), parsed));
            assert(can_parse(*parse, document@, parsed_view(parsed)));
            match parsed {
                Ok(metadata) => Ok(Some(metadata)),
                Err(error) => Err(ContractError::from(error)),
            }
        },
    }
}

/// The place that a contract with the given address and metadata marks, or
/// why its metadata marks none.
pub open spec fn marked(address: Seq<char>, parsed: Result<MetadataView, StdError>) -> Result<
    Place,
    Failure,
> {
    match parsed {
        Ok(metadata) => Ok((address, metadata.id)),
        Err(error) => Err(Failure::Std(error)),
    }
}

/// Whether `outcome` can be the place that a record of metadata marks.
pub open spec fn can_mark<P>(parse: P, record: Record, outcome: Result<Place, Failure>) -> bool where
    P: Fn(Vec<u8>) -> Result<ContractMetadata, StdError>,
 {
    match keys::address_parts(record.0) {
        None => outcome == Err::<Place, Failure>(
            Failure::Std(keys::address_key_error(record.0)),
        ),
        Some(address) => exists|parsed: Result<MetadataView, StdError>| #[trigger]
            can_parse(parse, record.1, parsed) && outcome == marked(address, parsed),
    }
}

/// Whether `outcomes` are those of up to `count` attempts, made one after
/// another until the first of them fails.
pub open spec fn is_run<A>(outcomes: Seq<Result<A, Failure>>, count: int) -> bool {
    &&& outcomes.len() <= count
    &&& forall|i: int| 0 <= i < outcomes.len() - 1 ==> #[trigger] outcomes[i] is Ok
    &&& outcomes.len() < count ==> outcomes.len() > 0 && outcomes.last() is Err
}

/// Whether listing the contracts of the first `limit` rows can end in `listing`.
pub open spec fn can_list<P>(
    rows: Seq<Record>,
    parse: P,
    limit: u32,
    listing: Result<Seq<Place>, Failure>,
) -> bool where P: Fn(Vec<u8>) -> Result<ContractMetadata, StdError> {
    exists|outcomes: Seq<Result<Place, Failure>>|
        {
            &&& #[trigger] is_run(outcomes, pagination::at_most(rows.len(), limit))
            &&& forall|i: int|
                0 <= i < outcomes.len() ==> can_mark(parse, rows[i], #[trigger] outcomes[i])
            &&& listing == pagination::all_or_first_failure(outcomes)
        }
}

/// Whether `listing` can be the places of the first `limit` contracts within
/// a window of addresses, which stand in the given order.
pub open spec fn lists<P>(
    chain: Chain,
    namespace: Seq<char>,
    parse: P,
    window: Window,
    order: Order,
    limit: u32,
    listing: Result<Seq<Place>, Failure>,
) -> bool where P: Fn(Vec<u8>) -> Result<ContractMetadata, StdError> {
    let rows = window::within(store::records(chain, namespace), window, order);
    &&& bytes::sorted(bytes::keys_of(rows), order)
    &&& can_list(rows, parse, limit, listing)
}

/// Reads the place that a record of metadata marks.
pub fn mark<P>(parse: &P, key: Vec<u8>, value: Vec<u8>) -> (cursor: Result<
    Cursor,
    ContractError,
>) where P: Fn(Vec<u8>) -> Result<ContractMetadata, StdError>
    requires
        call_requires(*parse, (value,)),
    ensures
        can_mark(*parse, (key@, value@), keys::place_view(cursor)),
{
    let ghost parts = keys::address_parts(key@);
    let address = match decode_address_key(key) {
        Ok(address) => address,
        Err(error) => {
            return Err(ContractError::from(error));
        },
    };
    let parsed = (*parse)(value);
    let ghost outcome = parsed_view(parsed);
    proof {
        assert(call_ensures(*parse, (value,), parsed));
        assert(parts->0 == address@);
    }
    let cursor = match parsed {
        Ok(metadata) => Ok((address, metadata.id)),
        Err(error) => Err(ContractError::from(error)),
    };
    proof {
        let record = (key@, value@);
        assert(can_parse(*parse, record.1, outcome));
        assert(keys::place_view(cursor) == marked(parts->0, outcome));
        assert(can_mark(*parse, record, keys::place_view(cursor)));
    }
    cursor
}

/// Lists the contracts of the first `limit` records of a walk.
fn list_rows<P>(parse: &P, rows: Rows, limit: u32) -> (listing: Result<
    Vec<Cursor>,
    ContractError,
>) where P: Fn(Vec<u8>) -> Result<ContractMetadata, StdError>
    requires
        forall|document: Vec<u8>| call_requires(*parse, (document,)),
    ensures
        can_list(store::pending(rows), *parse, limit, pagination::places_view(listing)),
{
    let ghost all = store::pending(rows);
    let ghost count = pagination::at_most(all.len(), limit);
    let ghost mut outcomes: Seq<Result<Place, Failure>> = Seq::empty();
    let mut rest = rows;
    let mut cursors: Vec<Cursor> = Vec::new();
    let mut left: u32 = limit;
    while left > 0
        invariant_except_break
            cursors@.len() == limit - left,
            store::pending(rest) == all.skip(cursors@.len() as int),
        invariant
            forall|document: Vec<u8>| call_requires(*parse, (document,)),
            all == store::pending(rows),
            count == pagination::at_most(all.len(), limit),
            left <= limit,
            cursors@.len() <= all.len(),
            outcomes.len() == cursors@.len(),
            forall|i: int|
                0 <= i < outcomes.len() ==> #[trigger] outcomes[i] == Ok::<Place, Failure>(
                    (cursors@[i].0@, cursors@[i].1),
                ),
            forall|i: int|
                0 <= i < outcomes.len() ==> can_mark(*parse, all[i], #[trigger] outcomes[i]),
        ensures
            cursors@.len() == count,
        decreases left,
    {
        match next_row(&mut rest) {
            None => {
                break;
            },
            Some((key, value)) => {
                assert((key@, value@) == all[cursors@.len() as int]);
                let marked = mark(parse, key, value);
                proof {
                    outcomes = outcomes.push(keys::place_view(marked));
                }
                match marked {
                    Ok(cursor) => {
                        cursors.push(cursor);
                        left -= 1;
                    },
                    Err(error) => {
                        proof {
                            assert(is_run(outcomes, count));
                            pagination::lemma_first_fails(outcomes, outcomes.len() - 1);
                        }
                        return Err(error);
                    },
                }
            },
        }
    }
    proof {
        assert(is_run(outcomes, count));
        pagination::lemma_all_pass(outcomes, keys::places_of(cursors@));
    }
    Ok(cursors)
}

/// Lists the contracts by address. `is_address` says whether the text of the
/// cursor is an address.
pub fn paginate_metadata_from<P>(
    chain: &Chain,
    namespace: &str,
    parse: &P,
    cursor: Option<Cursor>,
    equals: Option<String>,
    between: Option<Between<String>>,
    order: Order,
    limit: u32,
    is_address: bool,
) -> (listing: Result<Vec<Cursor>, ContractError>) where
    P: Fn(Vec<u8>) -> Result<ContractMetadata, StdError>,

    requires
        bytes::fits(namespace@),
        forall|document: Vec<u8>| call_requires(*parse, (document,)),
    ensures
        lists(
            *chain,
            namespace@,
            *parse,
            window::metadata_window(
                window::text_view(equals),
                window::text_between(between),
                order,
                window::cursor_view(cursor),
                is_address,
            ),
            order,
            limit,
            pagination::places_view(listing),
        ),
{
    let (start, stop, is_exclusive) = pagination::text_limits(equals, between);
    let given = match cursor {
        Some((text, _)) => if is_address {
            Some(text)
        } else {
            None
        },
        None => None,
    };
    let from = match given {
        Some(address) => Some(Limit::Inclusive(encode_address_key(&address))),
        None => match start {
            Some(address) => Some(Limit::Inclusive(encode_address_key(&address))),
            None => None,
        },
    };
    let until = match stop {
        Some(address) => Some(
            if is_exclusive {
                Limit::Exclusive(encode_address_key(&address))
            } else {
                Limit::Inclusive(encode_address_key(&address))
            },
        ),
        None => None,
    };
    let rows = match order {
        Order::Ascending => walk(chain, namespace, from, until, order),
        Order::Descending => walk(chain, namespace, until, from, order),
    };
    list_rows(parse, rows, limit)
}

/// Lists the contracts by address.
pub fn paginate_metadata<P>(
    chain: &Chain,
    namespace: &str,
    parse: &P,
    cursor: Option<Cursor>,
    equals: Option<String>,
    between: Option<Between<String>>,
    order: Order,
    limit: u32,
) -> (listing: Result<Vec<Cursor>, ContractError>) where
    P: Fn(Vec<u8>) -> Result<ContractMetadata, StdError>,

    requires
        bytes::fits(namespace@),
        forall|document: Vec<u8>| call_requires(*parse, (document,)),
    ensures
        lists(
            *chain,
            namespace@,
            *parse,
            window::metadata_window(
                window::text_view(equals),
                window::text_between(between),
                order,
                window::cursor_view(cursor),
                text::at_address(*chain, window::cursor_view(cursor)),
            ),
            order,
            limit,
            pagination::places_view(listing),
        ),
{
    let is_address = match &cursor {
        Some((text, _)) => validate_address(chain, text.as_str()).is_some(),
        None => false,
    };
    paginate_metadata_from(
        chain,
        namespace,
        parse,
        cursor,
        equals,
        between,
        order,
        limit,
        is_address,
    )
}

} // verus!

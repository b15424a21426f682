//! The storage that a read runs on: its records, and the walks over them. The
//! calls into `cw_storage_plus` that touch storage are made here.
use cosmwasm_std::{Deps, StdError};
use vstd::prelude::*;
use vstd::utf8::*;

use crate::bytes;
use crate::bytes::{Edge, Record};
use crate::models::{ContractID, Order};

verus! {

/// The storage, the address rules and the querier that a chain hands to a query.
#[verifier::external_body]
pub struct Chain<'a>(pub Deps<'a>);

/// The records stored under a namespace of the chain's storage, each under
/// its key within that namespace, in ascending order of keys.
pub uninterp spec fn records(chain: Chain, namespace: Seq<char>) -> Seq<Record>;

/// One end of a walk: a key, or the bytes that keys begin with.
#[derive(Debug)]
pub enum Limit {
    Inclusive(Vec<u8>),
    Exclusive(Vec<u8>),
}

impl View for Limit {
    type V = Edge;

    open spec fn view(&self) -> Edge {
        match *self {
            Limit::Inclusive(key) => Edge::Inclusive(key@),
            Limit::Exclusive(key) => Edge::Exclusive(key@),
        }
    }
}

/// The end that a limit sets, if there is one.
pub open spec fn edge_of(limit: Option<Limit>) -> Option<Edge> {
    match limit {
        Some(limit) => Some(limit@),
        None => None,
    }
}

/// A walk over the records of a namespace.
#[verifier::external_body]
pub struct Rows<'a>(Box<dyn Iterator<Item = (Vec<u8>, Vec<u8>)> + 'a>);

/// The records that a walk has still to give.
pub uninterp spec fn pending(rows: Rows) -> Seq<Record>;

/// `Iterator::next` of the boxed iterator that a walk is: gives the first
/// pending record, its key and its undecoded value, and leaves the others
/// pending, or gives `None` if none is pending.
#[verifier::external_body]
pub(crate) fn next_row(rows: &mut Rows) -> (row: Option<(Vec<u8>, Vec<u8>)>)
    ensures
        pending(*old(rows)).len() == 0 ==> row is None,
        pending(*old(rows)).len() > 0 ==> {
            &&& row matches Some((key, value)) && (key@, value@) == pending(*old(rows))[0]
            &&& pending(*final(rows)) == pending(*old(rows)).drop_first()
        },
{
    rows.0.next()
}

/// `cw_storage_plus::range_with_prefix` under the prefix that
/// `cw_storage_plus::Prefix::new` gives a namespace: walks the records whose
/// keys lie between `min` and `max`, in the given order of keys.
#[verifier::external_body]
pub(crate) fn walk<'a>(
    chain: &Chain<'a>,
    namespace: &str,
    min: Option<Limit>,
    max: Option<Limit>,
    order: Order,
) -> (rows: Rows<'a>)
    requires
        bytes::fits(namespace@),
    ensures
        pending(rows) == bytes::between(
            records(*chain, namespace@),
            edge_of(min),
            edge_of(max),
            order,
        ),
        bytes::sorted(bytes::keys_of(pending(rows)), order),
{
    let edge = |limit| match limit {
        Limit::Inclusive(key) => cw_storage_plus::RawBound::Inclusive(key),
        Limit::Exclusive(key) => cw_storage_plus::RawBound::Exclusive(key),
    };
    let direction = match order {
        Order::Ascending => cosmwasm_std::Order::Ascending,
        Order::Descending => cosmwasm_std::Order::Descending,
    };
    let prefix = cw_storage_plus::Prefix::<Vec<u8>, bool>::new(namespace.as_bytes(), &[]);
    let (start, end) = (min.map(edge), max.map(edge));
    let range = cw_storage_plus::range_with_prefix(chain.0.storage, &prefix, start, end, direction);
    Rows(range.into())
}

/// The truth value that the JSON document `value` stands for, or why it stands for none.
pub uninterp spec fn bool_value(value: Seq<u8>) -> Result<bool, StdError>;

/// `cosmwasm_std::from_json` for a truth value.
#[verifier::external_body]
pub(crate) fn decode_bool(value: Vec<u8>) -> (decoded: Result<bool, StdError>)
    ensures
        decoded == bool_value(value@),
{
    cosmwasm_std::from_json(value)
}

/// `cw_storage_plus::Map::key` on a map keyed by addresses: the whole key of
/// an address in storage, its namespace with it.
#[verifier::external_body]
pub(crate) fn storage_key(namespace: &str, address: &str) -> (key: Vec<u8>)
    requires
        bytes::fits(namespace@),
    ensures
        key@ == bytes::length_prefixed(encode_utf8(namespace@)) + encode_utf8(address@),
{
    let map: cw_storage_plus::Map<&str, cosmwasm_std::Empty> = cw_storage_plus::Map::new(namespace);
    map.key(address).to_vec()
}

/// `cosmwasm_std::Storage::get` at the key that `cw_storage_plus::Map::key`
/// gives an address: the value stored under the address, if there is one.
#[verifier::external_body]
pub(crate) fn stored_value(chain: &Chain, namespace: &str, address: &str) -> (value: Option<Vec<u8>>)
    requires
        bytes::fits(namespace@),
    ensures
        match value {
            Some(value) => bytes::lookup(records(*chain, namespace@), encode_utf8(address@)) == Some(
                value@,
            ),
            None => bytes::lookup(records(*chain, namespace@), encode_utf8(address@)) is None,
        },
{
    let map: cw_storage_plus::Map<&str, cosmwasm_std::Empty> = cw_storage_plus::Map::new(namespace);
    chain.0.storage.get(&map.key(address))
}

/// The address that the JSON document `value` stands for, or why it stands for none.
pub uninterp spec fn address_value(value: Seq<u8>) -> Result<Seq<char>, StdError>;

/// The error that tells that nothing is stored under `id`.
pub uninterp spec fn missing_address_error(namespace: Seq<char>, id: ContractID) -> StdError;

/// The address that a map from contract numbers to addresses holds for `id`,
/// or why it gives none: it holds nothing there, or no address.
pub open spec fn stored_address(chain: Chain, namespace: Seq<char>, id: ContractID) -> Result<
    Seq<char>,
    StdError,
> {
    match bytes::lookup(records(chain, namespace), bytes::big_endian(id as nat, 8)) {
        Some(value) => address_value(value),
        None => Err(missing_address_error(namespace, id)),
    }
}

/// What a result that may hold an address holds.
pub open spec fn address_view(address: Result<String, StdError>) -> Result<Seq<char>, StdError> {
    match address {
        Ok(address) => Ok(address@),
        Err(error) => Err(error),
    }
}

/// `cw_storage_plus::Map::load` on a map from contract numbers to addresses:
/// the address that `cosmwasm_std::from_slice` reads from what is stored under
/// `id`, or, where nothing is stored, an error whose text tells the key.
#[verifier::external_body]
pub(crate) fn load_address(chain: &Chain, namespace: &str, id: ContractID) -> (address: Result<
    String,
    StdError,
>)
    requires
        bytes::fits(namespace@),
    ensures
        address_view(address) == match bytes::lookup(
            records(*chain, namespace@),
            bytes::big_endian(id as nat, 8),
        ) {
            Some(value) => address_value(value),
            None => Err(missing_address_error(namespace@, id)),
        },
{
    let map: cw_storage_plus::Map<ContractID, cosmwasm_std::Addr> = cw_storage_plus::Map::new(namespace);
    map.load(chain.0.storage, id).map(|address| address.into_string())
}

} // verus!

//! Stored keys and the cursors that they become.
use cosmwasm_std::StdError;
use vstd::prelude::*;
use vstd::utf8::*;

use crate::bytes;
use crate::decimal;
use crate::decimal::decimal_text;
use crate::error::{ContractError, Failure};
use crate::models::ContractID;

verus! {

/// A place in a listing, as a page hands it out: the value that a contract is
/// listed under, as a text, and the number of the contract.
pub type Cursor = (String, ContractID);

/// A cursor with its text as characters.
pub type Place = (Seq<char>, ContractID);

/// What a result that may hold a cursor holds.
pub open spec fn place_view(result: Result<Cursor, ContractError>) -> Result<Place, Failure> {
    match result {
        Ok(cursor) => Ok((cursor.0@, cursor.1)),
        Err(error) => Err(error@),
    }
}

/// Cursors, each with its text as characters.
pub open spec fn places_of(cursors: Seq<Cursor>) -> Seq<Place> {
    cursors.map_values(|cursor: Cursor| (cursor.0@, cursor.1))
}

/// Whether `key` holds as many bytes as the length at its beginning asks for.
pub open spec fn pair_splits(key: Seq<u8>) -> bool {
    key.len() >= 2 && 2 + key[0] * 256 + key[1] <= key.len()
}

/// Whether `key` holds as many bytes as each of its two lengths asks for.
pub open spec fn triple_splits(key: Seq<u8>) -> bool {
    pair_splits(key) && pair_splits(key.skip(2 + key[0] * 256 + key[1]))
}

fn splits_pair(key: &Vec<u8>) -> (splits: bool)
    ensures
        splits == pair_splits(key@),
{
    key.len() >= 2 && key[0] as usize * 256 + key[1] as usize <= key.len() - 2
}

fn splits_triple(key: &Vec<u8>) -> (splits: bool)
    ensures
        splits == triple_splits(key@),
{
    if !splits_pair(key) {
        return false;
    }
    let first: usize = key[0] as usize * 256 + key[1] as usize;
    let rest: usize = key.len() - 2 - first;
    rest >= 2 && key[2 + first] as usize * 256 + key[3 + first] as usize <= rest - 2
}

/// The key of a pair of a `u64` and a contract number.
pub open spec fn u64_key(parts: (u64, ContractID)) -> Seq<u8> {
    bytes::pair_key(bytes::big_endian(parts.0 as nat, 8), parts.1)
}

/// `cw_storage_plus::PrimaryKey::joined_key` of a pair of a `u64` and a contract number.
#[verifier::external_body]
pub(crate) fn encode_u64_key(value: u64, id: ContractID) -> (key: Vec<u8>)
    ensures
        key@ == u64_key((value, id)),
{
    cw_storage_plus::PrimaryKey::joined_key(&(value, id))
}

/// `cw_storage_plus::Prefixer::joined_prefix` of a `u64`: what its keys begin with.
#[verifier::external_body]
pub(crate) fn encode_u64_prefix(value: u64) -> (prefix: Vec<u8>)
    ensures
        prefix@ == bytes::length_prefixed(bytes::big_endian(value as nat, 8)),
{
    cw_storage_plus::Prefixer::joined_prefix(&value)
}

/// The components of a key of `u64` pairs, if `key` is one.
pub open spec fn u64_parts(key: Seq<u8>) -> Option<(u64, ContractID)> {
    if exists|parts: (u64, ContractID)| key == #[trigger] u64_key(parts) {
        Some(choose|parts: (u64, ContractID)| key == #[trigger] u64_key(parts))
    } else {
        None
    }
}

/// Why the bytes of `key` are no key of `u64` pairs.
pub uninterp spec fn u64_key_error(key: Seq<u8>) -> StdError;

/// `cw_storage_plus::KeyDeserialize::from_vec` for keys of `u64` pairs.
/// Panics where a length in the key asks for more bytes than there are.
#[verifier::external_body]
fn decode_u64_key(key: Vec<u8>) -> (parts: Result<(u64, ContractID), StdError>)
    requires
        pair_splits(key@),
    ensures
        match parts {
            Ok(parts) => u64_parts(key@) == Some(parts),
            Err(error) => u64_parts(key@) is None && error == u64_key_error(key@),
        },
{
    <(u64, ContractID) as cw_storage_plus::KeyDeserialize>::from_vec(key)
}

/// The place that a key of `u64` pairs marks, or why it marks none.
pub open spec fn u64_place(key: Seq<u8>) -> Result<Place, Failure> {
    if !pair_splits(key) {
        Err(Failure::MalformedKey(key))
    } else {
        match u64_parts(key) {
            Some(parts) => Ok((decimal::decimal(parts.0 as nat), parts.1)),
            None => Err(Failure::Std(u64_key_error(key))),
        }
    }
}

/// Reads the place that a key of `u64` pairs marks.
pub fn u64_cursor(key: Vec<u8>) -> (cursor: Result<Cursor, ContractError>)
    ensures
        place_view(cursor) == u64_place(key@),
{
    if !splits_pair(&key) {
        return Err(ContractError::MalformedKey { key });
    }
    match decode_u64_key(key) {
        Ok(parts) => Ok((decimal_text(parts.0 as u128), parts.1)),
        Err(error) => Err(ContractError::from(error)),
    }
}

/// The key of a pair of a `u128` and a contract number.
pub open spec fn u128_key(parts: (u128, ContractID)) -> Seq<u8> {
    bytes::pair_key(bytes::big_endian(parts.0 as nat, 16), parts.1)
}

/// `cw_storage_plus::PrimaryKey::joined_key` of a pair of a `u128` and a contract number.
#[verifier::external_body]
pub(crate) fn encode_u128_key(value: u128, id: ContractID) -> (key: Vec<u8>)
    ensures
        key@ == u128_key((value, id)),
{
    cw_storage_plus::PrimaryKey::joined_key(&(value, id))
}

/// `cw_storage_plus::Prefixer::joined_prefix` of a `u128`: what its keys begin with.
#[verifier::external_body]
pub(crate) fn encode_u128_prefix(value: u128) -> (prefix: Vec<u8>)
    ensures
        prefix@ == bytes::length_prefixed(bytes::big_endian(value as nat, 16)),
{
    cw_storage_plus::Prefixer::joined_prefix(&value)
}

/// The components of a key of `u128` pairs, if `key` is one.
pub open spec fn u128_parts(key: Seq<u8>) -> Option<(u128, ContractID)> {
    if exists|parts: (u128, ContractID)| key == #[trigger] u128_key(parts) {
        Some(choose|parts: (u128, ContractID)| key == #[trigger] u128_key(parts))
    } else {
        None
    }
}

/// Why the bytes of `key` are no key of `u128` pairs.
pub uninterp spec fn u128_key_error(key: Seq<u8>) -> StdError;

/// `cw_storage_plus::KeyDeserialize::from_vec` for keys of `u128` pairs.
/// Panics where a length in the key asks for more bytes than there are.
#[verifier::external_body]
fn decode_u128_key(key: Vec<u8>) -> (parts: Result<(u128, ContractID), StdError>)
    requires
        pair_splits(key@),
    ensures
        match parts {
            Ok(parts) => u128_parts(key@) == Some(parts),
            Err(error) => u128_parts(key@) is None && error == u128_key_error(key@),
        },
{
    <(u128, ContractID) as cw_storage_plus::KeyDeserialize>::from_vec(key)
}

/// The place that a key of `u128` pairs marks, or why it marks none.
pub open spec fn u128_place(key: Seq<u8>) -> Result<Place, Failure> {
    if !pair_splits(key) {
        Err(Failure::MalformedKey(key))
    } else {
        match u128_parts(key) {
            Some(parts) => Ok((decimal::decimal(parts.0 as nat), parts.1)),
            None => Err(Failure::Std(u128_key_error(key))),
        }
    }
}

/// Reads the place that a key of `u128` pairs marks.
pub fn u128_cursor(key: Vec<u8>) -> (cursor: Result<Cursor, ContractError>)
    ensures
        place_view(cursor) == u128_place(key@),
{
    if !splits_pair(&key) {
        return Err(ContractError::MalformedKey { key });
    }
    match decode_u128_key(key) {
        Ok(parts) => Ok((decimal_text(parts.0), parts.1)),
        Err(error) => Err(ContractError::from(error)),
    }
}

/// The key of a pair of a `u8` and a contract number.
pub open spec fn u8_key(parts: (u8, ContractID)) -> Seq<u8> {
    bytes::pair_key(bytes::big_endian(parts.0 as nat, 1), parts.1)
}

/// `cw_storage_plus::PrimaryKey::joined_key` of a pair of a `u8` and a contract number.
#[verifier::external_body]
pub(crate) fn encode_u8_key(value: u8, id: ContractID) -> (key: Vec<u8>)
    ensures
        key@ == u8_key((value, id)),
{
    cw_storage_plus::PrimaryKey::joined_key(&(value, id))
}

/// `cw_storage_plus::Prefixer::joined_prefix` of a `u8`: what its keys begin with.
#[verifier::external_body]
pub(crate) fn encode_u8_prefix(value: u8) -> (prefix: Vec<u8>)
    ensures
        prefix@ == bytes::length_prefixed(bytes::big_endian(value as nat, 1)),
{
    cw_storage_plus::Prefixer::joined_prefix(&value)
}

/// The components of a key of `u8` pairs, if `key` is one.
pub open spec fn u8_parts(key: Seq<u8>) -> Option<(u8, ContractID)> {
    if exists|parts: (u8, ContractID)| key == #[trigger] u8_key(parts) {
        Some(choose|parts: (u8, ContractID)| key == #[trigger] u8_key(parts))
    } else {
        None
    }
}

/// Why the bytes of `key` are no key of `u8` pairs.
pub uninterp spec fn u8_key_error(key: Seq<u8>) -> StdError;

/// `cw_storage_plus::KeyDeserialize::from_vec` for keys of `u8` pairs.
/// Panics where a length in the key asks for more bytes than there are.
#[verifier::external_body]
fn decode_u8_key(key: Vec<u8>) -> (parts: Result<(u8, ContractID), StdError>)
    requires
        pair_splits(key@),
    ensures
        match parts {
            Ok(parts) => u8_parts(key@) == Some(parts),
            Err(error) => u8_parts(key@) is None && error == u8_key_error(key@),
        },
{
    <(u8, ContractID) as cw_storage_plus::KeyDeserialize>::from_vec(key)
}

/// The place that a key of `u8` pairs marks, or why it marks none.
pub open spec fn u8_place(key: Seq<u8>) -> Result<Place, Failure> {
    if !pair_splits(key) {
        Err(Failure::MalformedKey(key))
    } else {
        match u8_parts(key) {
            Some(parts) => Ok((decimal::decimal(parts.0 as nat), parts.1)),
            None => Err(Failure::Std(u8_key_error(key))),
        }
    }
}

/// Reads the place that a key of `u8` pairs marks.
pub fn u8_cursor(key: Vec<u8>) -> (cursor: Result<Cursor, ContractError>)
    ensures
        place_view(cursor) == u8_place(key@),
{
    if !splits_pair(&key) {
        return Err(ContractError::MalformedKey { key });
    }
    match decode_u8_key(key) {
        Ok(parts) => Ok((decimal_text(parts.0 as u128), parts.1)),
        Err(error) => Err(ContractError::from(error)),
    }
}

/// The key of a pair of a text and a contract number.
pub open spec fn text_key(parts: Place) -> Seq<u8> {
    bytes::pair_key(encode_utf8(parts.0), parts.1)
}

/// `cw_storage_plus::PrimaryKey::joined_key` of a pair of a text and a contract
/// number. Panics where the text is too long for a component.
#[verifier::external_body]
pub(crate) fn encode_text_key(text: &String, id: ContractID) -> (key: Vec<u8>)
    requires
        bytes::fits(text@),
    ensures
        key@ == text_key((text@, id)),
{
    cw_storage_plus::PrimaryKey::joined_key(&(text.clone(), id))
}

/// `cw_storage_plus::Prefixer::joined_prefix` of a text: what its keys begin
/// with. Panics where the text is too long for a component.
#[verifier::external_body]
pub(crate) fn encode_text_prefix(text: &String) -> (prefix: Vec<u8>)
    requires
        bytes::fits(text@),
    ensures
        prefix@ == bytes::length_prefixed(encode_utf8(text@)),
{
    cw_storage_plus::Prefixer::joined_prefix(text)
}

/// The components of a key of text pairs, if `key` is one.
pub open spec fn text_parts(key: Seq<u8>) -> Option<Place> {
    if exists|parts: Place| bytes::fits(parts.0) && key == #[trigger] text_key(parts) {
        Some(choose|parts: Place| bytes::fits(parts.0) && key == #[trigger] text_key(parts))
    } else {
        None
    }
}

/// Why the bytes of `key` are no key of text pairs.
pub uninterp spec fn text_key_error(key: Seq<u8>) -> StdError;

/// `cw_storage_plus::KeyDeserialize::from_vec` for keys of text pairs.
/// Panics where a length in the key asks for more bytes than there are.
#[verifier::external_body]
fn decode_text_key(key: Vec<u8>) -> (parts: Result<(String, ContractID), StdError>)
    requires
        pair_splits(key@),
    ensures
        match parts {
            Ok(parts) => text_parts(key@) == Some((parts.0@, parts.1)),
            Err(error) => text_parts(key@) is None && error == text_key_error(key@),
        },
{
    <(String, ContractID) as cw_storage_plus::KeyDeserialize>::from_vec(key)
}

/// The place that a key of text pairs marks, or why it marks none.
pub open spec fn text_place(key: Seq<u8>) -> Result<Place, Failure> {
    if !pair_splits(key) {
        Err(Failure::MalformedKey(key))
    } else {
        match text_parts(key) {
            Some(parts) => Ok((parts.0, parts.1)),
            None => Err(Failure::Std(text_key_error(key))),
        }
    }
}

/// Reads the place that a key of text pairs marks.
pub fn text_cursor(key: Vec<u8>) -> (cursor: Result<Cursor, ContractError>)
    ensures
        place_view(cursor) == text_place(key@),
{
    if !splits_pair(&key) {
        return Err(ContractError::MalformedKey { key });
    }
    match decode_text_key(key) {
        Ok(parts) => Ok((parts.0, parts.1)),
        Err(error) => Err(ContractError::from(error)),
    }
}

/// The key of a relationship: its subject, its name and a contract number.
pub open spec fn relation_key(parts: (Seq<char>, Seq<char>, ContractID)) -> Seq<u8> {
    bytes::triple_key(encode_utf8(parts.0), encode_utf8(parts.1), parts.2)
}

/// The bytes that the keys of a relationship begin with.
pub open spec fn relation_prefix(subject: Seq<char>, name: Seq<char>) -> Seq<u8> {
    bytes::length_prefixed(encode_utf8(subject)) + bytes::length_prefixed(encode_utf8(name))
}

/// `cw_storage_plus::PrimaryKey::joined_key` of a subject, the name of a
/// relationship and a contract number. Panics where one of the texts is too
/// long for a component.
#[verifier::external_body]
pub(crate) fn encode_relation_key(subject: &String, name: &String, id: ContractID) -> (key: Vec<u8>)
    requires
        bytes::fits(subject@),
        bytes::fits(name@),
    ensures
        key@ == relation_key((subject@, name@, id)),
{
    cw_storage_plus::PrimaryKey::joined_key(&(subject.clone(), name.clone(), id))
}

/// `cw_storage_plus::Prefixer::joined_prefix` of a subject and the name of a
/// relationship: what the keys of the relationship begin with. Panics where
/// one of the texts is too long for a component.
#[verifier::external_body]
pub(crate) fn encode_relation_prefix(subject: &String, name: &String) -> (prefix: Vec<u8>)
    requires
        bytes::fits(subject@),
        bytes::fits(name@),
    ensures
        prefix@ == relation_prefix(subject@, name@),
{
    cw_storage_plus::Prefixer::joined_prefix(&(subject.clone(), name.clone()))
}

/// The components of a key of relationships, if `key` is one.
pub open spec fn relation_parts(key: Seq<u8>) -> Option<(Seq<char>, Seq<char>, ContractID)> {
    if exists|parts: (Seq<char>, Seq<char>, ContractID)|
        bytes::fits(parts.0) && bytes::fits(parts.1) && key == #[trigger] relation_key(parts) {
        Some(
            choose|parts: (Seq<char>, Seq<char>, ContractID)|
                bytes::fits(parts.0) && bytes::fits(parts.1) && key == #[trigger] relation_key(parts),
        )
    } else {
        None
    }
}

/// Why the bytes of `key` are no key of relationships.
pub uninterp spec fn relation_key_error(key: Seq<u8>) -> StdError;

/// `cw_storage_plus::KeyDeserialize::from_vec` for keys of relationships.
/// Panics where a length in the key asks for more bytes than there are.
#[verifier::external_body]
fn decode_relation_key(key: Vec<u8>) -> (parts: Result<(String, String, ContractID), StdError>)
    requires
        triple_splits(key@),
    ensures
        match parts {
            Ok(parts) => relation_parts(key@) == Some((parts.0@, parts.1@, parts.2)),
            Err(error) => relation_parts(key@) is None && error == relation_key_error(key@),
        },
{
    <(String, String, ContractID) as cw_storage_plus::KeyDeserialize>::from_vec(key)
}

/// The place that a key of relationships marks, or why it marks none.
pub open spec fn relation_place(key: Seq<u8>) -> Result<Place, Failure> {
    if !triple_splits(key) {
        Err(Failure::MalformedKey(key))
    } else {
        match relation_parts(key) {
            Some(parts) => Ok((parts.1, parts.2)),
            None => Err(Failure::Std(relation_key_error(key))),
        }
    }
}

/// Reads the place that a key of relationships marks.
pub fn relation_cursor(key: Vec<u8>) -> (cursor: Result<Cursor, ContractError>)
    ensures
        place_view(cursor) == relation_place(key@),
{
    if !splits_triple(&key) {
        return Err(ContractError::MalformedKey { key });
    }
    match decode_relation_key(key) {
        Ok(parts) => Ok((parts.1, parts.2)),
        Err(error) => Err(ContractError::from(error)),
    }
}

/// The address that is the whole of `key`, if `key` is the bytes of a text.
pub open spec fn address_parts(key: Seq<u8>) -> Option<Seq<char>> {
    if exists|address: Seq<char>| key == #[trigger] encode_utf8(address) {
        Some(choose|address: Seq<char>| key == #[trigger] encode_utf8(address))
    } else {
        None
    }
}

/// `cw_storage_plus::PrimaryKey::joined_key` of an address, which is the whole key.
#[verifier::external_body]
pub(crate) fn encode_address_key(address: &String) -> (key: Vec<u8>)
    ensures
        key@ == encode_utf8(address@),
{
    cw_storage_plus::PrimaryKey::joined_key(address)
}

/// Why the bytes of `key` are no address.
pub uninterp spec fn address_key_error(key: Seq<u8>) -> StdError;

/// `cw_storage_plus::KeyDeserialize::from_vec` for keys that are addresses.
#[verifier::external_body]
pub(crate) fn decode_address_key(key: Vec<u8>) -> (address: Result<String, StdError>)
    ensures
        match address {
            Ok(address) => address_parts(key@) == Some(address@),
            Err(error) => address_parts(key@) is None && error == address_key_error(key@),
        },
{
    <cosmwasm_std::Addr as cw_storage_plus::KeyDeserialize>::from_vec(key).map(|a| a.into_string())
}

/// The kinds of keys that indices are kept under.
#[derive(Clone, Copy, Debug, PartialEq, Eq, Structural)]
pub enum KeyKind {
    U64,
    U128,
    U8,
    Text,
    Relation,
}

/// The place that a key of the given kind marks, or why it marks none.
pub open spec fn place_of(kind: KeyKind, key: Seq<u8>) -> Result<Place, Failure> {
    match kind {
        KeyKind::U64 => u64_place(key),
        KeyKind::U128 => u128_place(key),
        KeyKind::U8 => u8_place(key),
        KeyKind::Text => text_place(key),
        KeyKind::Relation => relation_place(key),
    }
}

/// Reads the place that a key of the given kind marks.
pub fn key_cursor(kind: KeyKind, key: Vec<u8>) -> (cursor: Result<Cursor, ContractError>)
    ensures
        place_view(cursor) == place_of(kind, key@),
{
    match kind {
        KeyKind::U64 => u64_cursor(key),
        KeyKind::U128 => u128_cursor(key),
        KeyKind::U8 => u8_cursor(key),
        KeyKind::Text => text_cursor(key),
        KeyKind::Relation => relation_cursor(key),
    }
}

} // verus!

//! Reading contracts: by an index, by a tag, or by a relationship, page by page.
use cosmwasm_std::StdError;
use vstd::prelude::*;
use vstd::string::*;

use crate::bytes;
use crate::bytes::fits_key;
use crate::error::{ContractError, Failure};
use crate::keys::{Cursor, KeyKind, Place};
use crate::layout;
use crate::layout::{index_at, Layout};
use crate::metadata;
use crate::metadata::paginate_metadata;
use crate::models::{Between, ContractMetadata, IndexBounds, Order};
use crate::page;
use crate::page::{build_contracts_page, Page, PageView, Selection, SelectionView, Since};
use crate::pagination;
use crate::pagination::{
    paginate_addr_index, paginate_bool_index, paginate_str_index, paginate_ts_index,
    paginate_u128_index, paginate_u64_index, read_relationship, read_tags, text_limits,
};
use crate::store::Chain;
use crate::text;
use crate::text::validate_address;
use crate::window;
use crate::window::Window;
use crate::wire;

verus! {

/// The fewest contracts that a page can be asked for.
pub const MIN_LIMIT: u32 = 1;

/// The most contracts that a page can be asked for.
pub const MAX_LIMIT: u32 = 50;

/// The number of contracts of a page where no other is asked for.
pub const DEFAULT_LIMIT: u32 = 25;

/// Which contracts to read.
#[derive(Debug)]
pub enum Target {
    /// Those of an index.
    Index(IndexBounds),
    /// Those that carry a tag.
    Tag(String),
    /// Those in a relationship, given by its subject and its name.
    Relationship((String, String)),
}

/// The number of contracts that are listed where `limit` are asked for.
pub open spec fn limit_of(limit: Option<u32>) -> u32 {
    match limit {
        None => DEFAULT_LIMIT,
        Some(limit) => if limit < MIN_LIMIT {
            MIN_LIMIT
        } else if limit > MAX_LIMIT {
            MAX_LIMIT
        } else {
            limit
        },
    }
}

/// The order in which contracts are listed.
pub open spec fn order_of(desc: Option<bool>) -> Order {
    if desc == Some(true) {
        Order::Descending
    } else {
        Order::Ascending
    }
}

/// Clamps a limit that was asked for to what a page can hold.
pub fn clamp_limit(limit: Option<u32>) -> (clamped: u32)
    ensures
        clamped == limit_of(limit),
        MIN_LIMIT <= clamped <= MAX_LIMIT,
{
    let limit = limit.unwrap_or(DEFAULT_LIMIT);
    if limit < MIN_LIMIT {
        MIN_LIMIT
    } else if limit > MAX_LIMIT {
        MAX_LIMIT
    } else {
        limit
    }
}

/// The namespace of what a target is read from, or why there is none.
pub open spec fn namespace_of(layout: Layout, target: Target) -> Result<Seq<char>, Failure> {
    match target {
        Target::Index(bounds) => match bounds {
            IndexBounds::Address { .. } => Ok(layout.metadata@),
            IndexBounds::CreatedBy { .. } => Ok(layout.ix_created_by@),
            IndexBounds::CreatedAt { .. } => Ok(layout.ix_created_at@),
            IndexBounds::UpdatedAt { .. } => Ok(layout.ix_updated_at@),
            IndexBounds::Rev { .. } => Ok(layout.ix_rev@),
            IndexBounds::CodeId { .. } => Ok(layout.ix_code_id@),
            IndexBounds::Height { .. } => Ok(layout.ix_height@),
            IndexBounds::Uint64 { slot, .. } => layout::namespace_at(layout.u64_indices@, slot),
            IndexBounds::Uint128 { slot, .. } => layout::namespace_at(layout.u128_indices@, slot),
            IndexBounds::Text { slot, .. } => layout::namespace_at(layout.text_indices@, slot),
            IndexBounds::Timestamp { slot, .. } => {
                layout::namespace_at(layout.timestamp_indices@, slot)
            },
            IndexBounds::Boolean { slot, .. } => layout::namespace_at(layout.bool_indices@, slot),
        },
        Target::Tag(_) => Ok(layout.tagged_contract_ids@),
        Target::Relationship(_) => Ok(layout.relationships@),
    }
}

/// The kind of the keys that a target is read by.
pub open spec fn kind_of(target: Target) -> KeyKind {
    match target {
        Target::Index(bounds) => match bounds {
            IndexBounds::Address { .. } => KeyKind::Text,
            IndexBounds::CreatedBy { .. } => KeyKind::Text,
            IndexBounds::Text { .. } => KeyKind::Text,
            IndexBounds::Uint128 { .. } => KeyKind::U128,
            IndexBounds::Boolean { .. } => KeyKind::U8,
            _ => KeyKind::U64,
        },
        Target::Tag(_) => KeyKind::Text,
        Target::Relationship(_) => KeyKind::Relation,
    }
}

/// The part of an index that a target asks for.
pub open spec fn window_of(
    chain: Chain,
    target: Target,
    order: Order,
    cursor: Option<Place>,
) -> Window {
    match target {
        Target::Index(bounds) => match bounds {
            IndexBounds::Address { equals, between } => window::metadata_window(
                window::text_view(equals),
                window::text_between(between),
                order,
                cursor,
                text::at_address(chain, cursor),
            ),
            IndexBounds::CreatedBy { equals, between } => window::address_window(
                window::text_view(equals),
                window::text_between(between),
                order,
                cursor,
                text::at_address(chain, cursor),
            ),
            IndexBounds::CreatedAt { equals, between } => window::u64_window(
                window::nanos_view(equals),
                window::nanos_between(between),
                order,
                cursor,
            ),
            IndexBounds::UpdatedAt { equals, between } => window::u64_window(
                window::nanos_view(equals),
                window::nanos_between(between),
                order,
                cursor,
            ),
            IndexBounds::Timestamp { equals, between, .. } => window::u64_window(
                window::nanos_view(equals),
                window::nanos_between(between),
                order,
                cursor,
            ),
            IndexBounds::Rev { equals, between } => {
                window::u64_window(equals, between, order, cursor)
            },
            IndexBounds::CodeId { equals, between } => {
                window::u64_window(equals, between, order, cursor)
            },
            IndexBounds::Height { equals, between } => {
                window::u64_window(equals, between, order, cursor)
            },
            IndexBounds::Uint64 { equals, between, .. } => {
                window::u64_window(equals, between, order, cursor)
            },
            IndexBounds::Uint128 { equals, between, .. } => {
                window::u128_window(equals, between, order, cursor)
            },
            IndexBounds::Text { equals, between, .. } => window::text_window(
                window::text_view(equals),
                window::text_between(between),
                order,
                cursor,
            ),
            IndexBounds::Boolean { start, stop, .. } => {
                window::bool_window(start, stop, order, cursor)
            },
        },
        Target::Tag(tag) => window::tag_window(tag@, order, cursor),
        Target::Relationship((subject, name)) => {
            window::relation_window(subject@, name@, order, cursor)
        },
    }
}

/// Whether a target is read from the metadata of the contracts, and not from
/// an index.
pub open spec fn is_by_address(target: Target) -> bool {
    target matches Target::Index(bounds) && bounds is Address
}

/// Whether listing the contracts of a target can end in `listing`.
pub open spec fn can_list<P>(
    chain: Chain,
    layout: Layout,
    parse: P,
    target: Target,
    order: Order,
    limit: u32,
    cursor: Option<Place>,
    listing: Result<Seq<Place>, Failure>,
) -> bool where P: Fn(Vec<u8>) -> Result<ContractMetadata, StdError> {
    match namespace_of(layout, target) {
        Err(failure) => listing == Err::<Seq<Place>, Failure>(failure),
        Ok(namespace) => if is_by_address(target) {
            metadata::lists(
                chain,
                namespace,
                parse,
                window_of(chain, target, order, cursor),
                order,
                limit,
                listing,
            )
        } else {
            pagination::lists(
                chain,
                namespace,
                kind_of(target),
                window_of(chain, target, order, cursor),
                order,
                limit,
                listing,
            )
        },
    }
}

/// Whether the texts that a listing of a target sets its ends by can be
/// components of keys. Addresses that are whole keys, and numbers, set no such
/// limit.
pub open spec fn limits_fit(
    chain: Chain,
    layout: Layout,
    target: Target,
    cursor: Option<Place>,
) -> bool {
    match target {
        Target::Index(bounds) => match bounds {
            IndexBounds::CreatedBy { equals, between } => window::limits_fit(
                window::text_view(equals),
                window::text_between(between),
                cursor,
                window::cursor_address(cursor, text::at_address(chain, cursor)),
            ),
            IndexBounds::Text { slot, equals, between } => slot < layout.text_indices@.len()
                ==> window::limits_fit(
                window::text_view(equals),
                window::text_between(between),
                cursor,
                window::cursor_text(cursor),
            ),
            _ => true,
        },
        Target::Tag(tag) => bytes::fits(match cursor {
            Some((tag, _)) => tag,
            None => tag@,
        }),
        Target::Relationship((subject, name)) => bytes::fits(subject@) && bytes::fits(match cursor {
            Some((name, _)) => name,
            None => name@,
        }),
    }
}

fn text_is_fitting(text: &Option<String>) -> (is_fitting: bool)
    ensures
        is_fitting == window::text_fits(window::text_view(*text)),
{
    match text {
        Some(text) => fits_key(text.as_str()),
        None => true,
    }
}

/// Tells whether the texts that a listing of texts begins and stops at, anew
/// or after a cursor whose text `after` is, can be components of keys.
fn texts_are_fitting(
    equals: &Option<String>,
    between: &Option<Between<String>>,
    cursor: &Option<Cursor>,
    after: &Option<String>,
) -> (is_fitting: bool)
    ensures
        is_fitting == window::limits_fit(
            window::text_view(*equals),
            window::text_between(*between),
            window::cursor_view(*cursor),
            window::text_view(*after),
        ),
{
    let (start, stop, _) = text_limits(clone_text(equals), clone_between(between));
    text_is_fitting(&stop) && if cursor.is_some() {
        text_is_fitting(after)
    } else {
        text_is_fitting(&start)
    }
}

/// Tells whether the texts that a listing of a target sets its ends by can be
/// components of keys.
pub fn limits_are_fitting(
    chain: &Chain,
    layout: &Layout,
    target: &Target,
    cursor: &Option<Cursor>,
) -> (is_fitting: bool)
    ensures
        is_fitting == limits_fit(*chain, *layout, *target, window::cursor_view(*cursor)),
{
    match target {
        Target::Index(IndexBounds::CreatedBy { equals, between }) => {
            let after = match cursor {
                Some((text, _)) => validate_address(chain, text.as_str()),
                None => None,
            };
            texts_are_fitting(equals, between, cursor, &after)
        },
        Target::Index(IndexBounds::Text { slot, equals, between }) => {
            let after = match cursor {
                Some((text, _)) => Some(text.clone()),
                None => None,
            };
            (*slot as usize) >= layout.text_indices.len() || texts_are_fitting(
                equals,
                between,
                cursor,
                &after,
            )
        },
        Target::Index(_) => true,
        Target::Tag(tag) => match cursor {
            Some((tag, _)) => fits_key(tag.as_str()),
            None => fits_key(tag.as_str()),
        },
        Target::Relationship((subject, name)) => fits_key(subject.as_str()) && match cursor {
            Some((name, _)) => fits_key(name.as_str()),
            None => fits_key(name.as_str()),
        },
    }
}

fn clone_text(text: &Option<String>) -> (clone: Option<String>)
    ensures
        window::text_view(clone) == window::text_view(*text),
{
    match text {
        Some(text) => Some(text.clone()),
        None => None,
    }
}

fn clone_between(between: &Option<Between<String>>) -> (clone: Option<Between<String>>)
    ensures
        window::text_between(clone) == window::text_between(*between),
{
    match between {
        Some((lower, upper)) => Some((clone_text(lower), clone_text(upper))),
        None => None,
    }
}

/// Lists the contracts of an index.
pub fn read_index<P>(
    chain: &Chain,
    layout: &Layout,
    parse: &P,
    bounds: &IndexBounds,
    order: Order,
    limit: u32,
    cursor: Option<Cursor>,
) -> (listing: Result<Vec<Cursor>, ContractError>) where
    P: Fn(Vec<u8>) -> Result<ContractMetadata, StdError>,

    requires
        layout.valid(),
        limits_fit(*chain, *layout, Target::Index(*bounds), window::cursor_view(cursor)),
        forall|document: Vec<u8>| call_requires(*parse, (document,)),
    ensures
        can_list(
            *chain,
            *layout,
            *parse,
            Target::Index(*bounds),
            order,
            limit,
            window::cursor_view(cursor),
            pagination::places_view(listing),
        ),
{
    match bounds {
        IndexBounds::Address { equals, between } => paginate_metadata(
            chain,
            layout.metadata.as_str(),
            parse,
            cursor,
            clone_text(equals),
            clone_between(between),
            order,
            limit,
        ),
        IndexBounds::CreatedBy { equals, between } => paginate_addr_index(
            chain,
            layout.ix_created_by.as_str(),
            clone_text(equals),
            clone_between(between),
            order,
            limit,
            cursor,
        ),
        IndexBounds::CreatedAt { equals, between } => paginate_ts_index(
            chain,
            layout.ix_created_at.as_str(),
            *equals,
            *between,
            order,
            limit,
            cursor,
        ),
        IndexBounds::UpdatedAt { equals, between } => paginate_ts_index(
            chain,
            layout.ix_updated_at.as_str(),
            *equals,
            *between,
            order,
            limit,
            cursor,
        ),
        IndexBounds::Uint64 { slot, equals, between } => {
            match index_at(&layout.u64_indices, *slot) {
                Ok(namespace) => paginate_u64_index(
                    chain,
                    namespace.as_str(),
                    *equals,
                    *between,
                    order,
                    limit,
                    cursor,
                ),
                Err(error) => Err(error),
            }
        },
        IndexBounds::Text { slot, equals, between } => {
            match index_at(&layout.text_indices, *slot) {
                Ok(namespace) => paginate_str_index(
                    chain,
                    namespace.as_str(),
                    clone_text(equals),
                    clone_between(between),
                    order,
                    limit,
                    cursor,
                ),
                Err(error) => Err(error),
            }
        },
        IndexBounds::Timestamp { slot, equals, between } => {
            match index_at(&layout.timestamp_indices, *slot) {
                Ok(namespace) => paginate_ts_index(
                    chain,
                    namespace.as_str(),
                    *equals,
                    *between,
                    order,
                    limit,
                    cursor,
                ),
                Err(error) => Err(error),
            }
        },
        IndexBounds::Rev { equals, between } => paginate_u64_index(
            chain,
            layout.ix_rev.as_str(),
            *equals,
            *between,
            order,
            limit,
            cursor,
        ),
        IndexBounds::CodeId { equals, between } => paginate_u64_index(
            chain,
            layout.ix_code_id.as_str(),
            *equals,
            *between,
            order,
            limit,
            cursor,
        ),
        IndexBounds::Height { equals, between } => paginate_u64_index(
            chain,
            layout.ix_height.as_str(),
            *equals,
            *between,
            order,
            limit,
            cursor,
        ),
        IndexBounds::Boolean { slot, start, stop } => {
            match index_at(&layout.bool_indices, *slot) {
                Ok(namespace) => paginate_bool_index(
                    chain,
                    namespace.as_str(),
                    *start,
                    *stop,
                    order,
                    limit,
                    cursor,
                ),
                Err(error) => Err(error),
            }
        },
        IndexBounds::Uint128 { slot, equals, between } => {
            match index_at(&layout.u128_indices, *slot) {
                Ok(namespace) => paginate_u128_index(
                    chain,
                    namespace.as_str(),
                    *equals,
                    *between,
                    order,
                    limit,
                    cursor,
                ),
                Err(error) => Err(error),
            }
        },
    }
}

/// Lists the contracts of a target.
pub fn read_target<P>(
    chain: &Chain,
    layout: &Layout,
    parse: &P,
    target: &Target,
    order: Order,
    limit: u32,
    cursor: Option<Cursor>,
) -> (listing: Result<Vec<Cursor>, ContractError>) where
    P: Fn(Vec<u8>) -> Result<ContractMetadata, StdError>,

    requires
        layout.valid(),
        limits_fit(*chain, *layout, *target, window::cursor_view(cursor)),
        forall|document: Vec<u8>| call_requires(*parse, (document,)),
    ensures
        can_list(
            *chain,
            *layout,
            *parse,
            *target,
            order,
            limit,
            window::cursor_view(cursor),
            pagination::places_view(listing),
        ),
{
    match target {
        Target::Index(bounds) => read_index(chain, layout, parse, bounds, order, limit, cursor),
        Target::Tag(tag) => read_tags(
            chain,
            layout.tagged_contract_ids.as_str(),
            tag,
            order,
            limit,
            cursor,
        ),
        Target::Relationship((subject, name)) => read_relationship(
            chain,
            layout.relationships.as_str(),
            subject,
            name,
            order,
            limit,
            cursor,
        ),
    }
}

/// Whether reading a page of a target can end in `outcome`.
pub open spec fn can_read<P>(
    chain: Chain,
    layout: Layout,
    parse: P,
    target: Target,
    order: Order,
    limit: u32,
    selection: SelectionView,
    cursor: Option<Place>,
    outcome: Result<PageView, Failure>,
) -> bool where P: Fn(Vec<u8>) -> Result<ContractMetadata, StdError> {
    exists|listing: Result<Seq<Place>, Failure>|
        {
            &&& #[trigger] can_list(
                chain,
                layout,
                parse,
                target,
                order,
                limit,
                cursor,
                listing,
            )
            &&& match listing {
                Ok(places) => page::can_build(chain, layout, parse, selection, places, outcome),
                Err(failure) => outcome == Err::<PageView, Failure>(failure),
            }
        }
}

/// Reads a page of contracts.
///
/// `parse` reads a stored document as the metadata of a contract.
pub fn read<P>(
    chain: &Chain,
    layout: &Layout,
    parse: &P,
    target: &Target,
    maybe_desc: Option<bool>,
    maybe_limit: Option<u32>,
    maybe_fields: Option<Vec<String>>,
    maybe_since: Option<Since>,
    maybe_meta: Option<bool>,
    maybe_wallet: Option<String>,
    maybe_cursor: Option<Cursor>,
) -> (page: Result<Page, ContractError>) where
    P: Fn(Vec<u8>) -> Result<ContractMetadata, StdError>,

    requires
        layout.valid(),
        limits_fit(*chain, *layout, *target, window::cursor_view(maybe_cursor)),
        forall|document: Vec<u8>| call_requires(*parse, (document,)),
    ensures
        can_read(
            *chain,
            *layout,
            *parse,
            *target,
            order_of(maybe_desc),
            limit_of(maybe_limit),
            (SelectionView {
                fields: wire::fields_view(maybe_fields),
                since: maybe_since,
                meta: maybe_meta == Some(true),
                wallet: window::text_view(maybe_wallet),
            }),
            window::cursor_view(maybe_cursor),
            page::page_view(page),
        ),
{
    let limit = clamp_limit(maybe_limit);
    let order = if maybe_desc.unwrap_or(false) {
        Order::Descending
    } else {
        Order::Ascending
    };
    let selection = Selection {
        fields: maybe_fields,
        since: maybe_since,
        meta: maybe_meta.unwrap_or(false),
        wallet: maybe_wallet,
    };
    let listing = read_target(chain, layout, parse, target, order, limit, maybe_cursor);
    assert(can_list(
        *chain,
        *layout,
        *parse,
        *target,
        order,
        limit,
        window::cursor_view(maybe_cursor),
        pagination::places_view(listing),
    ));
    match listing {
        Ok(listing) => build_contracts_page(chain, layout, parse, &selection, &listing),
        Err(error) => Err(error),
    }
}

} // verus!

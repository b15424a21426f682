//! What the contracts of this library say of a value is all that the value holds.
use cosmwasm_std::StdError;
use vstd::prelude::*;

use crate::error::{ContractError, Failure};
use crate::keys;
use crate::keys::{Cursor, Place};
use crate::metadata;
use crate::models::{ContractMetadata, MetadataView, Timestamp};
use crate::page;
use crate::page::{EntityContractEnvelope, EnvelopeView, Page, PageView, Selection};
use crate::pagination;
use crate::window;
use crate::wire;

verus! {

/// A cursor is told by its text and its number.
pub proof fn cursors_are_told_in_full(cursor: Cursor)
    ensures
        window::cursor_view(Some(cursor)) == Some((cursor.0@, cursor.1)),
        window::cursor_view(None) is None,
{
}

/// A listing is told by all of its cursors, one by one.
pub proof fn listings_are_told_in_full(cursors: Vec<Cursor>, cursor: Cursor, error: ContractError)
    ensures
        keys::place_view(Ok(cursor)) == Ok::<Place, Failure>((cursor.0@, cursor.1)),
        keys::place_view(Err(error)) == Err::<Place, Failure>(error@),
        keys::places_of(cursors@).len() == cursors@.len(),
        forall|i: int|
            0 <= i < cursors@.len() ==> #[trigger] keys::places_of(cursors@)[i] == (
                cursors@[i].0@,
                cursors@[i].1,
            ),
        pagination::places_view(Ok(cursors)) == Ok::<Seq<Place>, Failure>(keys::places_of(cursors@)),
        pagination::places_view(Err(error)) == Err::<Seq<Place>, Failure>(error@),
{
}

/// An error is told by its kind and what it holds.
pub proof fn errors_are_told_in_full(error: ContractError)
    ensures
        match error {
            ContractError::Std(cause) => error@ == Failure::Std(cause),
            ContractError::QueryStateError { msg } => error@ == Failure::QueryState(msg@),
            ContractError::IndexNotFound { slot } => error@ == Failure::IndexNotFound(slot),
            ContractError::MalformedKey { key } => error@ == Failure::MalformedKey(key@),
        },
{
}

/// Metadata is told by all of its fields.
pub proof fn metadata_is_told_in_full(known: ContractMetadata, error: ContractError)
    ensures
        known@.id == known.id,
        known@.rev == known.rev,
        known@.code_id == known.code_id,
        known@.height == known.height,
        known@.created_at == known.created_at,
        known@.created_by == known.created_by@,
        known@.updated_at == known.updated_at,
        metadata::meta_view(Some(known)) == Some(known@),
        metadata::meta_view(None) is None,
        metadata::loaded_view(Ok(Some(known))) == Ok::<Option<MetadataView>, Failure>(Some(known@)),
        metadata::loaded_view(Ok(None)) == Ok::<Option<MetadataView>, Failure>(None),
        metadata::loaded_view(Err(error)) == Err::<Option<MetadataView>, Failure>(error@),
        metadata::parsed_view(Ok(known)) == Ok::<MetadataView, StdError>(known@),
{
}

/// An envelope is told by its address, its metadata and its state.
pub proof fn envelopes_are_told_in_full(envelope: EntityContractEnvelope, error: ContractError)
    ensures
        envelope@.address == envelope.address@,
        match envelope.meta {
            Some(known) => envelope@.meta == Some(known@),
            None => envelope@.meta is None,
        },
        match envelope.state {
            Some(state) => envelope@.state == Some(state@),
            None => envelope@.state is None,
        },
        page::visit_view(Ok(Some(envelope))) == Ok::<Option<EnvelopeView>, Failure>(
            Some(envelope@),
        ),
        page::visit_view(Ok(None)) == Ok::<Option<EnvelopeView>, Failure>(None),
        page::visit_view(Err(error)) == Err::<Option<EnvelopeView>, Failure>(error@),
{
}

/// A page is told by all of its envelopes, one by one, and its cursor.
pub proof fn pages_are_told_in_full(page: Page, error: ContractError)
    ensures
        page@.page.len() == page.page@.len(),
        forall|i: int|
            0 <= i < page.page@.len() ==> #[trigger] page@.page[i] == page.page@[i]@,
        match page.cursor {
            Some(cursor) => page@.cursor == Some((cursor.0@, cursor.1)),
            None => page@.cursor is None,
        },
        page::page_view(Ok(page)) == Ok::<PageView, Failure>(page@),
        page::page_view(Err(error)) == Err::<PageView, Failure>(error@),
{
}

/// A selection is told by all that it asks for.
pub proof fn selections_are_told_in_full(selection: Selection)
    ensures
        match selection.fields {
            Some(fields) => selection@.fields is Some && (selection@.fields->0).len()
                == fields@.len() && forall|i: int|
                0 <= i < fields@.len() ==> #[trigger] (selection@.fields->0)[i] == fields@[i]@,
            None => selection@.fields is None,
        },
        selection@.since == selection.since,
        selection@.meta == selection.meta,
        match selection.wallet {
            Some(wallet) => selection@.wallet == Some(wallet@),
            None => selection@.wallet is None,
        },
{
}

/// What a read or a request is asked for is told in full: texts, limits,
/// points in time and lists of fields.
pub proof fn requests_are_told_in_full(
    text: String,
    lower: Option<String>,
    upper: Option<String>,
    time: Timestamp,
    early: Option<Timestamp>,
    late: Option<Timestamp>,
    fields: Vec<String>,
    state: Vec<u8>,
    error: ContractError,
)
    ensures
        window::text_view(Some(text)) == Some(text@),
        window::text_view(None) is None,
        window::text_between(Some((lower, upper))) == Some(
            (window::text_view(lower), window::text_view(upper)),
        ),
        window::text_between(None) is None,
        window::nanos_view(Some(time)) == Some(time.nanos),
        window::nanos_view(None) is None,
        window::nanos_between(Some((early, late))) == Some(
            (window::nanos_view(early), window::nanos_view(late)),
        ),
        window::nanos_between(None) is None,
        wire::fields_view(None) is None,
        wire::fields_view(Some(fields)) is Some,
        (wire::fields_view(Some(fields))->0).len() == fields@.len(),
        forall|i: int|
            0 <= i < fields@.len() ==> #[trigger] (wire::fields_view(Some(fields))->0)[i]
                == fields@[i]@,
        wire::state_view(Ok(state)) == Ok::<Seq<u8>, Failure>(state@),
        wire::state_view(Err(error)) == Err::<Seq<u8>, Failure>(error@),
{
}

} // verus!

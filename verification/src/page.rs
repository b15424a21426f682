//! Pages of contracts: what is shown of each contract that was listed.
use cosmwasm_std::StdError;
use vstd::prelude::*;
use vstd::string::*;

use crate::error::{ContractError, Failure};
use crate::keys;
use crate::keys::{Cursor, Place};
use crate::layout::Layout;
use crate::metadata;
use crate::metadata::{may_load_metadata, missing_metadata_text};
use crate::models::{ContractID, ContractMetadata, MetadataView, Timestamp};
use crate::pagination;
use crate::store;
use crate::store::{load_address, Chain};
use crate::window;
use crate::wire;
use crate::wire::query_smart_no_deserialize;

verus! {

/// A revision or a point in time that a contract must have changed after to be shown.
#[derive(Debug)]
pub enum Since {
    Rev(u64),
    Timestamp(Timestamp),
}

/// A contract on a page.
#[derive(Debug)]
pub struct EntityContractEnvelope {
    pub address: String,
    pub meta: Option<ContractMetadata>,
    /// The state that was asked for, as the contract encoded it.
    pub state: Option<Vec<u8>>,
}

/// A page of contracts, and the place where the next page goes on.
#[derive(Debug)]
pub struct Page {
    pub page: Vec<EntityContractEnvelope>,
    pub cursor: Option<Cursor>,
}

/// What an `EntityContractEnvelope` holds.
#[verifier::ext_equal]
pub struct EnvelopeView {
    pub address: Seq<char>,
    pub meta: Option<MetadataView>,
    pub state: Option<Seq<u8>>,
}

impl View for EntityContractEnvelope {
    type V = EnvelopeView;

    open spec fn view(&self) -> EnvelopeView {
        EnvelopeView {
            address: self.address@,
            meta: metadata::meta_view(self.meta),
            state: match self.state {
                Some(state) => Some(state@),
                None => None,
            },
        }
    }
}

/// What a `Page` holds.
#[verifier::ext_equal]
pub struct PageView {
    pub page: Seq<EnvelopeView>,
    pub cursor: Option<Place>,
}

impl View for Page {
    type V = PageView;

    open spec fn view(&self) -> PageView {
        PageView {
            page: self.page@.map_values(|envelope: EntityContractEnvelope| envelope@),
            cursor: window::cursor_view(self.cursor),
        }
    }
}

/// What a page shall show.
#[derive(Debug)]
pub struct Selection {
    /// The fields of its state that each contract is asked for. An empty list
    /// asks for the whole state, none leaves the state out.
    pub fields: Option<Vec<String>>,
    /// Since when a contract must have changed to be shown.
    pub since: Option<Since>,
    /// Whether the metadata of the contracts is shown.
    pub meta: bool,
    /// On whose behalf the contracts are asked for their state.
    pub wallet: Option<String>,
}

/// What a `Selection` holds.
#[verifier::ext_equal]
pub struct SelectionView {
    pub fields: Option<Seq<Seq<char>>>,
    pub since: Option<Since>,
    pub meta: bool,
    pub wallet: Option<Seq<char>>,
}

impl View for Selection {
    type V = SelectionView;

    open spec fn view(&self) -> SelectionView {
        SelectionView {
            fields: wire::fields_view(self.fields),
            since: self.since,
            meta: self.meta,
            wallet: window::text_view(self.wallet),
        }
    }
}

/// Whether a contract with the given metadata has changed after `since`.
pub open spec fn modified(since: Since, metadata: MetadataView) -> bool {
    match since {
        Since::Rev(rev) => metadata.rev > rev,
        Since::Timestamp(time) => metadata.updated_at.nanos > time.nanos,
    }
}

/// Tells whether a contract with the given metadata has changed after `since`.
pub fn is_modified(since: &Since, metadata: &ContractMetadata) -> (is_modified: bool)
    ensures
        is_modified == modified(*since, metadata@),
{
    match since {
        Since::Rev(rev) => metadata.rev > *rev,
        Since::Timestamp(time) => metadata.updated_at.nanos() > time.nanos(),
    }
}

/// The error that tells that something of the given kind is not there.
pub uninterp spec fn not_found_error(kind: Seq<char>) -> StdError;

/// `cosmwasm_std::StdError::not_found`.
#[verifier::external_body]
fn not_found(kind: &str) -> (error: StdError)
    ensures
        error == not_found_error(kind@),
{
    StdError::not_found(kind)
}

/// Whether showing the contract at `address`, with the metadata `meta`, can end in `outcome`.
pub open spec fn can_show(
    chain: Chain,
    selection: SelectionView,
    address: Seq<char>,
    meta: Option<MetadataView>,
    outcome: Result<Option<EnvelopeView>, Failure>,
) -> bool {
    match selection.fields {
        None => outcome == Ok::<Option<EnvelopeView>, Failure>(
            Some(EnvelopeView { address, meta, state: None }),
        ),
        Some(_) => exists|state: Result<Seq<u8>, Failure>| #[trigger]
            wire::can_query(
                chain,
                address,
                selection.fields,
                selection.wallet,
                state,
            ) && outcome == match state {
                Ok(state) => Ok(Some(EnvelopeView { address, meta, state: Some(state) })),
                Err(failure) => Err(failure),
            },
    }
}

/// Whether `outcome` can come of the contract at `address`, with the metadata
/// `meta` to show, once it is known by `known` whether it has changed.
pub open spec fn can_judge(
    chain: Chain,
    layout: Layout,
    selection: SelectionView,
    address: Seq<char>,
    meta: Option<MetadataView>,
    since: Since,
    known: Result<Option<MetadataView>, Failure>,
    outcome: Result<Option<EnvelopeView>, Failure>,
) -> bool {
    match known {
        Err(failure) => outcome == Err::<Option<EnvelopeView>, Failure>(failure),
        Ok(None) => outcome == Err::<Option<EnvelopeView>, Failure>(
            Failure::Std(
                not_found_error(metadata::missing_metadata(layout.metadata@, address)),
            ),
        ),
        Ok(Some(metadata)) => if modified(since, metadata) {
            can_show(chain, selection, address, meta, outcome)
        } else {
            outcome == Ok::<Option<EnvelopeView>, Failure>(None)
        },
    }
}

/// Whether `outcome` can come of the contract at `address`, with the metadata
/// `meta` to show. Metadata that is not shown is looked up where `since` needs it.
pub open spec fn can_sift<P>(
    chain: Chain,
    layout: Layout,
    parse: P,
    selection: SelectionView,
    address: Seq<char>,
    meta: Option<MetadataView>,
    outcome: Result<Option<EnvelopeView>, Failure>,
) -> bool where P: Fn(Vec<u8>) -> Result<ContractMetadata, StdError> {
    match selection.since {
        None => can_show(chain, selection, address, meta, outcome),
        Some(since) => match meta {
            Some(_) => can_judge(
                chain,
                layout,
                selection,
                address,
                meta,
                since,
                Ok(meta),
                outcome,
            ),
            None => exists|known: Result<Option<MetadataView>, Failure>| #[trigger]
                metadata::can_load(
                    store::records(chain, layout.metadata@),
                    parse,
                    address,
                    known,
                ) && can_judge(
                    chain,
                    layout,
                    selection,
                    address,
                    meta,
                    since,
                    known,
                    outcome,
                ),
        },
    }
}

/// Whether visiting the contract `id` can end in `outcome`: what is shown of
/// it, or that nothing is shown of it, or a failure.
pub open spec fn can_visit<P>(
    chain: Chain,
    layout: Layout,
    parse: P,
    selection: SelectionView,
    id: ContractID,
    outcome: Result<Option<EnvelopeView>, Failure>,
) -> bool where P: Fn(Vec<u8>) -> Result<ContractMetadata, StdError> {
    match store::stored_address(chain, layout.id_2_addr@, id) {
        Err(error) => outcome == Err::<Option<EnvelopeView>, Failure>(Failure::Std(error)),
        Ok(address) => if !selection.meta {
            can_sift(chain, layout, parse, selection, address, None, outcome)
        } else {
            exists|loaded: Result<Option<MetadataView>, Failure>| #[trigger]
                metadata::can_load(
                    store::records(chain, layout.metadata@),
                    parse,
                    address,
                    loaded,
                ) && match loaded {
                    Ok(meta) => can_sift(chain, layout, parse, selection, address, meta, outcome),
                    Err(failure) => outcome == Err::<Option<EnvelopeView>, Failure>(failure),
                }
        },
    }
}

/// What was shown, without what was not.
pub open spec fn shown(visits: Seq<Option<EnvelopeView>>) -> Seq<EnvelopeView>
    decreases visits.len(),
{
    if visits.len() == 0 {
        Seq::empty()
    } else {
        match visits.last() {
            Some(envelope) => shown(visits.drop_last()).push(envelope),
            None => shown(visits.drop_last()),
        }
    }
}

/// The place where the next page goes on: the last place of the listing,
/// whether or not its contract is shown.
pub open spec fn next_place(places: Seq<Place>) -> Option<Place> {
    if places.len() == 0 {
        None
    } else {
        Some(places.last())
    }
}

/// Whether a page of the contracts listed in `places` can be `outcome`.
pub open spec fn can_build<P>(
    chain: Chain,
    layout: Layout,
    parse: P,
    selection: SelectionView,
    places: Seq<Place>,
    outcome: Result<PageView, Failure>,
) -> bool where P: Fn(Vec<u8>) -> Result<ContractMetadata, StdError> {
    exists|visits: Seq<Result<Option<EnvelopeView>, Failure>>|
        {
            &&& #[trigger] metadata::is_run(visits, places.len() as int)
            &&& forall|i: int|
                0 <= i < visits.len() ==> can_visit(
                    chain,
                    layout,
                    parse,
                    selection,
                    places[i].1,
                    #[trigger] visits[i],
                )
            &&& outcome == match pagination::all_or_first_failure(visits) {
                Ok(visits) => Ok(PageView { page: shown(visits), cursor: next_place(places) }),
                Err(failure) => Err(failure),
            }
        }
}

/// What a result that may hold an envelope holds.
pub open spec fn visit_view(visit: Result<Option<EntityContractEnvelope>, ContractError>) -> Result<
    Option<EnvelopeView>,
    Failure,
> {
    match visit {
        Ok(Some(envelope)) => Ok(Some(envelope@)),
        Ok(None) => Ok(None),
        Err(error) => Err(error@),
    }
}

/// What a result that may hold a page holds.
pub open spec fn page_view(page: Result<Page, ContractError>) -> Result<PageView, Failure> {
    match page {
        Ok(page) => Ok(page@),
        Err(error) => Err(error@),
    }
}

/// Shows the contract at `address`.
pub fn show(
    chain: &Chain,
    selection: &Selection,
    address: String,
    meta: Option<ContractMetadata>,
) -> (visit: Result<Option<EntityContractEnvelope>, ContractError>)
    ensures
        can_show(*chain, selection@, address@, metadata::meta_view(meta), visit_view(visit)),
{
    if selection.fields.is_none() {
        return Ok(Some(EntityContractEnvelope { address, meta, state: None }));
    }
    let state = query_smart_no_deserialize(chain, &address, &selection.fields, &selection.wallet);
    assert(wire::can_query(
        *chain,
        address@,
        wire::fields_view(selection.fields),
        window::text_view(selection.wallet),
        wire::state_view(state),
    ));
    match state {
        Ok(state) => Ok(Some(EntityContractEnvelope { address, meta, state: Some(state) })),
        Err(error) => Err(error),
    }
}

/// Shows the contract at `address`, unless it has not changed since the
/// selection asks for.
pub fn sift<P>(
    chain: &Chain,
    layout: &Layout,
    parse: &P,
    selection: &Selection,
    address: String,
    meta: Option<ContractMetadata>,
) -> (visit: Result<Option<EntityContractEnvelope>, ContractError>) where
    P: Fn(Vec<u8>) -> Result<ContractMetadata, StdError>,

    requires
        layout.valid(),
        forall|document: Vec<u8>| call_requires(*parse, (document,)),
    ensures
        can_sift(
            *chain,
            *layout,
            *parse,
            selection@,
            address@,
            metadata::meta_view(meta),
            visit_view(visit),
        ),
{
    if let Some(since) = &selection.since {
        let is_changed = if let Some(metadata) = &meta {
            is_modified(since, metadata)
        } else {
            let known = may_load_metadata(
                chain,
                layout.metadata.as_str(),
                parse,
                address.as_str(),
            );
            assert(metadata::can_load(
                store::records(*chain, layout.metadata@),
                *parse,
                address@,
                metadata::loaded_view(known),
            ));
            match known {
                Ok(Some(metadata)) => is_modified(since, &metadata),
                Ok(None) => {
                    let kind = missing_metadata_text(layout.metadata.as_str(), address.as_str());
                    return Err(ContractError::from(not_found(kind.as_str())));
                },
                Err(error) => {
                    return Err(error);
                },
            }
        };
        if !is_changed {
            return Ok(None);
        }
    }
    show(chain, selection, address, meta)
}

/// Visits the contract `id`: finds it, and shows it if it has changed since
/// the selection asks for.
pub fn visit_contract<P>(
    chain: &Chain,
    layout: &Layout,
    parse: &P,
    selection: &Selection,
    id: ContractID,
) -> (visit: Result<Option<EntityContractEnvelope>, ContractError>) where
    P: Fn(Vec<u8>) -> Result<ContractMetadata, StdError>,

    requires
        layout.valid(),
        forall|document: Vec<u8>| call_requires(*parse, (document,)),
    ensures
        can_visit(*chain, *layout, *parse, selection@, id, visit_view(visit)),
{
    let ghost stored = store::stored_address(*chain, layout.id_2_addr@, id);
    let address = match load_address(chain, layout.id_2_addr.as_str(), id) {
        Ok(address) => address,
        Err(error) => {
            return Err(ContractError::from(error));
        },
    };
    assert(stored->Ok_0 == address@);
    let meta = if selection.meta {
        let loaded = may_load_metadata(chain, layout.metadata.as_str(), parse, address.as_str());
        assert(metadata::can_load(
            store::records(*chain, layout.metadata@),
            *parse,
            stored->Ok_0,
            metadata::loaded_view(loaded),
        ));
        match loaded {
            Ok(meta) => meta,
            Err(error) => {
                return Err(error);
            },
        }
    } else {
        None
    };
    sift(chain, layout, parse, selection, address, meta)
}

/// Builds a page of the contracts that were listed.
pub fn build_contracts_page<P>(
    chain: &Chain,
    layout: &Layout,
    parse: &P,
    selection: &Selection,
    listing: &Vec<Cursor>,
) -> (page: Result<Page, ContractError>) where
    P: Fn(Vec<u8>) -> Result<ContractMetadata, StdError>,

    requires
        layout.valid(),
        forall|document: Vec<u8>| call_requires(*parse, (document,)),
    ensures
        can_build(
            *chain,
            *layout,
            *parse,
            selection@,
            keys::places_of(listing@),
            page_view(page),
        ),
{
    let ghost places = keys::places_of(listing@);
    let ghost mut visits: Seq<Result<Option<EnvelopeView>, Failure>> = Seq::empty();
    let ghost mut passed: Seq<Option<EnvelopeView>> = Seq::empty();
    let mut page_data: Vec<EntityContractEnvelope> = Vec::with_capacity(listing.len());
    let mut next: usize = 0;
    while next < listing.len()
        invariant
            layout.valid(),
            forall|document: Vec<u8>| call_requires(*parse, (document,)),
            places == keys::places_of(listing@),
            next <= listing@.len(),
            visits.len() == next,
            passed.len() == next,
            forall|i: int|
                0 <= i < next ==> #[trigger] visits[i] == Ok::<Option<EnvelopeView>, Failure>(
                    passed[i],
                ),
            forall|i: int|
                0 <= i < next ==> can_visit(
                    *chain,
                    *layout,
                    *parse,
                    selection@,
                    places[i].1,
                    #[trigger] visits[i],
                ),
            page_data@.map_values(|envelope: EntityContractEnvelope| envelope@) == shown(passed),
        decreases listing.len() - next,
    {
        let visit = visit_contract(chain, layout, parse, selection, listing[next].1);
        let ghost entries = page_data@;
        proof {
            visits = visits.push(visit_view(visit));
        }
        match visit {
            Err(error) => {
                proof {
                    assert(metadata::is_run(visits, places.len() as int));
                    pagination::lemma_first_fails(visits, next as int);
                }
                return Err(error);
            },
            Ok(Some(envelope)) => {
                proof {
                    assert(passed.push(Some(envelope@)).drop_last() =~= passed);
                    passed = passed.push(Some(envelope@));
                }
                page_data.push(envelope);
                assert(page_data@.map_values(|envelope: EntityContractEnvelope| envelope@)
                    =~= entries.map_values(|envelope: EntityContractEnvelope| envelope@).push(
                    envelope@,
                ));
            },
            Ok(None) => {
                proof {
                    assert(passed.push(None).drop_last() =~= passed);
                    passed = passed.push(None);
                }
            },
        }
        next += 1;
    }
    let cursor = if listing.len() > 0 {
        let last: &Cursor = &listing[listing.len() - 1];
        Some((last.0.clone(), last.1))
    } else {
        None
    };
    proof {
        assert(metadata::is_run(visits, places.len() as int));
        pagination::lemma_all_pass(visits, passed);
    }
    Ok(Page { page: page_data, cursor })
}

} // verus!

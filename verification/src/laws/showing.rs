//! What a page shows of each contract that was listed, told by what is stored
//! about the contract and by what it answers.
use cosmwasm_std::StdError;
use vstd::prelude::*;
use vstd::utf8::*;

use crate::bytes;
use crate::error::Failure;
use crate::hex;
use crate::keys::Place;
use crate::laws::listing;
use crate::laws::pages;
use crate::layout::Layout;
use crate::metadata;
use crate::models::{ContractID, ContractMetadata, MetadataView, Order, Timestamp};
use crate::page;
use crate::page::{EnvelopeView, PageView, SelectionView, Since};
use crate::pagination;
use crate::read;
use crate::read::Target;
use crate::store;
use crate::store::Chain;
use crate::wire;
use crate::wire::AnswerView;

verus! {

/// Whether the contract `id` is registered at `address`.
pub open spec fn is_at(chain: Chain, layout: Layout, id: ContractID, address: Seq<char>) -> bool {
    bytes::lookup(
        store::records(chain, layout.id_2_addr@),
        bytes::big_endian(id as nat, 8),
    ) matches Some(value) && store::address_value(value) == Ok::<Seq<char>, StdError>(address)
}

/// The document that is stored about the contract at `address`, if there is one.
pub open spec fn document_of(chain: Chain, layout: Layout, address: Seq<char>) -> Option<Seq<u8>> {
    bytes::lookup(store::records(chain, layout.metadata@), encode_utf8(address))
}

/// Whether `known` is what `parse` can read in the document that is stored
/// about the contract at `address`.
pub open spec fn is_known<P>(
    chain: Chain,
    layout: Layout,
    parse: P,
    address: Seq<char>,
    known: ContractMetadata,
) -> bool where P: Fn(Vec<u8>) -> Result<ContractMetadata, StdError> {
    exists|stored: Vec<u8>|
        document_of(chain, layout, address) == Some(stored@) && #[trigger] call_ensures(
            parse,
            (stored,),
            Ok::<ContractMetadata, StdError>(known),
        )
}

/// Whether `parse` can fail with `error` on the document that is stored about
/// the contract at `address`.
pub open spec fn is_illegible<P>(
    chain: Chain,
    layout: Layout,
    parse: P,
    address: Seq<char>,
    error: StdError,
) -> bool where P: Fn(Vec<u8>) -> Result<ContractMetadata, StdError> {
    exists|stored: Vec<u8>|
        document_of(chain, layout, address) == Some(stored@) && #[trigger] call_ensures(
            parse,
            (stored,),
            Err::<ContractMetadata, StdError>(error),
        )
}

/// Whether `meta` has every field of `known`.
pub open spec fn has_fields_of(meta: MetadataView, known: ContractMetadata) -> bool {
    &&& meta.id == known.id
    &&& meta.rev == known.rev
    &&& meta.code_id == known.code_id
    &&& meta.height == known.height
    &&& meta.created_at == known.created_at
    &&& meta.created_by == known.created_by@
    &&& meta.updated_at == known.updated_at
}

/// Whether `request` asks the contract at `address` for `fields` of its state,
/// on behalf of `wallet`.
pub open spec fn asks(
    address: Seq<char>,
    fields: Option<Seq<Seq<char>>>,
    wallet: Option<Seq<char>>,
    request: Seq<u8>,
) -> bool {
    wire::text_json(wallet) matches Ok(wallet) && (wire::texts_json(fields) matches Ok(fields)
        && wire::smart_query_json(
        address,
        encode_utf8("{\"select\":{\"wallet\":"@) + wallet + encode_utf8(",\"fields\":"@) + fields
            + encode_utf8("}}"@),
    ) == Ok::<Seq<u8>, StdError>(request))
}

/// Whether asking the contract at `address` for `fields` of its state, on
/// behalf of `wallet`, fails with `failure`: the request cannot be written
/// down, or the contract or the way to it fails.
pub open spec fn refuses(
    chain: Chain,
    address: Seq<char>,
    fields: Option<Seq<Seq<char>>>,
    wallet: Option<Seq<char>>,
    failure: Failure,
) -> bool {
    match (wire::text_json(wallet), wire::texts_json(fields)) {
        (Err(error), _) => failure == Failure::Std(error),
        (Ok(_), Err(error)) => failure == Failure::Std(error),
        (Ok(wallet), Ok(fields)) => match wire::smart_query_json(
            address,
            encode_utf8("{\"select\":{\"wallet\":"@) + wallet + encode_utf8(",\"fields\":"@)
                + fields + encode_utf8("}}"@),
        ) {
            Err(error) => failure == Failure::Std(
                wire::generic_error(
                    "serializing QueryRequest: "@ + wire::std_error_message(error),
                ),
            ),
            Ok(request) => exists|answer: AnswerView| #[trigger]
                wire::may_answer(chain, request, answer) && match answer {
                    AnswerView::State(_) => false,
                    AnswerView::ContractFailure(message) => failure == Failure::QueryState(
                        "contract error querying state of contract "@ + address + ": "@ + message,
                    ),
                    AnswerView::SystemFailure(error) => failure == Failure::QueryState(
                        "contract error querying state of contract "@ + address + ": "@
                            + wire::system_error_message(error),
                    ),
                },
        },
    }
}

/// Asking a contract for its state gives the state that the contract answers
/// to the request for just these fields on behalf of just this wallet, or it
/// fails and tells why.
pub proof fn contract_is_asked(
    chain: Chain,
    address: Seq<char>,
    fields: Option<Seq<Seq<char>>>,
    wallet: Option<Seq<char>>,
    outcome: Result<Seq<u8>, Failure>,
)
    requires
        wire::can_query(chain, address, fields, wallet, outcome),
    ensures
        match outcome {
            Ok(state) => exists|request: Seq<u8>|
                asks(address, fields, wallet, request) && #[trigger] wire::may_answer(
                    chain,
                    request,
                    AnswerView::State(state),
                ),
            Err(failure) => refuses(chain, address, fields, wallet, failure),
        },
{
    if let Ok(request) = wire::select_request(address, fields, wallet) {
        let answer = choose|answer: AnswerView| #[trigger]
            wire::may_answer(chain, request, answer) && outcome == wire::answered(address, answer);
        assert(wire::may_answer(chain, request, answer));
        if let Ok(state) = outcome {
            assert(asks(address, fields, wallet, request));
            assert(wire::may_answer(chain, request, AnswerView::State(state)));
        }
    }
}

/// Whether a contract with the metadata `known` has changed since: its
/// revision is above the one that is told, or its last change is later than the
/// time that is told.
pub open spec fn has_changed(since: Since, known: ContractMetadata) -> bool {
    match since {
        Since::Rev(rev) => known.rev > rev,
        Since::Timestamp(time) => known.updated_at.nanos > time.nanos,
    }
}

/// A contract counts as changed after a revision exactly if its `rev` is
/// above that revision, and after a time exactly if its `updated_at` is later
/// than that time. Nothing else that is known of the contract matters.
pub proof fn change_is_told_by_rev_and_time(known: ContractMetadata, rev: u64, nanos: u64)
    ensures
        page::modified(Since::Rev(rev), known@) == (known.rev > rev),
        forall|time: Timestamp|
            time.nanos == nanos ==> #[trigger] page::modified(Since::Timestamp(time), known@) == (
            known.updated_at.nanos > nanos),
{
}

/// What `parse` makes of a document, in terms of the document.
proof fn lemma_loaded<P>(
    chain: Chain,
    layout: Layout,
    parse: P,
    address: Seq<char>,
    outcome: Result<Option<MetadataView>, Failure>,
) where P: Fn(Vec<u8>) -> Result<ContractMetadata, StdError>
    requires
        metadata::can_load(store::records(chain, layout.metadata@), parse, address, outcome),
    ensures
        match outcome {
            Ok(None) => document_of(chain, layout, address) is None,
            Ok(Some(meta)) => document_of(chain, layout, address) is Some && exists|
                known: ContractMetadata,
            | #[trigger]
                is_known(chain, layout, parse, address, known) && meta == known@ && has_fields_of(
                    meta,
                    known,
                ),
            Err(failure) => failure matches Failure::Std(error) && is_illegible(
                chain,
                layout,
                parse,
                address,
                error,
            ),
        },
{
    let records = store::records(chain, layout.metadata@);
    if let Some(value) = bytes::lookup(records, encode_utf8(address)) {
        let parsed: Result<MetadataView, StdError> = match outcome {
            Ok(meta) => Ok(meta->0),
            Err(failure) => Err(failure->Std_0),
        };
        assert(metadata::can_parse(parse, value, parsed));
        let (stored, known) = choose|
            stored: Vec<u8>,
            known: Result<ContractMetadata, StdError>,
        |
            stored@ == value && metadata::parsed_view(known) == parsed && #[trigger] call_ensures(
                parse,
                (stored,),
                known,
            );
        match known {
            Ok(held) => {
                assert(call_ensures(parse, (stored,), Ok::<ContractMetadata, StdError>(held)));
                assert(is_known(chain, layout, parse, address, held));
            },
            Err(error) => {
                assert(call_ensures(parse, (stored,), Err::<ContractMetadata, StdError>(error)));
                assert(is_illegible(chain, layout, parse, address, error));
            },
        }
    }
}

/// A contract is shown with the address and the metadata that are at hand, and
/// with its state exactly if fields of it are asked for. It fails only where
/// the state cannot be had, and it is never left out.
pub proof fn contract_is_shown_with_what_is_at_hand(
    chain: Chain,
    selection: SelectionView,
    address: Seq<char>,
    meta: Option<MetadataView>,
    outcome: Result<Option<EnvelopeView>, Failure>,
)
    requires
        page::can_show(chain, selection, address, meta, outcome),
    ensures
        match outcome {
            Ok(Some(envelope)) => {
                &&& envelope.address == address
                &&& envelope.meta == meta
                &&& envelope.state is Some == selection.fields is Some
                &&& envelope.state matches Some(state) ==> exists|request: Seq<u8>|
                    asks(address, selection.fields, selection.wallet, request)
                        && #[trigger] wire::may_answer(chain, request, AnswerView::State(state))
            },
            Ok(None) => false,
            Err(failure) => selection.fields is Some && refuses(
                chain,
                address,
                selection.fields,
                selection.wallet,
                failure,
            ),
        },
{
    if selection.fields is Some {
        let state = choose|state: Result<Seq<u8>, Failure>| #[trigger]
            wire::can_query(chain, address, selection.fields, selection.wallet, state) && outcome
                == match state {
                Ok(state) => Ok(Some(EnvelopeView { address, meta, state: Some(state) })),
                Err(failure) => Err(failure),
            };
        contract_is_asked(chain, address, selection.fields, selection.wallet, state);
        if let Ok(bytes) = state {
            let request = choose|request: Seq<u8>|
                asks(address, selection.fields, selection.wallet, request)
                    && #[trigger] wire::may_answer(chain, request, AnswerView::State(bytes));
            let envelope = EnvelopeView { address, meta, state: Some(bytes) };
            assert(outcome == Ok::<Option<EnvelopeView>, Failure>(Some(envelope)));
            assert(wire::may_answer(chain, request, AnswerView::State(envelope.state->0)));
        }
    }
}

/// Metadata that is at hand tells whether a contract has changed: it is shown
/// if its revision is above the one that is told, or its last change is later
/// than the time that is told, and else it is left out. Where it does not
/// matter whether the contract has changed, it is shown in any case.
pub proof fn contract_is_sifted_by_what_is_at_hand<P>(
    chain: Chain,
    layout: Layout,
    parse: P,
    selection: SelectionView,
    address: Seq<char>,
    meta: Option<MetadataView>,
    outcome: Result<Option<EnvelopeView>, Failure>,
) where P: Fn(Vec<u8>) -> Result<ContractMetadata, StdError>
    requires
        page::can_sift(chain, layout, parse, selection, address, meta, outcome),
        selection.since is None || meta is Some,
    ensures
        ({
            let wanted = match (selection.since, meta) {
                (Some(Since::Rev(rev)), Some(known)) => known.rev > rev,
                (Some(Since::Timestamp(time)), Some(known)) => known.updated_at.nanos > time.nanos,
                _ => true,
            };
            if wanted {
                page::can_show(chain, selection, address, meta, outcome)
            } else {
                outcome == Ok::<Option<EnvelopeView>, Failure>(None)
            }
        }),
{
}

/// Where no metadata is at hand and it matters whether a contract has changed,
/// what is stored about the contract tells: it is shown if its revision is
/// above the one that is told, or its last change is later than the time that
/// is told, and else it is left out. Where nothing is stored, or it cannot be
/// read, that is the failure.
pub proof fn contract_is_sifted_by_what_is_stored<P>(
    chain: Chain,
    layout: Layout,
    parse: P,
    selection: SelectionView,
    address: Seq<char>,
    outcome: Result<Option<EnvelopeView>, Failure>,
) where P: Fn(Vec<u8>) -> Result<ContractMetadata, StdError>
    requires
        page::can_sift(chain, layout, parse, selection, address, None, outcome),
        selection.since is Some,
    ensures
        if document_of(chain, layout, address) is None {
            outcome == Err::<Option<EnvelopeView>, Failure>(
                Failure::Std(
                    page::not_found_error(
                        "type: contract_reads::models::ContractMetadata; key: "@ + hex::hex_list(
                            bytes::length_prefixed(encode_utf8(layout.metadata@)) + encode_utf8(
                                address,
                            ),
                        ),
                    ),
                ),
            )
        } else {
            ||| exists|known: ContractMetadata| #[trigger]
                is_known(chain, layout, parse, address, known) && if has_changed(
                    selection.since->0,
                    known,
                ) {
                    page::can_show(chain, selection, address, None, outcome)
                } else {
                    outcome == Ok::<Option<EnvelopeView>, Failure>(None)
                }
            ||| outcome matches Err(Failure::Std(error)) && is_illegible(
                chain,
                layout,
                parse,
                address,
                error,
            )
        },
{
    let since = selection.since->0;
    let known = choose|known: Result<Option<MetadataView>, Failure>| #[trigger]
        metadata::can_load(
            store::records(chain, layout.metadata@),
            parse,
            address,
            known,
        ) && page::can_judge(chain, layout, selection, address, None, since, known, outcome);
    lemma_loaded(chain, layout, parse, address, known);
    if let Ok(Some(told)) = known {
        let held = choose|held: ContractMetadata| #[trigger]
            is_known(chain, layout, parse, address, held) && told == held@ && has_fields_of(
                told,
                held,
            );
        assert(is_known(chain, layout, parse, address, held));
        assert(has_changed(since, held) == page::modified(since, told));
    }
}

/// Whether `envelope` shows the contract `id` as it was asked for: its address;
/// its metadata, if that was asked for and there is any; its state, if fields
/// of it were asked for, as the contract answers it. Where only contracts that
/// have changed are wanted, it is one that has.
pub open spec fn is_shown<P>(
    chain: Chain,
    layout: Layout,
    parse: P,
    selection: SelectionView,
    id: ContractID,
    envelope: EnvelopeView,
) -> bool where P: Fn(Vec<u8>) -> Result<ContractMetadata, StdError> {
    &&& is_at(chain, layout, id, envelope.address)
    &&& !selection.meta ==> envelope.meta is None
    &&& selection.meta && document_of(chain, layout, envelope.address) is None
        ==> envelope.meta is None
    &&& selection.meta && document_of(chain, layout, envelope.address) is Some
        ==> envelope.meta is Some && exists|known: ContractMetadata| #[trigger]
        is_known(chain, layout, parse, envelope.address, known) && has_fields_of(
            envelope.meta->0,
            known,
        )
    &&& selection.since matches Some(since) ==> exists|known: ContractMetadata| #[trigger]
        is_known(chain, layout, parse, envelope.address, known) && has_changed(since, known) && (
        selection.meta ==> envelope.meta is Some && has_fields_of(envelope.meta->0, known))
    &&& selection.fields is None ==> envelope.state is None
    &&& selection.fields is Some ==> envelope.state is Some && exists|request: Seq<u8>|
        asks(envelope.address, selection.fields, selection.wallet, request)
            && #[trigger] wire::may_answer(
            chain,
            request,
            AnswerView::State(envelope.state->0),
        )
}

/// Whether the contract `id` may be left out: only contracts that have changed
/// are wanted, and it is one that has not.
pub open spec fn is_left_out<P>(
    chain: Chain,
    layout: Layout,
    parse: P,
    selection: SelectionView,
    id: ContractID,
) -> bool where P: Fn(Vec<u8>) -> Result<ContractMetadata, StdError> {
    selection.since matches Some(since) && exists|address: Seq<char>, known: ContractMetadata|
        is_at(chain, layout, id, address) && #[trigger] is_known(
            chain,
            layout,
            parse,
            address,
            known,
        ) && !has_changed(since, known)
}

/// Whether showing the contract at `address` fails with `failure`: metadata
/// that is needed cannot be read, or is needed to tell whether the contract has
/// changed and is not there, or the state that is asked for cannot be had, of a
/// contract that has changed where only such are wanted.
pub open spec fn fails_at<P>(
    chain: Chain,
    layout: Layout,
    parse: P,
    selection: SelectionView,
    address: Seq<char>,
    failure: Failure,
) -> bool where P: Fn(Vec<u8>) -> Result<ContractMetadata, StdError> {
    ||| (selection.meta || selection.since is Some) && (failure matches Failure::Std(error)
        && is_illegible(chain, layout, parse, address, error))
    ||| selection.since is Some && document_of(chain, layout, address) is None && failure
        == Failure::Std(
        page::not_found_error(
            "type: contract_reads::models::ContractMetadata; key: "@ + hex::hex_list(
                bytes::length_prefixed(encode_utf8(layout.metadata@)) + encode_utf8(address),
            ),
        ),
    )
    ||| selection.fields is Some && refuses(
        chain,
        address,
        selection.fields,
        selection.wallet,
        failure,
    ) && (selection.since matches Some(since) ==> exists|known: ContractMetadata| #[trigger]
        is_known(chain, layout, parse, address, known) && has_changed(since, known))
}

/// What becomes of a contract once the metadata to show is there.
proof fn lemma_sifted<P>(
    chain: Chain,
    layout: Layout,
    parse: P,
    selection: SelectionView,
    id: ContractID,
    address: Seq<char>,
    meta: Option<MetadataView>,
    outcome: Result<Option<EnvelopeView>, Failure>,
) where P: Fn(Vec<u8>) -> Result<ContractMetadata, StdError>
    requires
        page::can_sift(chain, layout, parse, selection, address, meta, outcome),
        is_at(chain, layout, id, address),
        if selection.meta {
            metadata::can_load(store::records(chain, layout.metadata@), parse, address, Ok(meta))
        } else {
            meta is None
        },
    ensures
        match outcome {
            Ok(Some(envelope)) => is_shown(chain, layout, parse, selection, id, envelope),
            Ok(None) => is_left_out(chain, layout, parse, selection, id),
            Err(failure) => fails_at(chain, layout, parse, selection, address, failure),
        },
{
    let records = store::records(chain, layout.metadata@);
    if selection.meta {
        lemma_loaded(chain, layout, parse, address, Ok(meta));
    }
    let known: Result<Option<MetadataView>, Failure> = if selection.since is None || meta is Some {
        Ok(meta)
    } else {
        let since = selection.since->0;
        let known = choose|known: Result<Option<MetadataView>, Failure>| #[trigger]
            metadata::can_load(records, parse, address, known) && page::can_judge(
                chain,
                layout,
                selection,
                address,
                meta,
                since,
                known,
                outcome,
            );
        lemma_loaded(chain, layout, parse, address, known);
        known
    };
    if let Ok(Some(told)) = known {
        if selection.meta || selection.since is Some {
            let held = choose|held: ContractMetadata| #[trigger]
                is_known(chain, layout, parse, address, held) && told == held@ && has_fields_of(
                    told,
                    held,
                );
            assert(is_known(chain, layout, parse, address, held));
            assert(selection.since matches Some(since) ==> has_changed(since, held)
                == page::modified(since, told));
        }
    }
    if page::can_show(chain, selection, address, meta, outcome) {
        contract_is_shown_with_what_is_at_hand(chain, selection, address, meta, outcome);
    }
}

/// Visiting a contract gives what was asked for of it, or nothing where only
/// contracts that have changed are wanted and it has not, or a failure: it is
/// registered at no address, or something that is needed cannot be had.
pub proof fn contract_is_visited<P>(
    chain: Chain,
    layout: Layout,
    parse: P,
    selection: SelectionView,
    id: ContractID,
    outcome: Result<Option<EnvelopeView>, Failure>,
) where P: Fn(Vec<u8>) -> Result<ContractMetadata, StdError>
    requires
        page::can_visit(chain, layout, parse, selection, id, outcome),
    ensures
        match outcome {
            Ok(Some(envelope)) => is_shown(chain, layout, parse, selection, id, envelope),
            Ok(None) => is_left_out(chain, layout, parse, selection, id),
            Err(failure) => match bytes::lookup(
                store::records(chain, layout.id_2_addr@),
                bytes::big_endian(id as nat, 8),
            ) {
                None => failure == Failure::Std(
                    store::missing_address_error(layout.id_2_addr@, id),
                ),
                Some(value) => match store::address_value(value) {
                    Err(error) => failure == Failure::Std(error),
                    Ok(address) => fails_at(chain, layout, parse, selection, address, failure),
                },
            },
        },
{
    if let Ok(address) = store::stored_address(chain, layout.id_2_addr@, id) {
        if selection.meta {
            let loaded = choose|loaded: Result<Option<MetadataView>, Failure>| #[trigger]
                metadata::can_load(
                    store::records(chain, layout.metadata@),
                    parse,
                    address,
                    loaded,
                ) && match loaded {
                    Ok(meta) => page::can_sift(
                        chain,
                        layout,
                        parse,
                        selection,
                        address,
                        meta,
                        outcome,
                    ),
                    Err(failure) => outcome == Err::<Option<EnvelopeView>, Failure>(failure),
                };
            lemma_loaded(chain, layout, parse, address, loaded);
            if let Ok(meta) = loaded {
                lemma_sifted(chain, layout, parse, selection, id, address, meta, outcome);
            }
        } else {
            lemma_sifted(chain, layout, parse, selection, id, address, None, outcome);
        }
    }
}

/// A contract that is registered is shown as long as nothing that is asked for
/// can fail: neither metadata nor state is asked for, and it does not matter
/// whether the contract has changed.
pub proof fn plain_contract_is_shown<P>(
    chain: Chain,
    layout: Layout,
    parse: P,
    wallet: Option<Seq<char>>,
    id: ContractID,
    address: Seq<char>,
    outcome: Result<Option<EnvelopeView>, Failure>,
) where P: Fn(Vec<u8>) -> Result<ContractMetadata, StdError>
    requires
        is_at(chain, layout, id, address),
        page::can_visit(
            chain,
            layout,
            parse,
            SelectionView { fields: None, since: None, meta: false, wallet },
            id,
            outcome,
        ),
    ensures
        outcome == Ok::<Option<EnvelopeView>, Failure>(
            Some(EnvelopeView { address, meta: None, state: None }),
        ),
{
}

/// Whether `page` is made of the visits to the contracts of `places`: `picks`
/// tells which of the places are shown, in their order, and the contracts of
/// all other places are left out. The cursor is the last of the places.
pub open spec fn is_made_of<P>(
    chain: Chain,
    layout: Layout,
    parse: P,
    selection: SelectionView,
    places: Seq<Place>,
    page: PageView,
    picks: Seq<int>,
) -> bool where P: Fn(Vec<u8>) -> Result<ContractMetadata, StdError> {
    &&& picks.len() == page.page.len()
    &&& forall|k: int| 0 <= k < picks.len() ==> 0 <= #[trigger] picks[k] < places.len()
    &&& forall|k: int, l: int|
        0 <= k < l < picks.len() ==> #[trigger] picks[k] < #[trigger] picks[l]
    &&& forall|k: int|
        0 <= k < picks.len() ==> is_shown(
            chain,
            layout,
            parse,
            selection,
            places[picks[k]].1,
            #[trigger] page.page[k],
        )
    &&& forall|i: int|
        0 <= i < places.len() && !picks.contains(i) ==> is_left_out(
            chain,
            layout,
            parse,
            selection,
            (#[trigger] places[i]).1,
        )
    &&& page.cursor == if places.len() == 0 {
        None
    } else {
        Some(places[places.len() - 1])
    }
}

/// Whether visiting the contract `id` can succeed.
pub open spec fn passes<P>(
    chain: Chain,
    layout: Layout,
    parse: P,
    selection: SelectionView,
    id: ContractID,
) -> bool where P: Fn(Vec<u8>) -> Result<ContractMetadata, StdError> {
    exists|visit: Option<EnvelopeView>|
        page::can_visit(chain, layout, parse, selection, id, Ok(visit))
}

/// Which visits showed something, in their order.
proof fn lemma_picks(visits: Seq<Option<EnvelopeView>>) -> (picks: Seq<int>)
    ensures
        picks.len() == page::shown(visits).len(),
        forall|k: int|
            0 <= k < picks.len() ==> 0 <= #[trigger] picks[k] < visits.len() && visits[picks[k]]
                == Some(page::shown(visits)[k]),
        forall|k: int, l: int|
            0 <= k < l < picks.len() ==> #[trigger] picks[k] < #[trigger] picks[l],
        forall|i: int|
            0 <= i < visits.len() && !picks.contains(i) ==> #[trigger] visits[i] is None,
    decreases visits.len(),
{
    if visits.len() == 0 {
        Seq::empty()
    } else {
        let last = visits.len() - 1;
        let rest = visits.drop_last();
        let picks = lemma_picks(rest);
        assert forall|k: int| 0 <= k < picks.len() implies 0 <= #[trigger] picks[k] < last
            && visits[picks[k]] == Some(page::shown(rest)[k]) by {
            assert(rest[picks[k]] == visits[picks[k]]);
        }
        let all = if visits.last() is Some {
            picks.push(last)
        } else {
            picks
        };
        assert forall|i: int| 0 <= i < visits.len() && !all.contains(i) implies
            #[trigger] visits[i] is None by {
            if i < last {
                if picks.contains(i) {
                    let k = choose|k: int| 0 <= k < picks.len() && picks[k] == i;
                    assert(all[k] == i);
                }
                assert(rest[i] is None);
            } else if visits.last() is Some {
                assert(all[all.len() - 1] == i);
            }
        }
        all
    }
}

/// A page shows the contracts of its places in their order, without those
/// that are left out, and its cursor is the last of the places. Where it fails,
/// it fails as the first visit that does.
pub proof fn page_is_made_of_its_places<P>(
    chain: Chain,
    layout: Layout,
    parse: P,
    selection: SelectionView,
    places: Seq<Place>,
    outcome: Result<PageView, Failure>,
) where P: Fn(Vec<u8>) -> Result<ContractMetadata, StdError>
    requires
        page::can_build(chain, layout, parse, selection, places, outcome),
    ensures
        match outcome {
            Ok(page) => exists|picks: Seq<int>| #[trigger]
                is_made_of(chain, layout, parse, selection, places, page, picks),
            Err(failure) => exists|n: int|
                {
                    &&& 0 <= n < places.len()
                    &&& page::can_visit(
                        chain,
                        layout,
                        parse,
                        selection,
                        (#[trigger] places[n]).1,
                        Err(failure),
                    )
                    &&& forall|i: int|
                        0 <= i < n ==> passes(
                            chain,
                            layout,
                            parse,
                            selection,
                            (#[trigger] places[i]).1,
                        )
                },
        },
{
    match outcome {
        Ok(page) => {
            let visits = pages::lemma_page_parts(chain, layout, parse, selection, places, page);
            let picks = lemma_picks(visits);
            assert forall|k: int| 0 <= k < picks.len() implies is_shown(
                chain,
                layout,
                parse,
                selection,
                places[picks[k]].1,
                #[trigger] page.page[k],
            ) by {
                let i = picks[k];
                assert(page::can_visit(
                    chain,
                    layout,
                    parse,
                    selection,
                    places[i].1,
                    Ok(visits[i]),
                ));
                contract_is_visited(chain, layout, parse, selection, places[i].1, Ok(visits[i]));
            }
            assert forall|i: int| 0 <= i < places.len() && !picks.contains(i) implies is_left_out(
                chain,
                layout,
                parse,
                selection,
                (#[trigger] places[i]).1,
            ) by {
                assert(visits[i] is None);
                assert(page::can_visit(
                    chain,
                    layout,
                    parse,
                    selection,
                    places[i].1,
                    Ok(visits[i]),
                ));
                contract_is_visited(chain, layout, parse, selection, places[i].1, Ok(visits[i]));
            }
            assert(is_made_of(chain, layout, parse, selection, places, page, picks));
        },
        Err(failure) => {
            let visits = choose|visits: Seq<Result<Option<EnvelopeView>, Failure>>|
                {
                    &&& #[trigger] metadata::is_run(visits, places.len() as int)
                    &&& forall|i: int|
                        0 <= i < visits.len() ==> page::can_visit(
                            chain,
                            layout,
                            parse,
                            selection,
                            places[i].1,
                            #[trigger] visits[i],
                        )
                    &&& outcome == match pagination::all_or_first_failure(visits) {
                        Ok(visits) => Ok(
                            PageView {
                                page: page::shown(visits),
                                cursor: page::next_place(places),
                            },
                        ),
                        Err(failure) => Err(failure),
                    }
                };
            let n = listing::lemma_failed(visits, failure);
            let failed = places[n];
            assert(page::can_visit(chain, layout, parse, selection, failed.1, visits[n]));
            assert forall|i: int| 0 <= i < n implies passes(
                chain,
                layout,
                parse,
                selection,
                (#[trigger] places[i]).1,
            ) by {
                let visit = visits[i]->Ok_0;
                assert(visits[i] is Ok);
                assert(visits[i] == Ok::<Option<EnvelopeView>, Failure>(visit));
                assert(page::can_visit(
                    chain,
                    layout,
                    parse,
                    selection,
                    places[i].1,
                    Ok(visit),
                ));
            }
        },
    }
}

/// Whether `outcome` is a page of the contracts that are listed in the given
/// order and up to the given limit, or the failure of the listing.
pub open spec fn is_page_of<P>(
    chain: Chain,
    layout: Layout,
    parse: P,
    target: Target,
    order: Order,
    limit: u32,
    selection: SelectionView,
    cursor: Option<Place>,
    outcome: Result<PageView, Failure>,
    listed: Result<Seq<Place>, Failure>,
) -> bool where P: Fn(Vec<u8>) -> Result<ContractMetadata, StdError> {
    &&& read::can_list(chain, layout, parse, target, order, limit, cursor, listed)
    &&& match listed {
        Err(failure) => outcome == Err::<PageView, Failure>(failure),
        Ok(places) => page::can_build(chain, layout, parse, selection, places, outcome) && (
        outcome matches Ok(page) ==> exists|picks: Seq<int>| #[trigger]
            is_made_of(chain, layout, parse, selection, places, page, picks)),
    }
}

/// A read lists the contracts of its target in descending order if that is
/// asked for, and else in ascending order, up to the limit that is asked for,
/// but at least one and at most fifty, and twenty-five where no limit is asked
/// for. It then shows what was listed: the metadata if that is asked for, and
/// else without it.
pub proof fn read_is_a_page_of_its_target<P>(
    chain: Chain,
    layout: Layout,
    parse: P,
    target: Target,
    desc: Option<bool>,
    order: Order,
    limit: Option<u32>,
    most: u32,
    selection: SelectionView,
    cursor: Option<Place>,
    outcome: Result<PageView, Failure>,
) where P: Fn(Vec<u8>) -> Result<ContractMetadata, StdError>
    requires
        desc == Some(true) ==> order == Order::Descending,
        desc != Some(true) ==> order == Order::Ascending,
        limit is None ==> most == 25,
        limit == Some(0u32) ==> most == 1,
        limit matches Some(asked) && 1 <= asked <= 50 ==> most == limit->0,
        limit matches Some(asked) && asked > 50 ==> most == 50,
        read::can_read(
            chain,
            layout,
            parse,
            target,
            read::order_of(desc),
            read::limit_of(limit),
            selection,
            cursor,
            outcome,
        ),
    ensures
        exists|listed: Result<Seq<Place>, Failure>| #[trigger]
            is_page_of(
                chain,
                layout,
                parse,
                target,
                order,
                most,
                selection,
                cursor,
                outcome,
                listed,
            ),
{
    let listed = choose|listed: Result<Seq<Place>, Failure>|
        {
            &&& #[trigger] read::can_list(
                chain,
                layout,
                parse,
                target,
                order,
                most,
                cursor,
                listed,
            )
            &&& match listed {
                Ok(places) => page::can_build(chain, layout, parse, selection, places, outcome),
                Err(failure) => outcome == Err::<PageView, Failure>(failure),
            }
        };
    if let Ok(places) = listed {
        page_is_made_of_its_places(chain, layout, parse, selection, places, outcome);
    }
    assert(is_page_of(
        chain,
        layout,
        parse,
        target,
        order,
        most,
        selection,
        cursor,
        outcome,
        listed,
    ));
}

} // verus!

//! Reads that differ in one argument, or in where the storage differs, side by
//! side. What they give alike rests on a parser that is a function of its
//! document, and, where contracts are asked for their state, on contracts that
//! answer a question always alike.
use cosmwasm_std::StdError;
use vstd::prelude::*;
use vstd::utf8::*;

use crate::bytes;
use crate::bytes::Record;
use crate::error::Failure;
use crate::keys;
use crate::keys::Place;
use crate::laws;
use crate::laws::addresses;
use crate::laws::pages;
use crate::layout::Layout;
use crate::metadata;
use crate::models::{Between, ContractID, ContractMetadata, IndexBounds, MetadataView, Order};
use crate::page;
use crate::page::{EnvelopeView, PageView, SelectionView, Since};
use crate::pagination;
use crate::read;
use crate::read::Target;
use crate::store;
use crate::store::Chain;
use crate::text;
use crate::window;
use crate::wire;
use crate::wire::AnswerView;

verus! {

/// Whether `parse` makes always the same of a document.
pub open spec fn is_function<P>(parse: P) -> bool where
    P: Fn(Vec<u8>) -> Result<ContractMetadata, StdError>,
 {
    forall|value: Seq<u8>, a: Result<MetadataView, StdError>, b: Result<MetadataView, StdError>|
        #[trigger] metadata::can_parse(parse, value, a) && #[trigger] metadata::can_parse(
            parse,
            value,
            b,
        ) ==> a == b
}

/// Whether the chain answers a request always alike.
pub open spec fn answers_alike(chain: Chain) -> bool {
    forall|request: Seq<u8>, a: AnswerView, b: AnswerView| #[trigger]
        wire::may_answer(chain, request, a) && #[trigger] wire::may_answer(chain, request, b) ==> a
            == b
}

/// A record of metadata marks one place.
proof fn lemma_marks_alike<P>(
    parse: P,
    record: Record,
    a: Result<Place, Failure>,
    b: Result<Place, Failure>,
) where P: Fn(Vec<u8>) -> Result<ContractMetadata, StdError>
    requires
        is_function(parse),
        metadata::can_mark(parse, record, a),
        metadata::can_mark(parse, record, b),
    ensures
        a == b,
{
}

/// Attempts that end alike, one by one, end alike.
proof fn lemma_runs_alike<A>(
    a: Seq<Result<A, Failure>>,
    b: Seq<Result<A, Failure>>,
    count: int,
)
    requires
        metadata::is_run(a, count),
        metadata::is_run(b, count),
        forall|i: int| 0 <= i < a.len() && i < b.len() ==> #[trigger] a[i] == #[trigger] b[i],
    ensures
        a == b,
{
    if a.len() < b.len() {
        assert(a[a.len() - 1] == b[a.len() - 1]);
        assert(b[a.len() - 1] is Ok);
    } else if b.len() < a.len() {
        assert(a[b.len() - 1] == b[b.len() - 1]);
        assert(a[b.len() - 1] is Ok);
    }
    assert(a =~= b);
}

/// The first `limit` rows of metadata give one listing.
proof fn lemma_rows_list_alike<P>(
    rows: Seq<Record>,
    parse: P,
    limit: u32,
    a: Result<Seq<Place>, Failure>,
    b: Result<Seq<Place>, Failure>,
) where P: Fn(Vec<u8>) -> Result<ContractMetadata, StdError>
    requires
        is_function(parse),
        metadata::can_list(rows, parse, limit, a),
        metadata::can_list(rows, parse, limit, b),
    ensures
        a == b,
{
    let count = pagination::at_most(rows.len(), limit);
    let first = choose|outcomes: Seq<Result<Place, Failure>>|
        {
            &&& #[trigger] metadata::is_run(outcomes, count)
            &&& forall|i: int|
                0 <= i < outcomes.len() ==> metadata::can_mark(
                    parse,
                    rows[i],
                    #[trigger] outcomes[i],
                )
            &&& a == pagination::all_or_first_failure(outcomes)
        };
    let second = choose|outcomes: Seq<Result<Place, Failure>>|
        {
            &&& #[trigger] metadata::is_run(outcomes, count)
            &&& forall|i: int|
                0 <= i < outcomes.len() ==> metadata::can_mark(
                    parse,
                    rows[i],
                    #[trigger] outcomes[i],
                )
            &&& b == pagination::all_or_first_failure(outcomes)
        };
    assert forall|i: int| 0 <= i < first.len() && i < second.len() implies #[trigger] first[i]
        == #[trigger] second[i] by {
        lemma_marks_alike(parse, rows[i], first[i], second[i]);
    }
    lemma_runs_alike(first, second, count);
}

/// A target has one listing.
pub proof fn listings_are_alike<P>(
    chain: Chain,
    layout: Layout,
    parse: P,
    target: Target,
    order: Order,
    limit: u32,
    cursor: Option<Place>,
    a: Result<Seq<Place>, Failure>,
    b: Result<Seq<Place>, Failure>,
) where P: Fn(Vec<u8>) -> Result<ContractMetadata, StdError>
    requires
        is_function(parse),
        read::can_list(chain, layout, parse, target, order, limit, cursor, a),
        read::can_list(chain, layout, parse, target, order, limit, cursor, b),
    ensures
        a == b,
{
    if read::namespace_of(layout, target) is Ok && read::is_by_address(target) {
        let namespace = read::namespace_of(layout, target)->Ok_0;
        let rows = window::within(
            store::records(chain, namespace),
            read::window_of(chain, target, order, cursor),
            order,
        );
        lemma_rows_list_alike(rows, parse, limit, a, b);
    }
}

/// Looking up metadata ends in one way.
proof fn lemma_loads_alike<P>(
    records: Seq<Record>,
    parse: P,
    address: Seq<char>,
    a: Result<Option<MetadataView>, Failure>,
    b: Result<Option<MetadataView>, Failure>,
) where P: Fn(Vec<u8>) -> Result<ContractMetadata, StdError>
    requires
        is_function(parse),
        metadata::can_load(records, parse, address, a),
        metadata::can_load(records, parse, address, b),
    ensures
        a == b,
{
    if let Some(value) = bytes::lookup(records, encode_utf8(address)) {
        let x: Result<MetadataView, StdError> = match a {
            Ok(metadata) => Ok(metadata->0),
            Err(failure) => Err(failure->Std_0),
        };
        let y: Result<MetadataView, StdError> = match b {
            Ok(metadata) => Ok(metadata->0),
            Err(failure) => Err(failure->Std_0),
        };
        assert(metadata::can_parse(parse, value, x));
        assert(metadata::can_parse(parse, value, y));
    }
}

/// Showing a contract ends in one way.
proof fn lemma_shows_alike(
    chain: Chain,
    selection: SelectionView,
    address: Seq<char>,
    meta: Option<MetadataView>,
    a: Result<Option<EnvelopeView>, Failure>,
    b: Result<Option<EnvelopeView>, Failure>,
)
    requires
        answers_alike(chain),
        page::can_show(chain, selection, address, meta, a),
        page::can_show(chain, selection, address, meta, b),
    ensures
        a == b,
{
}

/// Sifting a contract ends in one way.
proof fn lemma_sifts_alike<P>(
    chain: Chain,
    layout: Layout,
    parse: P,
    selection: SelectionView,
    address: Seq<char>,
    meta: Option<MetadataView>,
    a: Result<Option<EnvelopeView>, Failure>,
    b: Result<Option<EnvelopeView>, Failure>,
) where P: Fn(Vec<u8>) -> Result<ContractMetadata, StdError>
    requires
        is_function(parse),
        answers_alike(chain),
        page::can_sift(chain, layout, parse, selection, address, meta, a),
        page::can_sift(chain, layout, parse, selection, address, meta, b),
    ensures
        a == b,
{
    let records = store::records(chain, layout.metadata@);
    if page::can_show(chain, selection, address, meta, a) && page::can_show(
        chain,
        selection,
        address,
        meta,
        b,
    ) {
        lemma_shows_alike(chain, selection, address, meta, a, b);
    }
    if selection.since is Some && meta is None {
        let since = selection.since->0;
        let x = choose|known: Result<Option<MetadataView>, Failure>| #[trigger]
            metadata::can_load(records, parse, address, known) && page::can_judge(
                chain,
                layout,
                selection,
                address,
                meta,
                since,
                known,
                a,
            );
        let y = choose|known: Result<Option<MetadataView>, Failure>| #[trigger]
            metadata::can_load(records, parse, address, known) && page::can_judge(
                chain,
                layout,
                selection,
                address,
                meta,
                since,
                known,
                b,
            );
        lemma_loads_alike(records, parse, address, x, y);
    }
}

/// Visiting a contract ends in one way.
pub proof fn visits_are_alike<P>(
    chain: Chain,
    layout: Layout,
    parse: P,
    selection: SelectionView,
    id: ContractID,
    a: Result<Option<EnvelopeView>, Failure>,
    b: Result<Option<EnvelopeView>, Failure>,
) where P: Fn(Vec<u8>) -> Result<ContractMetadata, StdError>
    requires
        is_function(parse),
        answers_alike(chain),
        page::can_visit(chain, layout, parse, selection, id, a),
        page::can_visit(chain, layout, parse, selection, id, b),
    ensures
        a == b,
{
    let records = store::records(chain, layout.metadata@);
    if let Ok(address) = store::stored_address(chain, layout.id_2_addr@, id) {
        if selection.meta {
            let x = choose|loaded: Result<Option<MetadataView>, Failure>| #[trigger]
                metadata::can_load(records, parse, address, loaded) && match loaded {
                    Ok(meta) => page::can_sift(chain, layout, parse, selection, address, meta, a),
                    Err(failure) => a == Err::<Option<EnvelopeView>, Failure>(failure),
                };
            let y = choose|loaded: Result<Option<MetadataView>, Failure>| #[trigger]
                metadata::can_load(records, parse, address, loaded) && match loaded {
                    Ok(meta) => page::can_sift(chain, layout, parse, selection, address, meta, b),
                    Err(failure) => b == Err::<Option<EnvelopeView>, Failure>(failure),
                };
            lemma_loads_alike(records, parse, address, x, y);
            if let Ok(meta) = x {
                lemma_sifts_alike(chain, layout, parse, selection, address, meta, a, b);
            }
        } else {
            lemma_sifts_alike(chain, layout, parse, selection, address, None, a, b);
        }
    }
}

/// A listing gives one page.
proof fn lemma_builds_alike<P>(
    chain: Chain,
    layout: Layout,
    parse: P,
    selection: SelectionView,
    places: Seq<Place>,
    a: Result<PageView, Failure>,
    b: Result<PageView, Failure>,
) where P: Fn(Vec<u8>) -> Result<ContractMetadata, StdError>
    requires
        is_function(parse),
        answers_alike(chain),
        page::can_build(chain, layout, parse, selection, places, a),
        page::can_build(chain, layout, parse, selection, places, b),
    ensures
        a == b,
{
    let count = places.len() as int;
    let first = choose|visits: Seq<Result<Option<EnvelopeView>, Failure>>|
        {
            &&& #[trigger] metadata::is_run(visits, places.len() as int)
            &&& forall|i: int|
                0 <= i < visits.len() ==> page::can_visit(
                    chain,
                    layout,
                    parse,
                    selection,
                    places[i].1,
                    #[trigger] visits[i],
                )
            &&& a == match pagination::all_or_first_failure(visits) {
                Ok(visits) => Ok(
                    PageView { page: page::shown(visits), cursor: page::next_place(places) },
                ),
                Err(failure) => Err(failure),
            }
        };
    let second = choose|visits: Seq<Result<Option<EnvelopeView>, Failure>>|
        {
            &&& #[trigger] metadata::is_run(visits, places.len() as int)
            &&& forall|i: int|
                0 <= i < visits.len() ==> page::can_visit(
                    chain,
                    layout,
                    parse,
                    selection,
                    places[i].1,
                    #[trigger] visits[i],
                )
            &&& b == match pagination::all_or_first_failure(visits) {
                Ok(visits) => Ok(
                    PageView { page: page::shown(visits), cursor: page::next_place(places) },
                ),
                Err(failure) => Err(failure),
            }
        };
    assert forall|i: int| 0 <= i < first.len() && i < second.len() implies #[trigger] first[i]
        == #[trigger] second[i] by {
        visits_are_alike(chain, layout, parse, selection, places[i].1, first[i], second[i]);
    }
    lemma_runs_alike(first, second, count);
}

/// The listing that a page was built of.
proof fn lemma_read_parts<P>(
    chain: Chain,
    layout: Layout,
    parse: P,
    target: Target,
    order: Order,
    limit: u32,
    selection: SelectionView,
    cursor: Option<Place>,
    outcome: Result<PageView, Failure>,
) -> (listing: Result<Seq<Place>, Failure>) where
    P: Fn(Vec<u8>) -> Result<ContractMetadata, StdError>,

    requires
        read::can_read(chain, layout, parse, target, order, limit, selection, cursor, outcome),
    ensures
        read::can_list(chain, layout, parse, target, order, limit, cursor, listing),
        match listing {
            Ok(places) => page::can_build(chain, layout, parse, selection, places, outcome),
            Err(failure) => outcome == Err::<PageView, Failure>(failure),
        },
{
    choose|listing: Result<Seq<Place>, Failure>|
        {
            &&& #[trigger] read::can_list(
                chain,
                layout,
                parse,
                target,
                order,
                limit,
                cursor,
                listing,
            )
            &&& match listing {
                Ok(places) => page::can_build(chain, layout, parse, selection, places, outcome),
                Err(failure) => outcome == Err::<PageView, Failure>(failure),
            }
        }
}

/// Reading twice, nothing having changed, gives the same.
pub proof fn reads_are_alike<P>(
    chain: Chain,
    layout: Layout,
    parse: P,
    target: Target,
    order: Order,
    limit: u32,
    selection: SelectionView,
    cursor: Option<Place>,
    a: Result<PageView, Failure>,
    b: Result<PageView, Failure>,
) where P: Fn(Vec<u8>) -> Result<ContractMetadata, StdError>
    requires
        is_function(parse),
        answers_alike(chain),
        read::can_read(chain, layout, parse, target, order, limit, selection, cursor, a),
        read::can_read(chain, layout, parse, target, order, limit, selection, cursor, b),
    ensures
        a == b,
{
    let x = lemma_read_parts(
        chain,
        layout,
        parse,
        target,
        order,
        limit,
        selection,
        cursor,
        a,
    );
    let y = lemma_read_parts(
        chain,
        layout,
        parse,
        target,
        order,
        limit,
        selection,
        cursor,
        b,
    );
    listings_are_alike(chain, layout, parse, target, order, limit, cursor, x, y);
    if let Ok(places) = x {
        lemma_builds_alike(chain, layout, parse, selection, places, a, b);
    }
}

/// Whether two requests for an index name the same value, and differ at most
/// in their limits.
pub open spec fn names_same_value(a: IndexBounds, b: IndexBounds) -> bool {
    match (a, b) {
        (IndexBounds::Address { equals: x, .. }, IndexBounds::Address { equals: y, .. }) => {
            x is Some && window::text_view(x) == window::text_view(y)
        },
        (IndexBounds::CreatedBy { equals: x, .. }, IndexBounds::CreatedBy { equals: y, .. }) => {
            x is Some && window::text_view(x) == window::text_view(y)
        },
        (IndexBounds::CreatedAt { equals: x, .. }, IndexBounds::CreatedAt { equals: y, .. }) => {
            x is Some && x == y
        },
        (IndexBounds::UpdatedAt { equals: x, .. }, IndexBounds::UpdatedAt { equals: y, .. }) => {
            x is Some && x == y
        },
        (IndexBounds::Rev { equals: x, .. }, IndexBounds::Rev { equals: y, .. }) => {
            x is Some && x == y
        },
        (IndexBounds::CodeId { equals: x, .. }, IndexBounds::CodeId { equals: y, .. }) => {
            x is Some && x == y
        },
        (IndexBounds::Height { equals: x, .. }, IndexBounds::Height { equals: y, .. }) => {
            x is Some && x == y
        },
        (
            IndexBounds::Uint64 { slot: i, equals: x, .. },
            IndexBounds::Uint64 { slot: j, equals: y, .. },
        ) => i == j && x is Some && x == y,
        (
            IndexBounds::Uint128 { slot: i, equals: x, .. },
            IndexBounds::Uint128 { slot: j, equals: y, .. },
        ) => i == j && x is Some && x == y,
        (
            IndexBounds::Text { slot: i, equals: x, .. },
            IndexBounds::Text { slot: j, equals: y, .. },
        ) => i == j && x is Some && window::text_view(x) == window::text_view(y),
        (
            IndexBounds::Timestamp { slot: i, equals: x, .. },
            IndexBounds::Timestamp { slot: j, equals: y, .. },
        ) => i == j && x is Some && x == y,
        _ => false,
    }
}

/// Where a value is named, the limits play no part: two requests that name the
/// same value list the same.
pub proof fn named_value_outranks_limits<P>(
    chain: Chain,
    layout: Layout,
    parse: P,
    a: IndexBounds,
    b: IndexBounds,
    order: Order,
    limit: u32,
    cursor: Option<Place>,
    listing_a: Result<Seq<Place>, Failure>,
    listing_b: Result<Seq<Place>, Failure>,
) where P: Fn(Vec<u8>) -> Result<ContractMetadata, StdError>
    requires
        is_function(parse),
        names_same_value(a, b),
        read::can_list(
            chain,
            layout,
            parse,
            Target::Index(a),
            order,
            limit,
            cursor,
            listing_a,
        ),
        read::can_list(
            chain,
            layout,
            parse,
            Target::Index(b),
            order,
            limit,
            cursor,
            listing_b,
        ),
    ensures
        read::window_of(chain, Target::Index(a), order, cursor) == read::window_of(
            chain,
            Target::Index(b),
            order,
            cursor,
        ),
        listing_a == listing_b,
{
    assert(read::can_list(
        chain,
        layout,
        parse,
        Target::Index(a),
        order,
        limit,
        cursor,
        listing_b,
    ));
    listings_are_alike(
        chain,
        layout,
        parse,
        Target::Index(a),
        order,
        limit,
        cursor,
        listing_a,
        listing_b,
    );
}

/// What is listed of a target depends on the records of the one namespace that
/// it is read from, and on what the chain takes for an address, and on nothing
/// else in the storage.
pub proof fn listing_depends_on_its_namespace<P>(
    chain: Chain,
    other: Chain,
    layout: Layout,
    parse: P,
    target: Target,
    order: Order,
    limit: u32,
    cursor: Option<Place>,
    a: Result<Seq<Place>, Failure>,
    b: Result<Seq<Place>, Failure>,
) where P: Fn(Vec<u8>) -> Result<ContractMetadata, StdError>
    requires
        is_function(parse),
        read::namespace_of(layout, target) matches Ok(namespace) ==> store::records(
            chain,
            namespace,
        ) == store::records(other, namespace),
        forall|text: Seq<char>| #[trigger]
            text::is_address(chain, text) == text::is_address(other, text),
        read::can_list(chain, layout, parse, target, order, limit, cursor, a),
        read::can_list(other, layout, parse, target, order, limit, cursor, b),
    ensures
        a == b,
{
    assert(text::at_address(chain, cursor) == text::at_address(other, cursor));
    assert(read::can_list(chain, layout, parse, target, order, limit, cursor, b));
    listings_are_alike(chain, layout, parse, target, order, limit, cursor, a, b);
}

/// No limit reads like the default one, a limit of none like the least one,
/// and every limit above the greatest one like that.
pub proof fn limits_are_clamped<P>(
    chain: Chain,
    layout: Layout,
    parse: P,
    target: Target,
    order: Order,
    limit_a: Option<u32>,
    limit_b: Option<u32>,
    selection: SelectionView,
    cursor: Option<Place>,
    a: Result<PageView, Failure>,
    b: Result<PageView, Failure>,
) where P: Fn(Vec<u8>) -> Result<ContractMetadata, StdError>
    requires
        is_function(parse),
        answers_alike(chain),
        ({
            ||| limit_a is None && limit_b == Some(25u32)
            ||| limit_a == Some(0u32) && limit_b == Some(1u32)
            ||| limit_a matches Some(limit) && limit >= 50 && limit_b == Some(50u32)
        }),
        read::can_read(
            chain,
            layout,
            parse,
            target,
            order,
            read::limit_of(limit_a),
            selection,
            cursor,
            a,
        ),
        read::can_read(
            chain,
            layout,
            parse,
            target,
            order,
            read::limit_of(limit_b),
            selection,
            cursor,
            b,
        ),
    ensures
        a == b,
{
    let limit = read::limit_of(limit_a);
    reads_are_alike(chain, layout, parse, target, order, limit, selection, cursor, a, b);
}

/// Contracts are read in descending order only where that is asked for: no
/// word on the order reads like a word against descending.
pub proof fn ascending_is_the_default<P>(
    chain: Chain,
    layout: Layout,
    parse: P,
    target: Target,
    limit: u32,
    selection: SelectionView,
    cursor: Option<Place>,
    a: Result<PageView, Failure>,
    b: Result<PageView, Failure>,
) where P: Fn(Vec<u8>) -> Result<ContractMetadata, StdError>
    requires
        is_function(parse),
        answers_alike(chain),
        read::can_read(
            chain,
            layout,
            parse,
            target,
            read::order_of(None),
            limit,
            selection,
            cursor,
            a,
        ),
        read::can_read(
            chain,
            layout,
            parse,
            target,
            read::order_of(Some(false)),
            limit,
            selection,
            cursor,
            b,
        ),
    ensures
        a == b,
        read::order_of(None) is Ascending,
        read::order_of(Some(true)) is Descending,
{
    let order = Order::Ascending;
    reads_are_alike(chain, layout, parse, target, order, limit, selection, cursor, a, b);
}

/// A contract that was visited twice, for selections that differ at most in
/// what they show, is shown or left out both times.
proof fn lemma_shown_both_times<P>(
    chain: Chain,
    layout: Layout,
    parse: P,
    first: SelectionView,
    second: SelectionView,
    id: ContractID,
    a: Option<EnvelopeView>,
    b: Option<EnvelopeView>,
) where P: Fn(Vec<u8>) -> Result<ContractMetadata, StdError>
    requires
        is_function(parse),
        first.since == second.since,
        page::can_visit(chain, layout, parse, first, id, Ok(a)),
        page::can_visit(chain, layout, parse, second, id, Ok(b)),
    ensures
        a is Some == b is Some,
        a is Some ==> a->0.address == b->0.address,
{
    let address = store::stored_address(chain, layout.id_2_addr@, id)->Ok_0;
    let records = store::records(chain, layout.metadata@);
    if a is Some {
        pages::contract_is_shown_as_selected(chain, layout, parse, first, id, a->0);
    } else {
        pages::contract_is_left_out_unchanged(chain, layout, parse, first, id);
    }
    if b is Some {
        pages::contract_is_shown_as_selected(chain, layout, parse, second, id, b->0);
    } else {
        pages::contract_is_left_out_unchanged(chain, layout, parse, second, id);
    }
    if a is Some != b is Some {
        let since = first.since->0;
        let changed = choose|metadata: MetadataView| #[trigger]
            metadata::can_load(records, parse, address, Ok(Some(metadata))) && page::modified(
                since,
                metadata,
            );
        let unchanged = choose|metadata: MetadataView| #[trigger]
            metadata::can_load(records, parse, address, Ok(Some(metadata))) && !page::modified(
                since,
                metadata,
            );
        lemma_loads_alike(records, parse, address, Ok(Some(changed)), Ok(Some(unchanged)));
    }
}

/// The addresses that a page shows.
pub open spec fn addresses_of(page: Seq<EnvelopeView>) -> Seq<Seq<char>> {
    page.map_values(|envelope: EnvelopeView| envelope.address)
}

/// Visits that show contracts at the same places show the same addresses.
proof fn lemma_same_addresses(a: Seq<Option<EnvelopeView>>, b: Seq<Option<EnvelopeView>>)
    requires
        a.len() == b.len(),
        forall|i: int|
            0 <= i < a.len() ==> (#[trigger] a[i] is Some == #[trigger] b[i] is Some) && (a[i] is Some
                ==> a[i]->0.address == b[i]->0.address),
    ensures
        addresses_of(page::shown(a)) == addresses_of(page::shown(b)),
    decreases a.len(),
{
    if a.len() > 0 {
        let last = a.len() - 1;
        assert forall|i: int| 0 <= i < last implies (#[trigger] a.drop_last()[i] is Some
            == #[trigger] b.drop_last()[i] is Some) && (a.drop_last()[i] is Some
            ==> a.drop_last()[i]->0.address == b.drop_last()[i]->0.address) by {
            assert(a[i] is Some == b[i] is Some);
        }
        lemma_same_addresses(a.drop_last(), b.drop_last());
        assert(a[last] is Some == b[last] is Some);
        if a[last] is Some {
            assert(addresses_of(page::shown(a)) =~= addresses_of(
                page::shown(a.drop_last()),
            ).push(a[last]->0.address));
            assert(addresses_of(page::shown(b)) =~= addresses_of(
                page::shown(b.drop_last()),
            ).push(b[last]->0.address));
        }
    } else {
        assert(addresses_of(page::shown(a)) =~= addresses_of(page::shown(b)));
    }
}

/// The cursor of a page does not depend on what the page shows. Nor do the
/// addresses on it, as long as the same contracts are left out for not having
/// changed.
pub proof fn selection_leaves_cursor_and_addresses<P>(
    chain: Chain,
    layout: Layout,
    parse: P,
    target: Target,
    order: Order,
    limit: u32,
    first: SelectionView,
    second: SelectionView,
    cursor: Option<Place>,
    a: PageView,
    b: PageView,
) where P: Fn(Vec<u8>) -> Result<ContractMetadata, StdError>
    requires
        is_function(parse),
        read::can_read(chain, layout, parse, target, order, limit, first, cursor, Ok(a)),
        read::can_read(chain, layout, parse, target, order, limit, second, cursor, Ok(b)),
    ensures
        a.cursor == b.cursor,
        first.since == second.since ==> addresses_of(a.page) == addresses_of(b.page),
{
    let x = lemma_read_parts(chain, layout, parse, target, order, limit, first, cursor, Ok(a));
    let y = lemma_read_parts(chain, layout, parse, target, order, limit, second, cursor, Ok(b));
    listings_are_alike(chain, layout, parse, target, order, limit, cursor, x, y);
    let places = x->Ok_0;
    let v = pages::lemma_page_parts(chain, layout, parse, first, places, a);
    let w = pages::lemma_page_parts(chain, layout, parse, second, places, b);
    if first.since == second.since {
        assert forall|i: int| 0 <= i < v.len() implies (#[trigger] v[i] is Some
            == #[trigger] w[i] is Some) && (v[i] is Some ==> v[i]->0.address
            == w[i]->0.address) by {
            lemma_shown_both_times(
                chain,
                layout,
                parse,
                first,
                second,
                places[i].1,
                v[i],
                w[i],
            );
        }
        lemma_same_addresses(v, w);
    }
}

/// Whether whatever has changed after `late` has changed after `early` too.
pub open spec fn no_later(early: Option<Since>, late: Option<Since>) -> bool {
    match (early, late) {
        (None, _) => true,
        (Some(Since::Rev(early)), Some(Since::Rev(late))) => early <= late,
        (Some(Since::Timestamp(early)), Some(Since::Timestamp(late))) => early.nanos <= late.nanos,
        _ => false,
    }
}

/// Whether `part` is `whole` with some elements left out.
pub open spec fn is_subsequence<A>(part: Seq<A>, whole: Seq<A>) -> bool
    decreases whole.len(),
{
    ||| part.len() == 0
    ||| whole.len() > 0 && (is_subsequence(part, whole.drop_last()) || (part.last() == whole.last()
        && is_subsequence(part.drop_last(), whole.drop_last())))
}

/// Of two visits to a contract, the one that asks for later changes shows
/// nothing or the same.
proof fn lemma_later_shows_less<P>(
    chain: Chain,
    layout: Layout,
    parse: P,
    early: SelectionView,
    late: SelectionView,
    id: ContractID,
    a: Option<EnvelopeView>,
    b: Option<EnvelopeView>,
) where P: Fn(Vec<u8>) -> Result<ContractMetadata, StdError>
    requires
        is_function(parse),
        answers_alike(chain),
        no_later(early.since, late.since),
        late == (SelectionView { since: late.since, ..early }),
        page::can_visit(chain, layout, parse, early, id, Ok(a)),
        page::can_visit(chain, layout, parse, late, id, Ok(b)),
    ensures
        b is Some ==> a == b,
{
    if b is Some {
        let address = store::stored_address(chain, layout.id_2_addr@, id)->Ok_0;
        let records = store::records(chain, layout.metadata@);
        pages::contract_is_shown_as_selected(chain, layout, parse, late, id, b->0);
        if a is None {
            pages::contract_is_left_out_unchanged(chain, layout, parse, early, id);
            let unchanged = choose|metadata: MetadataView| #[trigger]
                metadata::can_load(records, parse, address, Ok(Some(metadata))) && !page::modified(
                    early.since->0,
                    metadata,
                );
            let changed = choose|metadata: MetadataView| #[trigger]
                metadata::can_load(records, parse, address, Ok(Some(metadata))) && page::modified(
                    late.since->0,
                    metadata,
                );
            lemma_loads_alike(records, parse, address, Ok(Some(changed)), Ok(Some(unchanged)));
        } else {
            let x = lemma_shown_parts(chain, layout, parse, early, id, a->0);
            let y = lemma_shown_parts(chain, layout, parse, late, id, b->0);
            if early.meta {
                lemma_loads_alike(records, parse, address, Ok(x), Ok(y));
            }
            assert(page::can_show(chain, early, address, x, Ok(b)));
            lemma_shows_alike(chain, early, address, x, Ok(a), Ok(b));
        }
    }
}

/// What a contract that is shown was shown with.
proof fn lemma_shown_parts<P>(
    chain: Chain,
    layout: Layout,
    parse: P,
    selection: SelectionView,
    id: ContractID,
    envelope: EnvelopeView,
) -> (meta: Option<MetadataView>) where P: Fn(Vec<u8>) -> Result<ContractMetadata, StdError>
    requires
        page::can_visit(chain, layout, parse, selection, id, Ok(Some(envelope))),
    ensures
        store::stored_address(chain, layout.id_2_addr@, id) is Ok,
        page::can_show(
            chain,
            selection,
            store::stored_address(chain, layout.id_2_addr@, id)->Ok_0,
            meta,
            Ok(Some(envelope)),
        ),
        selection.meta ==> metadata::can_load(
            store::records(chain, layout.metadata@),
            parse,
            store::stored_address(chain, layout.id_2_addr@, id)->Ok_0,
            Ok(meta),
        ),
        !selection.meta ==> meta is None,
{
    let address = store::stored_address(chain, layout.id_2_addr@, id)->Ok_0;
    let outcome = Ok::<Option<EnvelopeView>, Failure>(Some(envelope));
    if selection.meta {
        let loaded = choose|loaded: Result<Option<MetadataView>, Failure>| #[trigger]
            metadata::can_load(
                store::records(chain, layout.metadata@),
                parse,
                address,
                loaded,
            ) && match loaded {
                Ok(meta) => page::can_sift(
                    chain,
                    layout,
                    parse,
                    selection,
                    address,
                    meta,
                    outcome,
                ),
                Err(failure) => outcome == Err::<Option<EnvelopeView>, Failure>(failure),
            };
        loaded->Ok_0
    } else {
        None
    }
}

/// What is shown of visits that show less is a part of what is shown of the others.
proof fn lemma_less_is_shown(a: Seq<Option<EnvelopeView>>, b: Seq<Option<EnvelopeView>>)
    requires
        a.len() == b.len(),
        forall|i: int| 0 <= i < a.len() && #[trigger] b[i] is Some ==> #[trigger] a[i] == b[i],
    ensures
        is_subsequence(page::shown(b), page::shown(a)),
    decreases a.len(),
{
    if a.len() > 0 {
        let last = a.len() - 1;
        assert forall|i: int|
            0 <= i < last && #[trigger] b.drop_last()[i] is Some implies #[trigger] a.drop_last()[i]
            == b.drop_last()[i] by {
            assert(b[i] is Some && a[i] == b[i]);
        }
        lemma_less_is_shown(a.drop_last(), b.drop_last());
        let rest = page::shown(a.drop_last());
        let part = page::shown(b.drop_last());
        if a[last] is Some {
            assert(page::shown(a).drop_last() =~= rest);
            if b[last] is Some {
                assert(a[last] == b[last]);
                assert(page::shown(b).drop_last() =~= part);
            }
        } else {
            assert(b[last] is None);
        }
    }
}

/// Asking for later changes leaves contracts out of the page and changes
/// nothing else: the page is a part of the one for earlier changes, and the
/// cursor is the same.
pub proof fn later_changes_are_fewer<P>(
    chain: Chain,
    layout: Layout,
    parse: P,
    early: SelectionView,
    late: SelectionView,
    places: Seq<Place>,
    a: PageView,
    b: PageView,
) where P: Fn(Vec<u8>) -> Result<ContractMetadata, StdError>
    requires
        is_function(parse),
        answers_alike(chain),
        no_later(early.since, late.since),
        late == (SelectionView { since: late.since, ..early }),
        page::can_build(chain, layout, parse, early, places, Ok(a)),
        page::can_build(chain, layout, parse, late, places, Ok(b)),
    ensures
        is_subsequence(b.page, a.page),
        b.cursor == a.cursor,
{
    let v = pages::lemma_page_parts(chain, layout, parse, early, places, a);
    let w = pages::lemma_page_parts(chain, layout, parse, late, places, b);
    assert forall|i: int| 0 <= i < v.len() && #[trigger] w[i] is Some implies #[trigger] v[i]
        == w[i] by {
        lemma_later_shows_less(chain, layout, parse, early, late, places[i].1, v[i], w[i]);
    }
    lemma_less_is_shown(v, w);
}

/// Visits in two parts show what the parts show.
proof fn lemma_shown_in_parts(a: Seq<Option<EnvelopeView>>, b: Seq<Option<EnvelopeView>>)
    ensures
        page::shown(a + b) == page::shown(a) + page::shown(b),
    decreases b.len(),
{
    if b.len() > 0 {
        lemma_shown_in_parts(a, b.drop_last());
        assert((a + b).drop_last() =~= a + b.drop_last());
        assert((a + b).last() == b.last());
        if let Some(envelope) = b.last() {
            assert((page::shown(a) + page::shown(b.drop_last())).push(envelope) =~= page::shown(a)
                + page::shown(b.drop_last()).push(envelope));
        }
    } else {
        assert(a + b =~= a);
        assert(page::shown(a) + page::shown(b) =~= page::shown(a));
    }
}

/// A listing with a smaller limit is the beginning of one with a larger limit.
pub proof fn smaller_limit_lists_the_beginning<P>(
    chain: Chain,
    layout: Layout,
    parse: P,
    target: Target,
    order: Order,
    small: u32,
    large: u32,
    cursor: Option<Place>,
    a: Seq<Place>,
    b: Seq<Place>,
) where P: Fn(Vec<u8>) -> Result<ContractMetadata, StdError>
    requires
        is_function(parse),
        small <= large,
        read::can_list(chain, layout, parse, target, order, small, cursor, Ok(a)),
        read::can_list(chain, layout, parse, target, order, large, cursor, Ok(b)),
    ensures
        a.is_prefix_of(b),
{
    let namespace = read::namespace_of(layout, target)->Ok_0;
    let rows = window::within(
        store::records(chain, namespace),
        read::window_of(chain, target, order, cursor),
        order,
    );
    if read::is_by_address(target) {
        addresses::lemma_listed(rows, parse, small, a);
        addresses::lemma_listed(rows, parse, large, b);
        assert forall|i: int| 0 <= i < a.len() implies a[i] == b[i] by {
            assert(metadata::can_mark(parse, rows[i], Ok(a[i])));
            assert(metadata::can_mark(parse, rows[i], Ok(b[i])));
            lemma_marks_alike(parse, rows[i], Ok(a[i]), Ok(b[i]));
        }
    } else {
        laws::lemma_listed(read::kind_of(target), rows, small, a);
        laws::lemma_listed(read::kind_of(target), rows, large, b);
        assert forall|i: int| 0 <= i < a.len() implies a[i] == b[i] by {
            assert(keys::place_of(read::kind_of(target), rows[i].0) == Ok::<Place, Failure>(a[i]));
            assert(keys::place_of(read::kind_of(target), rows[i].0) == Ok::<Place, Failure>(b[i]));
        }
    }
    assert(a =~= b.subrange(0, a.len() as int));
}

/// Pages of one selection show the same of the places that they have in common.
proof fn lemma_visits_alike<P>(
    chain: Chain,
    layout: Layout,
    parse: P,
    selection: SelectionView,
    a: Seq<Place>,
    b: Seq<Place>,
    v: Seq<Option<EnvelopeView>>,
    w: Seq<Option<EnvelopeView>>,
    at: int,
) where P: Fn(Vec<u8>) -> Result<ContractMetadata, StdError>
    requires
        is_function(parse),
        answers_alike(chain),
        v.len() == a.len(),
        w.len() == b.len(),
        0 <= at,
        at + a.len() <= b.len(),
        forall|i: int| 0 <= i < a.len() ==> #[trigger] a[i] == b[at + i],
        forall|i: int|
            0 <= i < v.len() ==> page::can_visit(
                chain,
                layout,
                parse,
                selection,
                a[i].1,
                Ok(#[trigger] v[i]),
            ),
        forall|i: int|
            0 <= i < w.len() ==> page::can_visit(
                chain,
                layout,
                parse,
                selection,
                b[i].1,
                Ok(#[trigger] w[i]),
            ),
    ensures
        v == w.subrange(at, at + v.len()),
{
    assert forall|i: int| 0 <= i < v.len() implies v[i] == w[at + i] by {
        assert(a[i] == b[at + i]);
        assert(page::can_visit(chain, layout, parse, selection, a[i].1, Ok(v[i])));
        assert(page::can_visit(chain, layout, parse, selection, b[at + i].1, Ok(w[at + i])));
        visits_are_alike(chain, layout, parse, selection, a[i].1, Ok(v[i]), Ok(w[at + i]));
    }
    assert(v =~= w.subrange(at, at + v.len()));
}

/// A page with a smaller limit is the beginning of one with a larger limit.
pub proof fn smaller_limit_reads_the_beginning<P>(
    chain: Chain,
    layout: Layout,
    parse: P,
    target: Target,
    order: Order,
    small: u32,
    large: u32,
    selection: SelectionView,
    cursor: Option<Place>,
    a: PageView,
    b: PageView,
) where P: Fn(Vec<u8>) -> Result<ContractMetadata, StdError>
    requires
        is_function(parse),
        answers_alike(chain),
        small <= large,
        read::can_read(
            chain,
            layout,
            parse,
            target,
            order,
            read::limit_of(Some(small)),
            selection,
            cursor,
            Ok(a),
        ),
        read::can_read(
            chain,
            layout,
            parse,
            target,
            order,
            read::limit_of(Some(large)),
            selection,
            cursor,
            Ok(b),
        ),
    ensures
        a.page.is_prefix_of(b.page),
{
    let (m, n) = (read::limit_of(Some(small)), read::limit_of(Some(large)));
    let x = lemma_read_parts(chain, layout, parse, target, order, m, selection, cursor, Ok(a));
    let y = lemma_read_parts(chain, layout, parse, target, order, n, selection, cursor, Ok(b));
    let (first, second) = (x->Ok_0, y->Ok_0);
    smaller_limit_lists_the_beginning(
        chain,
        layout,
        parse,
        target,
        order,
        m,
        n,
        cursor,
        first,
        second,
    );
    let v = pages::lemma_page_parts(chain, layout, parse, selection, first, a);
    let w = pages::lemma_page_parts(chain, layout, parse, selection, second, b);
    lemma_visits_alike(chain, layout, parse, selection, first, second, v, w, 0);
    let count = v.len() as int;
    lemma_shown_in_parts(w.take(count), w.skip(count));
    assert(w.take(count) =~= w.subrange(0, count));
    assert(w =~= w.take(count) + w.skip(count));
    assert(a.page =~= b.page.subrange(0, a.page.len() as int));
}

/// Two pages in a row, the second after the cursor of the first, are together
/// the page of both limits. The second has no cursor exactly if nothing
/// follows the first.
pub proof fn two_pages_are_one<P>(
    chain: Chain,
    layout: Layout,
    parse: P,
    target: Target,
    order: Order,
    m: u32,
    n: u32,
    selection: SelectionView,
    cursor: Option<Place>,
    first: PageView,
    second: PageView,
    full: PageView,
) where P: Fn(Vec<u8>) -> Result<ContractMetadata, StdError>
    requires
        is_function(parse),
        answers_alike(chain),
        n > 0,
        m + n <= u32::MAX,
        pages::goes_on(target, order, cursor),
        read::limits_fit(chain, layout, target, cursor),
        read::can_read(chain, layout, parse, target, order, m, selection, cursor, Ok(first)),
        first.cursor matches Some(place) && pages::goes_on_after(chain, target, place),
        read::can_read(chain, layout, parse, target, order, n, selection, first.cursor, Ok(second)),
        read::can_read(
            chain,
            layout,
            parse,
            target,
            order,
            (m + n) as u32,
            selection,
            cursor,
            Ok(full),
        ),
    ensures
        full.page == first.page + second.page,
        full.cursor == if second.cursor is Some {
            second.cursor
        } else {
            first.cursor
        },
        second.cursor is None <==> window::within(
            store::records(chain, read::namespace_of(layout, target)->Ok_0),
            read::window_of(chain, target, order, first.cursor),
            order,
        ).len() == 0,
{
    let k = (m + n) as u32;
    let next = first.cursor;
    let kind = read::kind_of(target);
    let records = store::records(chain, read::namespace_of(layout, target)->Ok_0);
    let whole = read::window_of(chain, target, order, cursor);
    let rows = window::within(records, whole, order);
    let rest = window::within(records, read::window_of(chain, target, order, next), order);
    let x = lemma_read_parts(chain, layout, parse, target, order, m, selection, cursor, Ok(first));
    let y = lemma_read_parts(chain, layout, parse, target, order, n, selection, next, Ok(second));
    let z = lemma_read_parts(chain, layout, parse, target, order, k, selection, cursor, Ok(full));
    let (a, b, c) = (x->Ok_0, y->Ok_0, z->Ok_0);
    let u = pages::lemma_page_parts(chain, layout, parse, selection, a, first);
    let v = pages::lemma_page_parts(chain, layout, parse, selection, b, second);
    let w = pages::lemma_page_parts(chain, layout, parse, selection, c, full);
    laws::lemma_listed(kind, rows, m, a);
    assert(laws::is_page(kind, records, whole, order, m, a));
    pages::two_listings_are_one(
        chain,
        layout,
        target,
        records,
        order,
        cursor,
        m,
        n,
        a,
        b,
        c,
    );
    laws::lemma_listed(kind, rest, n, b);
    let at = a.len() as int;
    lemma_visits_alike(chain, layout, parse, selection, a, c, u, w, 0);
    lemma_visits_alike(chain, layout, parse, selection, b, c, v, w, at);
    assert(w =~= u + v);
    lemma_shown_in_parts(u, v);
}

/// A listing by address that goes on after the cursor of a page begins with
/// the very place that the page ended with, if the chain takes its text for an
/// address. With a limit of one it goes no further.
pub proof fn page_by_address_repeats_its_cursor<P>(
    chain: Chain,
    namespace: Seq<char>,
    parse: P,
    equals: Option<Seq<char>>,
    between: Option<Between<Seq<char>>>,
    order: Order,
    cursor: Option<Place>,
    limit: u32,
    a: Seq<Place>,
    b: Seq<Place>,
) where P: Fn(Vec<u8>) -> Result<ContractMetadata, StdError>
    requires
        is_function(parse),
        limit > 0,
        a.len() > 0,
        text::is_address(chain, a.last().0),
        metadata::lists(
            chain,
            namespace,
            parse,
            window::metadata_window(
                equals,
                between,
                order,
                cursor,
                text::at_address(chain, cursor),
            ),
            order,
            limit,
            Ok(a),
        ),
        metadata::lists(
            chain,
            namespace,
            parse,
            window::metadata_window(
                equals,
                between,
                order,
                Some(a.last()),
                text::at_address(chain, Some(a.last())),
            ),
            order,
            limit,
            Ok(b),
        ),
    ensures
        b.len() > 0,
        b[0] == a.last(),
        limit == 1 ==> b == seq![a.last()],
{
    let records = store::records(chain, namespace);
    let is_address = text::at_address(chain, cursor);
    let whole = window::metadata_window(equals, between, order, cursor, is_address);
    let part = window::metadata_window(equals, between, order, Some(a.last()), true);
    let rows = window::within(records, whole, order);
    let rest = window::within(records, part, order);
    let at = a.len() - 1;
    addresses::lemma_listed(rows, parse, limit, a);
    addresses::lemma_listed(rest, parse, limit, b);
    addresses::metadata_listing_goes_on(
        records,
        parse,
        equals,
        between,
        order,
        cursor,
        is_address,
        limit,
        a,
    );
    assert(rest[0] == rows[at]);
    assert(metadata::can_mark(parse, rows[at], Ok(a[at])));
    assert(metadata::can_mark(parse, rest[0], Ok(b[0])));
    lemma_marks_alike(parse, rows[at], Ok(a[at]), Ok(b[0]));
    if limit == 1 {
        assert(b =~= seq![a.last()]);
    }
}

/// Of a cursor of a listing by address nothing counts but a text that the chain
/// takes for an address: with any other text the listing is the one without a
/// cursor, and the number in the cursor plays no part.
pub proof fn cursor_by_address_is_its_address<P>(
    chain: Chain,
    namespace: Seq<char>,
    parse: P,
    equals: Option<Seq<char>>,
    between: Option<Between<Seq<char>>>,
    order: Order,
    text: Seq<char>,
    id: ContractID,
    other: Option<Place>,
    limit: u32,
    a: Result<Seq<Place>, Failure>,
    b: Result<Seq<Place>, Failure>,
) where P: Fn(Vec<u8>) -> Result<ContractMetadata, StdError>
    requires
        is_function(parse),
        match other {
            None => !text::is_address(chain, text),
            Some((same, _)) => same == text,
        },
        metadata::lists(
            chain,
            namespace,
            parse,
            window::metadata_window(
                equals,
                between,
                order,
                Some((text, id)),
                text::at_address(chain, Some((text, id))),
            ),
            order,
            limit,
            a,
        ),
        metadata::lists(
            chain,
            namespace,
            parse,
            window::metadata_window(
                equals,
                between,
                order,
                other,
                text::at_address(chain, other),
            ),
            order,
            limit,
            b,
        ),
    ensures
        a == b,
{
    let is_address = text::is_address(chain, text);
    let window = window::metadata_window(equals, between, order, Some((text, id)), is_address);
    assert(window == window::metadata_window(
        equals,
        between,
        order,
        other,
        text::at_address(chain, other),
    ));
    let rows = window::within(store::records(chain, namespace), window, order);
    lemma_rows_list_alike(rows, parse, limit, a, b);
}

} // verus!

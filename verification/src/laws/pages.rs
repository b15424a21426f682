//! What holds of reading a target page by page, and of what a page shows.
use cosmwasm_std::StdError;
use vstd::prelude::*;

use crate::bytes;
use crate::bytes::Record;
use crate::error::Failure;
use crate::keys;
use crate::keys::{KeyKind, Place};
use crate::laws;
use crate::laws::addresses;
use crate::laws::numbers;
use crate::laws::relations;
use crate::laws::texts;
use crate::layout::Layout;
use crate::metadata;
use crate::models::{ContractID, ContractMetadata, IndexBounds, MetadataView, Order};
use crate::page;
use crate::page::{EnvelopeView, PageView, SelectionView, Since};
use crate::pagination;
use crate::read;
use crate::read::Target;
use crate::scan;
use crate::store;
use crate::store::Chain;
use crate::text;
use crate::window;
use crate::window::Window;

verus! {

/// What is listed on `pages` pages in a row, each of which goes on after the
/// cursor of the one before it, until one of them is empty. `windows` gives
/// the part of the index that a cursor leaves to be listed.
pub open spec fn followed(
    kind: KeyKind,
    records: Seq<Record>,
    windows: spec_fn(Option<Place>) -> Window,
    order: Order,
    limit: u32,
    cursor: Option<Place>,
    pages: nat,
) -> Result<Seq<Place>, Failure>
    decreases pages,
{
    if pages == 0 {
        Ok(Seq::empty())
    } else {
        match pagination::places(
            kind,
            window::within(records, windows(cursor), order),
            limit,
        ) {
            Err(failure) => Err(failure),
            Ok(listing) => if listing.len() == 0 {
                Ok(listing)
            } else {
                match followed(
                    kind,
                    records,
                    windows,
                    order,
                    limit,
                    Some(listing.last()),
                    (pages - 1) as nat,
                ) {
                    Err(failure) => Err(failure),
                    Ok(rest) => Ok(listing + rest),
                }
            },
        }
    }
}

/// Results in two parts give what the parts give.
proof fn lemma_in_parts<A>(first: Seq<Result<A, Failure>>, second: Seq<Result<A, Failure>>)
    ensures
        pagination::all_or_first_failure(first + second) == match (
            pagination::all_or_first_failure(first),
            pagination::all_or_first_failure(second),
        ) {
            (Err(failure), _) => Err(failure),
            (Ok(_), Err(failure)) => Err(failure),
            (Ok(values), Ok(rest)) => Ok(values + rest),
        },
    decreases second.len(),
{
    if second.len() == 0 {
        assert(first + second =~= first);
        if pagination::all_or_first_failure(first) is Ok {
            let values = pagination::all_or_first_failure(first)->Ok_0;
            assert(values + Seq::<A>::empty() =~= values);
        }
    } else {
        let rest = second.drop_last();
        lemma_in_parts(first, rest);
        assert((first + second).drop_last() =~= first + rest);
        assert((first + second).last() == second.last());
        if pagination::all_or_first_failure(first) is Ok
            && pagination::all_or_first_failure(rest) is Ok && second.last() is Ok {
            let values = pagination::all_or_first_failure(first)->Ok_0;
            let others = pagination::all_or_first_failure(rest)->Ok_0;
            let last = second.last()->Ok_0;
            assert((values + others).push(last) =~= values + others.push(last));
        }
    }
}

/// Where every page goes on with what the page before it left to be listed,
/// the pages list everything, each record once.
proof fn lemma_pages_cover(
    kind: KeyKind,
    records: Seq<Record>,
    windows: spec_fn(Option<Place>) -> Window,
    order: Order,
    limit: u32,
    cursor: Option<Place>,
    pages: nat,
    good: spec_fn(Option<Place>) -> bool,
)
    requires
        limit > 0,
        pages >= window::within(records, windows(cursor), order).len(),
        bytes::sorted(bytes::keys_of(window::within(records, windows(cursor), order)), order),
        good(cursor),
        forall|at: Option<Place>, listing: Seq<Place>|
            good(at) && #[trigger] laws::is_page(kind, records, windows(at), order, limit, listing)
                ==> good(Some(listing.last())) && laws::is_rest(
                records,
                windows(at),
                windows(Some(listing.last())),
                order,
                listing.len(),
            ),
    ensures
        followed(kind, records, windows, order, limit, cursor, pages) == pagination::all_places(
            kind,
            window::within(records, windows(cursor), order),
        ),
    decreases pages,
{
    let rows = window::within(records, windows(cursor), order);
    let mark = |record: Record| pagination::record_place(kind, record);
    let count = pagination::at_most(rows.len(), limit);
    let first = pagination::first_of(rows, limit).map_values(mark);
    let second = rows.skip(count).map_values(mark);
    assert(rows.map_values(mark) =~= first + second);
    lemma_in_parts(first, second);
    if pages > 0 {
        let page = pagination::places(kind, rows, limit);
        if page is Ok && page->Ok_0.len() > 0 {
            let listing = page->Ok_0;
            laws::lemma_listed(kind, rows, limit, listing);
            assert(laws::is_page(kind, records, windows(cursor), order, limit, listing));
            let rest = rows.skip(count);
            assert(window::within(records, windows(Some(listing.last())), order) == rest);
            assert forall|i: int, j: int| 0 <= i < j < bytes::keys_of(rest).len() implies
                bytes::comes_before(
                order,
                #[trigger] bytes::keys_of(rest)[i],
                #[trigger] bytes::keys_of(rest)[j],
            ) by {
                let keys = bytes::keys_of(rows);
                assert(bytes::comes_before(order, keys[i + count], keys[j + count]));
            }
            lemma_pages_cover(
                kind,
                records,
                windows,
                order,
                limit,
                Some(listing.last()),
                (pages - 1) as nat,
                good,
            );
        } else if page is Ok {
            laws::lemma_listed(kind, rows, limit, page->Ok_0);
            assert(second =~= Seq::empty());
            assert(page->Ok_0 =~= Seq::empty());
        }
    } else {
        assert(rows.map_values(mark) =~= Seq::empty());
    }
}

/// Whether a listing of a target can go on after a place that it came to. The
/// place of a contract with a truth value has to be that of one, and the place
/// of an address has to be one that the chain takes for an address.
pub open spec fn goes_on_after(chain: Chain, target: Target, place: Place) -> bool {
    match target {
        Target::Index(IndexBounds::Boolean { .. }) => numbers::is_truth(place),
        Target::Index(IndexBounds::CreatedBy { .. }) => text::is_address(chain, place.0),
        _ => true,
    }
}

/// Whether a listing of a target can go on after each place that a record marks.
pub open spec fn goes_on_after_all(chain: Chain, target: Target, records: Seq<Record>) -> bool {
    forall|i: int|
        0 <= i < records.len() ==> match keys::place_of(
            read::kind_of(target),
            #[trigger] records[i].0,
        ) {
            Ok(place) => goes_on_after(chain, target, place),
            Err(_) => true,
        }
}

/// Whether a listing of a target goes on where its cursor tells.
pub open spec fn goes_on(target: Target, order: Order, cursor: Option<Place>) -> bool {
    match target {
        Target::Index(bounds) => match bounds {
            IndexBounds::Address { .. } => false,
            IndexBounds::CreatedBy { equals, between } => texts::texts_go_on(
                order,
                window::text_view(equals),
                window::text_between(between),
                cursor,
            ),
            IndexBounds::Text { equals, between, .. } => texts::texts_go_on(
                order,
                window::text_view(equals),
                window::text_between(between),
                cursor,
            ),
            IndexBounds::CreatedAt { equals, between } => numbers::numbers_go_on(
                order,
                window::start_of(equals, between),
                window::stop_of(equals, between),
                cursor,
            ),
            IndexBounds::UpdatedAt { equals, between } => numbers::numbers_go_on(
                order,
                window::start_of(equals, between),
                window::stop_of(equals, between),
                cursor,
            ),
            IndexBounds::Timestamp { equals, between, .. } => numbers::numbers_go_on(
                order,
                window::start_of(equals, between),
                window::stop_of(equals, between),
                cursor,
            ),
            IndexBounds::Rev { equals, between } => numbers::numbers_go_on(
                order,
                window::start_of(equals, between),
                window::stop_of(equals, between),
                cursor,
            ),
            IndexBounds::CodeId { equals, between } => numbers::numbers_go_on(
                order,
                window::start_of(equals, between),
                window::stop_of(equals, between),
                cursor,
            ),
            IndexBounds::Height { equals, between } => numbers::numbers_go_on(
                order,
                window::start_of(equals, between),
                window::stop_of(equals, between),
                cursor,
            ),
            IndexBounds::Uint64 { equals, between, .. } => numbers::numbers_go_on(
                order,
                window::start_of(equals, between),
                window::stop_of(equals, between),
                cursor,
            ),
            IndexBounds::Uint128 { equals, between, .. } => numbers::numbers_go_on(
                order,
                window::start_of(equals, between),
                window::stop_of(equals, between),
                cursor,
            ),
            IndexBounds::Boolean { start, stop, .. } => {
                numbers::numbers_go_on(order, start, stop, cursor)
            },
        },
        Target::Tag(_) => true,
        Target::Relationship(_) => true,
    }
}

/// A listing of a target that goes on after the cursor of a page lists what
/// that page left of the readable records.
pub proof fn target_listing_goes_on(
    chain: Chain,
    layout: Layout,
    target: Target,
    records: Seq<Record>,
    order: Order,
    cursor: Option<Place>,
    limit: u32,
    listing: Seq<Place>,
)
    requires
        read::namespace_of(layout, target) is Ok,
        goes_on(target, order, cursor),
        read::limits_fit(chain, layout, target, cursor),
        laws::is_page(
            read::kind_of(target),
            records,
            read::window_of(chain, target, order, cursor),
            order,
            limit,
            listing,
        ),
        goes_on_after(chain, target, listing.last()),
    ensures
        goes_on(target, order, Some(listing.last())),
        read::limits_fit(chain, layout, target, Some(listing.last())),
        laws::is_rest(
            laws::readable(read::kind_of(target), records),
            read::window_of(chain, target, order, cursor),
            read::window_of(chain, target, order, Some(listing.last())),
            order,
            listing.len(),
        ),
{
    let whole = read::window_of(chain, target, order, cursor);
    let rows = window::within(records, whole, order);
    let at = listing.len() - 1;
    laws::lemma_listed(read::kind_of(target), rows, limit, listing);
    assert(keys::place_of(read::kind_of(target), rows[at].0) == Ok::<Place, Failure>(listing[at]));
    match target {
        Target::Index(bounds) => match bounds {
            IndexBounds::Address { .. } => {},
            IndexBounds::CreatedBy { equals, between } => {
                texts::address_listing_goes_on(
                    records,
                    window::text_view(equals),
                    window::text_between(between),
                    order,
                    cursor,
                    text::at_address(chain, cursor),
                    limit,
                    listing,
                );
            },
            IndexBounds::Text { equals, between, .. } => {
                texts::text_listing_goes_on(
                    records,
                    window::text_view(equals),
                    window::text_between(between),
                    order,
                    cursor,
                    limit,
                    listing,
                );
            },
            IndexBounds::CreatedAt { equals, between } => {
                let (equals, between) = (window::nanos_view(equals), window::nanos_between(between));
                numbers::u64_listing_goes_on(records, equals, between, order, cursor, limit, listing);
            },
            IndexBounds::UpdatedAt { equals, between } => {
                let (equals, between) = (window::nanos_view(equals), window::nanos_between(between));
                numbers::u64_listing_goes_on(records, equals, between, order, cursor, limit, listing);
            },
            IndexBounds::Timestamp { equals, between, .. } => {
                let (equals, between) = (window::nanos_view(equals), window::nanos_between(between));
                numbers::u64_listing_goes_on(records, equals, between, order, cursor, limit, listing);
            },
            IndexBounds::Rev { equals, between } => {
                numbers::u64_listing_goes_on(records, equals, between, order, cursor, limit, listing);
            },
            IndexBounds::CodeId { equals, between } => {
                numbers::u64_listing_goes_on(records, equals, between, order, cursor, limit, listing);
            },
            IndexBounds::Height { equals, between } => {
                numbers::u64_listing_goes_on(records, equals, between, order, cursor, limit, listing);
            },
            IndexBounds::Uint64 { equals, between, .. } => {
                numbers::u64_listing_goes_on(records, equals, between, order, cursor, limit, listing);
            },
            IndexBounds::Uint128 { equals, between, .. } => {
                numbers::u128_listing_goes_on(records, equals, between, order, cursor, limit, listing);
            },
            IndexBounds::Boolean { start, stop, .. } => {
                numbers::bool_listing_goes_on(records, start, stop, order, cursor, limit, listing);
            },
        },
        Target::Tag(tag) => {
            texts::tag_listing_goes_on(records, tag@, order, cursor, limit, listing);
        },
        Target::Relationship((subject, name)) => {
            relations::relation_listing_goes_on(
                records,
                subject@,
                name@,
                order,
                cursor,
                limit,
                listing,
            );
        },
    }
}

/// Two listings in a row, the second after the last place of the first, are
/// together the listing of both limits.
#[verifier::rlimit(30)]
pub proof fn two_listings_are_one(
    chain: Chain,
    layout: Layout,
    target: Target,
    records: Seq<Record>,
    order: Order,
    cursor: Option<Place>,
    m: u32,
    n: u32,
    first: Seq<Place>,
    second: Seq<Place>,
    full: Seq<Place>,
)
    requires
        m + n <= u32::MAX,
        read::namespace_of(layout, target) is Ok,
        goes_on(target, order, cursor),
        read::limits_fit(chain, layout, target, cursor),
        laws::is_page(
            read::kind_of(target),
            records,
            read::window_of(chain, target, order, cursor),
            order,
            m,
            first,
        ),
        goes_on_after(chain, target, first.last()),
        pagination::places(
            read::kind_of(target),
            window::within(
                records,
                read::window_of(chain, target, order, Some(first.last())),
                order,
            ),
            n,
        ) == Ok::<Seq<Place>, Failure>(second),
        pagination::places(
            read::kind_of(target),
            window::within(records, read::window_of(chain, target, order, cursor), order),
            (m + n) as u32,
        ) == Ok::<Seq<Place>, Failure>(full),
    ensures
        full == first + second,
{
    let kind = read::kind_of(target);
    let kept = laws::readable(kind, records);
    let whole = read::window_of(chain, target, order, cursor);
    let part = read::window_of(chain, target, order, Some(first.last()));
    let rows = window::within(kept, whole, order);
    let rest = window::within(kept, part, order);
    let k = (m + n) as u32;
    let at = first.len() as int;
    target_listing_goes_on(chain, layout, target, records, order, cursor, m, first);
    laws::lemma_readable_places(kind, records, whole, order, m, first);
    laws::lemma_readable_places(kind, records, part, order, n, second);
    laws::lemma_readable_places(kind, records, whole, order, k, full);
    laws::lemma_listed(kind, rows, m, first);
    laws::lemma_listed(kind, rest, n, second);
    laws::lemma_listed(kind, rows, k, full);
    assert(rest == rows.skip(at));
    assert forall|i: int| 0 <= i < full.len() implies full[i] == (first + second)[i] by {
        assert(keys::place_of(kind, rows[i].0) == Ok::<Place, Failure>(full[i]));
        if i < at {
            assert(keys::place_of(kind, rows[i].0) == Ok::<Place, Failure>(first[i]));
        } else {
            assert(keys::place_of(kind, rest[i - at].0) == Ok::<Place, Failure>(second[i - at]));
            assert(rest[i - at] == rows[i]);
        }
    }
    assert(full =~= first + second);
}

/// Pages in a row that all succeed list the same of the readable records.
proof fn lemma_followed_readable(
    kind: KeyKind,
    records: Seq<Record>,
    windows: spec_fn(Option<Place>) -> Window,
    order: Order,
    limit: u32,
    cursor: Option<Place>,
    pages: nat,
)
    requires
        followed(kind, records, windows, order, limit, cursor, pages) is Ok,
    ensures
        followed(kind, laws::readable(kind, records), windows, order, limit, cursor, pages)
            == followed(kind, records, windows, order, limit, cursor, pages),
    decreases pages,
{
    if pages > 0 {
        let rows = window::within(records, windows(cursor), order);
        let listing = pagination::places(kind, rows, limit)->Ok_0;
        laws::lemma_readable_places(kind, records, windows(cursor), order, limit, listing);
        if listing.len() > 0 {
            lemma_followed_readable(
                kind,
                records,
                windows,
                order,
                limit,
                Some(listing.last()),
                (pages - 1) as nat,
            );
        }
    }
}

/// Pages that each go on after the cursor of the one before list every
/// contract of a target, each of them once and in order: so they do where all
/// of them succeed, and, where every record stands under a key of its kind,
/// they also fail as a listing of everything does.
pub proof fn pages_cover_target(
    chain: Chain,
    layout: Layout,
    target: Target,
    records: Seq<Record>,
    order: Order,
    limit: u32,
    pages: nat,
)
    requires
        read::namespace_of(layout, target) is Ok,
        goes_on_after_all(chain, target, records),
        goes_on(target, order, None),
        read::limits_fit(chain, layout, target, None),
        limit > 0,
        bytes::sorted(
            bytes::keys_of(
                window::within(records, read::window_of(chain, target, order, None), order),
            ),
            order,
        ),
        pages >= window::within(
            laws::readable(read::kind_of(target), records),
            read::window_of(chain, target, order, None),
            order,
        ).len(),
    ensures
        ({
            let kind = read::kind_of(target);
            let windows = |cursor: Option<Place>| read::window_of(chain, target, order, cursor);
            let listed = followed(kind, records, windows, order, limit, None, pages);
            let everything = pagination::all_places(
                kind,
                window::within(
                    laws::readable(kind, records),
                    read::window_of(chain, target, order, None),
                    order,
                ),
            );
            listed is Ok || laws::well_filed(kind, records) ==> listed == everything
        }),
{
    let kind = read::kind_of(target);
    let kept = laws::readable(kind, records);
    let windows = |cursor: Option<Place>| read::window_of(chain, target, order, cursor);
    let good = |cursor: Option<Place>|
        goes_on(target, order, cursor) && read::limits_fit(chain, layout, target, cursor);
    laws::lemma_readable(kind, records);
    laws::lemma_readable(kind, kept);
    laws::lemma_readable_sorted(kind, records, windows(None), order);
    assert forall|at: Option<Place>, listing: Seq<Place>|
        good(at) && #[trigger] laws::is_page(
            kind,
            kept,
            windows(at),
            order,
            limit,
            listing,
        ) implies good(Some(listing.last())) && laws::is_rest(
        kept,
        windows(at),
        windows(Some(listing.last())),
        order,
        listing.len(),
    ) by {
        let rows = window::within(kept, windows(at), order);
        let last = listing.len() - 1;
        laws::lemma_listed(kind, rows, limit, listing);
        scan::lemma_walked(kept, windows(at), order, last);
        let j = choose|j: int| 0 <= j < kept.len() && kept[j] == rows[last];
        bytes::lemma_filtered(records, |record: Record| laws::is_readable(kind, record), j);
        let i = choose|i: int| 0 <= i < records.len() && records[i] == kept[j];
        assert(records[i].0 == rows[last].0);
        assert(keys::place_of(kind, rows[last].0) == Ok::<Place, Failure>(listing[last]));
        target_listing_goes_on(chain, layout, target, kept, order, at, limit, listing);
    }
    lemma_pages_cover(kind, kept, windows, order, limit, None, pages, good);
    if followed(kind, records, windows, order, limit, None, pages) is Ok {
        lemma_followed_readable(kind, records, windows, order, limit, None, pages);
    }
}

/// Where nothing tells the two directions apart but the direction, a
/// descending listing that begins anew is an ascending one from behind. The
/// limits of a listing by address are those in the direction of the walk.
pub proof fn descending_listing_reverses(chain: Chain, target: Target, records: Seq<Record>)
    requires
        target matches Target::Index(IndexBounds::Address { equals, between }) ==> equals is Some || (
        window::start_of(equals, between) is None && window::stop_of(equals, between) is None),
    ensures
        window::within(
            records,
            read::window_of(chain, target, Order::Descending, None),
            Order::Descending,
        ) == window::within(
            records,
            read::window_of(chain, target, Order::Ascending, None),
            Order::Ascending,
        ).reverse(),
{
}

/// Whether a target asks for all of an index.
pub open spec fn asks_for_all(target: Target) -> bool {
    match target {
        Target::Index(bounds) => match bounds {
            IndexBounds::Address { equals, between } => equals is None && between is None,
            IndexBounds::CreatedBy { equals, between } => equals is None && between is None,
            IndexBounds::CreatedAt { equals, between } => equals is None && between is None,
            IndexBounds::UpdatedAt { equals, between } => equals is None && between is None,
            IndexBounds::Rev { equals, between } => equals is None && between is None,
            IndexBounds::CodeId { equals, between } => equals is None && between is None,
            IndexBounds::Height { equals, between } => equals is None && between is None,
            IndexBounds::Uint64 { equals, between, .. } => equals is None && between is None,
            IndexBounds::Uint128 { equals, between, .. } => equals is None && between is None,
            IndexBounds::Text { equals, between, .. } => equals is None && between is None,
            IndexBounds::Timestamp { equals, between, .. } => equals is None && between is None,
            IndexBounds::Boolean { start, stop, .. } => start is None && stop is None,
        },
        _ => false,
    }
}

/// A listing of all of an index that succeeds comes to every record there is,
/// unless the limit cuts it off: it passes over none that it cannot read.
pub proof fn all_of_an_index_is_listed<P>(
    chain: Chain,
    layout: Layout,
    parse: P,
    target: Target,
    order: Order,
    limit: u32,
    listing: Seq<Place>,
) where P: Fn(Vec<u8>) -> Result<ContractMetadata, StdError>
    requires
        asks_for_all(target),
        read::can_list(chain, layout, parse, target, order, limit, None, Ok(listing)),
    ensures
        ({
            let records = store::records(chain, read::namespace_of(layout, target)->Ok_0);
            listing.len() == if records.len() < limit {
                records.len()
            } else {
                limit as nat
            }
        }),
{
    let records = store::records(chain, read::namespace_of(layout, target)->Ok_0);
    let whole = read::window_of(chain, target, order, None);
    let rows = window::within(records, whole, order);
    let keep = |record: Record|
        bytes::above(whole.lower, record.0) && bytes::below(whole.upper, record.0);
    scan::lemma_filter_run(records, keep, 0, records.len() as int);
    assert(records.subrange(0, records.len() as int) =~= records);
    if read::is_by_address(target) {
        addresses::lemma_listed(rows, parse, limit, listing);
    } else {
        laws::lemma_listed(read::kind_of(target), rows, limit, listing);
    }
}

/// The parts of a read that succeeded: what was listed, and what became of
/// each contract that was.
pub proof fn lemma_page_parts<P>(
    chain: Chain,
    layout: Layout,
    parse: P,
    selection: SelectionView,
    places: Seq<Place>,
    page: PageView,
) -> (visits: Seq<Option<EnvelopeView>>) where
    P: Fn(Vec<u8>) -> Result<ContractMetadata, StdError>,

    requires
        page::can_build(chain, layout, parse, selection, places, Ok(page)),
    ensures
        visits.len() == places.len(),
        page.page == page::shown(visits),
        page.cursor == page::next_place(places),
        forall|i: int|
            0 <= i < visits.len() ==> page::can_visit(
                chain,
                layout,
                parse,
                selection,
                places[i].1,
                Ok(#[trigger] visits[i]),
            ),
{
    let outcomes = choose|outcomes: Seq<Result<Option<EnvelopeView>, Failure>>|
        {
            &&& #[trigger] metadata::is_run(outcomes, places.len() as int)
            &&& forall|i: int|
                0 <= i < outcomes.len() ==> page::can_visit(
                    chain,
                    layout,
                    parse,
                    selection,
                    places[i].1,
                    #[trigger] outcomes[i],
                )
            &&& Ok::<PageView, Failure>(page) == match pagination::all_or_first_failure(outcomes) {
                Ok(visits) => Ok(
                    PageView { page: page::shown(visits), cursor: page::next_place(places) },
                ),
                Err(failure) => Err(failure),
            }
        };
    let visits = pagination::all_or_first_failure(outcomes)->Ok_0;
    laws::lemma_passed(outcomes, visits);
    assert forall|i: int| 0 <= i < visits.len() implies page::can_visit(
        chain,
        layout,
        parse,
        selection,
        places[i].1,
        Ok(#[trigger] visits[i]),
    ) by {
        assert(outcomes[i] == Ok::<Option<EnvelopeView>, Failure>(visits[i]));
    }
    visits
}

/// No more is shown than was visited, and everything that is shown was visited.
proof fn lemma_shown(visits: Seq<Option<EnvelopeView>>)
    ensures
        page::shown(visits).len() <= visits.len(),
        (forall|i: int| 0 <= i < visits.len() ==> #[trigger] visits[i] is Some) ==> page::shown(
            visits,
        ).len() == visits.len(),
        forall|j: int|
            0 <= j < page::shown(visits).len() ==> visits.contains(
                Some(#[trigger] page::shown(visits)[j]),
            ),
    decreases visits.len(),
{
    if visits.len() > 0 {
        let rest = visits.drop_last();
        lemma_shown(rest);
        if forall|i: int| 0 <= i < visits.len() ==> #[trigger] visits[i] is Some {
            assert forall|i: int| 0 <= i < rest.len() implies #[trigger] rest[i] is Some by {
                assert(visits[i] is Some);
            }
            assert(visits[visits.len() - 1] is Some);
        }
        assert forall|j: int| 0 <= j < page::shown(visits).len() implies visits.contains(
            Some(#[trigger] page::shown(visits)[j]),
        ) by {
            if j < page::shown(rest).len() {
                assert(rest.contains(Some(page::shown(rest)[j])));
                let i = choose|i: int| 0 <= i < rest.len() && rest[i] == Some(page::shown(rest)[j]);
                assert(visits[i] == Some(page::shown(visits)[j]));
            } else {
                assert(visits[visits.len() - 1] == Some(page::shown(visits)[j]));
            }
        }
    }
}

/// A page has at most one entry for each place that was listed, and exactly
/// one unless contracts are left out for not having changed. Its cursor is the
/// last place of the listing, also where the contract of that place is left
/// out, and there is none only where nothing was listed.
pub proof fn page_shows_its_listing<P>(
    chain: Chain,
    layout: Layout,
    parse: P,
    selection: SelectionView,
    places: Seq<Place>,
    page: PageView,
) where P: Fn(Vec<u8>) -> Result<ContractMetadata, StdError>
    requires
        page::can_build(chain, layout, parse, selection, places, Ok(page)),
    ensures
        page.page.len() <= places.len(),
        selection.since is None ==> page.page.len() == places.len(),
        page.cursor == page::next_place(places),
        page.cursor is None ==> page.page.len() == 0,
{
    let visits = lemma_page_parts(chain, layout, parse, selection, places, page);
    lemma_shown(visits);
    if selection.since is None {
        assert forall|i: int| 0 <= i < visits.len() implies #[trigger] visits[i] is Some by {
            assert(page::can_visit(
                chain,
                layout,
                parse,
                selection,
                places[i].1,
                Ok(visits[i]),
            ));
        }
    }
}

/// A page holds no more contracts than were asked for, and never more than `MAX_LIMIT`.
pub proof fn page_keeps_the_limit<P>(
    chain: Chain,
    layout: Layout,
    parse: P,
    target: Target,
    order: Order,
    limit: Option<u32>,
    selection: SelectionView,
    cursor: Option<Place>,
    page: PageView,
) where P: Fn(Vec<u8>) -> Result<ContractMetadata, StdError>
    requires
        read::can_read(
            chain,
            layout,
            parse,
            target,
            order,
            read::limit_of(limit),
            selection,
            cursor,
            Ok(page),
        ),
    ensures
        page.page.len() <= read::limit_of(limit) <= read::MAX_LIMIT,
{
    let limit = read::limit_of(limit);
    let listing = choose|listing: Result<Seq<Place>, Failure>|
        {
            &&& #[trigger] read::can_list(
                chain,
                layout,
                parse,
                target,
                order,
                limit,
                cursor,
                listing,
            )
            &&& match listing {
                Ok(places) => page::can_build(chain, layout, parse, selection, places, Ok(page)),
                Err(failure) => Ok::<PageView, Failure>(page) == Err::<PageView, Failure>(failure),
            }
        };
    let places = listing->Ok_0;
    page_shows_its_listing(chain, layout, parse, selection, places, page);
    let namespace = read::namespace_of(layout, target)->Ok_0;
    let rows = window::within(
        store::records(chain, namespace),
        read::window_of(chain, target, order, cursor),
        order,
    );
    if read::is_by_address(target) {
        addresses::lemma_listed(rows, parse, limit, places);
    } else {
        laws::lemma_listed(read::kind_of(target), rows, limit, places);
    }
}

/// What is shown of a contract: its address always, its state exactly if
/// fields of it were asked for, and its metadata exactly if it was asked for,
/// as looking it up gives it. A contract that is shown where only changed ones
/// are wanted has changed: its revision is above the one that is told, or its
/// last change is later than the time that is told.
pub proof fn contract_is_shown_as_selected<P>(
    chain: Chain,
    layout: Layout,
    parse: P,
    selection: SelectionView,
    id: ContractID,
    envelope: EnvelopeView,
) where P: Fn(Vec<u8>) -> Result<ContractMetadata, StdError>
    requires
        page::can_visit(chain, layout, parse, selection, id, Ok(Some(envelope))),
    ensures
        store::stored_address(chain, layout.id_2_addr@, id) == Ok::<Seq<char>, StdError>(
            envelope.address,
        ),
        envelope.state is Some == selection.fields is Some,
        !selection.meta ==> envelope.meta is None,
        selection.meta ==> metadata::can_load(
            store::records(chain, layout.metadata@),
            parse,
            envelope.address,
            Ok(envelope.meta),
        ),
        selection.since matches Some(since) ==> exists|metadata: MetadataView|
            {
                &&& #[trigger] metadata::can_load(
                    store::records(chain, layout.metadata@),
                    parse,
                    envelope.address,
                    Ok(Some(metadata)),
                )
                &&& page::modified(since, metadata)
                &&& match since {
                    Since::Rev(rev) => metadata.rev > rev,
                    Since::Timestamp(time) => metadata.updated_at.nanos > time.nanos,
                }
                &&& envelope.meta is Some ==> envelope.meta == Some(metadata)
            },
{
}

/// A contract that is left out has not changed since the selection asks for:
/// its revision is not above the one that is told, or its last change is not
/// later than the time that is told.
pub proof fn contract_is_left_out_unchanged<P>(
    chain: Chain,
    layout: Layout,
    parse: P,
    selection: SelectionView,
    id: ContractID,
) where P: Fn(Vec<u8>) -> Result<ContractMetadata, StdError>
    requires
        page::can_visit(chain, layout, parse, selection, id, Ok(None)),
    ensures
        selection.since matches Some(since) && exists|metadata: MetadataView|
            {
                &&& #[trigger] metadata::can_load(
                    store::records(chain, layout.metadata@),
                    parse,
                    store::stored_address(chain, layout.id_2_addr@, id)->Ok_0,
                    Ok(Some(metadata)),
                )
                &&& !page::modified(since, metadata)
                &&& match since {
                    Since::Rev(rev) => metadata.rev <= rev,
                    Since::Timestamp(time) => metadata.updated_at.nanos <= time.nanos,
                }
            },
{
}

} // verus!

//! Walks over records: what a walk that sets out later still comes to.
use vstd::prelude::*;

use crate::bytes;
use crate::bytes::Record;
use crate::models::Order;
use crate::order;
use crate::window;
use crate::window::Window;

verus! {

/// Whether `key` lies in a window.
pub open spec fn inside(window: Window, key: Seq<u8>) -> bool {
    bytes::above(window.lower, key) && bytes::below(window.upper, key)
}

/// What a walk comes to is a record that lies in the window.
pub proof fn lemma_walked(records: Seq<Record>, window: Window, order: Order, i: int)
    requires
        0 <= i < window::within(records, window, order).len(),
    ensures
        records.contains(window::within(records, window, order)[i]),
        inside(window, window::within(records, window, order)[i].0),
{
    let keep = |record: Record|
        bytes::above(window.lower, record.0) && bytes::below(window.upper, record.0);
    let selected = records.filter(keep);
    let place = if order is Ascending { i } else { selected.len() - 1 - i };
    bytes::lemma_filtered(records, keep, place);
}

/// A walk comes to a record exactly if the record lies in the window.
pub proof fn lemma_comes_to(records: Seq<Record>, window: Window, order: Order, record: Record)
    ensures
        window::within(records, window, order).contains(record) == (records.contains(record) && inside(
            window,
            record.0,
        )),
{
    let keep = |record: Record|
        bytes::above(window.lower, record.0) && bytes::below(window.upper, record.0);
    let selected = records.filter(keep);
    let walk = window::within(records, window, order);
    if walk.contains(record) {
        let i = choose|i: int| 0 <= i < walk.len() && walk[i] == record;
        lemma_walked(records, window, order, i);
    }
    if records.contains(record) && inside(window, record.0) {
        let i = choose|i: int| 0 <= i < records.len() && records[i] == record;
        records.lemma_filter_contains(keep, i);
        let j = choose|j: int| 0 <= j < selected.len() && selected[j] == record;
        let place = if order is Ascending { j } else { selected.len() - 1 - j };
        assert(walk[place] == record);
    }
}

/// Filtering twice keeps what a filter for both keeps.
pub proof fn lemma_filter_twice<A>(
    items: Seq<A>,
    both: spec_fn(A) -> bool,
    one: spec_fn(A) -> bool,
    other: spec_fn(A) -> bool,
)
    requires
        forall|i: int|
            0 <= i < items.len() ==> both(#[trigger] items[i]) == (one(items[i]) && other(items[i])),
    ensures
        items.filter(both) == items.filter(one).filter(other),
    decreases items.len(),
{
    reveal(Seq::filter);
    if items.len() > 0 {
        let rest = items.drop_last();
        assert forall|i: int| 0 <= i < rest.len() implies both(#[trigger] rest[i]) == (one(rest[i])
            && other(rest[i])) by {
            assert(rest[i] == items[i]);
        }
        lemma_filter_twice(rest, both, one, other);
        assert(both(items[items.len() - 1]) == (one(items.last()) && other(items.last())));
        if one(items.last()) {
            assert(items.filter(one).drop_last() =~= rest.filter(one));
        }
    }
}

/// A filter that keeps a run of items keeps that run.
pub proof fn lemma_filter_run<A>(items: Seq<A>, keep: spec_fn(A) -> bool, low: int, high: int)
    requires
        0 <= low <= high <= items.len(),
        forall|i: int|
            0 <= i < items.len() ==> keep(#[trigger] items[i]) == (low <= i < high),
    ensures
        items.filter(keep) == items.subrange(low, high),
    decreases items.len(),
{
    reveal(Seq::filter);
    if items.len() > 0 {
        let rest = items.drop_last();
        let last = items.len() - 1;
        assert forall|i: int| 0 <= i < rest.len() implies keep(#[trigger] rest[i]) == (low <= i
            < high) by {
            assert(rest[i] == items[i]);
        }
        assert(keep(items[last]) == (low <= last < high));
        if high == items.len() && low < high {
            lemma_filter_run(rest, keep, low, high - 1);
            assert(items.subrange(low, high) =~= rest.subrange(low, high - 1).push(items.last()));
        } else if low == items.len() {
            lemma_filter_run(rest, keep, low - 1, low - 1);
            assert(items.subrange(low, high) =~= rest.subrange(low - 1, low - 1));
        } else {
            lemma_filter_run(rest, keep, low, high);
            assert(items.subrange(low, high) =~= rest.subrange(low, high));
        }
    } else {
        assert(items.subrange(low, high) =~= Seq::empty());
    }
}

/// Filtering and turning round can change places.
pub proof fn lemma_filter_reverse<A>(items: Seq<A>, keep: spec_fn(A) -> bool)
    ensures
        items.reverse().filter(keep) == items.filter(keep).reverse(),
    decreases items.len(),
{
    reveal(Seq::filter);
    if items.len() > 0 {
        let rest = items.drop_last();
        let last = seq![items.last()];
        lemma_filter_reverse(rest, keep);
        assert(items.reverse() =~= last + rest.reverse());
        Seq::filter_distributes_over_add(last, rest.reverse(), keep);
        let count: int = if keep(items.last()) {
            1
        } else {
            0
        };
        lemma_filter_run(last, keep, 0, count);
        assert(last.subrange(0, count) =~= last.take(count));
        assert(last.take(1) =~= last && last.take(0) =~= Seq::empty());
        if keep(items.last()) {
            assert(rest.filter(keep).push(items.last()).reverse() =~= last + rest.filter(
                keep,
            ).reverse());
        } else {
            assert(Seq::<A>::empty() + rest.filter(keep).reverse() =~= rest.filter(keep).reverse());
        }
    } else {
        assert(items.reverse() =~= items);
        assert(items.filter(keep).reverse() =~= items.filter(keep));
    }
}

/// A filter keeps items in their order.
pub proof fn lemma_filter_order<A>(items: Seq<A>, keep: spec_fn(A) -> bool, i: int, j: int)
    requires
        0 <= i < j < items.filter(keep).len(),
    ensures
        exists|m: int, n: int|
            0 <= m < n < items.len() && #[trigger] items[m] == items.filter(keep)[i]
                && #[trigger] items[n] == items.filter(keep)[j],
    decreases items.len(),
{
    reveal(Seq::filter);
    let rest = items.drop_last();
    let kept = rest.filter(keep);
    let last = items.len() - 1;
    if j < kept.len() {
        lemma_filter_order(rest, keep, i, j);
        let (m, n) = choose|m: int, n: int|
            0 <= m < n < rest.len() && #[trigger] rest[m] == kept[i] && #[trigger] rest[n]
                == kept[j];
        assert(items[m] == items.filter(keep)[i] && items[n] == items.filter(keep)[j]);
    } else {
        bytes::lemma_filtered(rest, keep, i);
        let m = choose|m: int| 0 <= m < rest.len() && rest[m] == kept[i];
        assert(items[m] == items.filter(keep)[i] && items[last] == items.filter(keep)[j]);
    }
}

/// A walk over the part of a window that lies behind the first `from` records
/// of a walk over the whole window is the rest of that walk.
pub proof fn lemma_rest_of_walk(
    records: Seq<Record>,
    whole: Window,
    part: Window,
    order: Order,
    behind: spec_fn(Seq<u8>) -> bool,
    from: int,
)
    requires
        0 <= from <= window::within(records, whole, order).len(),
        forall|i: int|
            0 <= i < records.len() ==> inside(part, #[trigger] records[i].0) == (inside(
                whole,
                records[i].0,
            ) && behind(records[i].0)),
        forall|i: int|
            0 <= i < window::within(records, whole, order).len() ==> behind(
                #[trigger] window::within(records, whole, order)[i].0,
            ) == (from <= i),
    ensures
        window::within(records, part, order) == window::within(records, whole, order).skip(from),
{
    let in_whole = |record: Record|
        bytes::above(whole.lower, record.0) && bytes::below(whole.upper, record.0);
    let in_part = |record: Record|
        bytes::above(part.lower, record.0) && bytes::below(part.upper, record.0);
    let later = |record: Record| behind(record.0);
    let walk = window::within(records, whole, order);
    let selected = records.filter(in_whole);
    let count = selected.len() as int;
    assert forall|i: int| 0 <= i < records.len() implies in_part(#[trigger] records[i]) == (in_whole(
        records[i],
    ) && later(records[i])) by {
        assert(inside(part, records[i].0) == (inside(whole, records[i].0) && behind(records[i].0)));
    }
    lemma_filter_twice(records, in_part, in_whole, later);
    match order {
        Order::Ascending => {
            assert forall|i: int| 0 <= i < count implies later(#[trigger] selected[i]) == (from <= i
                < count) by {
                assert(walk[i] == selected[i]);
            }
            lemma_filter_run(selected, later, from, count);
            assert(selected.subrange(from, count) =~= walk.skip(from));
        },
        Order::Descending => {
            assert forall|i: int| 0 <= i < count implies later(#[trigger] selected[i]) == (0 <= i
                < count - from) by {
                assert(walk[count - 1 - i] == selected[i]);
            }
            lemma_filter_run(selected, later, 0, count - from);
            assert(selected.subrange(0, count - from).reverse() =~= walk.skip(from));
        },
    }
}

/// Keys that stand in order: those behind a key come after it, and no others do.
pub proof fn lemma_behind(keys: Seq<Seq<u8>>, order: Order, at: int, i: int)
    requires
        bytes::sorted(keys, order),
        0 <= at < keys.len(),
        0 <= i < keys.len(),
    ensures
        bytes::comes_before(order, keys[at], keys[i]) == (at < i),
{
    order::lemma_total(keys[at], keys[i]);
    if i < at {
        assert(bytes::comes_before(order, keys[i], keys[at]));
    } else if at < i {
        assert(bytes::comes_before(order, keys[at], keys[i]));
    }
}

} // verus!

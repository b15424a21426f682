//! What keys and pages have room for, and how keys are counted up.
use cosmwasm_std::StdError;
use vstd::prelude::*;
use vstd::std_specs::convert::*;
use vstd::utf8::*;

use crate::bytes;
use crate::keys;
use crate::keys::Place;
use crate::laws;
use crate::laws::listing_texts;
use crate::layout::Layout;
use crate::models::IndexBounds;
use crate::pagination;
use crate::read;
use crate::read::Target;
use crate::store::Chain;
use crate::text;

verus! {

/// Counting up the bytes of a number gives the bytes of the next number; after
/// the highest number of that many bytes comes zero.
pub proof fn counting_up_adds_one(n: nat, len: nat)
    ensures
        bytes::increment(bytes::big_endian(n, len)) == bytes::big_endian(n + 1, len),
    decreases len,
{
    if len > 0 {
        let shorter = (len - 1) as nat;
        counting_up_adds_one(n / 256, shorter);
        let all = bytes::big_endian(n, len);
        assert(all.drop_last() =~= bytes::big_endian(n / 256, shorter));
        if n % 256 == 255 {
            assert((n + 1) / 256 == n / 256 + 1 && (n + 1) % 256 == 0);
        } else {
            assert((n + 1) / 256 == n / 256 && (n + 1) % 256 == n % 256 + 1);
        }
    }
}

/// A text has room in a key if two bytes can hold its length in bytes.
pub proof fn texts_fit_up_to_two_bytes(text: Seq<char>)
    ensures
        bytes::fits(text) == (encode_utf8(text).len() < 256 * 256),
{
}

/// The component that a key begins with, after its length in two bytes.
proof fn lemma_first_component(key: Seq<u8>) -> (component: Seq<u8>)
    requires
        keys::pair_splits(key),
    ensures
        component.len() < 256 * 256,
        2 + component.len() <= key.len(),
        component.len() == key[0] * 256 + key[1],
        key == bytes::length_prefixed(component) + key.skip(2 + component.len() as int),
{
    let length = key[0] * 256 + key[1];
    let component = key.subrange(2, 2 + length);
    let written = bytes::big_endian(length as nat, 2);
    reveal_with_fuel(bytes::big_endian, 3);
    assert(length / 256 == key[0] && length % 256 == key[1]);
    assert(written =~= seq![key[0], key[1]]);
    assert(key =~= written + component + key.skip(2 + length));
    component
}

/// A key of a pair can be taken apart exactly if it begins with a component
/// after its length in two bytes.
pub proof fn pair_splits_after_a_component(key: Seq<u8>)
    ensures
        keys::pair_splits(key) == exists|component: Seq<u8>|
            component.len() < 256 * 256 && #[trigger] bytes::length_prefixed(
                component,
            ).is_prefix_of(key),
{
    if keys::pair_splits(key) {
        let component = lemma_first_component(key);
        assert(bytes::length_prefixed(component).is_prefix_of(key)) by {
            lemma_head(bytes::length_prefixed(component), key.skip(2 + component.len() as int));
        }
    }
    if exists|component: Seq<u8>|
        component.len() < 256 * 256 && #[trigger] bytes::length_prefixed(component).is_prefix_of(
            key,
        ) {
        let component = choose|component: Seq<u8>|
            component.len() < 256 * 256 && #[trigger] bytes::length_prefixed(
                component,
            ).is_prefix_of(key);
        let head = bytes::length_prefixed(component);
        let rest = key.skip(head.len() as int);
        assert(key =~= head + rest);
        laws::lemma_splits(component, rest);
    }
}

/// What stands in front is how a sequence begins.
proof fn lemma_head(head: Seq<u8>, rest: Seq<u8>)
    ensures
        head.is_prefix_of(head + rest),
{
    assert(head =~= (head + rest).subrange(0, head.len() as int));
}

/// A key of a relationship can be taken apart exactly if it begins with two
/// components, each after its length in two bytes.
pub proof fn triple_splits_after_two_components(key: Seq<u8>)
    ensures
        keys::triple_splits(key) == exists|first: Seq<u8>, second: Seq<u8>|
            first.len() < 256 * 256 && second.len() < 256 * 256 && (
            #[trigger] bytes::length_prefixed(first) + #[trigger] bytes::length_prefixed(
                second,
            )).is_prefix_of(key),
{
    if keys::triple_splits(key) {
        let first = lemma_first_component(key);
        let others = key.skip(2 + first.len() as int);
        let second = lemma_first_component(others);
        let head = bytes::length_prefixed(first) + bytes::length_prefixed(second);
        let rest = others.skip(2 + second.len() as int);
        assert(key =~= head + rest);
        lemma_head(head, rest);
    }
    if exists|first: Seq<u8>, second: Seq<u8>|
        first.len() < 256 * 256 && second.len() < 256 * 256 && (#[trigger] bytes::length_prefixed(
            first,
        ) + #[trigger] bytes::length_prefixed(second)).is_prefix_of(key) {
        let (first, second) = choose|first: Seq<u8>, second: Seq<u8>|
            first.len() < 256 * 256 && second.len() < 256 * 256 && (
            #[trigger] bytes::length_prefixed(first) + #[trigger] bytes::length_prefixed(
                second,
            )).is_prefix_of(key);
        let head = bytes::length_prefixed(first) + bytes::length_prefixed(second);
        let rest = key.skip(head.len() as int);
        assert(key =~= head + rest);
        assert(head + rest =~= bytes::length_prefixed(first) + (bytes::length_prefixed(second)
            + rest));
        laws::lemma_splits(first, bytes::length_prefixed(second) + rest);
        laws::lemma_splits(second, rest);
    }
}

/// A layout can be used exactly if each of its names has room in a key.
pub proof fn layout_is_valid_if_its_names_fit(layout: Layout)
    ensures
        layout.valid() == {
            &&& bytes::fits(layout.id_2_addr@)
            &&& bytes::fits(layout.metadata@)
            &&& bytes::fits(layout.tagged_contract_ids@)
            &&& bytes::fits(layout.relationships@)
            &&& bytes::fits(layout.ix_created_by@)
            &&& bytes::fits(layout.ix_created_at@)
            &&& bytes::fits(layout.ix_updated_at@)
            &&& bytes::fits(layout.ix_rev@)
            &&& bytes::fits(layout.ix_code_id@)
            &&& bytes::fits(layout.ix_height@)
            &&& forall|i: int|
                0 <= i < layout.u64_indices@.len() ==> bytes::fits(
                    #[trigger] layout.u64_indices@[i]@,
                )
            &&& forall|i: int|
                0 <= i < layout.u128_indices@.len() ==> bytes::fits(
                    #[trigger] layout.u128_indices@[i]@,
                )
            &&& forall|i: int|
                0 <= i < layout.text_indices@.len() ==> bytes::fits(
                    #[trigger] layout.text_indices@[i]@,
                )
            &&& forall|i: int|
                0 <= i < layout.timestamp_indices@.len() ==> bytes::fits(
                    #[trigger] layout.timestamp_indices@[i]@,
                )
            &&& forall|i: int|
                0 <= i < layout.bool_indices@.len() ==> bytes::fits(
                    #[trigger] layout.bool_indices@[i]@,
                )
        },
{
}

/// A read asks for room in keys for the texts that its listing begins and
/// stops at, and for no others: nothing is asked of a read by number, by truth
/// value or by address, or of one at a slot without an index.
pub proof fn reads_need_room_for_their_ends(
    chain: Chain,
    layout: Layout,
    target: Target,
    cursor: Option<Place>,
)
    ensures
        read::limits_fit(chain, layout, target, cursor) == match target {
            Target::Index(IndexBounds::CreatedBy { equals, between }) => listing_texts::ends_fit(
                listing_texts::chars_of(equals),
                listing_texts::chars_between(between),
                cursor,
                cursor is Some && text::is_address(chain, (cursor->0).0),
            ),
            Target::Index(IndexBounds::Text { slot, equals, between }) => slot
                >= layout.text_indices@.len() || listing_texts::ends_fit(
                listing_texts::chars_of(equals),
                listing_texts::chars_between(between),
                cursor,
                true,
            ),
            Target::Index(_) => true,
            Target::Tag(tag) => bytes::fits(listing_texts::in_force(tag@, cursor)),
            Target::Relationship((subject, name)) => bytes::fits(subject@) && bytes::fits(
                listing_texts::in_force(name@, cursor),
            ),
        },
{
}

/// Whether `parse_fn` can make `parsed` of an item that is no error.
pub open spec fn is_made<D, T, R, E, F>(
    item: Result<(D, T), StdError>,
    parse_fn: F,
    parsed: Result<R, E>,
) -> bool where F: Fn(D, T) -> Result<R, E> {
    item matches Ok((key, value)) && call_ensures(parse_fn, (key, value), parsed)
}

/// Whether `parse_fn` can make something of an item that is no error.
pub open spec fn can_be_made<D, T, R, E, F>(
    item: Result<(D, T), StdError>,
    parse_fn: F,
) -> bool where F: Fn(D, T) -> Result<R, E> {
    exists|parsed: R| #[trigger] is_made(item, parse_fn, Ok::<R, E>(parsed))
}

/// Whether an item ends a collection with `error`: its own, or that of `parse_fn`.
pub open spec fn ends_with<D, T, R, E, F>(
    item: Result<(D, T), StdError>,
    parse_fn: F,
    error: E,
) -> bool where E: From<StdError>, F: Fn(D, T) -> Result<R, E> {
    match item {
        Ok((key, value)) => call_ensures(parse_fn, (key, value), Err::<R, E>(error)),
        Err(cause) => E::obeys_from_spec() ==> error == E::from_spec(cause),
    }
}

/// Collecting takes items from the front until there are no more of them or
/// as many as the limit allows, and makes each of them what `parse_fn` makes of
/// its key and its value. The first item that is an error, or that `parse_fn`
/// fails on, ends it with that error.
pub proof fn items_are_collected<D, T, R, E, F>(
    items: Seq<Result<(D, T), StdError>>,
    limit: u32,
    parse_fn: F,
    result: Result<Vec<R>, E>,
) where E: From<StdError>, F: Fn(D, T) -> Result<R, E>
    requires
        pagination::collected(items, limit, parse_fn, result),
    ensures
        match result {
            Ok(parsed) => {
                &&& parsed@.len() == limit || parsed@.len() == items.len()
                &&& parsed@.len() <= limit
                &&& parsed@.len() <= items.len()
                &&& forall|i: int|
                    0 <= i < parsed@.len() ==> is_made(
                        items[i],
                        parse_fn,
                        Ok::<R, E>(#[trigger] parsed@[i]),
                    )
            },
            Err(error) => exists|n: int|
                {
                    &&& 0 <= n < items.len()
                    &&& n < limit
                    &&& ends_with::<D, T, R, E, F>(#[trigger] items[n], parse_fn, error)
                    &&& forall|i: int|
                        0 <= i < n ==> can_be_made::<D, T, R, E, F>(#[trigger] items[i], parse_fn)
                },
        },
{
    match result {
        Ok(parsed) => {
            assert forall|i: int| 0 <= i < parsed@.len() implies is_made(
                items[i],
                parse_fn,
                Ok::<R, E>(#[trigger] parsed@[i]),
            ) by {
                assert(pagination::becomes(items[i], parse_fn, Ok::<R, E>(parsed@[i])));
            }
        },
        Err(error) => {
            let n = choose|n: int|
                {
                    &&& 0 <= n < pagination::at_most(items.len(), limit)
                    &&& pagination::becomes(#[trigger] items[n], parse_fn, Err::<R, E>(error))
                    &&& forall|i: int|
                        0 <= i < n ==> pagination::can_pass::<D, T, R, E, F>(
                            #[trigger] items[i],
                            parse_fn,
                        )
                };
            assert forall|i: int| 0 <= i < n implies can_be_made::<D, T, R, E, F>(
                #[trigger] items[i],
                parse_fn,
            ) by {
                assert(pagination::can_pass::<D, T, R, E, F>(items[i], parse_fn));
                let parsed = choose|parsed: R| #[trigger]
                    pagination::becomes(items[i], parse_fn, Ok::<R, E>(parsed));
                assert(is_made(items[i], parse_fn, Ok::<R, E>(parsed)));
            }
            assert(ends_with::<D, T, R, E, F>(items[n], parse_fn, error));
        },
    }
}

} // verus!

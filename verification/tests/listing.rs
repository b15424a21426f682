use contract_reads::error::ContractError;
use contract_reads::keys::Cursor;
use contract_reads::metadata::{may_load_metadata, paginate_metadata, paginate_metadata_from};
use contract_reads::models::{ContractMetadata, Order, Timestamp};
use contract_reads::pagination::{
    paginate_addr_index, paginate_addr_index_from, paginate_bool_index, paginate_str_index,
    paginate_ts_index, paginate_u128_index, paginate_u64_index, read_relationship, read_tags,
};
use contract_reads::store::Chain;
use cosmwasm_std::testing::{mock_dependencies, MockApi, MockQuerier, MockStorage};
use cosmwasm_std::{from_json, Deps, OwnedDeps, QuerierWrapper, Record, StdError, Storage};
use std::cell::Cell;

type Backend = OwnedDeps<MockStorage, MockApi, MockQuerier>;

fn cursor(text: &str, id: u64) -> Cursor {
    (text.to_string(), id)
}

fn cursors(places: &[(&str, u64)]) -> Vec<Cursor> {
    places.iter().map(|(text, id)| cursor(text, *id)).collect()
}

fn u64_backend(entries: &[(u64, u64)]) -> Backend {
    let mut deps = mock_dependencies();
    let map: cw_storage_plus::Map<(u64, u64), bool> = cw_storage_plus::Map::new("ix");
    for entry in entries {
        map.save(&mut deps.storage, *entry, &true).unwrap();
    }
    deps
}

fn text_backend(entries: &[(&str, u64)]) -> Backend {
    let mut deps = mock_dependencies();
    let map: cw_storage_plus::Map<(String, u64), bool> = cw_storage_plus::Map::new("ix");
    for (text, id) in entries {
        map.save(&mut deps.storage, (text.to_string(), *id), &true)
            .unwrap();
    }
    deps
}

fn bool_backend(entries: &[(u8, u64)]) -> Backend {
    let mut deps = mock_dependencies();
    let map: cw_storage_plus::Map<(u8, u64), bool> = cw_storage_plus::Map::new("ix");
    for entry in entries {
        map.save(&mut deps.storage, *entry, &true).unwrap();
    }
    deps
}

fn u64_list(
    deps: &Backend,
    equals: Option<u64>,
    between: Option<(Option<u64>, Option<u64>)>,
    order: Order,
    limit: u32,
    cursor: Option<Cursor>,
) -> Vec<Cursor> {
    let chain = Chain(deps.as_ref());
    paginate_u64_index(&chain, "ix", equals, between, order, limit, cursor).unwrap()
}

fn text_list(
    deps: &Backend,
    equals: Option<&str>,
    between: Option<(Option<&str>, Option<&str>)>,
    order: Order,
    limit: u32,
    cursor: Option<Cursor>,
) -> Vec<Cursor> {
    let chain = Chain(deps.as_ref());
    let owned = |text: Option<&str>| text.map(|text| text.to_string());
    let between = between.map(|(lower, upper)| (owned(lower), owned(upper)));
    paginate_str_index(&chain, "ix", owned(equals), between, order, limit, cursor).unwrap()
}

fn bool_list(
    deps: &Backend,
    start: Option<bool>,
    stop: Option<bool>,
    order: Order,
    limit: u32,
    cursor: Option<Cursor>,
) -> Vec<Cursor> {
    let chain = Chain(deps.as_ref());
    paginate_bool_index(&chain, "ix", start, stop, order, limit, cursor).unwrap()
}

#[test]
fn u64_index_is_listed_by_value_and_contract() {
    let deps = u64_backend(&[(300, 1), (2, 9), (2, 4), (u64::MAX, 7)]);
    assert_eq!(
        u64_list(&deps, None, None, Order::Ascending, 10, None),
        cursors(&[("2", 4), ("2", 9), ("300", 1), ("18446744073709551615", 7)])
    );
    assert_eq!(
        u64_list(&deps, None, None, Order::Descending, 10, None),
        cursors(&[("18446744073709551615", 7), ("300", 1), ("2", 9), ("2", 4)])
    );
}

#[test]
fn u64_listing_keeps_to_the_value_asked_for() {
    let deps = u64_backend(&[(1, 1), (2, 2), (2, 3), (3, 4), (u64::MAX, 5)]);
    assert_eq!(
        u64_list(&deps, Some(2), None, Order::Ascending, 10, None),
        cursors(&[("2", 2), ("2", 3)])
    );
    assert_eq!(
        u64_list(&deps, Some(u64::MAX), None, Order::Ascending, 10, None),
        cursors(&[("18446744073709551615", 5)])
    );
    assert_eq!(
        u64_list(&deps, Some(2), Some((Some(3), None)), Order::Ascending, 10, None),
        cursors(&[("2", 2), ("2", 3)])
    );
    assert_eq!(u64_list(&deps, Some(9), None, Order::Ascending, 10, None), cursors(&[]));
}

#[test]
fn u64_limits_take_the_lower_one_in_and_leave_the_upper_one_out() {
    let deps = u64_backend(&[(1, 1), (2, 2), (3, 3), (4, 4)]);
    let list = |lower, upper| u64_list(&deps, None, Some((lower, upper)), Order::Ascending, 10, None);
    assert_eq!(list(Some(2), Some(4)), cursors(&[("2", 2), ("3", 3)]));
    assert_eq!(list(None, Some(2)), cursors(&[("1", 1)]));
    assert_eq!(list(Some(4), None), cursors(&[("4", 4)]));
    assert_eq!(list(Some(3), Some(3)), cursors(&[]));
    assert_eq!(list(Some(4), Some(2)), cursors(&[]));
}

#[test]
fn u64_pages_follow_each_other() {
    let deps = u64_backend(&[(1, 1), (1, 2), (2, 1), (3, 8), (9, 9)]);
    let mut seen: Vec<Cursor> = Vec::new();
    let mut at: Option<Cursor> = None;
    loop {
        let page = u64_list(&deps, None, None, Order::Ascending, 2, at);
        at = page.last().cloned();
        seen.extend(page);
        if at.is_none() {
            break;
        }
    }
    assert_eq!(
        seen,
        cursors(&[("1", 1), ("1", 2), ("2", 1), ("3", 8), ("9", 9)])
    );
}

#[test]
fn u64_page_after_a_cursor_keeps_the_upper_limit() {
    let deps = u64_backend(&[(1, 1), (2, 2), (3, 0), (3, 3), (4, 4)]);
    let limits = Some((Some(1), Some(3)));
    assert_eq!(
        u64_list(&deps, None, limits, Order::Ascending, 10, Some(cursor("1", 1))),
        cursors(&[("2", 2)])
    );
    assert_eq!(
        u64_list(&deps, Some(3), None, Order::Ascending, 10, Some(cursor("3", 0))),
        cursors(&[("3", 3)])
    );
}

#[test]
fn u64_descending_page_after_a_cursor_goes_down() {
    let deps = u64_backend(&[(1, 1), (2, 2), (3, 3), (4, 4)]);
    assert_eq!(
        u64_list(&deps, None, None, Order::Descending, 10, Some(cursor("3", 3))),
        cursors(&[("2", 2), ("1", 1)])
    );
    let limits = Some((None, Some(2)));
    assert_eq!(
        u64_list(&deps, None, limits, Order::Descending, 10, None),
        cursors(&[("1", 1)])
    );
    assert_eq!(
        u64_list(&deps, None, limits, Order::Descending, 10, Some(cursor("4", 4))),
        cursors(&[("3", 3), ("2", 2)])
    );
}

#[test]
fn u64_cursor_that_is_no_number_begins_at_the_end_of_the_index() {
    let deps = u64_backend(&[(1, 1), (2, 2), (3, 3)]);
    let limits = Some((Some(2), Some(3)));
    for text in ["", "x", "-1", "1 ", "18446744073709551616"] {
        assert_eq!(
            u64_list(&deps, None, limits, Order::Ascending, 10, Some(cursor(text, 2))),
            cursors(&[("1", 1), ("2", 2)])
        );
    }
    assert_eq!(
        u64_list(&deps, None, None, Order::Ascending, 10, Some(cursor("+2", 2))),
        cursors(&[("3", 3)])
    );
}

#[test]
fn a_listing_stops_at_its_limit() {
    let deps = u64_backend(&[(1, 1), (2, 2), (3, 3)]);
    assert_eq!(u64_list(&deps, None, None, Order::Ascending, 0, None), cursors(&[]));
    assert_eq!(
        u64_list(&deps, None, None, Order::Ascending, 2, None),
        cursors(&[("1", 1), ("2", 2)])
    );
    assert_eq!(
        u64_list(&deps, None, None, Order::Descending, 1, None),
        cursors(&[("3", 3)])
    );
}

#[test]
fn u128_index_is_listed_and_gone_on_with() {
    let mut deps = mock_dependencies();
    let map: cw_storage_plus::Map<(u128, u64), bool> = cw_storage_plus::Map::new("ix");
    for entry in [(5u128, 1u64), (u128::MAX, 2), (1 << 100, 3), (5, 4)] {
        map.save(&mut deps.storage, entry, &true).unwrap();
    }
    let chain = Chain(deps.as_ref());
    let list = |equals, between, order, at| {
        paginate_u128_index(&chain, "ix", equals, between, order, 10, at).unwrap()
    };
    assert_eq!(
        list(None, None, Order::Ascending, None),
        cursors(&[
            ("5", 1),
            ("5", 4),
            ("1267650600228229401496703205376", 3),
            ("340282366920938463463374607431768211455", 2),
        ])
    );
    assert_eq!(
        list(None, None, Order::Ascending, Some(cursor("1267650600228229401496703205376", 3))),
        cursors(&[("340282366920938463463374607431768211455", 2)])
    );
    assert_eq!(
        list(Some(5), None, Order::Ascending, Some(cursor("5", 1))),
        cursors(&[("5", 4)])
    );
    assert_eq!(
        list(None, Some((Some(6), Some(u128::MAX))), Order::Descending, None),
        cursors(&[("1267650600228229401496703205376", 3)])
    );
    assert_eq!(
        list(Some(u128::MAX), None, Order::Ascending, None),
        cursors(&[("340282366920938463463374607431768211455", 2)])
    );
}

#[test]
fn points_in_time_are_listed_by_their_nanoseconds() {
    let deps = u64_backend(&[(1_000, 1), (2_000, 2), (3_000, 3)]);
    let chain = Chain(deps.as_ref());
    let at = |nanos| Some(Timestamp::from_nanos(nanos));
    let list = |equals, between, from| {
        paginate_ts_index(&chain, "ix", equals, between, Order::Ascending, 10, from).unwrap()
    };
    assert_eq!(list(at(2_000), None, None), cursors(&[("2000", 2)]));
    assert_eq!(
        list(None, Some((at(2_000), at(3_000))), None),
        cursors(&[("2000", 2)])
    );
    assert_eq!(
        list(None, None, Some(cursor("1000", 1))),
        cursors(&[("2000", 2), ("3000", 3)])
    );
    assert_eq!(Timestamp::from_nanos(17).nanos(), 17);
}

#[test]
fn truth_values_are_listed_false_first() {
    let deps = bool_backend(&[(1, 1), (0, 2), (1, 3), (0, 4)]);
    assert_eq!(
        bool_list(&deps, None, None, Order::Ascending, 10, None),
        cursors(&[("0", 2), ("0", 4), ("1", 1), ("1", 3)])
    );
    assert_eq!(
        bool_list(&deps, Some(true), None, Order::Ascending, 10, None),
        cursors(&[("1", 1), ("1", 3)])
    );
    assert_eq!(
        bool_list(&deps, None, Some(true), Order::Descending, 10, None),
        cursors(&[("0", 4), ("0", 2)])
    );
    assert_eq!(
        bool_list(&deps, Some(false), Some(false), Order::Ascending, 10, None),
        cursors(&[])
    );
}

#[test]
fn truth_values_go_on_after_any_spelling_of_false() {
    let deps = bool_backend(&[(1, 1), (0, 2), (1, 3), (0, 4)]);
    let after = |text: &str, id| {
        bool_list(&deps, None, None, Order::Ascending, 10, Some(cursor(text, id)))
    };
    let rest = cursors(&[("0", 4), ("1", 1), ("1", 3)]);
    assert_eq!(after("0", 2), rest);
    assert_eq!(after("false", 2), rest);
    assert_eq!(after("FALSE", 2), rest);
    assert_eq!(after("False", 2), rest);
    assert_eq!(after("1", 1), cursors(&[("1", 3)]));
    assert_eq!(after("true", 1), cursors(&[("1", 3)]));
    assert_eq!(after("", 1), cursors(&[("1", 3)]));
    assert_eq!(after("f\u{e4}lse", 1), cursors(&[("1", 3)]));
    assert_eq!(
        bool_list(&deps, None, Some(true), Order::Ascending, 10, Some(cursor("0", 2))),
        cursors(&[("0", 4)])
    );
    assert_eq!(
        bool_list(&deps, None, None, Order::Descending, 10, Some(cursor("1", 1))),
        cursors(&[("0", 4), ("0", 2)])
    );
}

#[test]
fn texts_are_listed_by_length_and_then_by_bytes() {
    let deps = text_backend(&[("b", 1), ("aa", 2), ("a", 3), ("", 4), ("\u{e9}", 5), ("a", 1)]);
    assert_eq!(
        text_list(&deps, None, None, Order::Ascending, 10, None),
        cursors(&[("", 4), ("a", 1), ("a", 3), ("b", 1), ("aa", 2), ("\u{e9}", 5)])
    );
    assert_eq!(
        text_list(&deps, Some("a"), None, Order::Ascending, 10, None),
        cursors(&[("a", 1), ("a", 3)])
    );
    assert_eq!(
        text_list(&deps, Some(""), None, Order::Ascending, 10, None),
        cursors(&[("", 4)])
    );
    assert_eq!(
        text_list(&deps, None, Some((Some("b"), Some("\u{e9}"))), Order::Ascending, 10, None),
        cursors(&[("b", 1), ("aa", 2)])
    );
    assert_eq!(
        text_list(&deps, None, Some((None, Some("b"))), Order::Descending, 10, None),
        cursors(&[("a", 3), ("a", 1), ("", 4)])
    );
}

#[test]
fn text_pages_follow_each_other() {
    let deps = text_backend(&[("a", 1), ("a", 2), ("b", 1), ("cc", 5)]);
    assert_eq!(
        text_list(&deps, None, None, Order::Ascending, 10, Some(cursor("a", 2))),
        cursors(&[("b", 1), ("cc", 5)])
    );
    assert_eq!(
        text_list(&deps, None, Some((None, Some("cc"))), Order::Ascending, 10, Some(cursor("a", 1))),
        cursors(&[("a", 2), ("b", 1)])
    );
    assert_eq!(
        text_list(&deps, None, None, Order::Descending, 10, Some(cursor("b", 1))),
        cursors(&[("a", 2), ("a", 1)])
    );
}

#[test]
fn one_text_is_listed_on_one_page_only() {
    let deps = text_backend(&[("a", 0), ("a", 1), ("a", 2), ("b", 1)]);
    assert_eq!(
        text_list(&deps, Some("a"), None, Order::Ascending, 2, None),
        cursors(&[("a", 0), ("a", 1)])
    );
    assert_eq!(
        text_list(&deps, Some("a"), None, Order::Ascending, 2, Some(cursor("a", 1))),
        cursors(&[])
    );
    assert_eq!(
        text_list(&deps, Some("a"), None, Order::Descending, 2, Some(cursor("a", 1))),
        cursors(&[("a", 0)])
    );
}

#[test]
fn addresses_go_on_only_after_an_address() {
    let deps = text_backend(&[("alice", 1), ("alice", 2), ("carol", 3), ("robert", 4)]);
    let chain = Chain(deps.as_ref());
    let list = |equals: Option<&str>, order, at| {
        let equals = equals.map(|text| text.to_string());
        paginate_addr_index(&chain, "ix", equals, None, order, 10, at).unwrap()
    };
    let all = cursors(&[("alice", 1), ("alice", 2), ("carol", 3), ("robert", 4)]);
    assert_eq!(list(None, Order::Ascending, None), all);
    assert_eq!(
        list(Some("alice"), Order::Ascending, None),
        cursors(&[("alice", 1), ("alice", 2)])
    );
    assert_eq!(
        list(None, Order::Ascending, Some(cursor("alice", 2))),
        cursors(&[("carol", 3), ("robert", 4)])
    );
    assert_eq!(
        list(None, Order::Descending, Some(cursor("carol", 3))),
        cursors(&[("alice", 2), ("alice", 1)])
    );
    // the mock chain takes neither short nor upper case texts for addresses
    assert_eq!(list(None, Order::Ascending, Some(cursor("x", 2))), all);
    assert_eq!(list(None, Order::Ascending, Some(cursor("CAROL", 3))), all);
    let limits = Some((Some("carol".to_string()), Some("robert".to_string())));
    assert_eq!(
        paginate_addr_index(&chain, "ix", None, limits, Order::Ascending, 10, None).unwrap(),
        cursors(&[("carol", 3)])
    );
}

#[test]
fn tags_are_listed_and_gone_on_with_in_both_orders() {
    let deps = text_backend(&[("red", 1), ("red", 2), ("red", u64::MAX), ("blu", 3), ("redd", 4)]);
    let chain = Chain(deps.as_ref());
    let red = "red".to_string();
    let list = |order, limit, at| read_tags(&chain, "ix", &red, order, limit, at).unwrap();
    let last = u64::MAX;
    assert_eq!(
        list(Order::Ascending, 10, None),
        cursors(&[("red", 1), ("red", 2), ("red", last)])
    );
    assert_eq!(
        list(Order::Ascending, 10, Some(cursor("red", 1))),
        cursors(&[("red", 2), ("red", last)])
    );
    assert_eq!(
        list(Order::Descending, 10, Some(cursor("red", 2))),
        cursors(&[("red", 1)])
    );
    assert_eq!(list(Order::Descending, 1, None), cursors(&[("red", last)]));
    // a cursor names the tag
    assert_eq!(
        list(Order::Ascending, 10, Some(cursor("blu", 0))),
        cursors(&[("blu", 3)])
    );
}

#[test]
fn relationships_are_listed_and_gone_on_with_in_both_orders() {
    let mut deps = mock_dependencies();
    let map: cw_storage_plus::Map<(String, String, u64), bool> = cw_storage_plus::Map::new("rel");
    for (subject, name, id) in [
        ("ann", "owns", 1u64),
        ("ann", "owns", 5),
        ("ann", "owns", 9),
        ("ann", "knows", 2),
        ("bob", "owns", 3),
        ("ann", "", 7),
    ] {
        let key = (subject.to_string(), name.to_string(), id);
        map.save(&mut deps.storage, key, &true).unwrap();
    }
    let chain = Chain(deps.as_ref());
    let list = |name: &str, order, at| {
        let (subject, name) = ("ann".to_string(), name.to_string());
        read_relationship(&chain, "rel", &subject, &name, order, 10, at).unwrap()
    };
    assert_eq!(
        list("owns", Order::Ascending, None),
        cursors(&[("owns", 1), ("owns", 5), ("owns", 9)])
    );
    assert_eq!(
        list("owns", Order::Ascending, Some(cursor("owns", 1))),
        cursors(&[("owns", 5), ("owns", 9)])
    );
    assert_eq!(
        list("owns", Order::Descending, Some(cursor("owns", 9))),
        cursors(&[("owns", 5), ("owns", 1)])
    );
    assert_eq!(list("", Order::Ascending, None), cursors(&[("", 7)]));
    assert_eq!(
        list("owns", Order::Ascending, Some(cursor("knows", 0))),
        cursors(&[("knows", 2)])
    );
}

#[test]
fn a_stored_value_that_is_no_truth_value_fails_the_listing() {
    let mut deps = u64_backend(&[(1, 1), (3, 3)]);
    let broken: cw_storage_plus::Map<(u64, u64), u64> = cw_storage_plus::Map::new("ix");
    broken.save(&mut deps.storage, (2, 2), &17).unwrap();
    let chain = Chain(deps.as_ref());
    let list = |limit| paginate_u64_index(&chain, "ix", None, None, Order::Ascending, limit, None);
    assert_eq!(list(1).unwrap(), cursors(&[("1", 1)]));
    assert!(matches!(
        list(2),
        Err(ContractError::Std(StdError::ParseErr { .. }))
    ));
}

#[test]
fn a_key_that_is_cut_short_fails_the_listing() {
    let mut deps = u64_backend(&[(1, 1)]);
    deps.storage.set(b"\x00\x02ix\x00\x09abc", b"true");
    let chain = Chain(deps.as_ref());
    let result = paginate_u64_index(&chain, "ix", None, None, Order::Descending, 5, None);
    match result {
        Err(ContractError::MalformedKey { key }) => assert_eq!(key, b"\x00\x09abc".to_vec()),
        _ => panic!("a listing of a short key"),
    }
}

#[test]
fn a_key_of_another_kind_fails_the_listing() {
    let deps = text_backend(&[("short", 1)]);
    let chain = Chain(deps.as_ref());
    assert!(matches!(
        paginate_u64_index(&chain, "ix", None, None, Order::Ascending, 5, None),
        Err(ContractError::Std(StdError::GenericErr { .. }))
    ));
}

type Document = (u64, u64, u64, u64, u64, String, u64);

fn parse(document: Vec<u8>) -> Result<ContractMetadata, StdError> {
    let (id, rev, code_id, height, created_at, created_by, updated_at): Document =
        from_json(document)?;
    Ok(ContractMetadata {
        id,
        rev,
        code_id,
        height,
        created_at: Timestamp::from_nanos(created_at),
        created_by,
        updated_at: Timestamp::from_nanos(updated_at),
    })
}

fn metadata_backend(entries: &[(&str, u64)]) -> Backend {
    let mut deps = mock_dependencies();
    let map: cw_storage_plus::Map<&str, Document> = cw_storage_plus::Map::new("meta");
    for (address, id) in entries {
        let document = (*id, 1, 2, 3, 4, "maker".to_string(), 5);
        map.save(&mut deps.storage, address, &document).unwrap();
    }
    deps
}

#[test]
fn contracts_are_listed_by_address() {
    let deps = metadata_backend(&[("dora", 4), ("anna", 1), ("carla", 3), ("berta", 2)]);
    let chain = Chain(deps.as_ref());
    let owned = |text: Option<&str>| text.map(|text| text.to_string());
    let list = |equals: Option<&str>, between: Option<(Option<&str>, Option<&str>)>, order, at| {
        let between = between.map(|(lower, upper)| (owned(lower), owned(upper)));
        paginate_metadata(&chain, "meta", &parse, at, owned(equals), between, order, 2).unwrap()
    };
    assert_eq!(
        list(None, None, Order::Ascending, None),
        cursors(&[("anna", 1), ("berta", 2)])
    );
    assert_eq!(
        list(None, None, Order::Descending, None),
        cursors(&[("dora", 4), ("carla", 3)])
    );
    assert_eq!(
        list(Some("berta"), None, Order::Ascending, None),
        cursors(&[("berta", 2)])
    );
    assert_eq!(
        list(None, Some((Some("berta"), Some("carla"))), Order::Ascending, None),
        cursors(&[("berta", 2)])
    );
    // the limits are those in the direction of the walk
    assert_eq!(
        list(None, Some((Some("carla"), Some("anna"))), Order::Descending, None),
        cursors(&[("carla", 3), ("berta", 2)])
    );
}

#[test]
fn a_page_by_address_begins_with_the_contract_of_its_cursor() {
    let deps = metadata_backend(&[("dora", 4), ("anna", 1), ("carla", 3), ("berta", 2)]);
    let chain = Chain(deps.as_ref());
    let list = |order, at| paginate_metadata(&chain, "meta", &parse, at, None, None, order, 3).unwrap();
    assert_eq!(
        list(Order::Ascending, Some(cursor("berta", 2))),
        cursors(&[("berta", 2), ("carla", 3), ("dora", 4)])
    );
    assert_eq!(
        list(Order::Descending, Some(cursor("berta", 2))),
        cursors(&[("berta", 2), ("anna", 1)])
    );
    assert_eq!(
        list(Order::Ascending, Some(cursor("x", 2))),
        cursors(&[("anna", 1), ("berta", 2), ("carla", 3)])
    );
}

#[test]
fn metadata_that_cannot_be_read_fails_the_listing() {
    let mut deps = metadata_backend(&[("anna", 1)]);
    deps.storage.set(b"\x00\x04metaberta", b"nonsense");
    let chain = Chain(deps.as_ref());
    let list = |limit| {
        paginate_metadata(&chain, "meta", &parse, None, None, None, Order::Ascending, limit)
    };
    assert_eq!(list(1).unwrap(), cursors(&[("anna", 1)]));
    assert!(matches!(list(2), Err(ContractError::Std(StdError::ParseErr { .. }))));
    assert_eq!(may_load_metadata(&chain, "meta", &parse, "anna").unwrap().unwrap().id, 1);
    assert!(may_load_metadata(&chain, "meta", &parse, "nobody").unwrap().is_none());
    assert!(may_load_metadata(&chain, "meta", &parse, "berta").is_err());
}

#[test]
fn an_address_that_is_no_text_fails_the_listing() {
    let mut deps = metadata_backend(&[("anna", 1)]);
    deps.storage.set(b"\x00\x04meta\xff\xfe", b"[]");
    let chain = Chain(deps.as_ref());
    let result = paginate_metadata(&chain, "meta", &parse, None, None, None, Order::Ascending, 5);
    assert!(matches!(result, Err(ContractError::Std(StdError::InvalidUtf8 { .. }))));
}

#[test]
fn what_the_chain_takes_for_an_address_decides_where_to_go_on() {
    let deps = text_backend(&[("alice", 1), ("carol", 3)]);
    let chain = Chain(deps.as_ref());
    let list = |is_address| {
        let at = Some(cursor("alice", 1));
        paginate_addr_index_from(&chain, "ix", None, None, Order::Ascending, 9, at, is_address)
            .unwrap()
    };
    assert_eq!(list(true), cursors(&[("carol", 3)]));
    assert_eq!(list(false), cursors(&[("alice", 1), ("carol", 3)]));
    let deps = metadata_backend(&[("alice", 1), ("berta", 2), ("carol", 3)]);
    let chain = Chain(deps.as_ref());
    let list = |is_address| {
        let at = Some(cursor("carol", 3));
        let between = Some((Some("berta".to_string()), None));
        let order = Order::Ascending;
        paginate_metadata_from(&chain, "meta", &parse, at, None, between, order, 9, is_address)
            .unwrap()
    };
    assert_eq!(list(true), cursors(&[("carol", 3)]));
    assert_eq!(list(false), cursors(&[("berta", 2), ("carol", 3)]));
}

#[test]
fn a_record_with_a_broken_key_and_a_broken_value_is_told_by_its_key() {
    let mut deps = mock_dependencies();
    let broken: cw_storage_plus::Map<(String, u64), u64> = cw_storage_plus::Map::new("ix");
    broken.save(&mut deps.storage, ("short".to_string(), 1), &17).unwrap();
    let chain = Chain(deps.as_ref());
    let told = paginate_u64_index(&chain, "ix", None, None, Order::Ascending, 5, None);
    let told = match told {
        Err(ContractError::Std(error)) => error,
        _ => panic!("a listing of a broken record"),
    };
    let map: cw_storage_plus::Map<(u64, u64), bool> = cw_storage_plus::Map::new("ix");
    let direction = cosmwasm_std::Order::Ascending;
    let first = map.prefix_range(&deps.storage, None, None, direction).next().unwrap();
    assert_eq!(told, first.unwrap_err());
}

#[test]
fn listings_are_those_of_the_maps() {
    let values = [0u64, 1, 255, 256, 65_535, u64::MAX - 1, u64::MAX];
    let entries: Vec<(u64, u64)> =
        values.iter().flat_map(|v| [(*v, 0), (*v, 7), (*v, u64::MAX)]).collect();
    let deps = u64_backend(&entries);
    let map: cw_storage_plus::Map<(u64, u64), bool> = cw_storage_plus::Map::new("ix");
    for value in values {
        let bound = || Some(cw_storage_plus::PrefixBound::inclusive(value));
        let expected: Vec<Cursor> = map
            .prefix_range(&deps.storage, bound(), bound(), cosmwasm_std::Order::Descending)
            .map(|row| row.unwrap().0)
            .map(|(v, id)| (v.to_string(), id))
            .collect();
        assert_eq!(u64_list(&deps, Some(value), None, Order::Descending, 50, None), expected);
    }
}

#[test]
fn a_named_value_outranks_limits() {
    let deps = text_backend(&[("a", 1), ("b", 2), ("c", 3)]);
    let named = |between| text_list(&deps, Some("b"), between, Order::Ascending, 9, None);
    assert_eq!(named(None), cursors(&[("b", 2)]));
    assert_eq!(named(Some((Some("c"), None))), named(None));
    assert_eq!(named(Some((None, Some("a")))), named(None));
}

#[test]
fn a_listing_does_not_depend_on_other_namespaces() {
    let mut deps = u64_backend(&[(1, 1), (2, 2)]);
    let before = u64_list(&deps, None, None, Order::Ascending, 9, None);
    let other: cw_storage_plus::Map<(u64, u64), bool> = cw_storage_plus::Map::new("ixx");
    other.save(&mut deps.storage, (0, 0), &true).unwrap();
    let other: cw_storage_plus::Map<(u64, u64), bool> = cw_storage_plus::Map::new("i");
    other.save(&mut deps.storage, (9, 9), &true).unwrap();
    assert_eq!(u64_list(&deps, None, None, Order::Ascending, 9, None), before);
}

#[test]
fn a_page_by_address_repeats_its_cursor() {
    let deps = metadata_backend(&[("anna", 1), ("berta", 2), ("carla", 3)]);
    let chain = Chain(deps.as_ref());
    for order in [Order::Ascending, Order::Descending] {
        let list =
            |at, limit| paginate_metadata(&chain, "meta", &parse, at, None, None, order, limit);
        let first = list(None, 2).unwrap();
        let second = list(first.last().cloned(), 2).unwrap();
        assert_eq!(second.first(), first.last());
        let alone = list(first.last().cloned(), 1).unwrap();
        assert_eq!(alone, vec![first.last().unwrap().clone()]);
        // the number plays no part, and what is no address neither
        let (text, _) = first.last().unwrap().clone();
        assert_eq!(list(Some((text, 77)), 2).unwrap(), second);
        assert_eq!(list(Some(cursor("X", 2)), 2).unwrap(), first);
    }
}

/// Storage that counts the records that are taken off its walks.
struct Counting<'a> {
    inner: &'a MockStorage,
    taken: Cell<usize>,
}

impl<'s> Storage for Counting<'s> {
    fn get(&self, key: &[u8]) -> Option<Vec<u8>> {
        self.inner.get(key)
    }

    fn range<'a>(
        &'a self,
        start: Option<&[u8]>,
        end: Option<&[u8]>,
        order: cosmwasm_std::Order,
    ) -> Box<dyn Iterator<Item = Record> + 'a> {
        let walk = self.inner.range(start, end, order);
        Box::new(walk.map(|record| {
            self.taken.set(self.taken.get() + 1);
            record
        }))
    }

    fn set(&mut self, _key: &[u8], _value: &[u8]) {
        panic!("a read that writes")
    }

    fn remove(&mut self, _key: &[u8]) {
        panic!("a read that removes")
    }
}

#[test]
fn nothing_behind_a_broken_record_or_the_limit_is_read() {
    let mut deps = u64_backend(&[(1, 1), (3, 3), (4, 4), (5, 5)]);
    let broken: cw_storage_plus::Map<(u64, u64), u64> = cw_storage_plus::Map::new("ix");
    broken.save(&mut deps.storage, (2, 2), &17).unwrap();
    let storage = Counting { inner: &deps.storage, taken: Cell::new(0) };
    let querier = QuerierWrapper::new(&deps.querier);
    let chain = Chain(Deps { storage: &storage, api: &deps.api, querier });
    let list = |order, limit| paginate_u64_index(&chain, "ix", None, None, order, limit, None);
    assert!(list(Order::Ascending, 9).is_err());
    assert_eq!(storage.taken.get(), 2);
    storage.taken.set(0);
    assert_eq!(list(Order::Descending, 2).unwrap(), cursors(&[("5", 5), ("4", 4)]));
    assert_eq!(storage.taken.get(), 2);
}

#[test]
fn pages_follow_each_other_past_keys_that_nothing_reads() {
    let mut deps = text_backend(&[("red", 1), ("red", 2), ("red", 3), ("tan", 4)]);
    // behind the last key that a contract with this tag can have
    let behind = b"\x00\x02ix\x00\x03red\xff\xff\xff\xff\xff\xff\xff\xff\x00";
    deps.storage.set(behind, b"true");
    let chain = Chain(deps.as_ref());
    let red = "red".to_string();
    let list = |limit, at| read_tags(&chain, "ix", &red, Order::Ascending, limit, at).unwrap();
    let full = list(3, None);
    let first = list(1, None);
    let second = list(2, first.last().cloned());
    assert_eq!([first, second].concat(), full);
    assert_eq!(list(9, full.last().cloned()), cursors(&[]));
}

#[test]
fn flags_that_are_no_truth_values_are_gone_on_after_as_true() {
    let deps = bool_backend(&[(0, 1), (1, 2), (2, 3)]);
    let after = |text: &str, id| {
        bool_list(&deps, None, None, Order::Ascending, 9, Some(cursor(text, id)))
    };
    assert_eq!(after("0", 1), cursors(&[("1", 2), ("2", 3)]));
    assert_eq!(after("1", 2), cursors(&[("2", 3)]));
    assert_eq!(after("2", 1), cursors(&[("1", 2), ("2", 3)]));
}

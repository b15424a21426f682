use contract_reads::bytes::fits_key;
use contract_reads::error::ContractError;
use contract_reads::keys::Cursor;
use contract_reads::layout::{index_at, Layout};
use contract_reads::models::{ContractMetadata, IndexBounds, Order, Timestamp};
use contract_reads::page::{
    build_contracts_page, is_modified, visit_contract, Page, Selection, Since,
};
use contract_reads::read::{
    clamp_limit, limits_are_fitting, read, read_index, read_target, Target, DEFAULT_LIMIT,
    MAX_LIMIT, MIN_LIMIT,
};
use contract_reads::store::Chain;
use contract_reads::wire::query_smart_no_deserialize;
use cosmwasm_std::testing::{mock_dependencies, MockApi, MockQuerier, MockStorage};
use cosmwasm_std::{
    from_json, Addr, Binary, ContractResult, OwnedDeps, StdError, Storage, SystemError,
    SystemResult, WasmQuery,
};

type Backend = OwnedDeps<MockStorage, MockApi, MockQuerier>;

type Document = (u64, u64, u64, u64, u64, String, u64);

fn parse(document: Vec<u8>) -> Result<ContractMetadata, StdError> {
    let (id, rev, code_id, height, created_at, created_by, updated_at): Document =
        from_json(document)?;
    Ok(ContractMetadata {
        id,
        rev,
        code_id,
        height,
        created_at: Timestamp::from_nanos(created_at),
        created_by,
        updated_at: Timestamp::from_nanos(updated_at),
    })
}

fn names(names: &[&str]) -> Vec<String> {
    names.iter().map(|name| name.to_string()).collect()
}

fn layout() -> Layout {
    Layout {
        id_2_addr: "id".to_string(),
        metadata: "meta".to_string(),
        tagged_contract_ids: "tags".to_string(),
        relationships: "rels".to_string(),
        ix_created_by: "by".to_string(),
        ix_created_at: "at".to_string(),
        ix_updated_at: "up".to_string(),
        ix_rev: "rev".to_string(),
        ix_code_id: "code".to_string(),
        ix_height: "height".to_string(),
        u64_indices: names(&["n0", "n1"]),
        u128_indices: names(&["m0"]),
        text_indices: names(&["t0"]),
        timestamp_indices: names(&["s0"]),
        bool_indices: names(&["b0"]),
    }
}

/// Contracts 1 to 4. The contract `n` has revision `n`, was made in block
/// `10 * n` and changed at `1000 * n` nanoseconds.
fn backend() -> Backend {
    let mut deps = mock_dependencies();
    let addresses: cw_storage_plus::Map<u64, Addr> = cw_storage_plus::Map::new("id");
    let metadata: cw_storage_plus::Map<&str, Document> = cw_storage_plus::Map::new("meta");
    let revs: cw_storage_plus::Map<(u64, u64), bool> = cw_storage_plus::Map::new("rev");
    let heights: cw_storage_plus::Map<(u64, u64), bool> = cw_storage_plus::Map::new("height");
    let tags: cw_storage_plus::Map<(String, u64), bool> = cw_storage_plus::Map::new("tags");
    let makers: cw_storage_plus::Map<(String, u64), bool> = cw_storage_plus::Map::new("by");
    for n in 1u64..=4 {
        let address = format!("contract{n}");
        let store = &mut deps.storage;
        addresses.save(store, n, &Addr::unchecked(address.clone())).unwrap();
        let document = (n, n, 7, 10 * n, 100 * n, "maker".to_string(), 1000 * n);
        metadata.save(store, address.as_str(), &document).unwrap();
        revs.save(store, (n, n), &true).unwrap();
        heights.save(store, (10 * n, n), &true).unwrap();
        tags.save(store, ("odd".to_string(), 2 * n - 1), &true).unwrap();
        makers.save(store, ("maker".to_string(), n), &true).unwrap();
    }
    deps
}

fn by_rev() -> Target {
    Target::Index(IndexBounds::Rev {
        equals: None,
        between: None,
    })
}

fn addresses(page: &Page) -> Vec<&str> {
    page.page.iter().map(|envelope| envelope.address.as_str()).collect()
}

fn plain(deps: &Backend, target: &Target, limit: u32, at: Option<Cursor>) -> Page {
    let chain = Chain(deps.as_ref());
    let layout = layout();
    read(
        &chain, &layout, &parse, target, None, Some(limit), None, None, None, None, at,
    )
    .unwrap()
}

#[test]
fn limits_are_clamped() {
    assert_eq!((MIN_LIMIT, MAX_LIMIT, DEFAULT_LIMIT), (1, 50, 25));
    assert_eq!(clamp_limit(None), 25);
    assert_eq!(clamp_limit(Some(0)), 1);
    assert_eq!(clamp_limit(Some(1)), 1);
    assert_eq!(clamp_limit(Some(37)), 37);
    assert_eq!(clamp_limit(Some(50)), 50);
    assert_eq!(clamp_limit(Some(51)), 50);
    assert_eq!(clamp_limit(Some(u32::MAX)), 50);
}

#[test]
fn pages_follow_each_other_by_their_cursors() {
    let deps = backend();
    let first = plain(&deps, &by_rev(), 3, None);
    assert_eq!(addresses(&first), ["contract1", "contract2", "contract3"]);
    assert_eq!(first.cursor, Some(("3".to_string(), 3)));
    let second = plain(&deps, &by_rev(), 3, first.cursor);
    assert_eq!(addresses(&second), ["contract4"]);
    assert_eq!(second.cursor, Some(("4".to_string(), 4)));
    let third = plain(&deps, &by_rev(), 3, second.cursor);
    assert!(third.page.is_empty());
    assert_eq!(third.cursor, None);
}

#[test]
fn a_limit_of_none_still_reads_one_contract() {
    let deps = backend();
    assert_eq!(addresses(&plain(&deps, &by_rev(), 0, None)), ["contract1"]);
}

#[test]
fn no_more_than_fifty_contracts_are_read() {
    let mut deps = mock_dependencies();
    let ids: cw_storage_plus::Map<u64, Addr> = cw_storage_plus::Map::new("id");
    let revs: cw_storage_plus::Map<(u64, u64), bool> = cw_storage_plus::Map::new("rev");
    for n in 0u64..60 {
        ids.save(&mut deps.storage, n, &Addr::unchecked(format!("c{n}"))).unwrap();
        revs.save(&mut deps.storage, (n, n), &true).unwrap();
    }
    assert_eq!(plain(&deps, &by_rev(), 1000, None).page.len(), 50);
    let chain = Chain(deps.as_ref());
    let layout = layout();
    let page = read(
        &chain, &layout, &parse, &by_rev(), Some(true), None, None, None, None, None, None,
    )
    .unwrap();
    assert_eq!(page.page.len(), 25);
    assert_eq!(page.page[0].address, "c59");
    assert_eq!(page.cursor, Some(("35".to_string(), 35)));
}

#[test]
fn a_plain_page_shows_addresses_alone() {
    let deps = backend();
    let page = plain(&deps, &by_rev(), 2, None);
    assert!(page.page.iter().all(|envelope| envelope.meta.is_none()));
    assert!(page.page.iter().all(|envelope| envelope.state.is_none()));
}

#[test]
fn metadata_is_shown_where_it_is_asked_for() {
    let mut deps = backend();
    deps.storage.remove(b"\x00\x04metacontract2");
    let chain = Chain(deps.as_ref());
    let layout = layout();
    let page = read(
        &chain, &layout, &parse, &by_rev(), None, Some(2), None, None, Some(true), None, None,
    )
    .unwrap();
    let meta = page.page[0].meta.as_ref().unwrap();
    assert_eq!((meta.id, meta.rev, meta.code_id, meta.height), (1, 1, 7, 10));
    assert_eq!(meta.created_at.nanos(), 100);
    assert_eq!(meta.created_by, "maker");
    assert_eq!(meta.updated_at.nanos(), 1000);
    assert!(page.page[1].meta.is_none());
}

#[test]
fn contracts_that_have_not_changed_are_left_out() {
    let deps = backend();
    let chain = Chain(deps.as_ref());
    let layout = layout();
    for meta in [None, Some(false), Some(true)] {
        let page = read(
            &chain, &layout, &parse, &by_rev(), None, None, None, Some(Since::Rev(2)), meta, None,
            None,
        )
        .unwrap();
        assert_eq!(addresses(&page), ["contract3", "contract4"]);
        assert_eq!(page.page[0].meta.is_some(), meta == Some(true));
        assert_eq!(page.cursor, Some(("4".to_string(), 4)));
    }
    let since = Some(Since::Timestamp(Timestamp::from_nanos(4000)));
    let page = read(
        &chain, &layout, &parse, &by_rev(), None, Some(2), None, since, None, None, None,
    )
    .unwrap();
    assert!(page.page.is_empty());
    assert_eq!(page.cursor, Some(("2".to_string(), 2)));
    let since = Some(Since::Timestamp(Timestamp::from_nanos(3999)));
    let page = read(
        &chain, &layout, &parse, &by_rev(), None, None, None, since, None, None, None,
    )
    .unwrap();
    assert_eq!(addresses(&page), ["contract4"]);
}

#[test]
fn a_change_is_later_than_what_is_asked_for() {
    let metadata = parse(b"[1,5,7,10,100,\"maker\",1000]".to_vec()).unwrap();
    assert!(is_modified(&Since::Rev(4), &metadata));
    assert!(!is_modified(&Since::Rev(5), &metadata));
    assert!(!is_modified(&Since::Rev(6), &metadata));
    assert!(is_modified(&Since::Timestamp(Timestamp::from_nanos(999)), &metadata));
    assert!(!is_modified(&Since::Timestamp(Timestamp::from_nanos(1000)), &metadata));
}

#[test]
fn a_change_cannot_be_told_without_metadata() {
    let mut deps = backend();
    deps.storage.remove(b"\x00\x04metacontract2");
    let chain = Chain(deps.as_ref());
    let layout = layout();
    for meta in [Some(false), Some(true)] {
        let result = read(
            &chain, &layout, &parse, &by_rev(), None, None, None, Some(Since::Rev(0)), meta, None,
            None,
        );
        match result {
            Err(ContractError::Std(StdError::NotFound { kind, .. })) => {
                let key = b"\x00\x04metacontract2";
                let missing = "type: contract_reads::models::ContractMetadata";
                assert_eq!(kind, format!("{missing}; key: {:02X?}", key))
            }
            _ => panic!("a page without the metadata of a contract"),
        }
    }
}

#[test]
fn a_contract_without_an_address_fails_the_page() {
    let mut deps = backend();
    let addresses: cw_storage_plus::Map<u64, Addr> = cw_storage_plus::Map::new("id");
    addresses.remove(&mut deps.storage, 3);
    let chain = Chain(deps.as_ref());
    let layout = layout();
    let page = |limit| {
        read(
            &chain, &layout, &parse, &by_rev(), None, Some(limit), None, None, None, None, None,
        )
    };
    assert_eq!(page(2).unwrap().page.len(), 2);
    match page(3) {
        Err(ContractError::Std(StdError::NotFound { kind, .. })) => {
            assert!(kind.contains("Addr"));
            assert!(kind.contains("[00, 02, 69, 64, 00, 00, 00, 00, 00, 00, 00, 03]"));
        }
        _ => panic!("a page of a contract without an address"),
    }
}

#[test]
fn every_index_is_found_by_its_bounds() {
    let mut deps = backend();
    let store = &mut deps.storage;
    for (namespace, n) in [("at", 1u64), ("up", 2), ("code", 3), ("n1", 4), ("s0", 1)] {
        let map: cw_storage_plus::Map<(u64, u64), bool> = cw_storage_plus::Map::new(namespace);
        map.save(store, (77, n), &true).unwrap();
    }
    let map: cw_storage_plus::Map<(u128, u64), bool> = cw_storage_plus::Map::new("m0");
    map.save(store, (77, 2), &true).unwrap();
    let map: cw_storage_plus::Map<(String, u64), bool> = cw_storage_plus::Map::new("t0");
    map.save(store, ("77".to_string(), 3), &true).unwrap();
    let map: cw_storage_plus::Map<(u8, u64), bool> = cw_storage_plus::Map::new("b0");
    map.save(store, (1, 4), &true).unwrap();
    let chain = Chain(deps.as_ref());
    let layout = layout();
    let list = |bounds: IndexBounds| {
        read_index(&chain, &layout, &parse, &bounds, Order::Ascending, 9, None).unwrap()
    };
    let found = |text: &str, id: u64| vec![(text.to_string(), id)];
    let time = Some(Timestamp::from_nanos(77));
    let between = None;
    let equals = time;
    assert_eq!(list(IndexBounds::CreatedAt { equals, between }), found("77", 1));
    assert_eq!(list(IndexBounds::UpdatedAt { equals, between }), found("77", 2));
    assert_eq!(list(IndexBounds::Timestamp { slot: 0, equals, between }), found("77", 1));
    let between = None;
    let equals = Some(77);
    assert_eq!(list(IndexBounds::CodeId { equals, between }), found("77", 3));
    assert_eq!(list(IndexBounds::Uint64 { slot: 1, equals, between }), found("77", 4));
    assert_eq!(list(IndexBounds::Uint64 { slot: 0, equals, between }), vec![]);
    assert_eq!(list(IndexBounds::Rev { equals: Some(2), between }), found("2", 2));
    assert_eq!(list(IndexBounds::Height { equals: Some(30), between }), found("30", 3));
    let u128_bounds = IndexBounds::Uint128 { slot: 0, equals: Some(77), between: None };
    assert_eq!(list(u128_bounds), found("77", 2));
    let text = Some("77".to_string());
    let text_bounds = IndexBounds::Text { slot: 0, equals: text, between: None };
    assert_eq!(list(text_bounds), found("77", 3));
    let bool_bounds = IndexBounds::Boolean { slot: 0, start: Some(true), stop: None };
    assert_eq!(list(bool_bounds), found("1", 4));
    let address = Some("contract2".to_string());
    let address_bounds = IndexBounds::Address { equals: address, between: None };
    assert_eq!(list(address_bounds), found("contract2", 2));
    let maker = Some((Some("maker".to_string()), None));
    let maker_bounds = IndexBounds::CreatedBy { equals: None, between: maker };
    assert_eq!(list(maker_bounds).len(), 4);
}

#[test]
fn a_slot_without_an_index_is_told() {
    let deps = backend();
    let chain = Chain(deps.as_ref());
    let layout = layout();
    let missing = |bounds: IndexBounds, slot: u8| {
        let target = Target::Index(bounds);
        let result = read_target(&chain, &layout, &parse, &target, Order::Ascending, 9, None);
        matches!(result, Err(ContractError::IndexNotFound { slot: told }) if told == slot)
    };
    assert!(missing(IndexBounds::Uint64 { slot: 2, equals: None, between: None }, 2));
    assert!(missing(IndexBounds::Uint128 { slot: 1, equals: None, between: None }, 1));
    assert!(missing(IndexBounds::Text { slot: 1, equals: None, between: None }, 1));
    assert!(missing(IndexBounds::Timestamp { slot: 1, equals: None, between: None }, 1));
    assert!(missing(IndexBounds::Boolean { slot: 255, start: None, stop: None }, 255));
    assert_eq!(index_at(&layout.u64_indices, 1).unwrap(), "n1");
}

#[test]
fn tagged_and_related_contracts_are_read() {
    let mut deps = backend();
    let relations: cw_storage_plus::Map<(String, String, u64), bool> =
        cw_storage_plus::Map::new("rels");
    for n in [2u64, 4] {
        let key = ("ann".to_string(), "owns".to_string(), n);
        relations.save(&mut deps.storage, key, &true).unwrap();
    }
    let tagged = plain(&deps, &Target::Tag("odd".to_string()), 2, None);
    assert_eq!(addresses(&tagged), ["contract1", "contract3"]);
    assert_eq!(tagged.cursor, Some(("odd".to_string(), 3)));
    let target = Target::Relationship(("ann".to_string(), "owns".to_string()));
    let related = plain(&deps, &target, 1, None);
    assert_eq!(addresses(&related), ["contract2"]);
    let related = plain(&deps, &target, 1, related.cursor);
    assert_eq!(addresses(&related), ["contract4"]);
    assert_eq!(related.cursor, Some(("owns".to_string(), 4)));
    let target = Target::Relationship(("bob".to_string(), "owns".to_string()));
    assert!(plain(&deps, &target, 1, None).page.is_empty());
}

#[test]
fn contracts_are_asked_for_their_state() {
    let mut deps = backend();
    deps.querier.update_wasm(|query| match query {
        WasmQuery::Smart { contract_addr, msg } => {
            let answer = format!("{contract_addr} {}", String::from_utf8(msg.to_vec()).unwrap());
            SystemResult::Ok(ContractResult::Ok(Binary::from(answer.as_bytes())))
        }
        _ => panic!("a query that is no smart query"),
    });
    let chain = Chain(deps.as_ref());
    let layout = layout();
    let state = |fields: Vec<String>, wallet: Option<String>| {
        let page = read(
            &chain, &layout, &parse, &by_rev(), None, Some(1), Some(fields), None, None, wallet,
            None,
        )
        .unwrap();
        String::from_utf8(page.page[0].state.clone().unwrap()).unwrap()
    };
    assert_eq!(
        state(names(&["name", "a\"b"]), Some("ann".to_string())),
        "contract1 {\"select\":{\"wallet\":\"ann\",\"fields\":[\"name\",\"a\\\"b\"]}}"
    );
    assert_eq!(
        state(vec![], None),
        "contract1 {\"select\":{\"wallet\":null,\"fields\":[]}}"
    );
}

#[test]
fn a_contract_that_fails_to_answer_fails_the_page() {
    let mut deps = backend();
    deps.querier.update_wasm(|query| match query {
        WasmQuery::Smart { contract_addr, .. } if contract_addr == "contract1" => {
            SystemResult::Ok(ContractResult::Ok(Binary::from(b"{}")))
        }
        WasmQuery::Smart { contract_addr, .. } if contract_addr == "contract2" => {
            SystemResult::Ok(ContractResult::Err("out of order".to_string()))
        }
        WasmQuery::Smart { contract_addr, .. } => SystemResult::Err(SystemError::NoSuchContract {
            addr: contract_addr.clone(),
        }),
        _ => panic!("a query that is no smart query"),
    });
    let chain = Chain(deps.as_ref());
    let layout = layout();
    let ask = |address: &str| {
        query_smart_no_deserialize(&chain, &address.to_string(), &Some(vec![]), &None)
    };
    assert_eq!(ask("contract1").unwrap(), b"{}".to_vec());
    let message = |address: &str| match ask(address) {
        Err(ContractError::QueryStateError { msg }) => msg,
        _ => panic!("an answer of a failing contract"),
    };
    assert_eq!(
        message("contract2"),
        "contract error querying state of contract contract2: out of order"
    );
    assert_eq!(
        message("contract3"),
        "contract error querying state of contract contract3: No such contract: contract3"
    );
    let result = read(
        &chain, &layout, &parse, &by_rev(), None, None, Some(vec![]), None, None, None, None,
    );
    assert!(matches!(result, Err(ContractError::QueryStateError { .. })));
}

#[test]
fn contracts_that_are_left_out_are_not_asked() {
    let mut deps = backend();
    deps.querier.update_wasm(|query| match query {
        WasmQuery::Smart { contract_addr, .. } if contract_addr == "contract4" => {
            SystemResult::Ok(ContractResult::Ok(Binary::from(b"4")))
        }
        _ => panic!("a contract that has not changed is asked"),
    });
    let chain = Chain(deps.as_ref());
    let layout = layout();
    let page = read(
        &chain, &layout, &parse, &by_rev(), None, None, Some(vec![]), Some(Since::Rev(3)), None,
        None, None,
    )
    .unwrap();
    assert_eq!(page.page[0].state, Some(b"4".to_vec()));
}

#[test]
fn a_page_is_built_of_any_listing() {
    let deps = backend();
    let chain = Chain(deps.as_ref());
    let layout = layout();
    let selection = Selection {
        fields: None,
        since: Some(Since::Rev(1)),
        meta: true,
        wallet: None,
    };
    let listing = vec![("b".to_string(), 2), ("a".to_string(), 1)];
    let page = build_contracts_page(&chain, &layout, &parse, &selection, &listing).unwrap();
    assert_eq!(addresses(&page), ["contract2"]);
    assert_eq!(page.cursor, Some(("a".to_string(), 1)));
    assert!(visit_contract(&chain, &layout, &parse, &selection, 1).unwrap().is_none());
    let shown = visit_contract(&chain, &layout, &parse, &selection, 3).unwrap().unwrap();
    assert_eq!(shown.meta.unwrap().rev, 3);
    assert!(visit_contract(&chain, &layout, &parse, &selection, 9).is_err());
    let page = build_contracts_page(&chain, &layout, &parse, &selection, &vec![]).unwrap();
    assert!(page.page.is_empty());
    assert_eq!(page.cursor, None);
}

#[test]
fn texts_of_more_than_two_length_bytes_do_not_fit_a_key() {
    assert!(fits_key(""));
    assert!(fits_key(&"x".repeat(0xFFFF)));
    assert!(!fits_key(&"x".repeat(0x1_0000)));
    assert!(fits_key(&"\u{e9}".repeat(0x7FFF)));
    assert!(!fits_key(&"\u{e9}".repeat(0x8000)));
}

#[test]
fn a_layout_of_long_names_is_not_valid() {
    assert!(layout().is_valid());
    let long = "x".repeat(0x1_0000);
    let mut changed = layout();
    changed.ix_height = long.clone();
    assert!(!changed.is_valid());
    let mut changed = layout();
    changed.bool_indices.push(long);
    assert!(!changed.is_valid());
}

#[test]
fn only_the_texts_that_set_an_end_have_to_fit() {
    let deps = backend();
    let chain = Chain(deps.as_ref());
    let layout = layout();
    let long = "x".repeat(0x1_0000);
    let fitting = |target: &Target, at: Option<&str>| {
        let at = at.map(|text| (text.to_string(), 1));
        limits_are_fitting(&chain, &layout, target, &at)
    };
    let between = Some((Some(long.clone()), None));
    let text = Target::Index(IndexBounds::Text { slot: 0, equals: None, between });
    assert!(!fitting(&text, None));
    assert!(fitting(&text, Some("a")));
    assert!(!fitting(&text, Some(&long)));
    let between = Some((None, Some(long.clone())));
    let text = Target::Index(IndexBounds::Text { slot: 0, equals: None, between });
    assert!(!fitting(&text, None));
    assert!(!fitting(&text, Some("a")));
    let between = Some((None, Some(long.clone())));
    let missing = Target::Index(IndexBounds::Text { slot: 9, equals: None, between });
    assert!(fitting(&missing, None));
    let maker = Target::Index(IndexBounds::CreatedBy { equals: None, between: None });
    assert!(fitting(&maker, Some("maker")));
    // the mock chain does not take so long a text for an address
    assert!(fitting(&maker, Some(&long)));
    let address = Target::Index(IndexBounds::Address { equals: Some(long.clone()), between: None });
    assert!(fitting(&address, Some(&long)));
    assert!(fitting(&by_rev(), Some(&long)));
    assert!(!fitting(&Target::Tag(long.clone()), None));
    assert!(fitting(&Target::Tag(long.clone()), Some("odd")));
    assert!(!fitting(&Target::Tag("odd".to_string()), Some(&long)));
    let relation = Target::Relationship(("ann".to_string(), long.clone()));
    assert!(!fitting(&relation, None));
    assert!(fitting(&relation, Some("owns")));
    assert!(!fitting(&Target::Relationship((long, "owns".to_string())), None));
}

#[test]
fn limits_read_like_what_they_are_clamped_to() {
    let mut deps = mock_dependencies();
    let ids: cw_storage_plus::Map<u64, Addr> = cw_storage_plus::Map::new("id");
    let revs: cw_storage_plus::Map<(u64, u64), bool> = cw_storage_plus::Map::new("rev");
    for n in 0u64..60 {
        ids.save(&mut deps.storage, n, &Addr::unchecked(format!("c{n}"))).unwrap();
        revs.save(&mut deps.storage, (n, n), &true).unwrap();
    }
    let chain = Chain(deps.as_ref());
    let layout = layout();
    let page = |limit, desc| {
        let page = read(
            &chain, &layout, &parse, &by_rev(), desc, limit, None, None, None, None, None,
        )
        .unwrap();
        let addresses: Vec<String> = addresses(&page).iter().map(|a| a.to_string()).collect();
        (addresses, page.cursor)
    };
    assert_eq!(page(None, None), page(Some(25), None));
    assert_eq!(page(Some(0), None), page(Some(1), None));
    assert_eq!(page(Some(51), None), page(Some(50), None));
    assert_eq!(page(Some(u32::MAX), None), page(Some(50), None));
    assert_eq!(page(Some(5), None), page(Some(5), Some(false)));
    assert_ne!(page(Some(5), None), page(Some(5), Some(true)));
    let (small, large) = (page(Some(7), None).0, page(Some(12), None).0);
    assert_eq!(small[..], large[..7]);
}

#[test]
fn what_is_shown_changes_neither_cursor_nor_addresses() {
    let mut deps = backend();
    deps.querier.update_wasm(|_| SystemResult::Ok(ContractResult::Ok(Binary::from(b"{}"))));
    let chain = Chain(deps.as_ref());
    let layout = layout();
    let page = |fields, since, meta, wallet| {
        let page = read(
            &chain, &layout, &parse, &by_rev(), None, Some(3), fields, since, meta, wallet, None,
        )
        .unwrap();
        let addresses: Vec<String> = addresses(&page).iter().map(|a| a.to_string()).collect();
        (addresses, page.cursor)
    };
    let plain = page(None, Some(Since::Rev(1)), None, None);
    let wallet = Some("ann".to_string());
    assert_eq!(page(Some(vec![]), Some(Since::Rev(1)), Some(true), wallet), plain);
    let later = page(None, Some(Since::Rev(2)), None, None);
    assert_eq!(plain.0, ["contract2", "contract3"]);
    assert_eq!(later.0, ["contract3"]);
    assert_eq!(later.1, plain.1);
}

#[test]
fn two_pages_of_a_tag_are_one_of_twice_the_limit() {
    let mut deps = backend();
    let ids: cw_storage_plus::Map<u64, Addr> = cw_storage_plus::Map::new("id");
    for n in 5u64..=7 {
        ids.save(&mut deps.storage, n, &Addr::unchecked(format!("contract{n}"))).unwrap();
    }
    let target = Target::Tag("odd".to_string());
    let full = plain(&deps, &target, 4, None);
    let first = plain(&deps, &target, 2, None);
    let both: Vec<String> = {
        let second = plain(&deps, &target, 2, first.cursor.clone());
        assert_eq!(second.cursor, full.cursor);
        let all = addresses(&first).into_iter().chain(addresses(&second));
        all.map(|address| address.to_string()).collect()
    };
    assert_eq!(both, addresses(&full));
    assert_eq!(plain(&deps, &target, 2, full.cursor).cursor, None);
}

use contract_reads::bytes::count_up;
use contract_reads::decimal::{decimal_text, parse_decimal};
use contract_reads::error::ContractError;
use contract_reads::hex::hex_text;
use contract_reads::keys::{
    key_cursor, relation_cursor, text_cursor, u128_cursor, u64_cursor, u8_cursor, KeyKind,
};
use contract_reads::metadata::{mark, missing_metadata_text};
use contract_reads::models::{ContractMetadata, Timestamp};
use contract_reads::pagination::{collect, keep_place, mark_row};
use contract_reads::text::{is_false_word, is_true};
use contract_reads::wire::{build_select_request, read_answer, Answer};
use cosmwasm_std::{Binary, StdError, SystemError};
use cw_storage_plus::PrimaryKey;

#[test]
fn numerals_are_written_without_leading_zeros() {
    assert_eq!(decimal_text(0), "0");
    assert_eq!(decimal_text(9), "9");
    assert_eq!(decimal_text(10), "10");
    assert_eq!(decimal_text(1_203_004), "1203004");
    assert_eq!(decimal_text(u128::MAX), "340282366920938463463374607431768211455");
}

#[test]
fn numerals_are_read_as_numbers_up_to_the_largest() {
    let largest = u64::MAX as u128;
    assert_eq!(parse_decimal("0", largest), Some(0));
    assert_eq!(parse_decimal("007", largest), Some(7));
    assert_eq!(parse_decimal("+42", largest), Some(42));
    assert_eq!(parse_decimal("18446744073709551615", largest), Some(largest));
    assert_eq!(parse_decimal("18446744073709551616", largest), None);
    assert_eq!(
        parse_decimal("340282366920938463463374607431768211455", u128::MAX),
        Some(u128::MAX)
    );
    assert_eq!(parse_decimal("340282366920938463463374607431768211456", u128::MAX), None);
    assert_eq!(parse_decimal("99999999999999999999999999999999999999999", u128::MAX), None);
    for text in ["", "+", "-1", "1a", " 1", "1_0", "++1", "\u{664}"] {
        assert_eq!(parse_decimal(text, u128::MAX), None);
    }
}

#[test]
fn numerals_read_back() {
    for number in [0u128, 1, 10, 99, 100, 18_446_744_073_709_551_615, u128::MAX] {
        assert_eq!(parse_decimal(&decimal_text(number), u128::MAX), Some(number));
        assert_eq!(decimal_text(number), number.to_string());
    }
}

#[test]
fn only_false_and_zero_are_false() {
    for text in ["false", "False", "FALSE", "fAlSe", "0"] {
        assert!(!is_true(&text.to_string()));
    }
    for text in ["", "true", "1", "00", "no", "false ", "\u{17f}false"] {
        assert!(is_true(&text.to_string()));
    }
    let word = |text: &str, lower: &str| is_false_word(&text.to_string(), &lower.to_string());
    assert!(word("x", "false"));
    assert!(word("0", "0"));
    assert!(!word("false", "0"));
    assert!(!word("1", "1"));
}

#[test]
fn keys_mark_the_places_they_were_made_of() {
    let place = |text: &str, id: u64| (text.to_string(), id);
    assert_eq!(u64_cursor((258u64, 7u64).joined_key()).unwrap(), place("258", 7));
    assert_eq!(
        u128_cursor((u128::MAX, 7u64).joined_key()).unwrap(),
        place("340282366920938463463374607431768211455", 7)
    );
    assert_eq!(u8_cursor((1u8, u64::MAX).joined_key()).unwrap(), place("1", u64::MAX));
    let key = ("caf\u{e9}".to_string(), 3u64).joined_key();
    assert_eq!(text_cursor(key).unwrap(), place("caf\u{e9}", 3));
    let key = ("ann".to_string(), "owns".to_string(), 3u64).joined_key();
    assert_eq!(relation_cursor(key).unwrap(), place("owns", 3));
}

#[test]
fn keys_are_read_by_their_kind() {
    let place = |text: &str, id: u64| (text.to_string(), id);
    let key = (5u64, 6u64).joined_key();
    assert_eq!(key_cursor(KeyKind::U64, key.clone()).unwrap(), place("5", 6));
    assert!(key_cursor(KeyKind::U128, key.clone()).is_err());
    assert!(key_cursor(KeyKind::U8, key.clone()).is_err());
    let text = place("\u{0}\u{0}\u{0}\u{0}\u{0}\u{0}\u{0}\u{5}", 6);
    assert_eq!(key_cursor(KeyKind::Text, key).unwrap(), text);
    let key = ("s".to_string(), "n".to_string(), 1u64).joined_key();
    assert_eq!(key_cursor(KeyKind::Relation, key).unwrap(), place("n", 1));
}

#[test]
fn short_keys_are_malformed() {
    for key in [vec![], vec![0u8], vec![0, 3, 1, 2]] {
        match u64_cursor(key.clone()) {
            Err(ContractError::MalformedKey { key: told }) => assert_eq!(told, key),
            _ => panic!("a place of a short key"),
        }
        assert!(matches!(u128_cursor(key.clone()), Err(ContractError::MalformedKey { .. })));
        assert!(matches!(u8_cursor(key.clone()), Err(ContractError::MalformedKey { .. })));
        assert!(matches!(text_cursor(key.clone()), Err(ContractError::MalformedKey { .. })));
        assert!(matches!(relation_cursor(key), Err(ContractError::MalformedKey { .. })));
    }
    for key in [vec![0u8, 1, 65], vec![0, 1, 65, 0], vec![0, 1, 65, 0, 2, 66]] {
        assert!(matches!(relation_cursor(key), Err(ContractError::MalformedKey { .. })));
    }
}

#[test]
fn keys_that_hold_something_else_are_errors() {
    let mut key = vec![0u8, 1, 0xff];
    key.extend([0; 8]);
    assert!(matches!(
        text_cursor(key.clone()),
        Err(ContractError::Std(StdError::InvalidUtf8 { .. }))
    ));
    assert!(matches!(
        u64_cursor(key),
        Err(ContractError::Std(StdError::GenericErr { .. }))
    ));
    assert!(matches!(
        u8_cursor(vec![0, 1, 1, 0]),
        Err(ContractError::Std(StdError::GenericErr { .. }))
    ));
}

fn rows(values: &[Result<(u8, u8), &str>]) -> Vec<Result<(u8, u8), StdError>> {
    values
        .iter()
        .map(|value| value.map_err(|message| StdError::generic_err(message)))
        .collect()
}

fn sum(key: u8, value: u8) -> Result<u8, ContractError> {
    match key.checked_add(value) {
        Some(sum) => Ok(sum),
        None => Err(ContractError::IndexNotFound { slot: key }),
    }
}

#[test]
fn items_are_collected_up_to_the_limit() {
    let items = rows(&[Ok((1, 2)), Ok((3, 4)), Ok((5, 6))]);
    let collected = |limit| collect(rows(&[Ok((1, 2)), Ok((3, 4)), Ok((5, 6))]).into_iter(), limit, sum);
    assert_eq!(collected(0).unwrap(), Vec::<u8>::new());
    assert_eq!(collected(2).unwrap(), vec![3, 7]);
    assert_eq!(collect(items.into_iter(), 9, sum).unwrap(), vec![3, 7, 11]);
}

#[test]
fn the_first_error_ends_a_collection() {
    let items = || rows(&[Ok((1, 2)), Err("first"), Ok((255, 1)), Err("second")]).into_iter();
    assert_eq!(collect(items(), 1, sum).unwrap(), vec![3]);
    match collect(items(), 9, sum) {
        Err(ContractError::Std(StdError::GenericErr { msg, .. })) => assert_eq!(msg, "first"),
        _ => panic!("a collection of an error"),
    }
    let failing = rows(&[Ok((255, 1)), Err("second")]).into_iter();
    assert!(matches!(
        collect(failing, 9, sum),
        Err(ContractError::IndexNotFound { slot: 255 })
    ));
}

#[test]
fn nothing_behind_the_limit_is_asked_for() {
    let mut asked = 0;
    let endless = std::iter::from_fn(|| {
        asked += 1;
        Some(Ok((asked, 0)))
    });
    assert_eq!(collect(endless, 3, sum).unwrap(), vec![1, 2, 3]);
    assert_eq!(asked, 3);
}

#[test]
fn requests_for_state_are_smart_queries() {
    let fields = Some(vec!["name".to_string()]);
    let request =
        build_select_request(&"contract1".to_string(), &fields, &Some("ann".to_string())).unwrap();
    let message = Binary::from(b"{\"select\":{\"wallet\":\"ann\",\"fields\":[\"name\"]}}");
    let expected = format!(
        "{{\"wasm\":{{\"smart\":{{\"contract_addr\":\"contract1\",\"msg\":\"{}\"}}}}}}",
        message.to_base64()
    );
    assert_eq!(String::from_utf8(request).unwrap(), expected);
    let request = build_select_request(&"c".to_string(), &None, &None).unwrap();
    let message = Binary::from(b"{\"select\":{\"wallet\":null,\"fields\":null}}");
    let expected = format!(
        "{{\"wasm\":{{\"smart\":{{\"contract_addr\":\"c\",\"msg\":\"{}\"}}}}}}",
        message.to_base64()
    );
    assert_eq!(String::from_utf8(request).unwrap(), expected);
}

#[test]
fn answers_are_states_or_failures() {
    let address = "contract1".to_string();
    let state = read_answer(&address, Answer::State(vec![1, 2]));
    assert_eq!(state.unwrap(), vec![1, 2]);
    let message = |answer| match read_answer(&address, answer) {
        Err(ContractError::QueryStateError { msg }) => msg,
        _ => panic!("a state of a failing contract"),
    };
    assert_eq!(
        message(Answer::ContractFailure("broken".to_string())),
        "contract error querying state of contract contract1: broken"
    );
    assert_eq!(
        message(Answer::SystemFailure(SystemError::Unknown {})),
        "contract error querying state of contract contract1: Unknown system error"
    );
}

#[test]
fn errors_of_the_storage_become_errors_of_a_read() {
    let error = ContractError::from(StdError::not_found("it"));
    assert!(matches!(error, ContractError::Std(StdError::NotFound { .. })));
}

#[test]
fn the_key_of_a_record_is_read_before_its_value() {
    let value = |text: &str| text.as_bytes().to_vec();
    let key = (7u64, 9u64).joined_key();
    let place = mark_row(KeyKind::U64, key.clone(), value("false")).unwrap();
    assert_eq!(place, ("7".to_string(), 9));
    assert!(matches!(
        mark_row(KeyKind::U64, key, value("17")),
        Err(ContractError::Std(StdError::ParseErr { .. }))
    ));
    let broken = ("short".to_string(), 9u64).joined_key();
    assert!(matches!(
        mark_row(KeyKind::U64, broken.clone(), value("true")),
        Err(ContractError::Std(StdError::GenericErr { .. }))
    ));
    assert!(matches!(
        mark_row(KeyKind::U64, broken, value("17")),
        Err(ContractError::Std(StdError::GenericErr { .. }))
    ));
    assert!(matches!(
        mark_row(KeyKind::U64, vec![1], value("17")),
        Err(ContractError::MalformedKey { .. })
    ));
}

#[test]
fn a_place_is_kept_if_its_value_is_a_truth_value() {
    let place = ("7".to_string(), 9);
    assert_eq!(keep_place(place.clone(), Ok(false)).unwrap(), place);
    assert!(matches!(
        keep_place(place, Err(StdError::generic_err("no value"))),
        Err(ContractError::Std(StdError::GenericErr { .. }))
    ));
}

#[test]
fn the_last_byte_is_counted_up_with_carries() {
    assert!(count_up(vec![]).is_empty());
    assert_eq!(count_up(vec![0]), vec![1]);
    assert_eq!(count_up(vec![7, 254]), vec![7, 255]);
    assert_eq!(count_up(vec![7, 255]), vec![8, 0]);
    assert_eq!(count_up(vec![7, 255, 255]), vec![8, 0, 0]);
    assert_eq!(count_up(vec![255, 255]), vec![0, 0]);
    assert_eq!(count_up(vec![1, 255, 3]), vec![1, 255, 4]);
}

#[test]
fn bytes_are_written_in_hexadecimal_digits() {
    assert_eq!(hex_text(&vec![]), "[]");
    assert_eq!(hex_text(&vec![0x0A]), "[0A]");
    let bytes: Vec<u8> = (0..=255).collect();
    assert_eq!(hex_text(&bytes), format!("{:02X?}", bytes));
    assert_eq!(
        missing_metadata_text("meta", "anna"),
        "type: contract_reads::models::ContractMetadata; \
         key: [00, 04, 6D, 65, 74, 61, 61, 6E, 6E, 61]"
    );
}

fn numbered(document: Vec<u8>) -> Result<ContractMetadata, StdError> {
    match document.first() {
        Some(id) => Ok(ContractMetadata {
            id: *id as u64,
            rev: 0,
            code_id: 0,
            height: 0,
            created_at: Timestamp::from_nanos(0),
            created_by: String::new(),
            updated_at: Timestamp::from_nanos(0),
        }),
        None => Err(StdError::generic_err("empty")),
    }
}

#[test]
fn the_address_of_a_record_is_read_before_its_metadata() {
    let place = mark(&numbered, b"anna".to_vec(), vec![5]).unwrap();
    assert_eq!(place, ("anna".to_string(), 5));
    assert!(matches!(
        mark(&numbered, b"anna".to_vec(), vec![]),
        Err(ContractError::Std(StdError::GenericErr { .. }))
    ));
    assert!(matches!(
        mark(&numbered, vec![0xff], vec![]),
        Err(ContractError::Std(StdError::InvalidUtf8 { .. }))
    ));
}

#[test]
fn nothing_behind_an_error_is_parsed() {
    let strict = |key: u8, value: u8| -> Result<u8, ContractError> {
        assert!(key < 5);
        sum(key, value)
    };
    let items = || rows(&[Ok((1, 2)), Err("first"), Ok((9, 9))]).into_iter();
    assert!(collect(items(), 9, strict).is_err());
    assert_eq!(collect(items(), 1, strict).unwrap(), vec![3]);
}

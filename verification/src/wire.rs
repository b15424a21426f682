//! Asking a contract for its state: the request, and what becomes of the answer.
use cosmwasm_std::{StdError, SystemError};
use vstd::prelude::*;
use vstd::string::*;
use vstd::utf8::*;

use crate::error::{ContractError, Failure};
use crate::store::Chain;
use crate::window;

verus! {

/// `cosmwasm_std::SystemError`, an error of the machinery between two contracts.
#[verifier::external_type_specification]
#[verifier::external_body]
pub struct ExSystemError(SystemError);

/// What a contract that was asked for its state answers.
#[derive(Debug)]
pub enum Answer {
    /// The state, as the contract encoded it.
    State(Vec<u8>),
    /// The contract was reached and failed.
    ContractFailure(String),
    /// The contract was not reached, or its answer was lost.
    SystemFailure(SystemError),
}

/// What an `Answer` holds.
#[verifier::ext_equal]
pub enum AnswerView {
    State(Seq<u8>),
    ContractFailure(Seq<char>),
    SystemFailure(SystemError),
}

impl View for Answer {
    type V = AnswerView;

    open spec fn view(&self) -> AnswerView {
        match *self {
            Answer::State(state) => AnswerView::State(state@),
            Answer::ContractFailure(message) => AnswerView::ContractFailure(message@),
            Answer::SystemFailure(error) => AnswerView::SystemFailure(error),
        }
    }
}

/// The JSON document of an optional text, or why there is none.
pub uninterp spec fn text_json(text: Option<Seq<char>>) -> Result<Seq<u8>, StdError>;

/// The JSON document of an optional list of texts, or why there is none.
pub uninterp spec fn texts_json(texts: Option<Seq<Seq<char>>>) -> Result<Seq<u8>, StdError>;

/// The JSON document of a smart query that brings the contract at `address`
/// the message `message`, or why there is none.
pub uninterp spec fn smart_query_json(address: Seq<char>, message: Seq<u8>) -> Result<
    Seq<u8>,
    StdError,
>;

/// The text of an error.
pub uninterp spec fn std_error_message(error: StdError) -> Seq<char>;

/// The text of an error of the machinery between two contracts.
pub uninterp spec fn system_error_message(error: SystemError) -> Seq<char>;

/// The unspecific error with the given text.
pub uninterp spec fn generic_error(message: Seq<char>) -> StdError;

/// Whether the chain, asked `request`, may answer `answer`. What it answers
/// depends on the contract that is asked.
pub uninterp spec fn may_answer(chain: Chain, request: Seq<u8>, answer: AnswerView) -> bool;

/// The bytes that a result holds.
pub open spec fn json_view(json: Result<Vec<u8>, StdError>) -> Result<Seq<u8>, StdError> {
    match json {
        Ok(document) => Ok(document@),
        Err(error) => Err(error),
    }
}

/// A list of names, each as characters.
pub open spec fn fields_view(fields: Option<Vec<String>>) -> Option<Seq<Seq<char>>> {
    match fields {
        Some(fields) => Some(fields@.map_values(|field: String| field@)),
        None => None,
    }
}

/// `cosmwasm_std::to_json_vec` on an optional text.
#[verifier::external_body]
fn encode_text(text: &Option<String>) -> (json: Result<Vec<u8>, StdError>)
    ensures
        json_view(json) == text_json(window::text_view(*text)),
{
    cosmwasm_std::to_json_vec(text)
}

/// `cosmwasm_std::to_json_vec` on an optional list of texts.
#[verifier::external_body]
fn encode_texts(texts: &Option<Vec<String>>) -> (json: Result<Vec<u8>, StdError>)
    ensures
        json_view(json) == texts_json(fields_view(*texts)),
{
    cosmwasm_std::to_json_vec(texts)
}

/// `cosmwasm_std::to_json_vec` on the `QueryRequest` of a smart query.
#[verifier::external_body]
fn encode_smart_query(address: &String, message: Vec<u8>) -> (json: Result<Vec<u8>, StdError>)
    ensures
        json_view(json) == smart_query_json(address@, message@),
{
    let query = cosmwasm_std::WasmQuery::Smart {
        contract_addr: address.clone(),
        msg: cosmwasm_std::Binary(message),
    };
    cosmwasm_std::to_json_vec(&cosmwasm_std::QueryRequest::<cosmwasm_std::Empty>::Wasm(query))
}

/// `cosmwasm_std::StdError`'s `Display`.
#[verifier::external_body]
fn describe_std_error(error: &StdError) -> (message: String)
    ensures
        message@ == std_error_message(*error),
{
    error.to_string()
}

/// `cosmwasm_std::SystemError`'s `Display`.
#[verifier::external_body]
fn describe_system_error(error: &SystemError) -> (message: String)
    ensures
        message@ == system_error_message(*error),
{
    error.to_string()
}

/// `cosmwasm_std::StdError::generic_err`.
#[verifier::external_body]
fn generic_err(message: String) -> (error: StdError)
    ensures
        error == generic_error(message@),
{
    StdError::generic_err(message)
}

/// `cosmwasm_std::Querier::raw_query`: hands `request` to the chain and gives
/// its answer. Which one it is, the contract that is asked decides.
#[verifier::external_body]
fn raw_query(chain: &Chain, request: &Vec<u8>) -> (answer: Answer)
    ensures
        may_answer(*chain, request@, answer@),
{
    match chain.0.querier.raw_query(request) {
        cosmwasm_std::SystemResult::Ok(cosmwasm_std::ContractResult::Ok(state)) => Answer::State(state.0),
        cosmwasm_std::SystemResult::Ok(cosmwasm_std::ContractResult::Err(message)) => Answer::ContractFailure(message),
        cosmwasm_std::SystemResult::Err(error) => Answer::SystemFailure(error),
    }
}

/// The message that asks a contract for the given fields of its state, on
/// behalf of a wallet; both are given as JSON documents.
pub open spec fn select_message(wallet: Seq<u8>, fields: Seq<u8>) -> Seq<u8> {
    encode_utf8("{\"select\":{\"wallet\":"@) + wallet + encode_utf8(",\"fields\":"@) + fields + encode_utf8(
        "}}"@,
    )
}

/// The request that asks the contract at `address` for the given fields of
/// its state, or why there is none.
pub open spec fn select_request(
    address: Seq<char>,
    fields: Option<Seq<Seq<char>>>,
    wallet: Option<Seq<char>>,
) -> Result<Seq<u8>, Failure> {
    match (text_json(wallet), texts_json(fields)) {
        (Err(error), _) => Err(Failure::Std(error)),
        (_, Err(error)) => Err(Failure::Std(error)),
        (Ok(wallet), Ok(fields)) => match smart_query_json(address, select_message(wallet, fields)) {
            Ok(request) => Ok(request),
            Err(error) => Err(
                Failure::Std(
                    generic_error("serializing QueryRequest: "@ + std_error_message(error)),
                ),
            ),
        },
    }
}

/// The text that tells which contract could not be asked for its state, and why.
pub open spec fn query_failure(address: Seq<char>, reason: Seq<char>) -> Seq<char> {
    "contract error querying state of contract "@ + address + ": "@ + reason
}

/// What becomes of the answer of the contract at `address`.
pub open spec fn answered(address: Seq<char>, answer: AnswerView) -> Result<Seq<u8>, Failure> {
    match answer {
        AnswerView::State(state) => Ok(state),
        AnswerView::ContractFailure(message) => Err(
            Failure::QueryState(query_failure(address, message)),
        ),
        AnswerView::SystemFailure(error) => Err(
            Failure::QueryState(query_failure(address, system_error_message(error))),
        ),
    }
}

/// What a result that may hold a state holds.
pub open spec fn state_view(state: Result<Vec<u8>, ContractError>) -> Result<Seq<u8>, Failure> {
    match state {
        Ok(state) => Ok(state@),
        Err(error) => Err(error@),
    }
}

/// Whether asking the contract at `address` for its state can end in `outcome`.
pub open spec fn can_query(
    chain: Chain,
    address: Seq<char>,
    fields: Option<Seq<Seq<char>>>,
    wallet: Option<Seq<char>>,
    outcome: Result<Seq<u8>, Failure>,
) -> bool {
    match select_request(address, fields, wallet) {
        Err(failure) => outcome == Err::<Seq<u8>, Failure>(failure),
        Ok(request) => exists|answer: AnswerView| #[trigger]
            may_answer(chain, request, answer) && outcome == answered(address, answer),
    }
}

/// Frames the message that asks a contract for fields of its state.
fn frame_select(wallet: &Vec<u8>, fields: &Vec<u8>) -> (message: Vec<u8>)
    ensures
        message@ == select_message(wallet@, fields@),
{
    let mut message: Vec<u8> = Vec::new();
    message.extend_from_slice("{\"select\":{\"wallet\":".as_bytes());
    message.extend_from_slice(wallet.as_slice());
    message.extend_from_slice(",\"fields\":".as_bytes());
    message.extend_from_slice(fields.as_slice());
    message.extend_from_slice("}}".as_bytes());
    assert(message@ =~= select_message(wallet@, fields@));
    message
}

/// Builds the request that asks the contract at `address` for fields of its state.
pub fn build_select_request(
    address: &String,
    fields: &Option<Vec<String>>,
    wallet: &Option<String>,
) -> (request: Result<Vec<u8>, ContractError>)
    ensures
        state_view(request) == select_request(
            address@,
            fields_view(*fields),
            window::text_view(*wallet),
        ),
{
    let wallet_json = match encode_text(wallet) {
        Ok(json) => json,
        Err(error) => {
            return Err(ContractError::from(error));
        },
    };
    let fields_json = match encode_texts(fields) {
        Ok(json) => json,
        Err(error) => {
            return Err(ContractError::from(error));
        },
    };
    match encode_smart_query(address, frame_select(&wallet_json, &fields_json)) {
        Ok(request) => Ok(request),
        Err(error) => {
            let mut message = "serializing QueryRequest: ".to_owned();
            message.append(describe_std_error(&error).as_str());
            Err(ContractError::from(generic_err(message)))
        },
    }
}

/// The error that tells which contract could not be asked for its state, and why.
fn query_state_error(address: &String, reason: &String) -> (error: ContractError)
    ensures
        error@ == Failure::QueryState(query_failure(address@, reason@)),
{
    let mut msg = "contract error querying state of contract ".to_owned();
    msg.append(address.as_str());
    msg.append(": ");
    msg.append(reason.as_str());
    ContractError::QueryStateError { msg }
}

/// Reads the answer of the contract at `address`.
pub fn read_answer(address: &String, answer: Answer) -> (state: Result<Vec<u8>, ContractError>)
    ensures
        state_view(state) == answered(address@, answer@),
{
    match answer {
        Answer::State(state) => Ok(state),
        Answer::ContractFailure(message) => Err(query_state_error(address, &message)),
        Answer::SystemFailure(error) => {
            Err(query_state_error(address, &describe_system_error(&error)))
        },
    }
}

/// Asks the contract at `contract_addr` for fields of its state, and leaves
/// the answer as the contract encoded it.
pub fn query_smart_no_deserialize(
    chain: &Chain,
    contract_addr: &String,
    fields: &Option<Vec<String>>,
    wallet: &Option<String>,
) -> (state: Result<Vec<u8>, ContractError>)
    ensures
        can_query(
            *chain,
            contract_addr@,
            fields_view(*fields),
            window::text_view(*wallet),
            state_view(state),
        ),
{
    match build_select_request(contract_addr, fields, wallet) {
        Ok(request) => {
            let answer = raw_query(chain, &request);
            let ghost asked = select_request(
                contract_addr@,
                fields_view(*fields),
                window::text_view(*wallet),
            );
            assert(asked->Ok_0 == request@);
            assert(may_answer(*chain, asked->Ok_0, answer@));
            read_answer(contract_addr, answer)
        },
        Err(error) => Err(error),
    }
}

} // verus!

//! What a read can fail with.
use cosmwasm_std::StdError;
use vstd::prelude::*;
use vstd::std_specs::convert::*;

verus! {

/// `cosmwasm_std::StdError`, an error of the storage, of an encoding or of a decoding.
#[verifier::external_type_specification]
#[verifier::external_body]
pub struct ExStdError(StdError);

/// Why a read failed.
#[derive(Debug)]
pub enum ContractError {
    /// An error of the storage, of an encoding or of a decoding.
    Std(StdError),
    /// A contract could not be asked for its state.
    QueryStateError { msg: String },
    /// No index stands at this slot.
    IndexNotFound { slot: u8 },
    /// A stored key is shorter than the lengths that it begins with.
    MalformedKey { key: Vec<u8> },
}

/// What a `ContractError` holds.
#[verifier::ext_equal]
pub enum Failure {
    Std(StdError),
    QueryState(Seq<char>),
    IndexNotFound(u8),
    MalformedKey(Seq<u8>),
}

impl View for ContractError {
    type V = Failure;

    open spec fn view(&self) -> Failure {
        match *self {
            ContractError::Std(error) => Failure::Std(error),
            ContractError::QueryStateError { msg } => Failure::QueryState(msg@),
            ContractError::IndexNotFound { slot } => Failure::IndexNotFound(slot),
            ContractError::MalformedKey { key } => Failure::MalformedKey(key@),
        }
    }
}

impl From<StdError> for ContractError {
    fn from(error: StdError) -> (converted: Self) {
        ContractError::Std(error)
    }
}

impl FromSpecImpl<StdError> for ContractError {
    open spec fn obeys_from_spec() -> bool {
        true
    }

    open spec fn from_spec(error: StdError) -> ContractError {
        ContractError::Std(error)
    }
}

} // verus!

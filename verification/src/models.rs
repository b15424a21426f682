//! What a read is asked for, and what is known of a contract.
use vstd::prelude::*;

verus! {

/// The number under which a contract is registered.
pub type ContractID = u64;

/// The direction in which an index is walked.
#[derive(Clone, Copy, Debug, PartialEq, Eq, Structural)]
pub enum Order {
    Ascending,
    Descending,
}

/// A point in time, in nanoseconds since the Unix epoch.
#[derive(Clone, Copy, Debug, PartialEq, Eq, Structural)]
pub struct Timestamp {
    pub nanos: u64,
}

impl Timestamp {
    pub fn from_nanos(nanos: u64) -> (time: Timestamp)
        ensures
            time.nanos == nanos,
    {
        Timestamp { nanos }
    }

    pub fn nanos(&self) -> (nanos: u64)
        ensures
            nanos == self.nanos,
    {
        self.nanos
    }
}

/// What the registry keeps about a contract.
#[derive(Debug)]
pub struct ContractMetadata {
    pub id: ContractID,
    pub rev: u64,
    pub code_id: u64,
    pub height: u64,
    pub created_at: Timestamp,
    pub created_by: String,
    pub updated_at: Timestamp,
}

/// What a `ContractMetadata` holds.
#[verifier::ext_equal]
pub struct MetadataView {
    pub id: ContractID,
    pub rev: u64,
    pub code_id: u64,
    pub height: u64,
    pub created_at: Timestamp,
    pub created_by: Seq<char>,
    pub updated_at: Timestamp,
}

impl View for ContractMetadata {
    type V = MetadataView;

    open spec fn view(&self) -> MetadataView {
        MetadataView {
            id: self.id,
            rev: self.rev,
            code_id: self.code_id,
            height: self.height,
            created_at: self.created_at,
            created_by: self.created_by@,
            updated_at: self.updated_at,
        }
    }
}

/// Lower and upper limit of a value: the lower one is included, the upper one is not.
pub type Between<V> = (Option<V>, Option<V>);

/// Which index to walk, and which of its values. `equals` outranks `between`.
/// A `slot` is the position of one of the indices that the contracts fill themselves.
#[allow(inconsistent_fields)]
#[derive(Debug)]
pub enum IndexBounds {
    Address { equals: Option<String>, between: Option<Between<String>> },
    CreatedBy { equals: Option<String>, between: Option<Between<String>> },
    CreatedAt { equals: Option<Timestamp>, between: Option<Between<Timestamp>> },
    UpdatedAt { equals: Option<Timestamp>, between: Option<Between<Timestamp>> },
    Rev { equals: Option<u64>, between: Option<Between<u64>> },
    CodeId { equals: Option<u64>, between: Option<Between<u64>> },
    Height { equals: Option<u64>, between: Option<Between<u64>> },
    Uint64 { slot: u8, equals: Option<u64>, between: Option<Between<u64>> },
    Uint128 { slot: u8, equals: Option<u128>, between: Option<Between<u128>> },
    Text { slot: u8, equals: Option<String>, between: Option<Between<String>> },
    Timestamp { slot: u8, equals: Option<Timestamp>, between: Option<Between<Timestamp>> },
    Boolean { slot: u8, start: Option<bool>, stop: Option<bool> },
}

} // verus!

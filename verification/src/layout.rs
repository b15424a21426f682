//! Where in the storage the registry keeps what it knows.
use vstd::prelude::*;

use crate::bytes;
use crate::bytes::fits_key;
use crate::error::{ContractError, Failure};

verus! {

/// The namespaces of the registry's maps and indices. The indices that the
/// contracts fill themselves are found by their slots.
#[derive(Debug)]
pub struct Layout {
    /// The addresses of the contracts, by number.
    pub id_2_addr: String,
    /// The metadata of the contracts, by address.
    pub metadata: String,
    /// Tags, and the contracts that carry them.
    pub tagged_contract_ids: String,
    /// Subjects, names of relationships, and the contracts in them.
    pub relationships: String,
    /// Indices of what the metadata holds.
    pub ix_created_by: String,
    pub ix_created_at: String,
    pub ix_updated_at: String,
    pub ix_rev: String,
    pub ix_code_id: String,
    pub ix_height: String,
    /// Indices that the contracts fill themselves, by slot.
    pub u64_indices: Vec<String>,
    pub u128_indices: Vec<String>,
    pub text_indices: Vec<String>,
    pub timestamp_indices: Vec<String>,
    pub bool_indices: Vec<String>,
}

/// Whether each of the namespaces can be a component of a key.
pub open spec fn all_fit(namespaces: Seq<String>) -> bool {
    forall|i: int| 0 <= i < namespaces.len() ==> bytes::fits(#[trigger] namespaces[i]@)
}

impl Layout {
    /// Whether every namespace can be a component of a key.
    pub open spec fn valid(&self) -> bool {
        &&& bytes::fits(self.id_2_addr@)
        &&& bytes::fits(self.metadata@)
        &&& bytes::fits(self.tagged_contract_ids@)
        &&& bytes::fits(self.relationships@)
        &&& bytes::fits(self.ix_created_by@)
        &&& bytes::fits(self.ix_created_at@)
        &&& bytes::fits(self.ix_updated_at@)
        &&& bytes::fits(self.ix_rev@)
        &&& bytes::fits(self.ix_code_id@)
        &&& bytes::fits(self.ix_height@)
        &&& all_fit(self.u64_indices@)
        &&& all_fit(self.u128_indices@)
        &&& all_fit(self.text_indices@)
        &&& all_fit(self.timestamp_indices@)
        &&& all_fit(self.bool_indices@)
    }

    /// Tells whether every namespace can be a component of a key.
    pub fn is_valid(&self) -> (is_valid: bool)
        ensures
            is_valid == self.valid(),
    {
        fits_key(self.id_2_addr.as_str()) && fits_key(self.metadata.as_str()) && fits_key(
            self.tagged_contract_ids.as_str(),
        ) && fits_key(self.relationships.as_str()) && fits_key(self.ix_created_by.as_str())
            && fits_key(self.ix_created_at.as_str()) && fits_key(self.ix_updated_at.as_str())
            && fits_key(self.ix_rev.as_str()) && fits_key(self.ix_code_id.as_str()) && fits_key(
            self.ix_height.as_str(),
        ) && all_fit_key(&self.u64_indices) && all_fit_key(&self.u128_indices) && all_fit_key(
            &self.text_indices,
        ) && all_fit_key(&self.timestamp_indices) && all_fit_key(&self.bool_indices)
    }
}

/// Tells whether each of the namespaces can be a component of a key.
fn all_fit_key(namespaces: &Vec<String>) -> (is_fitting: bool)
    ensures
        is_fitting == all_fit(namespaces@),
{
    let mut next: usize = 0;
    while next < namespaces.len()
        invariant
            next <= namespaces@.len(),
            forall|i: int| 0 <= i < next ==> bytes::fits(#[trigger] namespaces@[i]@),
        decreases namespaces.len() - next,
    {
        if !fits_key(namespaces[next].as_str()) {
            return false;
        }
        next += 1;
    }
    true
}

/// The namespace of the index at a slot, if there is one.
pub open spec fn namespace_at(indices: Seq<String>, slot: u8) -> Result<Seq<char>, Failure> {
    if slot < indices.len() {
        Ok(indices[slot as int]@)
    } else {
        Err(Failure::IndexNotFound(slot))
    }
}

/// Finds the namespace of the index at a slot.
pub fn index_at(indices: &Vec<String>, slot: u8) -> (namespace: Result<&String, ContractError>)
    ensures
        match namespace {
            Ok(namespace) => slot < indices@.len() && *namespace == indices@[slot as int],
            Err(error) => namespace_at(indices@, slot) == Err::<Seq<char>, Failure>(error@),
        },
{
    if (slot as usize) < indices.len() {
        Ok(&indices[slot as usize])
    } else {
        Err(ContractError::IndexNotFound { slot })
    }
}

} // verus!

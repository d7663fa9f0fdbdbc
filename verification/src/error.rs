//! The errors that the registry reports.

use ink::primitives::AccountId;
use vstd::prelude::*;

verus! {

/// Why an operation of a group was refused.
#[derive(Debug, PartialEq, Eq)]
pub enum InkGroupError {
    /// The stored state is one that no operation should have produced.
    LogicErr {},
    /// The caller is not the admin.
    Unauthorized {},
    /// Two entries of one batch carry the same address.
    DuplicateMember { member: AccountId },
    /// A group was to be created without members.
    ZeroMembers {},
    /// No member has the requested address.
    NoMember {},
    /// The total voting power would no longer fit in 64 bits.
    WeightOverflow {},
}

/// The error of a contract built on a group.
#[derive(Debug, PartialEq, Eq)]
pub enum ContractError {
    /// The group refused the operation.
    InkGroup(InkGroupError),
}

impl From<InkGroupError> for ContractError {
    fn from(error: InkGroupError) -> (wrapped: ContractError) {
        ContractError::InkGroup(error)
    }
}

impl vstd::std_specs::convert::FromSpecImpl<InkGroupError> for ContractError {
    open spec fn obeys_from_spec() -> bool {
        true
    }

    open spec fn from_spec(error: InkGroupError) -> ContractError {
        ContractError::InkGroup(error)
    }
}

} // verus!

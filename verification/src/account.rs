//! The account type of ink!'s default environment, as this crate sees it.

use ink::primitives::AccountId;
use vstd::prelude::*;

verus! {

/// `ink::primitives::AccountId` is carried through the registry as an opaque value.
#[verifier::external_type_specification]
#[verifier::external_body]
pub struct ExAccountId(AccountId);

/// Calls `PartialEq::eq` of `ink::primitives::AccountId`.
///
/// `AccountId` wraps 32 bytes and derives `PartialEq`, so `eq` answers `true`
/// exactly when both values hold the same bytes, that is when they are the same
/// account. Nothing is proved of this; it is taken from the type's definition.
#[verifier::external_body]
pub(crate) fn same_account(a: &AccountId, b: &AccountId) -> (same: bool)
    ensures
        same == (*a == *b),
{
    a == b
}

} // verus!

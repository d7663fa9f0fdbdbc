//! The notifications that a group hands to its host.
//!
//! The registry performs no I/O. Every operation that changes the group returns
//! the notifications it gives rise to, in order, and the host passes them on.

use ink::primitives::AccountId;
use vstd::prelude::*;

verus! {

/// Emitted when a member is added to the group.
#[derive(Debug, Copy, Clone, PartialEq, Eq)]
pub struct MemberAddition {
    /// The member that was added.
    pub member: AccountId,
}

/// Emitted when a member is removed from the group.
#[derive(Debug, Copy, Clone, PartialEq, Eq)]
pub struct MemberRemoval {
    /// The member that was removed.
    pub member: AccountId,
}

/// Emitted when the weight of a member is set anew.
#[derive(Debug, Copy, Clone, PartialEq, Eq)]
pub struct MemberUpdate {
    /// The member that was updated.
    pub member: AccountId,
}

/// Emitted when the admin is replaced.
#[derive(Debug, Copy, Clone, PartialEq, Eq)]
pub struct AdminUpdate {
    /// The old admin.
    pub old_admin: AccountId,
    /// The new admin.
    pub new_admin: AccountId,
}

/// One notification of a group.
#[derive(Debug, Copy, Clone, PartialEq, Eq)]
pub enum GroupEvent {
    /// A member joined.
    Added(MemberAddition),
    /// A member left.
    Removed(MemberRemoval),
    /// A member's weight changed.
    Updated(MemberUpdate),
    /// The admin changed.
    AdminChanged(AdminUpdate),
}

} // verus!

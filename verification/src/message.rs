//! What every group offers: four queries, the transfer of the admin role and
//! the batch update of the members.

use crate::error::InkGroupError;
use crate::storage::{addresses, position, weight_sum, Member};
use crate::update::{
    all_unknown, kept, newcomers, reweighed, update_refusal, updated_members,
};
use ink::primitives::AccountId;
use vstd::prelude::*;

verus! {

/// A group of weighted members under one admin.
///
/// In every state of a group the addresses of its members are pairwise
/// distinct and the total weight is the sum of the members' weights. The
/// queries state this of the state they are asked of, the two updates of the
/// state they leave.
pub trait InkGroup: Sized {
    /// What an update hands back for the host to pass on.
    type Events;

    /// The current admin.
    spec fn admin(&self) -> AccountId;

    /// The members, in stored order.
    spec fn members(&self) -> Seq<Member>;

    /// The maintained total of the weights.
    spec fn total_weight(&self) -> u64;

    /// Return the actual admin.
    fn get_admin(&self) -> (admin: Result<AccountId, InkGroupError>)
        ensures
            admin == Ok::<AccountId, InkGroupError>(self.admin()),
    ;

    /// Return all members info, in stored order. A group that has lost all its
    /// members answers with `LogicErr`.
    fn get_members(&self) -> (members: Result<Vec<Member>, InkGroupError>)
        ensures
            self.members().len() == 0 ==> members == Err::<Vec<Member>, InkGroupError>(
                InkGroupError::LogicErr {},
            ),
            self.members().len() > 0 ==> members is Ok && members->Ok_0@ == self.members(),
            addresses(self.members()).no_duplicates(),
    ;

    /// Return a specific member info, requested by address.
    fn get_member(&self, member: AccountId) -> (found: Result<Member, InkGroupError>)
        ensures
            found == match position(self.members(), member) {
                Some(index) => Ok::<Member, InkGroupError>(self.members()[index]),
                None => Err::<Member, InkGroupError>(InkGroupError::NoMember {}),
            },
    ;

    /// Return the total voting power weight of the group.
    fn get_total_weight(&self) -> (total: u64)
        ensures
            total == self.total_weight(),
            total == weight_sum(self.members()),
    ;

    /// Update the admin. Only the current admin may do so; anyone else is
    /// turned down and the group stays as it is.
    fn update_admin(&mut self, caller: AccountId, admin: AccountId) -> (updated: Result<
        Self::Events,
        InkGroupError,
    >)
        ensures
            caller == old(self).admin() ==> {
                &&& updated is Ok
                &&& final(self).admin() == admin
                &&& final(self).members() == old(self).members()
                &&& final(self).total_weight() == old(self).total_weight()
            },
            caller != old(self).admin() ==> {
                &&& updated == Err::<Self::Events, InkGroupError>(InkGroupError::Unauthorized {})
                &&& *final(self) == *old(self)
            },
            addresses(final(self).members()).no_duplicates(),
            final(self).total_weight() == weight_sum(final(self).members()),
    ;

    /// Update the members in the group. If an already existing address is
    /// entered, the voting power is updated. Remove is applied after add, so
    /// if an address is in both, it is removed.
    ///
    /// The call is atomic: where it is turned down, the group stays as it is.
    fn update_members(
        &mut self,
        caller: AccountId,
        new_members: Vec<Member>,
        remove_members: Vec<AccountId>,
    ) -> (updated: Result<Self::Events, InkGroupError>)
        ensures
            match update_refusal(old(self).admin(), old(self).members(), caller, new_members@) {
                Some(error) => {
                    &&& updated == Err::<Self::Events, InkGroupError>(error)
                    &&& *final(self) == *old(self)
                },
                None => {
                    &&& updated is Ok
                    &&& final(self).admin() == old(self).admin()
                    &&& final(self).members() == updated_members(
                        old(self).members(),
                        new_members@,
                        remove_members@,
                    )
                    // The same in one piece: the old members with the new weights set, then
                    // the new members, and of all these the ones that are not removed.
                    &&& final(self).members() == kept(
                        reweighed(old(self).members(), new_members@) + newcomers(
                            old(self).members(),
                            new_members@,
                        ),
                        remove_members@,
                    )
                },
            },
            addresses(final(self).members()).no_duplicates(),
            final(self).total_weight() == weight_sum(final(self).members()),
            // Removal wins over the upsert of the same address.
            updated is Ok ==> forall|addr: AccountId| #[trigger]
                remove_members@.contains(addr) ==> !addresses(final(self).members()).contains(
                    addr,
                ),
            // Removing only addresses that no member has is accepted and changes nothing.
            caller == old(self).admin() && new_members@.len() == 0 && all_unknown(
                old(self).members(),
                remove_members@,
            ) ==> {
                &&& updated is Ok
                &&& final(self).members() == old(self).members()
                &&& final(self).total_weight() == old(self).total_weight()
            },
    ;
}

} // verus!

//! The voting group: a registry that changes its members without notice.

use crate::account::same_account;
use crate::error::{ContractError, InkGroupError};
use crate::helpers::{
    checked_total, find_member, first_duplicate, lemma_first_duplicate_none,
    validate_unique_members,
};
use crate::laws::{lemma_removal_wins, lemma_unknown_removals, lemma_update_closed_form};
use crate::message::InkGroup;
use crate::storage::{addresses, is_consistent, weight_sum, Member};
use crate::update::{
    all_unknown, creation_refusal, lemma_remove_next, lemma_remove_one_distinct, lemma_upsert_next,
    lemma_upsert_one_distinct, remove_all, remove_member, upsert_all, upsert_member,
};
use ink::primitives::AccountId;
use vstd::prelude::*;

verus! {

/// A group that hands back no notifications.
pub struct InkVotingGroup {
    /// admin of the group (can perform any action)
    admin: AccountId,
    total_voting_power: u64,
    members: Vec<Member>,
}

impl InkVotingGroup {
    #[verifier::type_invariant]
    spec fn consistent(&self) -> bool {
        is_consistent(self.members@, self.total_voting_power)
    }

    /// Construct the group with an optional address for the admin (if not set,
    /// the caller becomes the admin) and the initial members.
    pub fn try_new(
        caller: AccountId,
        admin: Option<AccountId>,
        initial_members: Vec<Member>,
    ) -> (created: Result<InkVotingGroup, ContractError>)
        ensures
            match creation_refusal(initial_members@) {
                Some(error) => created == Err::<InkVotingGroup, ContractError>(
                    ContractError::InkGroup(error),
                ),
                None => {
                    &&& created is Ok
                    &&& created->Ok_0.admin() == match admin {
                        Some(given) => given,
                        None => caller,
                    }
                    &&& created->Ok_0.members() == initial_members@
                    &&& created->Ok_0.total_weight() == weight_sum(initial_members@)
                    &&& addresses(initial_members@).no_duplicates()
                },
            },
    {
        // Check if the admin address is set and the number of new members is not zero
        let admin = match admin {
            Some(given) => given,
            None => caller,
        };
        if initial_members.is_empty() {
            return Err(ContractError::from(InkGroupError::ZeroMembers {}));
        }
        // Check if there are not equal members addresses entered
        match validate_unique_members(initial_members.as_slice()) {
            Err(error) => {
                return Err(ContractError::from(error));
            },
            Ok(()) => {},
        }
        // Calculate the total voting power
        let total_power = match checked_total(initial_members.as_slice()) {
            Some(total) => total,
            None => {
                return Err(ContractError::from(InkGroupError::WeightOverflow {}));
            },
        };
        Ok(InkVotingGroup { admin, total_voting_power: total_power, members: initial_members })
    }

    /// Takes a group up again from the parts that a host has stored. Parts that
    /// no group can have left behind are turned down with `LogicErr`.
    pub fn restore(admin: AccountId, total_voting_power: u64, members: Vec<Member>) -> (restored:
        Result<InkVotingGroup, InkGroupError>)
        ensures
            is_consistent(members@, total_voting_power) ==> {
                &&& restored is Ok
                &&& restored->Ok_0.admin() == admin
                &&& restored->Ok_0.members() == members@
                &&& restored->Ok_0.total_weight() == total_voting_power
            },
            !is_consistent(members@, total_voting_power) ==> restored == Err::<
                InkVotingGroup,
                InkGroupError,
            >(InkGroupError::LogicErr {}),
    {
        if validate_unique_members(members.as_slice()).is_err() {
            return Err(InkGroupError::LogicErr {});
        }
        match checked_total(members.as_slice()) {
            Some(total) => {
                if total != total_voting_power {
                    return Err(InkGroupError::LogicErr {});
                }
            },
            None => {
                return Err(InkGroupError::LogicErr {});
            },
        }
        Ok(InkVotingGroup { admin, total_voting_power, members })
    }

    /// Hands out the admin, the total voting power and the members, for a host to store.
    pub fn into_parts(self) -> (parts: (AccountId, u64, Vec<Member>))
        ensures
            parts.0 == self.admin(),
            parts.1 == self.total_weight(),
            parts.2@ == self.members(),
            is_consistent(parts.2@, parts.1),
    {
        proof {
            use_type_invariant(&self);
        }
        (self.admin, self.total_voting_power, self.members)
    }
}

impl InkGroup for InkVotingGroup {
    type Events = ();

    closed spec fn admin(&self) -> AccountId {
        self.admin
    }

    closed spec fn members(&self) -> Seq<Member> {
        self.members@
    }

    closed spec fn total_weight(&self) -> u64 {
        self.total_voting_power
    }

    fn get_admin(&self) -> (admin: Result<AccountId, InkGroupError>) {
        Ok(self.admin)
    }

    fn get_members(&self) -> (members: Result<Vec<Member>, InkGroupError>) {
        proof {
            use_type_invariant(self);
        }
        // Should always be some member, else the group has been emptied
        if self.members.is_empty() {
            return Err(InkGroupError::LogicErr {});
        }
        Ok(self.members.clone())
    }

    fn get_member(&self, member: AccountId) -> (found: Result<Member, InkGroupError>) {
        // Return error in case of the member is not found in the group
        match find_member(self.members.as_slice(), &member) {
            Some(index) => Ok(self.members[index]),
            None => Err(InkGroupError::NoMember {}),
        }
    }

    fn get_total_weight(&self) -> (total: u64) {
        proof {
            use_type_invariant(self);
        }
        self.total_voting_power
    }

    fn update_admin(&mut self, caller: AccountId, admin: AccountId) -> (updated: Result<
        (),
        InkGroupError,
    >) {
        proof {
            use_type_invariant(&*self);
        }
        if !same_account(&caller, &self.admin) {
            return Err(InkGroupError::Unauthorized {});
        }
        self.admin = admin;
        Ok(())
    }

    /// If an already existing address is entered, the voting power is updated.
    /// Remove is applied after add, so if an address is in both, it is removed.
    fn update_members(
        &mut self,
        caller: AccountId,
        new_members: Vec<Member>,
        remove_members: Vec<AccountId>,
    ) -> (updated: Result<(), InkGroupError>) {
        proof {
            use_type_invariant(&*self);
        }
        if !same_account(&caller, &self.admin) {
            return Err(InkGroupError::Unauthorized {});
        }
        match validate_unique_members(new_members.as_slice()) {
            Err(error) => {
                return Err(error);
            },
            Ok(()) => {},
        }
        // The batch is applied to a copy, so that a refusal leaves the group as it was.
        let ghost before = self.members@;
        let mut members = self.members.clone();
        let mut total = self.total_voting_power;
        let mut next: usize = 0;
        while next < new_members.len()
            invariant
                next <= new_members@.len(),
                *self == *old(self),
                before == self.members@,
                caller == self.admin,
                first_duplicate(new_members@) is None,
                addresses(self.members@).no_duplicates(),
                self.total_voting_power == weight_sum(self.members@),
                members@ == upsert_all(before, new_members@.take(next as int)),
                total == weight_sum(members@),
                addresses(members@).no_duplicates(),
                forall|done: int|
                    0 <= done <= next ==> weight_sum(
                        upsert_all(before, #[trigger] new_members@.take(done)),
                    ) <= u64::MAX,
            decreases new_members@.len() - next,
        {
            proof {
                lemma_upsert_next(before, new_members@, next as int);
                lemma_upsert_one_distinct(members@, new_members@[next as int]);
            }
            match upsert_member(&mut members, &mut total, new_members[next]) {
                Ok(_) => {},
                Err(error) => {
                    proof {
                        assert(weight_sum(upsert_all(before, new_members@.take(next + 1)))
                            > u64::MAX);
                    }
                    return Err(error);
                },
            }
            next += 1;
        }
        proof {
            assert(new_members@.take(next as int) =~= new_members@);
        }
        // Upserts into distinct addresses leave them distinct, so this check always passes.
        match validate_unique_members(members.as_slice()) {
            Err(error) => {
                return Err(error);
            },
            Ok(()) => {},
        }
        let ghost merged = members@;
        let mut next: usize = 0;
        while next < remove_members.len()
            invariant
                next <= remove_members@.len(),
                members@ == remove_all(merged, remove_members@.take(next as int)),
                total == weight_sum(members@),
                addresses(members@).no_duplicates(),
            decreases remove_members@.len() - next,
        {
            proof {
                lemma_remove_next(merged, remove_members@, next as int);
                lemma_remove_one_distinct(members@, remove_members@[next as int]);
            }
            remove_member(&mut members, &mut total, remove_members[next]);
            next += 1;
        }
        proof {
            assert(remove_members@.take(next as int) =~= remove_members@);
            assert forall|addr: AccountId| #[trigger]
                remove_members@.contains(addr) implies !addresses(members@).contains(addr) by {
                lemma_removal_wins(before, new_members@, remove_members@, addr);
            }
            if new_members@.len() == 0 && all_unknown(before, remove_members@) {
                lemma_unknown_removals(before, remove_members@);
            }
            lemma_first_duplicate_none(new_members@);
            lemma_update_closed_form(before, new_members@, remove_members@);
        }
        *self = InkVotingGroup { admin: self.admin, total_voting_power: total, members };
        Ok(())
    }
}

} // verus!

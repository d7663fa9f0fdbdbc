//! The member record and the mathematical model of a member list.
//!
//! A member list is modelled as a `Seq<Member>`. Two entries stand for the same
//! member exactly when their addresses are equal; the weight is no part of a
//! member's identity.

use ink::primitives::AccountId;
use vstd::prelude::*;

verus! {

/// Member of the group.
#[derive(Debug, Copy, Clone, PartialEq, Eq, Ord, PartialOrd, Hash)]
pub struct Member {
    /// Address of the member.
    pub addr: AccountId,
    /// Voting power of the member. It can be 0: the member is part of the group
    /// but has no influence on a vote.
    pub weight: u64,
}

/// The addresses of `members`, in list order.
pub open spec fn addresses(members: Seq<Member>) -> Seq<AccountId> {
    members.map_values(|m: Member| m.addr)
}

/// The sum of the weights of `members`, as an unbounded integer.
pub open spec fn weight_sum(members: Seq<Member>) -> int
    decreases members.len(),
{
    if members.len() == 0 {
        0
    } else {
        weight_sum(members.drop_last()) + members.last().weight
    }
}

/// What holds of the members and the running total of every group: no address
/// stands twice, and the total is the sum of the weights.
pub open spec fn is_consistent(members: Seq<Member>, total: u64) -> bool {
    &&& addresses(members).no_duplicates()
    &&& total == weight_sum(members)
}

/// The index of the first entry of `members` with address `addr`, if there is one.
pub open spec fn position(members: Seq<Member>, addr: AccountId) -> Option<int> {
    addresses(members).index_of_first(addr)
}

/// `index` is the first place in `members` at which `addr` stands.
pub open spec fn is_first_at(members: Seq<Member>, addr: AccountId, index: int) -> bool {
    &&& 0 <= index < members.len()
    &&& members[index].addr == addr
    &&& forall|j: int| 0 <= j < index ==> members[j].addr != addr
}

/// No entry of `members` has address `addr`.
pub open spec fn is_absent(members: Seq<Member>, addr: AccountId) -> bool {
    forall|j: int| 0 <= j < members.len() ==> members[j].addr != addr
}

/// `position` names the first matching entry, and `None` exactly when there is none.
pub proof fn lemma_position(members: Seq<Member>, addr: AccountId)
    ensures
        match position(members, addr) {
            Some(index) => is_first_at(members, addr, index),
            None => is_absent(members, addr),
        },
        position(members, addr) is Some <==> addresses(members).contains(addr),
{
    let addrs = addresses(members);
    addrs.index_of_first_ensures(addr);
    match position(members, addr) {
        Some(index) => {
            assert forall|j: int| 0 <= j < index implies members[j].addr != addr by {
                assert(addrs[j] != addr);
            }
        },
        None => {
            assert forall|j: int| 0 <= j < members.len() implies members[j].addr != addr by {
                assert(addrs[j] == members[j].addr);
            }
        },
    }
}

/// A first matching entry is the one that `position` names.
pub proof fn lemma_position_found(members: Seq<Member>, addr: AccountId, index: int)
    requires
        is_first_at(members, addr, index),
    ensures
        position(members, addr) == Some(index),
{
    lemma_position(members, addr);
    assert(addresses(members)[index] == addr);
}

/// Where no entry matches, `position` is `None`.
pub proof fn lemma_position_absent(members: Seq<Member>, addr: AccountId)
    requires
        is_absent(members, addr),
    ensures
        position(members, addr) is None,
        !addresses(members).contains(addr),
{
    lemma_position(members, addr);
}

/// The sum is never negative, and no single weight exceeds it.
pub proof fn lemma_weight_sum_bounds(members: Seq<Member>)
    ensures
        0 <= weight_sum(members),
        forall|i: int| 0 <= i < members.len() ==> members[i].weight <= weight_sum(members),
    decreases members.len(),
{
    if members.len() > 0 {
        let front = members.drop_last();
        lemma_weight_sum_bounds(front);
        assert forall|i: int| 0 <= i < members.len() implies members[i].weight <= weight_sum(
            members,
        ) by {
            if i < front.len() {
                assert(front[i] == members[i]);
            }
        }
    }
}

/// The weights of a prefix add up to no more than those of the whole list.
pub proof fn lemma_weight_sum_prefix(members: Seq<Member>, len: int)
    requires
        0 <= len <= members.len(),
    ensures
        weight_sum(members.take(len)) <= weight_sum(members),
    decreases members.len(),
{
    if len == members.len() {
        assert(members.take(len) =~= members);
    } else {
        assert(members.drop_last().take(len) =~= members.take(len));
        lemma_weight_sum_prefix(members.drop_last(), len);
    }
}

/// Appending an entry adds its weight to the sum.
pub proof fn lemma_weight_sum_push(members: Seq<Member>, member: Member)
    ensures
        weight_sum(members.push(member)) == weight_sum(members) + member.weight,
{
    assert(members.push(member).drop_last() =~= members);
}

/// Replacing an entry exchanges its weight in the sum.
pub proof fn lemma_weight_sum_update(members: Seq<Member>, index: int, member: Member)
    requires
        0 <= index < members.len(),
    ensures
        weight_sum(members.update(index, member)) == weight_sum(members) - members[index].weight
            + member.weight,
    decreases members.len(),
{
    let updated = members.update(index, member);
    if index == members.len() - 1 {
        assert(updated.drop_last() =~= members.drop_last());
    } else {
        lemma_weight_sum_update(members.drop_last(), index, member);
        assert(updated.drop_last() =~= members.drop_last().update(index, member));
    }
}

/// Deleting an entry takes its weight out of the sum.
pub proof fn lemma_weight_sum_remove(members: Seq<Member>, index: int)
    requires
        0 <= index < members.len(),
    ensures
        weight_sum(members.remove(index)) == weight_sum(members) - members[index].weight,
    decreases members.len(),
{
    let removed = members.remove(index);
    if index == members.len() - 1 {
        assert(removed =~= members.drop_last());
    } else {
        lemma_weight_sum_remove(members.drop_last(), index);
        assert(removed.drop_last() =~= members.drop_last().remove(index));
        assert(removed.last() == members.last());
    }
}

} // verus!

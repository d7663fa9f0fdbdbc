//! The batch update of a member list: its model, and the two steps it is made of.
//!
//! A batch first applies a list of upserts, in order, and then a list of
//! removals, in order. An upsert sets the weight of the member with that
//! address, or appends a new member where the address is unknown. A removal
//! deletes the member with that address and does nothing where it is unknown.

use crate::error::InkGroupError;
use crate::event::{GroupEvent, MemberAddition, MemberRemoval, MemberUpdate};
use crate::helpers::{find_member, first_duplicate};
use crate::storage::{
    addresses, lemma_position, lemma_weight_sum_bounds, lemma_weight_sum_push,
    lemma_weight_sum_remove, lemma_weight_sum_update, position, weight_sum, Member,
};
use ink::primitives::AccountId;
use vstd::prelude::*;

verus! {

/// The list after one upsert.
pub open spec fn upsert_one(members: Seq<Member>, member: Member) -> Seq<Member> {
    match position(members, member.addr) {
        Some(index) => members.update(index, member),
        None => members.push(member),
    }
}

/// The list after the upserts, applied first to last.
pub open spec fn upsert_all(members: Seq<Member>, upserts: Seq<Member>) -> Seq<Member>
    decreases upserts.len(),
{
    if upserts.len() == 0 {
        members
    } else {
        upsert_one(upsert_all(members, upserts.drop_last()), upserts.last())
    }
}

/// The total voting power fits in 64 bits after each of the upserts.
pub open spec fn upserts_fit(members: Seq<Member>, upserts: Seq<Member>) -> bool {
    forall|done: int|
        0 <= done <= upserts.len() ==> weight_sum(
            upsert_all(members, #[trigger] upserts.take(done)),
        ) <= u64::MAX
}

/// The list after one removal.
pub open spec fn remove_one(members: Seq<Member>, addr: AccountId) -> Seq<Member> {
    match position(members, addr) {
        Some(index) => members.remove(index),
        None => members,
    }
}

/// The list after the removals, applied first to last.
pub open spec fn remove_all(members: Seq<Member>, removals: Seq<AccountId>) -> Seq<Member>
    decreases removals.len(),
{
    if removals.len() == 0 {
        members
    } else {
        remove_one(remove_all(members, removals.drop_last()), removals.last())
    }
}

/// What one upsert gives notice of: an update of a known member, else an addition.
pub open spec fn upsert_event(members: Seq<Member>, member: Member) -> GroupEvent {
    match position(members, member.addr) {
        Some(_) => GroupEvent::Updated(MemberUpdate { member: member.addr }),
        None => GroupEvent::Added(MemberAddition { member: member.addr }),
    }
}

/// What one removal gives notice of: nothing where the address is unknown.
pub open spec fn removal_event(members: Seq<Member>, addr: AccountId) -> Option<GroupEvent> {
    match position(members, addr) {
        Some(_) => Some(GroupEvent::Removed(MemberRemoval { member: addr })),
        None => None,
    }
}

/// The notifications of the upserts, one for each, in order.
pub open spec fn upsert_events(members: Seq<Member>, upserts: Seq<Member>) -> Seq<GroupEvent>
    decreases upserts.len(),
{
    if upserts.len() == 0 {
        Seq::empty()
    } else {
        upsert_events(members, upserts.drop_last()).push(
            upsert_event(upsert_all(members, upserts.drop_last()), upserts.last()),
        )
    }
}

/// The notifications of the removals, one for each member that left, in order.
pub open spec fn removal_events(members: Seq<Member>, removals: Seq<AccountId>) -> Seq<
    GroupEvent,
>
    decreases removals.len(),
{
    if removals.len() == 0 {
        Seq::empty()
    } else {
        let earlier = removal_events(members, removals.drop_last());
        match removal_event(remove_all(members, removals.drop_last()), removals.last()) {
            Some(event) => earlier.push(event),
            None => earlier,
        }
    }
}

/// The list after a whole batch: removals come after all upserts.
pub open spec fn updated_members(
    members: Seq<Member>,
    upserts: Seq<Member>,
    removals: Seq<AccountId>,
) -> Seq<Member> {
    remove_all(upsert_all(members, upserts), removals)
}

/// The notifications of a whole batch.
pub open spec fn update_events(
    members: Seq<Member>,
    upserts: Seq<Member>,
    removals: Seq<AccountId>,
) -> Seq<GroupEvent> {
    upsert_events(members, upserts) + removal_events(upsert_all(members, upserts), removals)
}

/// The members of before, each with the weight that the upserts give it: the
/// entry of the upserts for its address where there is one, else itself.
pub open spec fn reweighed(members: Seq<Member>, upserts: Seq<Member>) -> Seq<Member> {
    members.map_values(
        |m: Member|
            match position(upserts, m.addr) {
                Some(index) => upserts[index],
                None => m,
            },
    )
}

/// The upserts whose address no member has, in the order of the upserts.
pub open spec fn newcomers(members: Seq<Member>, upserts: Seq<Member>) -> Seq<Member> {
    upserts.filter(|u: Member| !addresses(members).contains(u.addr))
}

/// The members whose address is none of `removals`.
pub open spec fn kept(members: Seq<Member>, removals: Seq<AccountId>) -> Seq<Member> {
    members.filter(|m: Member| !removals.contains(m.addr))
}

/// No member has any of the addresses in `removals`.
pub open spec fn all_unknown(members: Seq<Member>, removals: Seq<AccountId>) -> bool {
    forall|i: int| 0 <= i < removals.len() ==> !addresses(members).contains(#[trigger] removals[i])
}

/// Why a batch is turned down, if it is: the caller is not the admin, the
/// upserts repeat an address, or the total would leave 64 bits on the way.
pub open spec fn update_refusal(
    admin: AccountId,
    members: Seq<Member>,
    caller: AccountId,
    upserts: Seq<Member>,
) -> Option<InkGroupError> {
    if caller != admin {
        Some(InkGroupError::Unauthorized {})
    } else {
        match first_duplicate(upserts) {
            Some(addr) => Some(InkGroupError::DuplicateMember { member: addr }),
            None => if upserts_fit(members, upserts) {
                None
            } else {
                Some(InkGroupError::WeightOverflow {})
            },
        }
    }
}

/// Why a group cannot be created from `members`, if it cannot: there are none,
/// an address is repeated, or the weights do not add up within 64 bits.
pub open spec fn creation_refusal(members: Seq<Member>) -> Option<InkGroupError> {
    if members.len() == 0 {
        Some(InkGroupError::ZeroMembers {})
    } else {
        match first_duplicate(members) {
            Some(addr) => Some(InkGroupError::DuplicateMember { member: addr }),
            None => if weight_sum(members) <= u64::MAX {
                None
            } else {
                Some(InkGroupError::WeightOverflow {})
            },
        }
    }
}

/// The notifications of a creation: one addition for each member, in order.
pub open spec fn creation_events(members: Seq<Member>) -> Seq<GroupEvent> {
    Seq::new(
        members.len(),
        |i: int| GroupEvent::Added(MemberAddition { member: members[i].addr }),
    )
}

/// One more upsert extends what the earlier ones made.
pub proof fn lemma_upsert_next(members: Seq<Member>, upserts: Seq<Member>, done: int)
    requires
        0 <= done < upserts.len(),
    ensures
        upsert_all(members, upserts.take(done + 1)) == upsert_one(
            upsert_all(members, upserts.take(done)),
            upserts[done],
        ),
        upsert_events(members, upserts.take(done + 1)) == upsert_events(
            members,
            upserts.take(done),
        ).push(upsert_event(upsert_all(members, upserts.take(done)), upserts[done])),
{
    assert(upserts.take(done + 1).drop_last() =~= upserts.take(done));
}

/// One more removal extends what the earlier ones made.
pub proof fn lemma_remove_next(members: Seq<Member>, removals: Seq<AccountId>, done: int)
    requires
        0 <= done < removals.len(),
    ensures
        remove_all(members, removals.take(done + 1)) == remove_one(
            remove_all(members, removals.take(done)),
            removals[done],
        ),
        removal_events(members, removals.take(done + 1)) == match removal_event(
            remove_all(members, removals.take(done)),
            removals[done],
        ) {
            Some(event) => removal_events(members, removals.take(done)).push(event),
            None => removal_events(members, removals.take(done)),
        },
{
    assert(removals.take(done + 1).drop_last() =~= removals.take(done));
}

/// An upsert keeps the addresses pairwise distinct.
pub proof fn lemma_upsert_one_distinct(members: Seq<Member>, member: Member)
    requires
        addresses(members).no_duplicates(),
    ensures
        addresses(upsert_one(members, member)).no_duplicates(),
{
    lemma_position(members, member.addr);
    let after = upsert_one(members, member);
    let before = addresses(members);
    match position(members, member.addr) {
        Some(index) => {
            assert(addresses(after) =~= before);
        },
        None => {
            assert(addresses(after) =~= before.push(member.addr));
            assert forall|i: int, j: int|
                0 <= i < after.len() && 0 <= j < after.len() && i != j implies addresses(after)[i]
                != addresses(after)[j] by {
                if i < members.len() && j < members.len() {
                    assert(before[i] != before[j]);
                } else if i < members.len() {
                    assert(members[i].addr != member.addr);
                } else {
                    assert(members[j].addr != member.addr);
                }
            }
        },
    }
}

/// A removal keeps the addresses pairwise distinct, and the address is gone.
pub proof fn lemma_remove_one_distinct(members: Seq<Member>, addr: AccountId)
    requires
        addresses(members).no_duplicates(),
    ensures
        addresses(remove_one(members, addr)).no_duplicates(),
        !addresses(remove_one(members, addr)).contains(addr),
{
    lemma_position(members, addr);
    let after = remove_one(members, addr);
    let before = addresses(members);
    match position(members, addr) {
        Some(index) => {
            assert forall|i: int, j: int|
                0 <= i < after.len() && 0 <= j < after.len() && i != j implies addresses(after)[i]
                != addresses(after)[j] by {
                let from_i = if i < index { i } else { i + 1 };
                let from_j = if j < index { j } else { j + 1 };
                assert(before[from_i] != before[from_j]);
            }
            assert forall|i: int| 0 <= i < after.len() implies addresses(after)[i] != addr by {
                let from_i = if i < index { i } else { i + 1 };
                assert(before[from_i] != before[index]);
            }
        },
        None => {},
    }
}

/// Applies one upsert to a list and its running total, unless the total would
/// leave 64 bits: then both stay as they are.
pub(crate) fn upsert_member(members: &mut Vec<Member>, total: &mut u64, member: Member) -> (done:
    Result<GroupEvent, InkGroupError>)
    requires
        *old(total) == weight_sum(old(members)@),
    ensures
        weight_sum(upsert_one(old(members)@, member)) <= u64::MAX ==> {
            &&& done == Ok::<GroupEvent, InkGroupError>(upsert_event(old(members)@, member))
            &&& final(members)@ == upsert_one(old(members)@, member)
        },
        weight_sum(upsert_one(old(members)@, member)) > u64::MAX ==> {
            &&& done == Err::<GroupEvent, InkGroupError>(InkGroupError::WeightOverflow {})
            &&& final(members)@ == old(members)@
        },
        *final(total) == weight_sum(final(members)@),
{
    proof {
        lemma_position(members@, member.addr);
        lemma_weight_sum_bounds(members@);
    }
    match find_member(members.as_slice(), &member.addr) {
        Some(index) => {
            proof {
                lemma_weight_sum_update(members@, index as int, member);
            }
            // The member's own weight is part of the total, so this cannot underflow.
            let rest: u64 = *total - members[index].weight;
            match rest.checked_add(member.weight) {
                Some(sum) => {
                    members[index].weight = member.weight;
                    *total = sum;
                    Ok(GroupEvent::Updated(MemberUpdate { member: member.addr }))
                },
                None => Err(InkGroupError::WeightOverflow {}),
            }
        },
        None => {
            proof {
                lemma_weight_sum_push(members@, member);
            }
            match total.checked_add(member.weight) {
                Some(sum) => {
                    members.push(member);
                    *total = sum;
                    Ok(GroupEvent::Added(MemberAddition { member: member.addr }))
                },
                None => Err(InkGroupError::WeightOverflow {}),
            }
        },
    }
}

/// Applies one removal to a list and its running total.
pub(crate) fn remove_member(members: &mut Vec<Member>, total: &mut u64, addr: AccountId) -> (done:
    Option<GroupEvent>)
    requires
        *old(total) == weight_sum(old(members)@),
    ensures
        final(members)@ == remove_one(old(members)@, addr),
        *final(total) == weight_sum(final(members)@),
        done == removal_event(old(members)@, addr),
{
    proof {
        lemma_position(members@, addr);
        lemma_weight_sum_bounds(members@);
    }
    match find_member(members.as_slice(), &addr) {
        Some(index) => {
            proof {
                lemma_weight_sum_remove(members@, index as int);
            }
            *total = *total - members[index].weight;
            let removed = members.remove(index);
            Some(GroupEvent::Removed(MemberRemoval { member: removed.addr }))
        },
        None => None,
    }
}

} // verus!

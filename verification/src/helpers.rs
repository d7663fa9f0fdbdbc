//! Searching a member list and checking it for repeated addresses.

use crate::account::same_account;
use crate::error::InkGroupError;
use crate::storage::{
    addresses, is_absent, is_first_at, lemma_position, lemma_position_absent,
    lemma_position_found, lemma_weight_sum_prefix, position, weight_sum, Member,
};
use ink::primitives::AccountId;
use vstd::prelude::*;

verus! {

/// The address of the first entry, in list order, whose address already stands
/// earlier in `members`; `None` where every address occurs once.
pub open spec fn first_duplicate(members: Seq<Member>) -> Option<AccountId>
    decreases members.len(),
{
    if members.len() == 0 {
        None
    } else {
        match first_duplicate(members.drop_last()) {
            Some(addr) => Some(addr),
            None => if addresses(members.drop_last()).contains(members.last().addr) {
                Some(members.last().addr)
            } else {
                None
            },
        }
    }
}

/// A list has a first duplicate exactly when its addresses are not pairwise distinct.
pub proof fn lemma_first_duplicate_none(members: Seq<Member>)
    ensures
        first_duplicate(members) is None <==> addresses(members).no_duplicates(),
    decreases members.len(),
{
    if members.len() > 0 {
        let front = members.drop_last();
        let addrs = addresses(members);
        let last = members.len() - 1;
        lemma_first_duplicate_none(front);
        assert(addresses(front) =~= addrs.drop_last());
        if first_duplicate(members) is None {
            assert forall|i: int, j: int|
                0 <= i < addrs.len() && 0 <= j < addrs.len() && i != j implies addrs[i]
                != addrs[j] by {
                if i < last && j < last {
                    assert(addresses(front)[i] != addresses(front)[j]);
                } else if i == last {
                    assert(addresses(front)[j] == addrs[j]);
                } else {
                    assert(addresses(front)[i] == addrs[i]);
                }
            }
        }
        if addrs.no_duplicates() {
            assert forall|i: int, j: int|
                0 <= i < front.len() && 0 <= j < front.len() && i != j implies addresses(front)[i]
                != addresses(front)[j] by {
                assert(addrs[i] != addrs[j]);
            }
            if addresses(front).contains(members.last().addr) {
                let i = choose|i: int|
                    0 <= i < front.len() && addresses(front)[i] == members.last().addr;
                assert(addrs[i] == addrs[last]);
            }
        }
    }
}

/// A duplicate found in a prefix is the first duplicate of the whole list.
pub proof fn lemma_first_duplicate_prefix(members: Seq<Member>, len: int)
    requires
        0 <= len <= members.len(),
        first_duplicate(members.take(len)) is Some,
    ensures
        first_duplicate(members) == first_duplicate(members.take(len)),
    decreases members.len(),
{
    if len == members.len() {
        assert(members.take(len) =~= members);
    } else {
        assert(members.drop_last().take(len) =~= members.take(len));
        lemma_first_duplicate_prefix(members.drop_last(), len);
    }
}

/// Looks for `addr` among the first `end` entries of `members`.
fn position_before(members: &[Member], end: usize, addr: &AccountId) -> (found: Option<usize>)
    requires
        end <= members@.len(),
    ensures
        match found {
            Some(index) => position(members@.take(end as int), *addr) == Some(index as int),
            None => position(members@.take(end as int), *addr) is None,
        },
{
    let ghost prefix = members@.take(end as int);
    let mut index: usize = 0;
    while index < end
        invariant
            index <= end <= members@.len(),
            prefix == members@.take(end as int),
            forall|j: int| 0 <= j < index ==> prefix[j].addr != *addr,
        decreases end - index,
    {
        if same_account(&members[index].addr, addr) {
            proof {
                assert(prefix[index as int] == members@[index as int]);
                assert(is_first_at(prefix, *addr, index as int));
                lemma_position_found(prefix, *addr, index as int);
            }
            return Some(index);
        }
        proof {
            assert(prefix[index as int] == members@[index as int]);
        }
        index += 1;
    }
    proof {
        assert(is_absent(prefix, *addr));
        lemma_position_absent(prefix, *addr);
    }
    None
}

/// The index of the first member with address `addr`, if there is one.
pub fn find_member(members: &[Member], addr: &AccountId) -> (found: Option<usize>)
    ensures
        match found {
            Some(index) => position(members@, *addr) == Some(index as int) && index
                < members@.len(),
            None => position(members@, *addr) is None,
        },
{
    proof {
        assert(members@.take(members@.len() as int) =~= members@);
        lemma_position(members@, *addr);
    }
    position_before(members, members.len(), addr)
}

/// Adds up the weights of `members`; `None` where the sum leaves 64 bits.
pub fn checked_total(members: &[Member]) -> (total: Option<u64>)
    ensures
        match total {
            Some(sum) => sum == weight_sum(members@),
            None => weight_sum(members@) > u64::MAX,
        },
{
    let mut sum: u64 = 0;
    let mut next: usize = 0;
    while next < members.len()
        invariant
            next <= members@.len(),
            sum == weight_sum(members@.take(next as int)),
        decreases members@.len() - next,
    {
        proof {
            assert(members@.take(next + 1).drop_last() =~= members@.take(next as int));
            lemma_weight_sum_prefix(members@, next + 1);
        }
        match sum.checked_add(members[next].weight) {
            Some(more) => {
                sum = more;
            },
            None => {
                return None;
            },
        }
        next += 1;
    }
    proof {
        assert(members@.take(next as int) =~= members@);
    }
    Some(sum)
}

/// Verifies all member addresses are unique.
///
/// Every pair of entries is compared, so a repeated address is found wherever
/// it stands. The error names the first entry that repeats an earlier one.
pub fn validate_unique_members(members: &[Member]) -> (checked: Result<(), InkGroupError>)
    ensures
        checked == match first_duplicate(members@) {
            Some(addr) => Err::<(), InkGroupError>(InkGroupError::DuplicateMember { member: addr }),
            None => Ok::<(), InkGroupError>(()),
        },
        checked is Ok <==> addresses(members@).no_duplicates(),
{
    let mut next: usize = 0;
    while next < members.len()
        invariant
            next <= members@.len(),
            first_duplicate(members@.take(next as int)) is None,
        decreases members@.len() - next,
    {
        let ghost prefix = members@.take(next as int);
        let ghost longer = members@.take(next + 1);
        proof {
            assert(longer.drop_last() =~= prefix);
            assert(longer.last() == members@[next as int]);
            lemma_position(prefix, members@[next as int].addr);
        }
        match position_before(members, next, &members[next].addr) {
            Some(_) => {
                proof {
                    assert(first_duplicate(longer) == Some(members@[next as int].addr));
                    lemma_first_duplicate_prefix(members@, next + 1);
                    lemma_first_duplicate_none(members@);
                }
                return Err(InkGroupError::DuplicateMember { member: members[next].addr });
            },
            None => {},
        }
        next += 1;
    }
    proof {
        assert(members@.take(next as int) =~= members@);
        lemma_first_duplicate_none(members@);
    }
    Ok(())
}

} // verus!

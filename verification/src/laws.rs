//! What holds of every batch update, stated over the model of the member list.

use crate::event::{GroupEvent, MemberRemoval};
use crate::storage::{
    addresses, is_first_at, lemma_position, lemma_position_absent, lemma_position_found, position,
    Member,
};
use crate::update::{
    all_unknown, kept, lemma_remove_one_distinct, lemma_upsert_one_distinct, newcomers,
    remove_all, remove_one, removal_events, reweighed, updated_members, upsert_all, upsert_event,
    upsert_events, upsert_one,
};
use ink::primitives::AccountId;
use vstd::prelude::*;

verus! {

/// After one upsert the list holds the addresses it held before, and the
/// upserted one.
pub proof fn lemma_upsert_one_membership(members: Seq<Member>, member: Member, addr: AccountId)
    ensures
        addresses(upsert_one(members, member)).contains(addr) <==> addresses(members).contains(
            addr,
        ) || addr == member.addr,
{
    lemma_position(members, member.addr);
    let before = addresses(members);
    let after = addresses(upsert_one(members, member));
    match position(members, member.addr) {
        Some(index) => {
            assert(after =~= before);
            assert(before[index] == member.addr);
        },
        None => {
            assert(after =~= before.push(member.addr));
            if before.contains(addr) {
                let i = choose|i: int| 0 <= i < before.len() && before[i] == addr;
                assert(after[i] == addr);
            }
            if addr == member.addr {
                assert(after[before.len() as int] == addr);
            }
        },
    }
}

/// After one removal from a list of distinct addresses the list holds the
/// addresses it held before, but for the removed one.
pub proof fn lemma_remove_one_membership(members: Seq<Member>, removed: AccountId, addr: AccountId)
    requires
        addresses(members).no_duplicates(),
    ensures
        addresses(remove_one(members, removed)).contains(addr) <==> addresses(members).contains(
            addr,
        ) && addr != removed,
{
    lemma_position(members, removed);
    lemma_remove_one_distinct(members, removed);
    let before = addresses(members);
    let after = addresses(remove_one(members, removed));
    match position(members, removed) {
        Some(index) => {
            if before.contains(addr) && addr != removed {
                let i = choose|i: int| 0 <= i < before.len() && before[i] == addr;
                let to = if i < index { i } else { i - 1 };
                assert(after[to] == addr);
            }
            if after.contains(addr) {
                let i = choose|i: int| 0 <= i < after.len() && after[i] == addr;
                let from = if i < index { i } else { i + 1 };
                assert(before[from] == addr);
            }
        },
        None => {
            if before.contains(addr) {
                let i = choose|i: int| 0 <= i < before.len() && before[i] == addr;
                assert(members[i].addr == addr);
            }
        },
    }
}

/// Upserts never let an address stand twice: a list of distinct addresses
/// stays one whatever is upserted, repeated addresses among the upserts
/// included.
pub proof fn lemma_upserts_keep_distinct(members: Seq<Member>, upserts: Seq<Member>)
    requires
        addresses(members).no_duplicates(),
    ensures
        addresses(upsert_all(members, upserts)).no_duplicates(),
    decreases upserts.len(),
{
    if upserts.len() > 0 {
        lemma_upserts_keep_distinct(members, upserts.drop_last());
        lemma_upsert_one_distinct(upsert_all(members, upserts.drop_last()), upserts.last());
    }
}

/// Removals keep the addresses pairwise distinct.
pub proof fn lemma_removals_keep_distinct(members: Seq<Member>, removals: Seq<AccountId>)
    requires
        addresses(members).no_duplicates(),
    ensures
        addresses(remove_all(members, removals)).no_duplicates(),
    decreases removals.len(),
{
    if removals.len() > 0 {
        lemma_removals_keep_distinct(members, removals.drop_last());
        lemma_remove_one_distinct(remove_all(members, removals.drop_last()), removals.last());
    }
}

/// After the upserts the list holds exactly the addresses it held before and
/// those of the upserts.
pub proof fn lemma_upserts_membership(members: Seq<Member>, upserts: Seq<Member>, addr: AccountId)
    ensures
        addresses(upsert_all(members, upserts)).contains(addr) <==> addresses(members).contains(
            addr,
        ) || addresses(upserts).contains(addr),
    decreases upserts.len(),
{
    let given = addresses(upserts);
    if upserts.len() > 0 {
        let earlier = upserts.drop_last();
        lemma_upserts_membership(members, earlier, addr);
        lemma_upsert_one_membership(upsert_all(members, earlier), upserts.last(), addr);
        assert(addresses(earlier) =~= given.drop_last());
        if addresses(earlier).contains(addr) {
            let i = choose|i: int| 0 <= i < earlier.len() && addresses(earlier)[i] == addr;
            assert(given[i] == addr);
        }
        if addr == upserts.last().addr {
            assert(given[upserts.len() - 1] == addr);
        }
        if given.contains(addr) {
            let i = choose|i: int| 0 <= i < given.len() && given[i] == addr;
            if i < earlier.len() {
                assert(addresses(earlier)[i] == addr);
            }
        }
    }
}

/// After the removals a list of distinct addresses holds exactly the addresses
/// it held before that are not among the removals.
pub proof fn lemma_removals_membership(
    members: Seq<Member>,
    removals: Seq<AccountId>,
    addr: AccountId,
)
    requires
        addresses(members).no_duplicates(),
    ensures
        addresses(remove_all(members, removals)).contains(addr) <==> addresses(members).contains(
            addr,
        ) && !removals.contains(addr),
    decreases removals.len(),
{
    if removals.len() > 0 {
        let earlier = removals.drop_last();
        lemma_removals_membership(members, earlier, addr);
        lemma_removals_keep_distinct(members, earlier);
        lemma_remove_one_membership(remove_all(members, earlier), removals.last(), addr);
        if earlier.contains(addr) {
            let i = choose|i: int| 0 <= i < earlier.len() && earlier[i] == addr;
            assert(removals[i] == addr);
        }
        if addr == removals.last() {
            assert(removals[removals.len() - 1] == addr);
        }
        if removals.contains(addr) {
            let i = choose|i: int| 0 <= i < removals.len() && removals[i] == addr;
            if i < earlier.len() {
                assert(earlier[i] == addr);
            }
        }
    }
}

/// An upsert leaves every entry in its place, and every entry with another
/// address as it is; the upserted entry then stands where `position` finds it.
pub proof fn lemma_upsert_one_places(members: Seq<Member>, member: Member)
    ensures
        members.len() <= upsert_one(members, member).len(),
        forall|i: int|
            0 <= i < members.len() ==> (#[trigger] upsert_one(members, member)[i]).addr
                == members[i].addr,
        forall|i: int|
            0 <= i < members.len() && members[i].addr != member.addr ==> #[trigger] upsert_one(
                members,
                member,
            )[i] == members[i],
        upsert_one(members, member).contains(member),
{
    lemma_position(members, member.addr);
    let after = upsert_one(members, member);
    match position(members, member.addr) {
        Some(index) => {
            assert(after[index] == member);
        },
        None => {
            assert(after[members.len() as int] == member);
        },
    }
}

/// The members of before keep their places through the upserts: the list
/// only grows at its end, and no address moves.
pub proof fn lemma_upserts_keep_places(members: Seq<Member>, upserts: Seq<Member>, index: int)
    requires
        0 <= index < members.len(),
    ensures
        index < upsert_all(members, upserts).len(),
        upsert_all(members, upserts)[index].addr == members[index].addr,
    decreases upserts.len(),
{
    if upserts.len() > 0 {
        lemma_upserts_keep_places(members, upserts.drop_last(), index);
        lemma_upsert_one_places(upsert_all(members, upserts.drop_last()), upserts.last());
    }
}

/// A member that no upsert names is after the upserts what it was before.
pub proof fn lemma_untouched_member_stays(members: Seq<Member>, upserts: Seq<Member>, index: int)
    requires
        0 <= index < members.len(),
        !addresses(upserts).contains(members[index].addr),
    ensures
        index < upsert_all(members, upserts).len(),
        upsert_all(members, upserts)[index] == members[index],
    decreases upserts.len(),
{
    if upserts.len() > 0 {
        let earlier = upserts.drop_last();
        let last = upserts.len() - 1;
        assert(addresses(earlier) =~= addresses(upserts).drop_last());
        if addresses(earlier).contains(members[index].addr) {
            let i = choose|i: int|
                0 <= i < earlier.len() && addresses(earlier)[i] == members[index].addr;
            assert(addresses(upserts)[i] == members[index].addr);
        }
        assert(addresses(upserts)[last] == upserts.last().addr);
        lemma_untouched_member_stays(members, earlier, index);
        lemma_upsert_one_places(upsert_all(members, earlier), upserts.last());
    }
}

/// Where the upserts name each address once, every one of them stands in the
/// list afterwards as it was given: with its address, and with its weight.
pub proof fn lemma_upserted_member_stands(members: Seq<Member>, upserts: Seq<Member>, index: int)
    requires
        addresses(upserts).no_duplicates(),
        0 <= index < upserts.len(),
    ensures
        upsert_all(members, upserts).contains(upserts[index]),
    decreases upserts.len(),
{
    let earlier = upserts.drop_last();
    let last = upserts.len() - 1;
    let before = upsert_all(members, earlier);
    let after = upsert_all(members, upserts);
    lemma_upsert_one_places(before, upserts.last());
    if index < last {
        assert(addresses(earlier) =~= addresses(upserts).drop_last());
        lemma_upserted_member_stands(members, earlier, index);
        let at = choose|at: int| 0 <= at < before.len() && before[at] == earlier[index];
        assert(addresses(upserts)[index] != addresses(upserts)[last]);
        assert(after[at] == before[at]);
    }
}

/// An entry appended with another address does not change where `addr` is found.
proof fn lemma_position_push_other(members: Seq<Member>, member: Member, addr: AccountId)
    requires
        member.addr != addr,
    ensures
        position(members.push(member), addr) == position(members, addr),
{
    let longer = members.push(member);
    lemma_position(members, addr);
    lemma_position(longer, addr);
    match position(members, addr) {
        Some(index) => {
            assert(longer[index] == members[index]);
            assert forall|j: int| 0 <= j < index implies longer[j].addr != addr by {
                assert(longer[j] == members[j]);
            }
            lemma_position_found(longer, addr, index);
        },
        None => {
            assert forall|j: int| 0 <= j < longer.len() implies longer[j].addr != addr by {
                if j < members.len() {
                    assert(longer[j] == members[j]);
                }
            }
            lemma_position_absent(longer, addr);
        },
    }
}

/// What the upserts make of a list, in one piece. Where the list holds
/// distinct addresses and the upserts name each address once, the list
/// afterwards is the old one with the new weights set, followed by the upserts
/// of new addresses in the order in which they came.
pub proof fn lemma_upserts_closed_form(members: Seq<Member>, upserts: Seq<Member>)
    requires
        addresses(members).no_duplicates(),
        addresses(upserts).no_duplicates(),
    ensures
        upsert_all(members, upserts) == reweighed(members, upserts) + newcomers(members, upserts),
    decreases upserts.len(),
{
    let is_new = |u: Member| !addresses(members).contains(u.addr);
    let set = reweighed(members, upserts);
    let new = newcomers(members, upserts);
    reveal(Seq::filter);
    if upserts.len() == 0 {
        assert forall|k: int| 0 <= k < members.len() implies set[k] == members[k] by {
            lemma_position(upserts, members[k].addr);
        }
        assert(set + new =~= members);
    } else {
        let earlier = upserts.drop_last();
        let last = upserts.last();
        let last_index = upserts.len() - 1;
        let set_earlier = reweighed(members, earlier);
        let new_earlier = newcomers(members, earlier);
        let before = set_earlier + new_earlier;
        assert(addresses(earlier) =~= addresses(upserts).drop_last());
        assert(earlier.push(last) =~= upserts);
        lemma_upserts_closed_form(members, earlier);
        earlier.lemma_filter_push(last, is_new);
        // the last upsert names an address that none of the earlier ones names
        assert forall|j: int| 0 <= j < earlier.len() implies earlier[j].addr != last.addr by {
            assert(addresses(upserts)[j] != addresses(upserts)[last_index]);
        }
        assert forall|j: int| 0 <= j < new_earlier.len() implies new_earlier[j].addr
            != last.addr by {
            earlier.lemma_filter_contains_rev(is_new, new_earlier[j]);
            let from = choose|from: int| 0 <= from < earlier.len() && earlier[from] == new_earlier[j];
            assert(earlier[from].addr != last.addr);
        }
        // so it is found last among the upserts
        assert forall|j: int| 0 <= j < last_index implies upserts[j].addr != last.addr by {
            assert(upserts[j] == earlier[j]);
        }
        lemma_position_found(upserts, last.addr, last_index);
        // what the upserts give to each member of before
        assert forall|k: int| 0 <= k < members.len() implies (#[trigger] set_earlier[k]).addr
            == members[k].addr by {
            lemma_position(earlier, members[k].addr);
        }
        assert forall|k: int| 0 <= k < members.len() implies #[trigger] set[k] == (if members[k].addr
            == last.addr {
            last
        } else {
            set_earlier[k]
        }) by {
            if members[k].addr != last.addr {
                lemma_position_push_other(earlier, last, members[k].addr);
                lemma_position(earlier, members[k].addr);
                match position(earlier, members[k].addr) {
                    Some(index) => {
                        assert(upserts[index] == earlier[index]);
                    },
                    None => {},
                }
            }
        }
        lemma_position(members, last.addr);
        match position(members, last.addr) {
            Some(index) => {
                assert(addresses(members)[index] == last.addr);
                assert forall|j: int| 0 <= j < index implies before[j].addr != last.addr by {
                    assert(before[j] == set_earlier[j]);
                    assert(set_earlier[j].addr == members[j].addr);
                }
                assert(before[index] == set_earlier[index]);
                lemma_position_found(before, last.addr, index);
                assert forall|k: int| 0 <= k < members.len() && k != index implies members[k].addr
                    != last.addr by {
                    assert(addresses(members)[k] != addresses(members)[index]);
                }
                assert(before.update(index, last) =~= set + new);
            },
            None => {
                assert(!addresses(members).contains(last.addr));
                assert forall|j: int| 0 <= j < before.len() implies before[j].addr
                    != last.addr by {
                    if j < members.len() {
                        assert(before[j] == set_earlier[j]);
                        assert(set_earlier[j].addr == members[j].addr);
                    } else {
                        assert(before[j] == new_earlier[j - members.len()]);
                    }
                }
                lemma_position_absent(before, last.addr);
                assert(before.push(last) =~= set + new);
            },
        }
    }
}

/// What a whole batch makes of a list, in one piece: the old list with the new
/// weights set, then the upserts of new addresses, and of all these the
/// entries whose address is none of the removals.
pub proof fn lemma_update_closed_form(
    members: Seq<Member>,
    upserts: Seq<Member>,
    removals: Seq<AccountId>,
)
    requires
        addresses(members).no_duplicates(),
        addresses(upserts).no_duplicates(),
    ensures
        updated_members(members, upserts, removals) == kept(
            reweighed(members, upserts) + newcomers(members, upserts),
            removals,
        ),
{
    lemma_upserts_closed_form(members, upserts);
    lemma_upserts_keep_distinct(members, upserts);
    lemma_removals_keep_the_rest(upsert_all(members, upserts), removals);
}

/// Filtering by a test that every entry passes changes nothing.
proof fn lemma_filter_all(members: Seq<Member>, test: spec_fn(Member) -> bool)
    requires
        forall|i: int| 0 <= i < members.len() ==> test(#[trigger] members[i]),
    ensures
        members.filter(test) == members,
    decreases members.len(),
{
    reveal(Seq::filter);
    if members.len() > 0 {
        let front = members.drop_last();
        assert forall|i: int| 0 <= i < front.len() implies test(#[trigger] front[i]) by {
            assert(front[i] == members[i]);
        }
        lemma_filter_all(front, test);
        assert(front.push(members.last()) =~= members);
    }
}

/// Filtering twice is filtering once by both tests.
proof fn lemma_filter_twice(
    members: Seq<Member>,
    first: spec_fn(Member) -> bool,
    second: spec_fn(Member) -> bool,
    both: spec_fn(Member) -> bool,
)
    requires
        forall|m: Member| #[trigger] both(m) == (first(m) && second(m)),
    ensures
        members.filter(first).filter(second) == members.filter(both),
    decreases members.len(),
{
    reveal(Seq::filter);
    if members.len() > 0 {
        let front = members.drop_last();
        let last = members.last();
        lemma_filter_twice(front, first, second, both);
        assert(both(last) == (first(last) && second(last)));
        if first(last) {
            front.filter(first).lemma_filter_push(last, second);
        }
    }
}

/// Removing an address from a list of distinct addresses keeps the entries
/// with another address, in their order.
proof fn lemma_remove_one_filter(members: Seq<Member>, addr: AccountId)
    requires
        addresses(members).no_duplicates(),
    ensures
        remove_one(members, addr) == members.filter(|m: Member| m.addr != addr),
    decreases members.len(),
{
    let other = |m: Member| m.addr != addr;
    lemma_position(members, addr);
    match position(members, addr) {
        None => {
            lemma_filter_all(members, other);
        },
        Some(index) => {
            let front = members.drop_last();
            let last = members.last();
            assert(front.push(last) =~= members);
            front.lemma_filter_push(last, other);
            assert(addresses(front) =~= addresses(members).drop_last());
            if index == members.len() - 1 {
                assert forall|i: int| 0 <= i < front.len() implies other(#[trigger] front[i]) by {
                    assert(addresses(members)[i] != addresses(members)[index]);
                }
                lemma_filter_all(front, other);
                assert(members.remove(index) =~= front);
            } else {
                assert(addresses(members)[index] != addresses(members)[members.len() - 1]);
                assert(front[index] == members[index]);
                assert(is_first_at(front, addr, index));
                lemma_position_found(front, addr, index);
                lemma_remove_one_filter(front, addr);
                assert(members.remove(index) =~= front.remove(index).push(last));
            }
        },
    }
}

/// After the removals a list of distinct addresses holds the members whose
/// address is none of the removals, each as it was and in the old order.
pub proof fn lemma_removals_keep_the_rest(members: Seq<Member>, removals: Seq<AccountId>)
    requires
        addresses(members).no_duplicates(),
    ensures
        remove_all(members, removals) == kept(members, removals),
    decreases removals.len(),
{
    let test = |m: Member| !removals.contains(m.addr);
    if removals.len() == 0 {
        lemma_filter_all(members, test);
    } else {
        let earlier = removals.drop_last();
        let last = removals.last();
        let test_earlier = |m: Member| !earlier.contains(m.addr);
        let test_last = |m: Member| m.addr != last;
        lemma_removals_keep_the_rest(members, earlier);
        lemma_removals_keep_distinct(members, earlier);
        lemma_remove_one_filter(remove_all(members, earlier), last);
        assert forall|m: Member| #[trigger] test(m) == (test_earlier(m) && test_last(m)) by {
            if earlier.contains(m.addr) {
                let i = choose|i: int| 0 <= i < earlier.len() && earlier[i] == m.addr;
                assert(removals[i] == m.addr);
            }
            if m.addr == last {
                assert(removals[removals.len() - 1] == m.addr);
            }
            if removals.contains(m.addr) {
                let i = choose|i: int| 0 <= i < removals.len() && removals[i] == m.addr;
                if i < earlier.len() {
                    assert(earlier[i] == m.addr);
                }
            }
        }
        lemma_filter_twice(members, test_earlier, test_last, test);
    }
}

/// There is one notification for each upsert.
pub proof fn lemma_upsert_events_len(members: Seq<Member>, upserts: Seq<Member>)
    ensures
        upsert_events(members, upserts).len() == upserts.len(),
    decreases upserts.len(),
{
    if upserts.len() > 0 {
        lemma_upsert_events_len(members, upserts.drop_last());
    }
}

/// Where the upserts name each address once, the notification of an upsert
/// tells whether its address was a member before the batch: an update if it
/// was, an addition if not.
pub proof fn lemma_upsert_event_kind(members: Seq<Member>, upserts: Seq<Member>, index: int)
    requires
        addresses(upserts).no_duplicates(),
        0 <= index < upserts.len(),
    ensures
        index < upsert_events(members, upserts).len(),
        upsert_events(members, upserts)[index] == upsert_event(members, upserts[index]),
    decreases upserts.len(),
{
    let earlier = upserts.drop_last();
    let last = upserts.len() - 1;
    lemma_upsert_events_len(members, upserts);
    lemma_upsert_events_len(members, earlier);
    assert(addresses(earlier) =~= addresses(upserts).drop_last());
    if index < last {
        lemma_upsert_event_kind(members, earlier, index);
    } else {
        let addr = upserts[index].addr;
        let before = upsert_all(members, earlier);
        lemma_upserts_membership(members, earlier, addr);
        lemma_position(before, addr);
        lemma_position(members, addr);
        if addresses(earlier).contains(addr) {
            let i = choose|i: int| 0 <= i < earlier.len() && addresses(earlier)[i] == addr;
            assert(addresses(upserts)[i] == addresses(upserts)[last]);
        }
    }
}

/// Every notification of the removals is one of a removal.
pub proof fn lemma_removal_events_kind(members: Seq<Member>, removals: Seq<AccountId>, index: int)
    requires
        0 <= index < removal_events(members, removals).len(),
    ensures
        removal_events(members, removals)[index] is Removed,
    decreases removals.len(),
{
    if removals.len() > 0 {
        let earlier = removal_events(members, removals.drop_last());
        if index < earlier.len() {
            lemma_removal_events_kind(members, removals.drop_last(), index);
        }
    }
}

/// The removals give notice of a member exactly when its address is among
/// them and it was a member, and of no member twice.
pub proof fn lemma_removal_events(members: Seq<Member>, removals: Seq<AccountId>, addr: AccountId)
    requires
        addresses(members).no_duplicates(),
    ensures
        removal_events(members, removals).contains(
            GroupEvent::Removed(MemberRemoval { member: addr }),
        ) <==> addresses(members).contains(addr) && removals.contains(addr),
        removal_events(members, removals).no_duplicates(),
    decreases removals.len(),
{
    let event = GroupEvent::Removed(MemberRemoval { member: addr });
    let events = removal_events(members, removals);
    if removals.len() > 0 {
        let earlier = removals.drop_last();
        let last = removals.last();
        let last_event = GroupEvent::Removed(MemberRemoval { member: last });
        let before = remove_all(members, earlier);
        let earlier_events = removal_events(members, earlier);
        lemma_removal_events(members, earlier, addr);
        lemma_removal_events(members, earlier, last);
        lemma_removals_membership(members, earlier, last);
        lemma_position(before, last);
        assert(removals[removals.len() - 1] == last);
        if earlier.contains(addr) {
            let i = choose|i: int| 0 <= i < earlier.len() && earlier[i] == addr;
            assert(removals[i] == addr);
        }
        if removals.contains(addr) {
            let i = choose|i: int| 0 <= i < removals.len() && removals[i] == addr;
            if i < earlier.len() {
                assert(earlier[i] == addr);
            }
        }
        if earlier_events.contains(event) {
            let i = choose|i: int| 0 <= i < earlier_events.len() && earlier_events[i] == event;
            assert(events[i] == event);
        }
        if position(before, last) is Some {
            assert(events == earlier_events.push(last_event));
            assert(events[earlier_events.len() as int] == last_event);
            if events.contains(event) {
                let i = choose|i: int| 0 <= i < events.len() && events[i] == event;
                if i < earlier_events.len() {
                    assert(earlier_events[i] == event);
                }
            }
            assert forall|i: int, j: int|
                0 <= i < events.len() && 0 <= j < events.len() && i != j implies events[i]
                != events[j] by {
                if i < earlier_events.len() && j < earlier_events.len() {
                    assert(earlier_events[i] != earlier_events[j]);
                } else if i < earlier_events.len() {
                    assert(earlier_events[i] != last_event);
                } else {
                    assert(earlier_events[j] != last_event);
                }
            }
        }
    }
}

/// Every batch leaves the addresses of a group pairwise distinct.
pub proof fn lemma_update_keeps_distinct(
    members: Seq<Member>,
    upserts: Seq<Member>,
    removals: Seq<AccountId>,
)
    requires
        addresses(members).no_duplicates(),
    ensures
        addresses(updated_members(members, upserts, removals)).no_duplicates(),
{
    lemma_upserts_keep_distinct(members, upserts);
    lemma_removals_keep_distinct(upsert_all(members, upserts), removals);
}

/// Who is a member after a batch: whoever was one before or is upserted,
/// unless the address is among the removals.
pub proof fn lemma_update_membership(
    members: Seq<Member>,
    upserts: Seq<Member>,
    removals: Seq<AccountId>,
    addr: AccountId,
)
    requires
        addresses(members).no_duplicates(),
    ensures
        addresses(updated_members(members, upserts, removals)).contains(addr) <==> (addresses(
            members,
        ).contains(addr) || addresses(upserts).contains(addr)) && !removals.contains(addr),
{
    lemma_upserts_keep_distinct(members, upserts);
    lemma_upserts_membership(members, upserts, addr);
    lemma_removals_membership(upsert_all(members, upserts), removals, addr);
}

/// Removal wins: an address that a batch removes is no member afterwards,
/// whether or not the same batch upserts it.
pub proof fn lemma_removal_wins(
    members: Seq<Member>,
    upserts: Seq<Member>,
    removals: Seq<AccountId>,
    addr: AccountId,
)
    requires
        addresses(members).no_duplicates(),
        removals.contains(addr),
    ensures
        !addresses(updated_members(members, upserts, removals)).contains(addr),
        position(updated_members(members, upserts, removals), addr) is None,
{
    lemma_update_membership(members, upserts, removals, addr);
    lemma_position(updated_members(members, upserts, removals), addr);
}

/// Removing addresses that no member has changes nothing and gives no notice.
pub proof fn lemma_unknown_removals(members: Seq<Member>, removals: Seq<AccountId>)
    requires
        all_unknown(members, removals),
    ensures
        remove_all(members, removals) == members,
        removal_events(members, removals) == Seq::<GroupEvent>::empty(),
    decreases removals.len(),
{
    if removals.len() > 0 {
        let earlier = removals.drop_last();
        assert forall|i: int| 0 <= i < earlier.len() implies !addresses(members).contains(
            #[trigger] earlier[i],
        ) by {
            assert(earlier[i] == removals[i]);
        }
        lemma_unknown_removals(members, earlier);
        assert(!addresses(members).contains(removals[removals.len() - 1]));
        lemma_position(members, removals.last());
    }
}

} // verus!

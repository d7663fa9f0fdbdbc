use ink::primitives::AccountId;
use ink_group::{
    checked_total, find_member, validate_unique_members, AdminUpdate, ContractError, GroupEvent,
    InkGroup, InkGroupError, InkGroupSimple, InkVotingGroup, Member, MemberAddition,
    MemberRemoval, MemberUpdate,
};

fn account(tag: u8) -> AccountId {
    AccountId::from([tag; 32])
}

fn member(tag: u8, weight: u64) -> Member {
    Member {
        addr: account(tag),
        weight,
    }
}

fn added(tag: u8) -> GroupEvent {
    GroupEvent::Added(MemberAddition {
        member: account(tag),
    })
}

fn updated(tag: u8) -> GroupEvent {
    GroupEvent::Updated(MemberUpdate {
        member: account(tag),
    })
}

fn removed(tag: u8) -> GroupEvent {
    GroupEvent::Removed(MemberRemoval {
        member: account(tag),
    })
}

/// A group of A (weight 1) and B (weight 1) under admin A.
fn simple_group() -> InkGroupSimple {
    InkGroupSimple::try_new(account(1), None, vec![member(1, 1), member(2, 1)])
        .unwrap()
        .0
}

fn voting_group() -> InkVotingGroup {
    InkVotingGroup::try_new(account(1), None, vec![member(1, 1), member(2, 1)]).unwrap()
}

fn sum_of(members: &[Member]) -> u128 {
    members.iter().map(|m| u128::from(m.weight)).sum()
}

fn all_distinct(members: &[Member]) -> bool {
    for (i, a) in members.iter().enumerate() {
        for b in &members[i + 1..] {
            if a.addr == b.addr {
                return false;
            }
        }
    }
    true
}

#[test]
fn total_weight_is_the_sum_in_every_state() {
    let admin = account(1);
    let mut group = simple_group();
    let batches: Vec<(Vec<Member>, Vec<AccountId>)> = vec![
        (vec![member(3, 10), member(1, 7)], vec![]),
        (vec![member(4, 0)], vec![account(2)]),
        (vec![member(2, 5), member(5, 6)], vec![account(5), account(9)]),
        (vec![], vec![account(3), account(3)]),
        (vec![member(6, u64::MAX)], vec![]),
        (vec![member(1, 0), member(4, 1)], vec![account(2)]),
    ];
    for (upserts, removals) in batches {
        let _ = group.update_members(admin, upserts, removals);
        let members = group.get_members().unwrap();
        assert_eq!(u128::from(group.get_total_weight()), sum_of(&members));
    }
    // the batch with the weight that does not fit was turned down
    assert_eq!(group.get_total_weight(), 1);
    assert_eq!(group.get_members().unwrap(), vec![member(1, 0), member(4, 1)]);
}

#[test]
fn addresses_stay_distinct_in_every_state() {
    let admin = account(1);
    let mut group = voting_group();
    let batches: Vec<(Vec<Member>, Vec<AccountId>)> = vec![
        (vec![member(1, 3), member(2, 4)], vec![]),
        (vec![member(3, 1), member(4, 1), member(1, 9)], vec![account(4)]),
        (vec![member(4, 2)], vec![account(1), account(1)]),
        (vec![member(1, 1), member(5, 1), member(1, 2)], vec![]),
        (vec![member(1, 1)], vec![]),
    ];
    for (upserts, removals) in batches {
        let _ = group.update_members(admin, upserts, removals);
        assert!(all_distinct(&group.get_members().unwrap()));
    }
    assert_eq!(
        group.get_members().unwrap(),
        vec![member(2, 4), member(3, 1), member(4, 2), member(1, 1)]
    );
    assert_eq!(group.get_total_weight(), 8);
}

#[test]
fn update_admin_by_a_stranger_changes_nothing() {
    let mut group = simple_group();
    let answer = group.update_admin(account(2), account(3));
    assert_eq!(answer, Err(InkGroupError::Unauthorized {}));
    assert_eq!(
        group.into_parts(),
        (account(1), 2, vec![member(1, 1), member(2, 1)])
    );

    let mut group = voting_group();
    let answer = group.update_admin(account(9), account(9));
    assert_eq!(answer, Err(InkGroupError::Unauthorized {}));
    assert_eq!(
        group.into_parts(),
        (account(1), 2, vec![member(1, 1), member(2, 1)])
    );
}

#[test]
fn update_members_by_a_stranger_changes_nothing() {
    let mut group = simple_group();
    let answer = group.update_members(account(2), vec![member(3, 4)], vec![account(1)]);
    assert_eq!(answer, Err(InkGroupError::Unauthorized {}));
    assert_eq!(
        group.into_parts(),
        (account(1), 2, vec![member(1, 1), member(2, 1)])
    );

    let mut group = voting_group();
    let answer = group.update_members(account(2), vec![member(3, 4)], vec![account(1)]);
    assert_eq!(answer, Err(InkGroupError::Unauthorized {}));
    assert_eq!(
        group.into_parts(),
        (account(1), 2, vec![member(1, 1), member(2, 1)])
    );
}

#[test]
fn a_stranger_is_turned_down_before_the_batch_is_looked_at() {
    let mut group = simple_group();
    let answer = group.update_members(account(2), vec![member(3, 4), member(3, 5)], vec![]);
    assert_eq!(answer, Err(InkGroupError::Unauthorized {}));
}

#[test]
fn a_batch_with_a_repeated_address_changes_nothing() {
    let mut group = simple_group();
    // the repeated address is not adjacent, and a valid upsert comes first
    let answer = group.update_members(
        account(1),
        vec![member(3, 4), member(2, 9), member(4, 1), member(2, 7)],
        vec![account(1)],
    );
    assert_eq!(
        answer,
        Err(InkGroupError::DuplicateMember {
            member: account(2)
        })
    );
    assert_eq!(
        group.into_parts(),
        (account(1), 2, vec![member(1, 1), member(2, 1)])
    );

    let mut group = voting_group();
    let answer = group.update_members(
        account(1),
        vec![member(3, 4), member(2, 9), member(4, 1), member(2, 7)],
        vec![account(1)],
    );
    assert_eq!(
        answer,
        Err(InkGroupError::DuplicateMember {
            member: account(2)
        })
    );
    assert_eq!(
        group.into_parts(),
        (account(1), 2, vec![member(1, 1), member(2, 1)])
    );
}

#[test]
fn removal_wins_over_the_upsert_of_a_new_address() {
    let mut group = simple_group();
    let events = group
        .update_members(account(1), vec![member(3, 5)], vec![account(3)])
        .unwrap();
    assert_eq!(events, vec![added(3), removed(3)]);
    assert_eq!(
        group.get_member(account(3)),
        Err(InkGroupError::NoMember {})
    );
    assert_eq!(group.get_total_weight(), 2);
    assert_eq!(group.get_members().unwrap(), vec![member(1, 1), member(2, 1)]);
}

#[test]
fn removal_wins_over_the_upsert_of_a_known_address() {
    let mut group = simple_group();
    let events = group
        .update_members(account(1), vec![member(2, 5)], vec![account(2)])
        .unwrap();
    assert_eq!(events, vec![updated(2), removed(2)]);
    assert_eq!(
        group.get_member(account(2)),
        Err(InkGroupError::NoMember {})
    );
    assert_eq!(group.get_total_weight(), 1);
    assert_eq!(group.get_members().unwrap(), vec![member(1, 1)]);

    let mut group = voting_group();
    group
        .update_members(account(1), vec![member(2, 5)], vec![account(2)])
        .unwrap();
    assert_eq!(group.get_total_weight(), 1);
    assert_eq!(group.get_members().unwrap(), vec![member(1, 1)]);
}

#[test]
fn removing_an_unknown_address_changes_nothing() {
    let mut group = simple_group();
    let events = group
        .update_members(account(1), vec![], vec![account(8), account(9)])
        .unwrap();
    assert_eq!(events, vec![]);
    assert_eq!(
        group.into_parts(),
        (account(1), 2, vec![member(1, 1), member(2, 1)])
    );

    let mut group = voting_group();
    group
        .update_members(account(1), vec![], vec![account(8)])
        .unwrap();
    assert_eq!(
        group.into_parts(),
        (account(1), 2, vec![member(1, 1), member(2, 1)])
    );
}

#[test]
fn removing_an_address_twice_removes_it_once() {
    let mut group = simple_group();
    let events = group
        .update_members(account(1), vec![], vec![account(2), account(2)])
        .unwrap();
    assert_eq!(events, vec![removed(2)]);
    assert_eq!(group.get_members().unwrap(), vec![member(1, 1)]);
    assert_eq!(group.get_total_weight(), 1);
}

#[test]
fn scenario_of_four_batches() {
    let (a, b, c) = (account(1), account(2), account(3));
    let (mut group, _) = InkGroupSimple::try_new(
        a,
        Some(a),
        vec![
            Member { addr: a, weight: 1 },
            Member { addr: b, weight: 1 },
        ],
    )
    .unwrap();
    assert_eq!(group.get_total_weight(), 2);

    group
        .update_members(a, vec![Member { addr: a, weight: 2 }], vec![])
        .unwrap();
    assert_eq!(group.get_member(a).unwrap().weight, 2);
    assert_eq!(group.get_total_weight(), 3);

    group
        .update_members(a, vec![Member { addr: c, weight: 1 }], vec![])
        .unwrap();
    assert_eq!(group.get_members().unwrap().len(), 3);
    assert_eq!(group.get_total_weight(), 4);

    group.update_members(a, vec![], vec![a]).unwrap();
    assert_eq!(group.get_members().unwrap().len(), 2);
    assert_eq!(group.get_total_weight(), 2);

    let refused = group.update_members(
        a,
        vec![
            Member { addr: b, weight: 1 },
            Member { addr: b, weight: 1 },
        ],
        vec![],
    );
    assert_eq!(
        refused,
        Err(InkGroupError::DuplicateMember { member: b })
    );
    assert_eq!(group.get_members().unwrap().len(), 2);
    assert_eq!(group.get_total_weight(), 2);
    assert_eq!(
        group.get_members().unwrap(),
        vec![Member { addr: b, weight: 1 }, Member { addr: c, weight: 1 }]
    );
}

#[test]
fn scenario_of_four_batches_without_notice() {
    let (a, b, c) = (account(1), account(2), account(3));
    let mut group = InkVotingGroup::try_new(
        a,
        Some(a),
        vec![
            Member { addr: a, weight: 1 },
            Member { addr: b, weight: 1 },
        ],
    )
    .unwrap();
    assert_eq!(group.get_total_weight(), 2);

    group
        .update_members(a, vec![Member { addr: a, weight: 2 }], vec![])
        .unwrap();
    assert_eq!(group.get_member(a).unwrap().weight, 2);
    assert_eq!(group.get_total_weight(), 3);

    group
        .update_members(a, vec![Member { addr: c, weight: 1 }], vec![])
        .unwrap();
    assert_eq!(group.get_members().unwrap().len(), 3);
    assert_eq!(group.get_total_weight(), 4);

    group.update_members(a, vec![], vec![a]).unwrap();
    assert_eq!(group.get_members().unwrap().len(), 2);
    assert_eq!(group.get_total_weight(), 2);

    let refused = group.update_members(
        a,
        vec![
            Member { addr: b, weight: 1 },
            Member { addr: b, weight: 1 },
        ],
        vec![],
    );
    assert_eq!(
        refused,
        Err(InkGroupError::DuplicateMember { member: b })
    );
    assert_eq!(group.get_members().unwrap().len(), 2);
    assert_eq!(group.get_total_weight(), 2);
}

#[test]
fn creation_without_members_is_refused() {
    assert_eq!(
        InkGroupSimple::try_new(account(1), None, vec![]).err(),
        Some(ContractError::InkGroup(InkGroupError::ZeroMembers {}))
    );
    assert_eq!(
        InkVotingGroup::try_new(account(1), Some(account(2)), vec![]).err(),
        Some(ContractError::InkGroup(InkGroupError::ZeroMembers {}))
    );
}

#[test]
fn creation_with_a_repeated_address_is_refused() {
    // not adjacent: the first entry that repeats an earlier one is named
    let members = vec![member(1, 1), member(2, 1), member(3, 1), member(2, 8), member(1, 1)];
    assert_eq!(
        InkGroupSimple::try_new(account(1), None, members.clone()).err(),
        Some(ContractError::InkGroup(InkGroupError::DuplicateMember {
            member: account(2)
        }))
    );
    assert_eq!(
        InkVotingGroup::try_new(account(1), None, members).err(),
        Some(ContractError::InkGroup(InkGroupError::DuplicateMember {
            member: account(2)
        }))
    );
}

#[test]
fn creation_with_weights_beyond_64_bits_is_refused() {
    let members = vec![member(1, u64::MAX), member(2, 1)];
    assert_eq!(
        InkGroupSimple::try_new(account(1), None, members.clone()).err(),
        Some(ContractError::InkGroup(InkGroupError::WeightOverflow {}))
    );
    assert_eq!(
        InkVotingGroup::try_new(account(1), None, members).err(),
        Some(ContractError::InkGroup(InkGroupError::WeightOverflow {}))
    );
}

#[test]
fn creation_with_the_largest_total_works() {
    let members = vec![member(1, u64::MAX - 1), member(2, 1), member(3, 0)];
    let (group, events) = InkGroupSimple::try_new(account(1), None, members).unwrap();
    assert_eq!(group.get_total_weight(), u64::MAX);
    assert_eq!(events, vec![added(1), added(2), added(3)]);
}

#[test]
fn creation_takes_the_given_admin_or_else_the_caller() {
    let members = vec![member(1, 1)];
    let (group, _) = InkGroupSimple::try_new(account(5), Some(account(6)), members.clone()).unwrap();
    assert_eq!(group.get_admin(), Ok(account(6)));
    let (group, _) = InkGroupSimple::try_new(account(5), None, members.clone()).unwrap();
    assert_eq!(group.get_admin(), Ok(account(5)));
    let group = InkVotingGroup::try_new(account(5), Some(account(6)), members.clone()).unwrap();
    assert_eq!(group.get_admin(), Ok(account(6)));
    let group = InkVotingGroup::try_new(account(5), None, members).unwrap();
    assert_eq!(group.get_admin(), Ok(account(5)));
}

#[test]
fn creation_reports_each_member_in_order() {
    let (group, events) =
        InkGroupSimple::try_new(account(9), None, vec![member(3, 2), member(1, 0), member(2, 4)])
            .unwrap();
    assert_eq!(events, vec![added(3), added(1), added(2)]);
    assert_eq!(group.get_total_weight(), 6);
    assert_eq!(
        group.get_members().unwrap(),
        vec![member(3, 2), member(1, 0), member(2, 4)]
    );
}

#[test]
fn update_beyond_64_bits_is_refused_and_changes_nothing() {
    let mut group = simple_group();
    let answer = group.update_members(
        account(1),
        vec![member(3, 5), member(4, u64::MAX - 6)],
        vec![],
    );
    assert_eq!(answer, Err(InkGroupError::WeightOverflow {}));
    assert_eq!(
        group.into_parts(),
        (account(1), 2, vec![member(1, 1), member(2, 1)])
    );

    let mut group = voting_group();
    let answer = group.update_members(account(1), vec![member(1, u64::MAX)], vec![]);
    assert_eq!(answer, Err(InkGroupError::WeightOverflow {}));
    assert_eq!(
        group.into_parts(),
        (account(1), 2, vec![member(1, 1), member(2, 1)])
    );
}

#[test]
fn update_is_refused_where_the_total_overflows_on_the_way() {
    // the removals would bring the total back into range, but they come too late
    let mut group = simple_group();
    let answer = group.update_members(
        account(1),
        vec![member(3, u64::MAX - 1)],
        vec![account(1), account(2)],
    );
    assert_eq!(answer, Err(InkGroupError::WeightOverflow {}));
    assert_eq!(group.get_total_weight(), 2);
}

#[test]
fn update_up_to_the_largest_total_works() {
    let mut group = simple_group();
    // the old weight leaves the total before the new one enters it
    let events = group
        .update_members(
            account(1),
            vec![member(1, u64::MAX - 1), member(2, 0), member(3, 1)],
            vec![],
        )
        .unwrap();
    assert_eq!(events, vec![updated(1), updated(2), added(3)]);
    assert_eq!(group.get_total_weight(), u64::MAX);
    assert_eq!(
        group.get_members().unwrap(),
        vec![member(1, u64::MAX - 1), member(2, 0), member(3, 1)]
    );
}

#[test]
fn update_reports_upserts_then_removals() {
    let mut group = simple_group();
    let events = group
        .update_members(
            account(1),
            vec![member(3, 3), member(1, 4), member(4, 0)],
            vec![account(7), account(2), account(3), account(2)],
        )
        .unwrap();
    assert_eq!(
        events,
        vec![added(3), updated(1), added(4), removed(2), removed(3)]
    );
    assert_eq!(group.get_members().unwrap(), vec![member(1, 4), member(4, 0)]);
    assert_eq!(group.get_total_weight(), 4);
}

#[test]
fn update_keeps_the_stored_order() {
    let mut group = voting_group();
    group
        .update_members(
            account(1),
            vec![member(5, 5), member(2, 2), member(3, 3), member(1, 9)],
            vec![account(5)],
        )
        .unwrap();
    assert_eq!(
        group.get_members().unwrap(),
        vec![member(1, 9), member(2, 2), member(3, 3)]
    );
    assert_eq!(group.get_total_weight(), 14);
}

#[test]
fn a_member_of_weight_zero_is_a_member() {
    let mut group = simple_group();
    group
        .update_members(account(1), vec![member(3, 0)], vec![])
        .unwrap();
    assert_eq!(group.get_member(account(3)), Ok(member(3, 0)));
    assert_eq!(group.get_total_weight(), 2);
    group
        .update_members(account(1), vec![member(1, 0)], vec![])
        .unwrap();
    assert_eq!(group.get_member(account(1)), Ok(member(1, 0)));
    assert_eq!(group.get_total_weight(), 1);
    let events = group
        .update_members(account(1), vec![], vec![account(3)])
        .unwrap();
    assert_eq!(events, vec![removed(3)]);
    assert_eq!(group.get_total_weight(), 1);
    assert_eq!(group.get_members().unwrap(), vec![member(1, 0), member(2, 1)]);
}

#[test]
fn a_group_without_members_cannot_list_them() {
    let mut group = simple_group();
    group
        .update_members(account(1), vec![], vec![account(1), account(2)])
        .unwrap();
    assert_eq!(group.get_members(), Err(InkGroupError::LogicErr {}));
    assert_eq!(group.get_total_weight(), 0);
    assert_eq!(group.get_admin(), Ok(account(1)));
    assert_eq!(group.get_member(account(1)), Err(InkGroupError::NoMember {}));
    // the admin can fill it again
    let events = group
        .update_members(account(1), vec![member(4, 4)], vec![])
        .unwrap();
    assert_eq!(events, vec![added(4)]);
    assert_eq!(group.get_members(), Ok(vec![member(4, 4)]));

    let mut group = voting_group();
    group
        .update_members(account(1), vec![], vec![account(2), account(1)])
        .unwrap();
    assert_eq!(group.get_members(), Err(InkGroupError::LogicErr {}));
}

#[test]
fn get_member_tells_accounts_apart() {
    let mut first = [0u8; 32];
    first[31] = 1;
    let mut second = [0u8; 32];
    second[0] = 1;
    let members = vec![
        Member {
            addr: AccountId::from(first),
            weight: 10,
        },
        Member {
            addr: AccountId::from(second),
            weight: 20,
        },
    ];
    let group = InkVotingGroup::try_new(account(1), None, members).unwrap();
    assert_eq!(group.get_member(AccountId::from(second)).unwrap().weight, 20);
    assert_eq!(group.get_member(AccountId::from(first)).unwrap().weight, 10);
    assert_eq!(
        group.get_member(AccountId::from([0u8; 32])),
        Err(InkGroupError::NoMember {})
    );
}

#[test]
fn the_admin_hands_over_the_group() {
    let mut group = simple_group();
    let events = group.update_admin(account(1), account(2)).unwrap();
    assert_eq!(
        events,
        vec![GroupEvent::AdminChanged(AdminUpdate {
            old_admin: account(1),
            new_admin: account(2),
        })]
    );
    assert_eq!(group.get_admin(), Ok(account(2)));
    assert_eq!(group.get_members().unwrap(), vec![member(1, 1), member(2, 1)]);
    assert_eq!(group.get_total_weight(), 2);
    // the old admin has lost the role, the new one has it
    assert_eq!(
        group.update_members(account(1), vec![member(3, 1)], vec![]),
        Err(InkGroupError::Unauthorized {})
    );
    assert_eq!(
        group.update_members(account(2), vec![member(3, 1)], vec![]),
        Ok(vec![added(3)])
    );

    let mut group = voting_group();
    assert_eq!(group.update_admin(account(1), account(2)), Ok(()));
    assert_eq!(group.get_admin(), Ok(account(2)));
    assert_eq!(
        group.update_admin(account(1), account(1)),
        Err(InkGroupError::Unauthorized {})
    );
}

#[test]
fn the_admin_may_name_itself() {
    let mut group = simple_group();
    let events = group.update_admin(account(1), account(1)).unwrap();
    assert_eq!(
        events,
        vec![GroupEvent::AdminChanged(AdminUpdate {
            old_admin: account(1),
            new_admin: account(1),
        })]
    );
    assert_eq!(
        group.into_parts(),
        (account(1), 2, vec![member(1, 1), member(2, 1)])
    );
}

#[test]
fn validate_unique_members_compares_every_pair() {
    assert_eq!(validate_unique_members(&[]), Ok(()));
    assert_eq!(validate_unique_members(&[member(1, 1)]), Ok(()));
    assert_eq!(
        validate_unique_members(&[member(1, 1), member(2, 1), member(3, 1)]),
        Ok(())
    );
    // equal weights are no repetition
    assert_eq!(
        validate_unique_members(&[member(1, 5), member(2, 5)]),
        Ok(())
    );
    assert_eq!(
        validate_unique_members(&[member(1, 1), member(1, 2)]),
        Err(InkGroupError::DuplicateMember {
            member: account(1)
        })
    );
    assert_eq!(
        validate_unique_members(&[member(1, 1), member(2, 1), member(1, 1)]),
        Err(InkGroupError::DuplicateMember {
            member: account(1)
        })
    );
    // the first entry that repeats an earlier one is named
    assert_eq!(
        validate_unique_members(&[member(1, 1), member(2, 1), member(2, 1), member(1, 1)]),
        Err(InkGroupError::DuplicateMember {
            member: account(2)
        })
    );
    assert_eq!(
        validate_unique_members(&[member(3, 1), member(1, 1), member(2, 1), member(1, 1), member(3, 1)]),
        Err(InkGroupError::DuplicateMember {
            member: account(1)
        })
    );
}

#[test]
fn find_member_gives_the_first_index() {
    let members = [member(4, 1), member(2, 1), member(4, 7), member(9, 0)];
    assert_eq!(find_member(&members, &account(4)), Some(0));
    assert_eq!(find_member(&members, &account(2)), Some(1));
    assert_eq!(find_member(&members, &account(9)), Some(3));
    assert_eq!(find_member(&members, &account(1)), None);
    assert_eq!(find_member(&[], &account(1)), None);
}

#[test]
fn checked_total_adds_up_or_declines() {
    assert_eq!(checked_total(&[]), Some(0));
    assert_eq!(checked_total(&[member(1, 3), member(2, 4), member(3, 0)]), Some(7));
    assert_eq!(
        checked_total(&[member(1, u64::MAX - 2), member(2, 2)]),
        Some(u64::MAX)
    );
    assert_eq!(checked_total(&[member(1, u64::MAX - 2), member(2, 3)]), None);
    assert_eq!(
        checked_total(&[member(1, u64::MAX), member(2, u64::MAX), member(3, 2)]),
        None
    );
}

#[test]
fn stored_parts_come_back_as_the_same_group() {
    let mut group = simple_group();
    group
        .update_members(account(1), vec![member(3, 3)], vec![account(1)])
        .unwrap();
    let (admin, total, members) = group.into_parts();
    assert_eq!(admin, account(1));
    assert_eq!(total, 4);
    assert_eq!(members, vec![member(2, 1), member(3, 3)]);
    let again = InkGroupSimple::restore(admin, total, members.clone()).unwrap();
    assert_eq!(again.get_admin(), Ok(account(1)));
    assert_eq!(again.get_total_weight(), 4);
    assert_eq!(again.get_members(), Ok(members.clone()));
    let voting = InkVotingGroup::restore(admin, total, members.clone()).unwrap();
    assert_eq!(voting.into_parts(), (admin, total, members));
    // a group that has lost its members comes back too
    let empty = InkVotingGroup::restore(account(1), 0, vec![]).unwrap();
    assert_eq!(empty.get_total_weight(), 0);
}

#[test]
fn stored_parts_that_do_not_fit_are_refused() {
    let members = vec![member(1, 1), member(2, 2)];
    assert_eq!(
        InkGroupSimple::restore(account(1), 4, members.clone()).err(),
        Some(InkGroupError::LogicErr {})
    );
    assert_eq!(
        InkVotingGroup::restore(account(1), 2, members).err(),
        Some(InkGroupError::LogicErr {})
    );
    let repeated = vec![member(1, 1), member(2, 2), member(1, 1)];
    assert_eq!(
        InkGroupSimple::restore(account(1), 4, repeated.clone()).err(),
        Some(InkGroupError::LogicErr {})
    );
    assert_eq!(
        InkVotingGroup::restore(account(1), 4, repeated).err(),
        Some(InkGroupError::LogicErr {})
    );
    let too_heavy = vec![member(1, u64::MAX), member(2, 2)];
    assert_eq!(
        InkGroupSimple::restore(account(1), 1, too_heavy).err(),
        Some(InkGroupError::LogicErr {})
    );
}

#[test]
fn a_group_error_becomes_a_contract_error() {
    assert_eq!(
        ContractError::from(InkGroupError::NoMember {}),
        ContractError::InkGroup(InkGroupError::NoMember {})
    );
    assert_eq!(
        ContractError::from(InkGroupError::DuplicateMember {
            member: account(3)
        }),
        ContractError::InkGroup(InkGroupError::DuplicateMember {
            member: account(3)
        })
    );
}

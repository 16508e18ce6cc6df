use iggy_core::group::ConsumerGroup;

#[test]
fn shares_differ_by_at_most_one() {
    let mut group = ConsumerGroup::new(1, "g".to_string(), 10);
    group.join(1);
    group.join(2);
    group.join(3);
    assert_eq!(group.member_partitions(1), vec![0, 1, 2, 3]);
    assert_eq!(group.member_partitions(2), vec![4, 5, 6]);
    assert_eq!(group.member_partitions(3), vec![7, 8, 9]);
    for p in 0..10u32 {
        let owner = group.partition_owner(p).unwrap();
        assert!(group.member_partitions(owner).contains(&p));
    }
    assert_eq!(group.partition_owner(10), None);
}

#[test]
fn join_and_leave_are_idempotent() {
    let mut group = ConsumerGroup::new(1, "g".to_string(), 4);
    group.join(1);
    group.join(1);
    assert_eq!(group.members_count(), 1);
    group.leave(2);
    assert_eq!(group.members_count(), 1);
    group.leave(1);
    assert_eq!(group.members_count(), 0);
    assert_eq!(group.partition_owner(0), None);
}

#[test]
fn more_members_than_partitions() {
    let mut group = ConsumerGroup::new(1, "g".to_string(), 2);
    group.join(1);
    group.join(2);
    group.join(3);
    assert_eq!(group.member_partitions(1), vec![0]);
    assert_eq!(group.member_partitions(2), vec![1]);
    assert!(group.member_partitions(3).is_empty());
    assert!(group.member_partitions(4).is_empty());
}

#[test]
fn cursor_rotates_through_the_share() {
    let mut group = ConsumerGroup::new(1, "g".to_string(), 5);
    group.join(1);
    group.join(2);
    assert_eq!(group.member_partitions(1), vec![0, 1, 2]);
    let mut seen = Vec::new();
    for _ in 0..4 {
        seen.push(group.current_partition(1).unwrap());
        group.advance(1);
    }
    assert_eq!(seen, vec![0, 1, 2, 0]);
    assert_eq!(group.current_partition(2), Some(3));
    assert_eq!(group.current_partition(7), None);
}

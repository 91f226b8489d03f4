//! Tests for the past-group-state cache: the pending-joiner lifecycle and
//! expiration-based eviction.

use mls_assist::past_group_states::PastGroupStates;
use mls_assist::pool::GroupEpoch;

fn joiner(tag: u8) -> Vec<u8> {
    vec![tag; 4]
}

#[test]
fn add_state_records_snapshot_for_joiner() {
    let mut cache = PastGroupStates::new();
    let j = joiner(1);
    cache.add_state(&GroupEpoch::new(1), vec![0xaa, 0xbb], &vec![j.clone()], 100);
    let tree = cache.get_for_joiner(&GroupEpoch::new(1), &j);
    assert_eq!(tree, Some(&vec![0xaa, 0xbb]));
    assert_eq!(cache.get_for_joiner(&GroupEpoch::new(2), &j), None);
    assert_eq!(cache.get_for_joiner(&GroupEpoch::new(1), &joiner(9)), None);
}

#[test]
fn add_state_with_no_joiners_is_a_no_op() {
    let mut cache = PastGroupStates::new();
    cache.add_state(&GroupEpoch::new(1), vec![1], &vec![], 100);
    assert_eq!(cache.get_for_joiner(&GroupEpoch::new(1), &joiner(1)), None);
}

#[test]
fn repointing_a_joiner_moves_it_to_the_new_epoch() {
    let mut cache = PastGroupStates::new();
    let j = joiner(1);
    cache.add_state(&GroupEpoch::new(1), vec![1], &vec![j.clone()], 100);
    cache.add_state(&GroupEpoch::new(2), vec![2], &vec![j.clone()], 101);
    assert_eq!(cache.get_for_joiner(&GroupEpoch::new(1), &j), None);
    assert_eq!(cache.get_for_joiner(&GroupEpoch::new(2), &j), Some(&vec![2]));
}

#[test]
fn removing_a_joiner_drops_its_snapshot() {
    let mut cache = PastGroupStates::new();
    let j1 = joiner(1);
    let j2 = joiner(2);
    cache.add_state(&GroupEpoch::new(5), vec![5], &vec![j1.clone(), j2.clone()], 100);
    cache.remove_potential_joiners(&vec![j1.clone()]);
    assert_eq!(cache.get_for_joiner(&GroupEpoch::new(5), &j1), None);
    // The second joiner still references the epoch, so the snapshot stays.
    assert_eq!(cache.get_for_joiner(&GroupEpoch::new(5), &j2), Some(&vec![5]));
    cache.remove_potential_joiners(&vec![j2.clone()]);
    assert_eq!(cache.get_for_joiner(&GroupEpoch::new(5), &j2), None);
}

#[test]
fn expiration_evicts_old_entries_and_keeps_fresh_ones() {
    let mut cache = PastGroupStates::new();
    let j1 = joiner(1);
    let j2 = joiner(2);
    cache.add_state(&GroupEpoch::new(1), vec![1], &vec![j1.clone()], 100);
    cache.add_state(&GroupEpoch::new(2), vec![2], &vec![j2.clone()], 180);
    // At time 200 with a 50-second window, the entry recorded at 100 has
    // expired while the one recorded at 180 has not.
    cache.remove_expired_states(200, 50);
    assert_eq!(cache.get_for_joiner(&GroupEpoch::new(1), &j1), None);
    assert_eq!(cache.get_for_joiner(&GroupEpoch::new(2), &j2), Some(&vec![2]));
}

#[test]
fn expiration_boundary_is_exclusive() {
    let mut cache = PastGroupStates::new();
    let j = joiner(1);
    cache.add_state(&GroupEpoch::new(1), vec![1], &vec![j.clone()], 100);
    // Exactly at the boundary (now == inserted_at + expiration) nothing is
    // evicted; one second past it, the entry goes.
    cache.remove_expired_states(150, 50);
    assert_eq!(cache.get_for_joiner(&GroupEpoch::new(1), &j), Some(&vec![1]));
    cache.remove_expired_states(151, 50);
    assert_eq!(cache.get_for_joiner(&GroupEpoch::new(1), &j), None);
}

#[test]
fn earlier_reference_time_expires_nothing() {
    let mut cache = PastGroupStates::new();
    let j = joiner(1);
    cache.add_state(&GroupEpoch::new(1), vec![1], &vec![j.clone()], 100);
    cache.remove_expired_states(10, 5);
    assert_eq!(cache.get_for_joiner(&GroupEpoch::new(1), &j), Some(&vec![1]));
}

#[test]
fn cache_to_bytes_is_stable_for_equal_content() {
    let mut a = PastGroupStates::new();
    let mut b = PastGroupStates::new();
    let j = joiner(3);
    a.add_state(&GroupEpoch::new(7), vec![7, 7], &vec![j.clone()], 42);
    b.add_state(&GroupEpoch::new(7), vec![7, 7], &vec![j.clone()], 42);
    assert_eq!(a.to_bytes(), b.to_bytes());
    assert!(!a.to_bytes().is_empty());
}

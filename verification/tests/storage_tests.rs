//! Tests for the in-memory reference storage provider: per-field round trips,
//! record pruning, bulk export/import, and shared-reference access to
//! different groups.

use mls_assist::memory_provider::{BytesMap, DataType, MlsAssistMemoryStorage, PublicGroupState};

#[test]
fn group_info_round_trip() {
    let store = MlsAssistMemoryStorage::new();
    assert_eq!(store.read_group_info(b"g1"), None);
    store.write_group_info(b"g1", vec![1, 2, 3]);
    assert_eq!(store.read_group_info(b"g1"), Some(vec![1, 2, 3]));
    store.write_group_info(b"g1", vec![4]);
    assert_eq!(store.read_group_info(b"g1"), Some(vec![4]));
    store.delete_group_info(b"g1");
    assert_eq!(store.read_group_info(b"g1"), None);
}

#[test]
fn past_group_states_round_trip() {
    let store = MlsAssistMemoryStorage::new();
    assert_eq!(store.read_past_group_states(b"g1"), None);
    store.write_past_group_states(b"g1", vec![9, 8, 7]);
    assert_eq!(store.read_past_group_states(b"g1"), Some(vec![9, 8, 7]));
    store.delete_past_group_states(b"g1");
    assert_eq!(store.read_past_group_states(b"g1"), None);
}

#[test]
fn public_group_state_field_round_trips() {
    let store = MlsAssistMemoryStorage::new();
    store.write_tree(b"g", vec![1]);
    store.write_interim_transcript_hash(b"g", vec![2]);
    store.write_context(b"g", vec![3]);
    store.write_confirmation_tag(b"g", vec![4]);
    assert_eq!(store.tree(b"g"), Some(vec![1]));
    assert_eq!(store.interim_transcript_hash(b"g"), Some(vec![2]));
    assert_eq!(store.group_context(b"g"), Some(vec![3]));
    assert_eq!(store.confirmation_tag(b"g"), Some(vec![4]));
    store.delete_tree(b"g");
    assert_eq!(store.tree(b"g"), None);
    // The other fields survive clearing one of them.
    assert_eq!(store.group_context(b"g"), Some(vec![3]));
}

#[test]
fn empty_field_reads_back_as_absent() {
    let store = MlsAssistMemoryStorage::new();
    store.write_tree(b"g", vec![]);
    assert_eq!(store.tree(b"g"), None);
}

#[test]
fn proposal_queue_round_trip() {
    let store = MlsAssistMemoryStorage::new();
    assert_eq!(store.queued_proposals(b"g"), vec![]);
    store.queue_proposal(b"g", b"r1", vec![1]);
    store.queue_proposal(b"g", b"r2", vec![2]);
    let mut queued = store.queued_proposals(b"g");
    queued.sort();
    assert_eq!(
        queued,
        vec![(b"r1".to_vec(), vec![1]), (b"r2".to_vec(), vec![2])]
    );
    store.remove_proposal(b"g", b"r1");
    assert_eq!(store.queued_proposals(b"g"), vec![(b"r2".to_vec(), vec![2])]);
    store.clear_proposal_queue(b"g");
    assert_eq!(store.queued_proposals(b"g"), vec![]);
}

#[test]
fn fully_emptied_record_is_pruned_from_bulk_export() {
    let fresh = MlsAssistMemoryStorage::new();
    let store = MlsAssistMemoryStorage::new();
    store.write_tree(b"g", vec![1]);
    store.write_context(b"g", vec![2]);
    store.delete_tree(b"g");
    store.delete_context(b"g");
    // Every field of the record is empty again, so the record is gone and the
    // bulk export equals a fresh store's.
    assert_eq!(store.serialize(), fresh.serialize());
}

#[test]
fn bulk_serialize_deserialize_round_trip() {
    let store = MlsAssistMemoryStorage::new();
    store.write_tree(b"g1", vec![1, 1]);
    store.write_confirmation_tag(b"g1", vec![2]);
    store.queue_proposal(b"g1", b"r", vec![3]);
    store.write_group_info(b"g2", vec![4, 4]);
    store.write_past_group_states(b"g3", vec![5]);
    let blob = store.serialize();
    let restored = MlsAssistMemoryStorage::deserialize(blob.as_slice())
        .expect("a bulk export must import cleanly");
    assert_eq!(restored.tree(b"g1"), Some(vec![1, 1]));
    assert_eq!(restored.confirmation_tag(b"g1"), Some(vec![2]));
    assert_eq!(restored.queued_proposals(b"g1"), vec![(b"r".to_vec(), vec![3])]);
    assert_eq!(restored.read_group_info(b"g2"), Some(vec![4, 4]));
    assert_eq!(restored.read_past_group_states(b"g3"), Some(vec![5]));
    // The re-export of the restored store is byte-identical.
    assert_eq!(restored.serialize(), blob);
}

#[test]
fn bulk_deserialize_rejects_garbage() {
    assert!(MlsAssistMemoryStorage::deserialize(&[1, 2, 3]).is_none());
    assert!(MlsAssistMemoryStorage::deserialize(&[]).is_none());
}

#[test]
fn writers_to_different_groups_do_not_interfere() {
    let store = MlsAssistMemoryStorage::new();
    // Two writers holding shared references to the same store target
    // different group ids; both writes land and are independently readable.
    let writer_a = &store;
    let writer_b = &store;
    writer_a.write_group_info(b"ga", vec![0xa]);
    writer_b.write_group_info(b"gb", vec![0xb]);
    writer_a.write_past_group_states(b"ga", vec![0xaa]);
    writer_b.write_past_group_states(b"gb", vec![0xbb]);
    assert_eq!(store.read_group_info(b"ga"), Some(vec![0xa]));
    assert_eq!(store.read_group_info(b"gb"), Some(vec![0xb]));
    assert_eq!(store.read_past_group_states(b"ga"), Some(vec![0xaa]));
    assert_eq!(store.read_past_group_states(b"gb"), Some(vec![0xbb]));
}

#[test]
fn public_group_state_emptiness() {
    let mut record = PublicGroupState::empty();
    assert!(record.is_empty());
    record.set_field(DataType::TreeSync, vec![1]);
    assert!(!record.is_empty());
    assert_eq!(record.field(DataType::TreeSync), &vec![1]);
    record.set_field(DataType::TreeSync, vec![]);
    assert!(record.is_empty());
    record.proposal_queue.insert(b"r", vec![2]);
    assert!(!record.is_empty());
}

#[test]
fn bytes_map_insert_get_remove() {
    let mut map = BytesMap::new();
    assert_eq!(map.len(), 0);
    map.insert(b"k1", vec![1]);
    map.insert(b"k2", vec![2]);
    map.insert(b"k1", vec![3]);
    assert_eq!(map.len(), 2);
    assert_eq!(map.get(b"k1"), Some(&vec![3]));
    assert_eq!(map.get(b"k2"), Some(&vec![2]));
    map.remove(b"k1");
    assert_eq!(map.get(b"k1"), None);
    assert_eq!(map.get(b"k2"), Some(&vec![2]));
}

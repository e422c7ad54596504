use lightqos::snapshot::{operation_changes, QuantumSnapshot, QuantumTransaction, SnapshotManager};
use lightqos::tlm::ExpirationPolicy;

/// A one-qubit state and its qubit count, as the captured data.
fn create_test_state(amplitude: f64) -> (Vec<f64>, usize) {
    (vec![amplitude, (1.0 - amplitude * amplitude).sqrt()], 1)
}

#[test]
fn test_snapshot_creation() {
    let state = create_test_state(0.8);
    let snapshot = QuantumSnapshot::new("test".to_string(), state, 0, 0);

    assert_eq!(snapshot.label, "test");
    assert_eq!(snapshot.data.1, 1);
}

#[test]
fn test_manager_creation() {
    let manager: SnapshotManager<(Vec<f64>, usize)> = SnapshotManager::new(10, ExpirationPolicy::FIFO);
    assert_eq!(manager.count(), 0);
}

#[test]
fn test_create_and_retrieve() {
    let mut manager = SnapshotManager::new(10, ExpirationPolicy::FIFO);

    let state = create_test_state(0.7);
    let id = manager.create_snapshot("checkpoint1".to_string(), state, 0, 1);

    assert_eq!(manager.count(), 1);

    let retrieved = manager.get_snapshot(id);
    assert!(retrieved.is_some());
    assert_eq!(retrieved.unwrap().label, "checkpoint1");
}

#[test]
fn test_rollback() {
    let mut manager = SnapshotManager::new(10, ExpirationPolicy::FIFO);

    let id1 = manager.create_snapshot("s1".to_string(), create_test_state(0.9), 0, 1);
    let _id2 = manager.create_snapshot("s2".to_string(), create_test_state(0.5), 0, 2);

    let result = manager.rollback_to(id1).unwrap();

    assert!(result.success);
    assert_eq!(result.to_id, id1);
    assert_eq!(manager.current_snapshot, Some(id1));
}

#[test]
fn test_expiration_policy() {
    let mut manager = SnapshotManager::new(2, ExpirationPolicy::FIFO);

    manager.create_snapshot("s1".to_string(), create_test_state(0.9), 0, 1);
    manager.create_snapshot("s2".to_string(), create_test_state(0.8), 0, 2);
    manager.create_snapshot("s3".to_string(), create_test_state(0.7), 0, 3);

    assert_eq!(manager.count(), 2);

    assert!(manager.get_snapshot_by_label("s1").is_none());
    assert!(manager.get_snapshot_by_label("s2").is_some());
    assert!(manager.get_snapshot_by_label("s3").is_some());
}

#[test]
fn test_transaction() {
    let mut manager = SnapshotManager::new(10, ExpirationPolicy::FIFO);
    manager.create_snapshot("initial".to_string(), create_test_state(0.9), 0, 1);

    let mut tx: QuantumTransaction<&str> = QuantumTransaction::begin(&manager).unwrap();
    tx.add_operation("H q0");
    tx.commit();

    assert!(tx.committed);
}

#[test]
fn importance_policy_expires_lowest_fidelity() {
    let mut manager = SnapshotManager::new(2, ExpirationPolicy::ImportanceBased);
    manager.create_snapshot("good".to_string(), 0u8, 90, 1);
    manager.create_snapshot("poor".to_string(), 0u8, 10, 2);
    manager.create_snapshot("fair".to_string(), 0u8, 50, 3);
    assert_eq!(manager.count(), 2);
    assert!(manager.get_snapshot_by_label("poor").is_none());
    assert_eq!(manager.timeline.len(), 2);
    let best = manager.find_best_fidelity().unwrap();
    assert_eq!(manager.get_snapshot(best).unwrap().label, "good");
}

#[test]
fn keep_all_policy_grows() {
    let mut manager = SnapshotManager::new(1, ExpirationPolicy::KeepAll);
    manager.create_snapshot("a".to_string(), 0u8, 0, 1);
    manager.create_snapshot("b".to_string(), 0u8, 0, 2);
    assert_eq!(manager.count(), 2);
}

#[test]
fn rollback_errors_and_distance() {
    let mut manager = SnapshotManager::new(10, ExpirationPolicy::FIFO);
    assert_eq!(manager.rollback_to(7).unwrap_err(), "Snapshot not found");
    assert_eq!(manager.rollback_previous().unwrap_err(), "No current snapshot");
    assert_eq!(manager.forward_next().unwrap_err(), "No current snapshot");
    assert_eq!(manager.forward_to_latest().unwrap_err(), "No snapshot available");
    assert_eq!(manager.rollback_to_label("nope").unwrap_err(), "Snapshot 'nope' not found");

    let a = manager.create_snapshot("a".to_string(), 0u8, 0, 100);
    let b = manager.create_snapshot("b".to_string(), 0u8, 0, 250);
    // going back in time counts no distance, going forward counts the gap
    let back = manager.rollback_to(a).unwrap();
    assert_eq!((back.from_id, back.to_id, back.time_diff_ns), (b, a, 0));
    let fwd = manager.rollback_to_label("b").unwrap();
    assert_eq!((fwd.from_id, fwd.to_id, fwd.time_diff_ns), (a, b, 150));
    let stats = manager.get_statistics();
    assert_eq!(stats.total_rollbacks, 2);
    assert_eq!(stats.successful_rollbacks, 2);
    assert_eq!(stats.total_rollback_distance_ns, 150);
    assert_eq!(stats.total_snapshots_created, 2);
}

#[test]
fn timeline_navigation() {
    let mut manager = SnapshotManager::new(10, ExpirationPolicy::LRU);
    let a = manager.create_snapshot("a".to_string(), 0u8, 0, 10);
    let b = manager.create_snapshot("b".to_string(), 0u8, 0, 20);
    let c = manager.create_snapshot("c".to_string(), 0u8, 0, 30);
    assert_eq!(manager.get_current_snapshot().unwrap().id, c);
    assert_eq!(manager.forward_next().unwrap_err(), "No later snapshot found");
    assert_eq!(manager.rollback_previous().unwrap().to_id, b);
    assert_eq!(manager.auto_rollback_on_violation(99).unwrap().to_id, a);
    assert_eq!(manager.rollback_previous().unwrap_err(), "No previous snapshot found");
    assert_eq!(manager.forward_next().unwrap(), b);
    assert_eq!(manager.forward_to_latest().unwrap(), c);
    assert_eq!(manager.current_snapshot, Some(c));
}

#[test]
fn listing_is_ordered_by_time() {
    let mut manager = SnapshotManager::new(10, ExpirationPolicy::FIFO);
    manager.create_snapshot("late".to_string(), 0u8, 0, 30);
    manager.create_snapshot("early".to_string(), 0u8, 0, 10);
    manager.create_snapshot("middle".to_string(), 0u8, 0, 20);
    let labels: Vec<&str> = manager.list_snapshots().iter().map(|s| s.label.as_str()).collect();
    assert_eq!(labels, vec!["early", "middle", "late"]);
}

#[test]
fn clear_and_transaction_rollback() {
    let mut manager = SnapshotManager::new(10, ExpirationPolicy::FIFO);
    assert!(QuantumTransaction::<u8>::begin(&manager).is_err());
    let first = manager.create_snapshot("first".to_string(), 0u8, 0, 1);
    let mut tx: QuantumTransaction<u8> = QuantumTransaction::begin(&manager).unwrap();
    assert_eq!(tx.initial_snapshot, first);
    manager.create_snapshot("second".to_string(), 0u8, 0, 2);
    assert!(tx.rollback(&mut manager).is_ok());
    assert_eq!(manager.current_snapshot, Some(first));

    manager.clear();
    assert_eq!(manager.count(), 0);
    assert!(manager.get_current_snapshot().is_none());
    assert!(tx.rollback(&mut manager).is_err());
    let default_manager: SnapshotManager<u8> = SnapshotManager::default();
    assert_eq!(default_manager.max_snapshots, 100);
}

#[test]
fn operation_changes_between_histories() {
    let (added, removed) = operation_changes(&vec![1, 2, 3], &vec![2, 3, 4, 5]);
    assert_eq!(added, vec![4, 5]);
    assert_eq!(removed, vec![1]);
}

#[test]
fn rollback_reports_restored_state_and_operation_changes() {
    let mut manager = SnapshotManager::new(10, ExpirationPolicy::FIFO);
    let a = manager.create_snapshot("a".to_string(), 7u8, 0, 10);
    let _b = manager.create_snapshot("b".to_string(), 9u8, 0, 20);
    let back = manager.rollback_to(a).unwrap();
    assert_eq!(back.restored_state, 7u8);
    assert!(back.operations_added.is_empty());
    assert!(back.operations_removed.is_empty());
    assert!(manager.get_snapshot(a).unwrap().operation_ids.is_empty());
}

#[test]
fn snapshot_operation_history_grows_in_order() {
    let mut snap = QuantumSnapshot::new("s".to_string(), 0u8, 0, 0);
    snap.add_operation(3);
    snap.add_operation(5);
    assert_eq!(snap.operation_ids, vec![3, 5]);
    let (added, removed) = operation_changes(&vec![1, 3], &snap.operation_ids);
    assert_eq!((added, removed), (vec![5], vec![1]));
}

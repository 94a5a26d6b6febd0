use remora::base_types::{Object, ObjectID, Owner};
use remora::checkpoint::state_collector::StateCollector;
use remora::checkpoint::{EpochId, EpochObjectStates};
use remora::primary::pause_barrier::{Entry, PauseBarrier};

fn create_test_object(id: ObjectID) -> Object {
    create_test_object_with_version(id, 1)
}

fn create_test_object_with_version(id: ObjectID, version: u64) -> Object {
    Object::new_gas_coin(version, id, 100, Owner::Immutable)
}

#[test]
fn test_state_collector_new() {
    let mut collector = StateCollector::new(3);
    assert_eq!(collector.merged_state_len(), 0);
}

#[test]
fn test_state_collector_with_store() {
    let mut collector = StateCollector::new(2);
    assert_eq!(collector.merged_state_len(), 0);
}

#[test]
fn test_state_collector_process_snapshot() {
    let mut collector = StateCollector::new(2);

    // Create test objects
    let obj_id1 = (0x51, 1);
    let obj_id2 = (0x51, 2);
    let obj1 = create_test_object(obj_id1);
    let obj2 = create_test_object(obj_id2);

    let mut snapshot = EpochObjectStates::new();
    snapshot.insert(obj_id1, obj1);
    snapshot.insert(obj_id2, obj2);

    // Process snapshot from proxy 1 with completed_up_to = 5
    collector.process_snapshot(1, 1, &snapshot);
    // Check proxy 1's persist index
    assert_eq!(collector.get_proxy_persist_index(1), 1);
    // merged_state should be EMPTY until all proxies report (two-phase commit)
    assert_eq!(collector.merged_state_len(), 0);

    // Process snapshot from proxy 2
    collector.process_snapshot(2, 1, &snapshot);
    // Check proxy 2's persist index
    assert_eq!(collector.get_proxy_persist_index(2), 1);
    // Minimum should be 5
    assert_eq!(collector.get_persist_index(), 1);
    // NOW merged_state should contain both objects (all proxies reported)
    assert_eq!(collector.merged_state_len(), 2);
}

#[test]
fn test_state_collector_multiple_epochs() {
    let mut collector = StateCollector::new(2);

    // Process snapshots for different batches - no ordering required
    let snapshot = EpochObjectStates::new();
    collector.process_snapshot(1, 2, &snapshot);

    // Proxy 1 should be at completed_up_to 2
    assert_eq!(collector.get_proxy_persist_index(1), 2);

    // Process snapshot for batch 1 from proxy 2 - out of order is fine
    collector.process_snapshot(2, 1, &snapshot);

    // Proxy 2 should be at completed_up_to 1
    assert_eq!(collector.get_proxy_persist_index(2), 1);
    // The minimum completed epoch is 1, so the persist index should be 1.
    assert_eq!(collector.get_persist_index(), 1);
}

#[test]
fn test_state_collector_per_proxy_tracking() {
    let mut collector = StateCollector::new(3);

    // Process snapshots from different proxies at different completed_up_to values
    let snapshot = EpochObjectStates::new();

    collector.process_snapshot(0, 3, &snapshot);
    collector.process_snapshot(1, 1, &snapshot);
    collector.process_snapshot(2, 2, &snapshot);

    // Check individual persist indices
    assert_eq!(collector.get_proxy_persist_index(0), 3);
    assert_eq!(collector.get_proxy_persist_index(1), 1);
    assert_eq!(collector.get_proxy_persist_index(2), 2);

    // Global persist index should be minimum (5)
    assert_eq!(collector.get_persist_index(), 1);
}

#[test]
fn test_state_collector_merge_snapshots() {
    let mut collector = StateCollector::new(2);

    // Create snapshots with overlapping objects
    let obj_id1 = (0x51, 1);
    let obj_id2 = (0x51, 2);
    let obj_id3 = (0x51, 3);

    let obj1_v1 = create_test_object(obj_id1);
    let obj1_v2 = create_test_object(obj_id1); // Same ID, different object
    let obj2 = create_test_object(obj_id2);
    let obj3 = create_test_object(obj_id3);

    // Proxy 1 snapshot
    let mut snapshot1 = EpochObjectStates::new();
    snapshot1.insert(obj_id1, obj1_v1);
    snapshot1.insert(obj_id2, obj2);

    // Proxy 2 snapshot (overlaps with obj_id1)
    let mut snapshot2 = EpochObjectStates::new();
    snapshot2.insert(obj_id1, obj1_v2); // Different version of obj_id1
    snapshot2.insert(obj_id3, obj3);

    // Process both snapshots
    collector.process_snapshot(1, 1, &snapshot1);
    collector.process_snapshot(2, 1, &snapshot2);

    // Both proxies should be at completed_up_to 5
    assert_eq!(collector.get_proxy_persist_index(1), 1);
    assert_eq!(collector.get_proxy_persist_index(2), 1);
    // All 3 objects should be in merged state (last-writer-wins for obj_id1)
    assert_eq!(collector.merged_state_len(), 3);
}

#[test]
fn test_per_proxy_independent_progress() {
    // Test that each proxy can progress independently through batches
    let mut collector = StateCollector::new(3);
    let snapshot = EpochObjectStates::new();

    // Proxy 0 reports up to batch 10
    collector.process_snapshot(0, 3, &snapshot);

    // Proxy 1 reports up to batch 5
    collector.process_snapshot(1, 1, &snapshot);

    // Proxy 2 reports up to batch 7
    collector.process_snapshot(2, 2, &snapshot);

    // Each proxy should track its own progress
    assert_eq!(collector.get_proxy_persist_index(0), 3);
    assert_eq!(collector.get_proxy_persist_index(1), 1);
    assert_eq!(collector.get_proxy_persist_index(2), 2);

    // Global persist index is the minimum (safe point for pruning)
    assert_eq!(collector.get_persist_index(), 1);
}

#[test]
fn test_initial_snapshot_with_zero_completed_up_to() {
    // Test that initial snapshots with completed_up_to = 0 don't trigger commit
    let mut collector = StateCollector::new(2);

    // Create test objects
    let obj_id1 = (0x51, 1);
    let obj_id2 = (0x51, 2);
    let obj1 = create_test_object(obj_id1);
    let obj2 = create_test_object(obj_id2);

    let mut snapshot = EpochObjectStates::new();
    snapshot.insert(obj_id1, obj1);
    snapshot.insert(obj_id2, obj2);

    // Both proxies send initial snapshots with completed_up_to = 0
    collector.process_snapshot(0, 0, &snapshot);

    collector.process_snapshot(1, 0, &snapshot);

    // Both proxies should be at completed_up_to 0
    assert_eq!(collector.get_proxy_persist_index(0), 0);
    assert_eq!(collector.get_proxy_persist_index(1), 0);
    assert_eq!(collector.get_persist_index(), 0);

    // IMPORTANT: merged_state should be EMPTY because completed_up_to = 0
    // means no batches have been completed yet, so we shouldn't commit
    assert_eq!(collector.merged_state_len(), 0);
}

#[test]
fn test_initial_then_real_snapshots() {
    // Test the progression: initial snapshot (0) -> real snapshot (1+)
    let mut collector = StateCollector::new(2);

    let obj_id1 = (0x51, 1);
    let obj1_v1 = create_test_object(obj_id1);
    let obj1_v2 = create_test_object(obj_id1);

    // Initial snapshots with completed_up_to = 0
    let mut initial_snapshot = EpochObjectStates::new();
    initial_snapshot.insert(obj_id1, obj1_v1);

    collector.process_snapshot(0, 0, &initial_snapshot);
    collector.process_snapshot(1, 0, &initial_snapshot);

    // No commit should happen
    assert_eq!(collector.merged_state_len(), 0);

    // Now proxies complete batch 1 and send real snapshots
    let mut real_snapshot = EpochObjectStates::new();
    real_snapshot.insert(obj_id1, obj1_v2);

    collector.process_snapshot(0, 1, &real_snapshot);

    // Still no commit (only 1 proxy reported batch 1)
    assert_eq!(collector.merged_state_len(), 0);

    collector.process_snapshot(1, 1, &real_snapshot);

    // NOW commit should happen (both proxies at batch 1)
    assert_eq!(collector.get_persist_index(), 1);
    assert_eq!(collector.merged_state_len(), 1);
}

#[test]
fn test_mixed_zero_and_nonzero_snapshots() {
    // Test when one proxy is at 0 and another is ahead
    let mut collector = StateCollector::new(2);

    let snapshot = EpochObjectStates::new();

    // Proxy 0 sends initial snapshot (completed_up_to = 0)
    collector.process_snapshot(0, 0, &snapshot);

    // Proxy 1 has already completed batch 5
    collector.process_snapshot(1, 5, &snapshot);

    // Persist indices should be tracked independently
    assert_eq!(collector.get_proxy_persist_index(0), 0);
    assert_eq!(collector.get_proxy_persist_index(1), 5);

    // Global persist index should be the minimum (0)
    assert_eq!(collector.get_persist_index(), 0);

    // No commit should happen (can't commit batch 0)
    assert_eq!(collector.merged_state_len(), 0);
}

#[test]
fn test_epoch_commit_is_isolated() {
    let mut collector = StateCollector::new(2);

    // --- Epoch 5 Setup ---
    let obj_id_1 = (0x51, 1);
    let obj_1 = create_test_object(obj_id_1);
    let mut snapshot_1 = EpochObjectStates::new();
    snapshot_1.insert(obj_id_1, obj_1);

    // --- Epoch 6 Setup ---
    let obj_id_2 = (0x51, 2);
    let obj_2 = create_test_object(obj_id_2);
    let mut snapshot_2 = EpochObjectStates::new();
    snapshot_2.insert(obj_id_2, obj_2);

    // --- Simulate Race ---

    // 1. Proxy 1 reports for epoch 1. This should not trigger a commit.
    collector.process_snapshot(1, 1, &snapshot_1);
    assert_eq!(collector.merged_state_len(), 0);
    assert!(collector.is_epoch_pending(EpochId(1)));

    // 2. Before epoch 1 is committed, proxy 1 reports for epoch 2.
    // This should also not trigger a commit.
    collector.process_snapshot(1, 2, &snapshot_2);
    assert_eq!(collector.merged_state_len(), 0);
    assert!(collector.is_epoch_pending(EpochId(2)));

    // 3. Now, proxy 2 reports for epoch 1. This SHOULD trigger the commit for epoch 1.
    collector.process_snapshot(2, 1, &snapshot_1);

    // --- Assertions ---

    // The commit for epoch 1 should be complete.
    assert_eq!(collector.get_persist_index(), 1);

    // merged_state should contain ONLY the object from epoch 1.
    assert_eq!(collector.merged_state_len(), 1);
    assert!(collector.get_object(&obj_id_1).is_some());
    assert!(collector.get_object(&obj_id_2).is_none()); // Crucial check

    // The temp state for epoch 1 should be gone.
    assert!(!collector.is_epoch_pending(EpochId(1)));

    // The temp state for epoch 2 should still be there.
}

#[test]
fn test_late_duplicate_snapshot_is_ignored() {
    let mut collector = StateCollector::new(1);
    let obj_id = (0x51, 1);

    // First, process a snapshot for epoch 1 to satisfy sequential commit logic.
    let obj_v1 = create_test_object_with_version(obj_id, 1);
    let mut snapshot_1 = EpochObjectStates::new();
    snapshot_1.insert(obj_id, obj_v1.clone());
    collector.process_snapshot(0, 1, &snapshot_1);
    assert_eq!(collector.get_persist_index(), 1);

    let obj_v2 = create_test_object_with_version(obj_id, 2);
    let mut snapshot_2 = EpochObjectStates::new();
    snapshot_2.insert(obj_id, obj_v2);

    // 1. Process a snapshot for epoch 2.
    collector.process_snapshot(0, 2, &snapshot_2);

    // Assert that the proxy's index is 2 and epoch 2 was committed.
    assert_eq!(collector.get_proxy_persist_index(0), 2);
    assert_eq!(collector.get_persist_index(), 2);
    assert_eq!(collector.pending_epochs(), 0); // Should be cleaned up after commit.

    // 2. Process a late/duplicate snapshot for epoch 1.
    let obj_v1_again = create_test_object_with_version(obj_id, 1);
    let mut snapshot_1_again = EpochObjectStates::new();
    snapshot_1_again.insert(obj_id, obj_v1_again);
    collector.process_snapshot(0, 1, &snapshot_1_again);

    // 3. Assert that the state has not changed.
    // The proxy's index should NOT regress to 1.
    assert_eq!(collector.get_proxy_persist_index(0), 2);
    // The last committed epoch should still be 2.
    assert_eq!(collector.get_persist_index(), 2);
    // No new temp state for epoch 1 should have been created.
    assert!(!collector.is_epoch_pending(EpochId(1)));
}

#[test]
fn test_remove_proxy_persist_index_basic() {
    // Test that removing a proxy from persist index tracking works correctly
    let mut collector = StateCollector::new(3);
    let snapshot = EpochObjectStates::new();

    // Simulate 3 proxies reporting epoch 1
    for proxy_id in 0..3 {
        collector.process_snapshot(proxy_id, 1, &snapshot);
    }

    // Epoch 1 should be committed
    assert_eq!(collector.get_persist_index(), 1);
    assert_eq!(collector.tracked_proxies(), 3);

    // Remove proxy 2 (simulating retirement)
    collector.remove_proxy_persist_index(2);

    // Should now only have 2 proxies tracked
    assert_eq!(collector.tracked_proxies(), 2);
    assert!(collector.get_proxy_persist_index(0) == 1);
    assert!(collector.get_proxy_persist_index(1) == 1);
    assert!(collector.get_proxy_persist_index(2) == 0);
}

#[test]
fn test_remove_proxy_allows_epoch_completion() {
    // Test that removing a retired proxy allows future epochs to commit
    // without waiting for the (now frozen) retired proxy
    let mut collector = StateCollector::new(3);
    let snapshot = EpochObjectStates::new();

    // Epoch 1: all 3 proxies report
    for proxy_id in 0..3 {
        collector.process_snapshot(proxy_id, 1, &snapshot);
    }
    assert_eq!(collector.get_persist_index(), 1);

    // Proxy 2 retires after epoch 1 - remove from tracking
    collector.remove_proxy_persist_index(2);

    // Set expected proxies for epoch 2 to reflect the new count
    collector.set_expected_proxies_for_epoch(EpochId(2), 2);

    // Epoch 2: only remaining 2 proxies report
    for proxy_id in 0..2 {
        collector.process_snapshot(proxy_id, 2, &snapshot);
    }

    // Epoch 2 should now be committed (only 2 proxies needed)
    assert_eq!(
        collector.get_persist_index(),
        2,
        "Epoch 2 should commit with only the remaining 2 proxies"
    );
}

#[test]
fn test_retired_proxy_blocks_without_removal() {
    // Test that without removing the retired proxy, epoch completion is blocked
    let mut collector = StateCollector::new(3);
    let snapshot = EpochObjectStates::new();

    // Epoch 1: all 3 proxies report
    for proxy_id in 0..3 {
        collector.process_snapshot(proxy_id, 1, &snapshot);
    }
    assert_eq!(collector.get_persist_index(), 1);

    // Proxy 2 retires but is NOT removed 
    // Set expected proxies for epoch 2, but DON'T remove proxy 2
    collector.set_expected_proxies_for_epoch(EpochId(2), 2);

    // Epoch 2: only remaining 2 proxies report
    for proxy_id in 0..2 {
        collector.process_snapshot(proxy_id, 2, &snapshot);
    }

    // Epoch 2 should NOT be committed because min(persist_indices) still includes
    // proxy 2 at epoch 1
    assert_eq!(
        collector.get_persist_index(),
        1,
        "Retired proxy blocks epoch commit when not removed"
    );

    // Now remove the retired proxy
    collector.remove_proxy_persist_index(2);

    // Re-trigger epoch check by processing a no-op snapshot
    collector.process_snapshot(0, 2, &snapshot);

    // Now epoch 2 should be committed
    assert_eq!(
        collector.get_persist_index(),
        2,
        "Epoch 2 should commit after removing retired proxy"
    );
}

#[test]
fn test_out_of_order_commit_preserves_latest_version() {
    let mut collector = StateCollector::new(2);
    let obj_id = (0x51, 1);

    // 1. A newer version (v4 from epoch 3) is committed.
    let mut epoch_3_state = EpochObjectStates::new();
    epoch_3_state.insert(obj_id, create_test_object_with_version(obj_id, 4));
    collector.process_snapshot(0, 3, &epoch_3_state);
    assert!(collector.commit_epoch(EpochId(3), 2));
    assert_eq!(collector.get_persisted_version(&obj_id), Some(4));

    // 2. An older version (v3 from epoch 2) is committed after it.
    let mut epoch_2_state = EpochObjectStates::new();
    epoch_2_state.insert(obj_id, create_test_object_with_version(obj_id, 3));
    collector.process_snapshot(0, 2, &epoch_2_state);
    assert!(collector.commit_epoch(EpochId(2), 1));

    // 3. The stale version is rejected.
    assert_eq!(
        collector.get_persisted_version(&obj_id),
        Some(4),
        "Stale version v3 should have been rejected"
    );
}

// The commit runs as a task of the barrier: a pause is over only once the
// whole commit, with the last committed epoch, is done.
#[test]
fn test_commit_is_atomic_with_pause() {
    let mut barrier = PauseBarrier::new();
    let mut collector = StateCollector::new(2);
    let snapshot = EpochObjectStates::new();

    collector.process_snapshot(0, 1, &snapshot);
    assert_eq!(collector.get_persist_index(), 0);

    let mut entry = Entry::Waiting;
    while entry != Entry::Entered {
        entry = barrier.enter(entry);
    }
    barrier.pause();
    assert!(!barrier.is_drained());
    collector.process_snapshot(1, 1, &snapshot);
    barrier.leave();
    assert!(barrier.is_drained());
    assert_eq!(
        collector.get_persist_index(),
        1,
        "Snapshot was taken before commit operation completed."
    );
}

#[test]
fn completed_epochs_are_committed_in_order() {
    let mut collector = StateCollector::new(2);
    let snapshot = EpochObjectStates::new();
    assert_eq!(collector.process_snapshot(0, 1, &snapshot), vec![]);
    assert_eq!(collector.process_snapshot(0, 2, &snapshot), vec![]);
    assert!(!collector.is_epoch_complete(EpochId(1)));
    assert_eq!(
        collector.process_snapshot(1, 2, &snapshot),
        vec![EpochId(1), EpochId(2)]
    );
    assert!(collector.is_epoch_complete(EpochId(2)));
    assert!(!collector.is_epoch_complete(EpochId(3)));
}

#[test]
fn unknown_epoch_is_not_committed() {
    let mut collector = StateCollector::new(1);
    assert!(!collector.commit_epoch(EpochId(7), 0));
    assert_eq!(collector.get_persist_index(), 0);
}

#[test]
fn retirement_snapshot_keeps_newer_versions() {
    let mut collector = StateCollector::new(1);
    let mut first = EpochObjectStates::new();
    first.insert((1, 1), create_test_object_with_version((1, 1), 5));
    collector.merge_retirement_snapshot(&first);
    assert_eq!(collector.get_persisted_version(&(1, 1)), Some(5));
    let mut second = EpochObjectStates::new();
    second.insert((1, 1), create_test_object_with_version((1, 1), 4));
    second.insert((1, 2), create_test_object_with_version((1, 2), 2));
    collector.merge_retirement_snapshot(&second);
    assert_eq!(collector.get_persisted_version(&(1, 1)), Some(5));
    assert_eq!(collector.get_persisted_version(&(1, 2)), Some(2));
    assert_eq!(collector.get_persisted_version(&(1, 3)), None);
    assert_eq!(collector.get_persist_index(), 0);
}

#[test]
fn expected_proxies_are_kept_per_epoch() {
    let mut collector = StateCollector::new(3);
    collector.set_expected_proxies_for_epoch(EpochId(1), 1);
    collector.set_expected_proxies_for_epoch(EpochId(2), 2);
    assert_eq!(collector.get_expected_proxies_for_epoch(EpochId(1)), 1);
    assert_eq!(collector.get_expected_proxies_for_epoch(EpochId(2)), 2);
    assert_eq!(collector.get_expected_proxies_for_epoch(EpochId(3)), 3);
    collector.cleanup_expected_proxies_up_to(EpochId(1));
    assert_eq!(collector.get_expected_proxies_for_epoch(EpochId(1)), 3);
    assert_eq!(collector.get_expected_proxies_for_epoch(EpochId(2)), 2);
}

fn snapshot_of(objects: &[(ObjectID, u64)]) -> EpochObjectStates {
    let mut snapshot = EpochObjectStates::new();
    for (id, version) in objects {
        snapshot.insert(*id, create_test_object_with_version(*id, *version));
    }
    snapshot
}

#[test]
fn snapshots_only_move_forward() {
    let mut collector = StateCollector::new(2);
    collector.process_snapshot(1, 1, &snapshot_of(&[((1, 1), 5)]));
    collector.process_snapshot(2, 1, &snapshot_of(&[((1, 2), 3)]));
    assert_eq!(collector.get_persist_index(), 1);
    collector.process_snapshot(1, 2, &snapshot_of(&[((1, 1), 4)]));
    assert_eq!(collector.get_proxy_persist_index(1), 2);
    assert_eq!(collector.get_proxy_persist_index(2), 1);
    // An earlier report does not take a proxy back.
    collector.process_snapshot(1, 1, &snapshot_of(&[]));
    assert_eq!(collector.get_proxy_persist_index(1), 2);
    assert_eq!(collector.get_persist_index(), 1);
    let committed = collector.process_snapshot(2, 7, &snapshot_of(&[((1, 2), 9)]));
    assert_eq!(committed, vec![EpochId(2)]);
    assert_eq!(collector.get_proxy_persist_index(2), 7);
    assert_eq!(collector.get_persist_index(), 2);
    // The older state of the second epoch does not replace the newer one, and
    // what is reported for a later epoch waits.
    assert_eq!(collector.get_persisted_version(&(1, 1)), Some(5));
    assert_eq!(collector.get_persisted_version(&(1, 2)), Some(3));
}

#[test]
fn stale_snapshots_are_never_merged() {
    let mut collector = StateCollector::new(1);
    collector.process_snapshot(1, 1, &snapshot_of(&[((1, 1), 5)]));
    assert_eq!(collector.get_persist_index(), 1);
    // For a committed epoch, and for none.
    assert!(collector.process_snapshot(1, 1, &snapshot_of(&[((1, 2), 8)])).is_empty());
    assert!(collector.process_snapshot(1, 0, &snapshot_of(&[((1, 3), 8)])).is_empty());
    assert_eq!(collector.process_snapshot(1, 2, &snapshot_of(&[((1, 1), 6)])), vec![EpochId(2)]);
    assert_eq!(collector.merged_state_len(), 1);
    assert_eq!(collector.get_persisted_version(&(1, 1)), Some(6));
    assert_eq!(collector.get_object(&(1, 2)), None);
    assert_eq!(collector.get_object(&(1, 3)), None);
}

#[test]
fn the_last_epoch_is_taken_in() {
    let mut collector = StateCollector::new(1);
    assert!(collector.process_snapshot(1, u64::MAX, &snapshot_of(&[((1, 1), 5)])).is_empty());
    assert_eq!(collector.get_proxy_persist_index(1), u64::MAX);
    assert_eq!(collector.get_persist_index(), 0);
    assert!(collector.is_epoch_pending(EpochId(u64::MAX)));
    assert_eq!(collector.pending_epochs(), 1);
    // An epoch is committed once it is reported, whatever came before.
    assert_eq!(collector.process_snapshot(1, 1, &snapshot_of(&[((1, 1), 4)])), vec![EpochId(1)]);
    assert_eq!(collector.get_proxy_persist_index(1), u64::MAX);
    // The last epoch is committed, and no other follows it.
    assert!(collector.commit_epoch(EpochId(u64::MAX), 1));
    assert_eq!(collector.get_persist_index(), u64::MAX);
    assert_eq!(collector.get_persisted_version(&(1, 1)), Some(5));
    assert!(collector.process_snapshot(1, u64::MAX, &snapshot_of(&[((1, 1), 9)])).is_empty());
    assert_eq!(collector.get_persisted_version(&(1, 1)), Some(5));
}

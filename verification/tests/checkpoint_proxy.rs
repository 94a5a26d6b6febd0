use std::sync::Arc;

use remora::base_types::{Object, ObjectID, Owner};
use remora::checkpoint::primary::EpochManager;
use remora::checkpoint::proxy::{
    EpochCompletionTracker, EpochTracker, ModifiedObjectTracker, SharedEpochs,
};
use remora::checkpoint::EpochId;

fn create_test_object(id: ObjectID) -> Object {
    Object {
        id,
        version: 1,
        owner: Owner::Immutable,
        contents: Arc::new(Vec::new()),
    }
}

#[test]
fn test_epoch_tracker_new() {
    let mut epochs = SharedEpochs::new();
    let tracker = EpochTracker::new(&mut epochs, EpochId(5));
    assert_eq!(tracker.current(&epochs), EpochId(5));
}

#[test]
fn test_epoch_tracker_update() {
    let mut epochs = SharedEpochs::new();
    let tracker = EpochTracker::new(&mut epochs, EpochId(1));
    assert_eq!(tracker.current(&epochs), EpochId(1));

    tracker.update_epoch(&mut epochs, EpochId(10));
    assert_eq!(tracker.current(&epochs), EpochId(10));
}

#[test]
fn clones_of_a_tracker_share_the_epoch() {
    let mut epochs = SharedEpochs::new();
    let tracker = EpochTracker::new(&mut epochs, EpochId(1));
    let elsewhere = EpochTracker::new(&mut epochs, EpochId(7));
    let clone = tracker.clone();
    assert_eq!(clone.current(&epochs), EpochId(1));
    tracker.update_epoch(&mut epochs, EpochId(10));
    assert_eq!(clone.current(&epochs), EpochId(10));
    // The last epoch set is current, be it a lower one.
    clone.update_epoch(&mut epochs, EpochId(4));
    assert_eq!(tracker.current(&epochs), EpochId(4));
    assert_eq!(clone.current(&epochs), EpochId(4));
    assert_eq!(elsewhere.current(&epochs), EpochId(7));
}

#[test]
fn test_modified_object_tracker_new() {
    let mut tracker = ModifiedObjectTracker::new();
    let snapshot = tracker.take_epoch_snapshot(EpochId(1));
    assert!(snapshot.is_empty());
}

#[test]
fn test_modified_object_tracker_record_and_snapshot() {
    let mut tracker = ModifiedObjectTracker::new();
    let obj_id1 = (0x51, 1);
    let obj_id2 = (0x51, 2);
    let obj1 = create_test_object(obj_id1);
    let obj2 = create_test_object(obj_id2);

    // Record objects
    tracker.record_object(EpochId(1), obj_id1, obj1.clone());
    tracker.record_object(EpochId(1), obj_id2, obj2.clone());

    // Take snapshot
    let snapshot = tracker.take_epoch_snapshot(EpochId(1));
    assert_eq!(snapshot.len(), 2);
    assert_eq!(snapshot.get(&obj_id1), Some(&obj1));
    assert_eq!(snapshot.get(&obj_id2), Some(&obj2));

    // Snapshot should be empty after taking
    let empty_snapshot = tracker.take_epoch_snapshot(EpochId(1));
    assert!(empty_snapshot.is_empty());
}

#[test]
fn test_modified_object_tracker_overwrite() {
    let mut tracker = ModifiedObjectTracker::new();
    let obj_id = (0x51, 1);
    let obj1 = create_test_object(obj_id);
    let obj2 = create_test_object(obj_id); // Same ID, different object

    // Record first object
    tracker.record_object(EpochId(1), obj_id, obj1.clone());

    // Overwrite with second object
    tracker.record_object(EpochId(1), obj_id, obj2.clone());

    // Snapshot should contain only the second object
    let snapshot = tracker.take_epoch_snapshot(EpochId(1));
    assert_eq!(snapshot.len(), 1);
    assert_eq!(snapshot.get(&obj_id), Some(&obj2));
}

#[test]
fn test_epoch_completion_tracker_basic() {
    let mut tracker = EpochCompletionTracker::new();

    // Record 5 transactions for epoch 1
    for _ in 0..5 {
        tracker.record_received(EpochId(1));
    }

    // Complete 4 transactions - should not be ready
    for _ in 0..4 {
        assert!(!tracker.record_completed(EpochId(1)));
    }

    // Not sealed yet, so should not be ready even though all completed
    assert!(!tracker.record_completed(EpochId(1)));

    // Seal the epoch - now it should be ready (all 5 completed)
    assert!(tracker.seal_epoch(EpochId(1)));
    assert!(tracker.is_ready(EpochId(1)));
}

#[test]
fn test_epoch_completion_tracker_seal_before_complete() {
    let mut tracker = EpochCompletionTracker::new();

    // Record 3 transactions
    for _ in 0..3 {
        tracker.record_received(EpochId(1));
    }

    // Complete 1 transaction
    assert!(!tracker.record_completed(EpochId(1)));

    // Seal the epoch (2 still pending)
    assert!(!tracker.seal_epoch(EpochId(1)));
    assert!(!tracker.is_ready(EpochId(1)));

    // Complete remaining - last one should return true
    assert!(!tracker.record_completed(EpochId(1)));
    assert!(tracker.record_completed(EpochId(1)));
    assert!(tracker.is_ready(EpochId(1)));
}

#[test]
fn test_epoch_completion_tracker_empty_epoch() {
    let mut tracker = EpochCompletionTracker::new();

    // Seal an epoch with no transactions - should be immediately ready
    assert!(tracker.seal_epoch(EpochId(1)));
    assert!(tracker.is_ready(EpochId(1)));
}

#[test]
fn test_epoch_completion_tracker_various_batch_sizes() {
    // Test with various batch sizes to simulate elastic scaling
    let batch_sizes = [1, 10, 100, 500, 1000, 5000];

    for batch_size in batch_sizes {
        let mut tracker = EpochCompletionTracker::new();

        // Record batch_size transactions
        for _ in 0..batch_size {
            tracker.record_received(EpochId(1));
        }

        // Complete all but one
        for _ in 0..(batch_size - 1) {
            assert!(!tracker.record_completed(EpochId(1)));
        }

        // Seal the epoch
        assert!(!tracker.seal_epoch(EpochId(1)));
        assert!(!tracker.is_ready(EpochId(1)));

        // Complete the last one
        assert!(tracker.record_completed(EpochId(1)));
        assert!(tracker.is_ready(EpochId(1)));
    }
}

#[test]
fn test_epoch_completion_tracker_different_epochs_different_sizes() {
    // Simulate elastic scaling where different epochs have different batch sizes
    let mut tracker = EpochCompletionTracker::new();

    // Epoch 1: 100 transactions (initial single proxy)
    for _ in 0..100 {
        tracker.record_received(EpochId(1));
    }

    // Epoch 2: 50 transactions (scaled to 2 proxies)
    for _ in 0..50 {
        tracker.record_received(EpochId(2));
    }

    // Epoch 3: 33 transactions (scaled to 3 proxies)
    for _ in 0..33 {
        tracker.record_received(EpochId(3));
    }

    // Complete epoch 2 first (out of order)
    for _ in 0..50 {
        tracker.record_completed(EpochId(2));
    }
    tracker.seal_epoch(EpochId(2));
    assert!(tracker.is_ready(EpochId(2)));

    // Epoch 1 still not ready
    assert!(!tracker.is_ready(EpochId(1)));

    // Complete epoch 1
    for _ in 0..100 {
        tracker.record_completed(EpochId(1));
    }
    tracker.seal_epoch(EpochId(1));
    assert!(tracker.is_ready(EpochId(1)));

    // Complete epoch 3
    for _ in 0..33 {
        tracker.record_completed(EpochId(3));
    }
    tracker.seal_epoch(EpochId(3));
    assert!(tracker.is_ready(EpochId(3)));
}

#[test]
fn test_epoch_completion_tracker_cleanup() {
    let mut tracker = EpochCompletionTracker::new();

    // Create and complete epochs 1, 2, 3
    for epoch in 1..=3 {
        for _ in 0..10 {
            tracker.record_received(EpochId(epoch));
        }
        for _ in 0..10 {
            tracker.record_completed(EpochId(epoch));
        }
        tracker.seal_epoch(EpochId(epoch));
    }

    // All should be ready
    assert!(tracker.is_ready(EpochId(1)));
    assert!(tracker.is_ready(EpochId(2)));
    assert!(tracker.is_ready(EpochId(3)));

    // Cleanup up to epoch 2
    tracker.cleanup_up_to(EpochId(2));

    // Epoch 1 and 2 should no longer be tracked (is_ready returns false for non-existent)
    assert!(!tracker.is_ready(EpochId(1)));
    assert!(!tracker.is_ready(EpochId(2)));
    // Epoch 3 should still be ready
    assert!(tracker.is_ready(EpochId(3)));
}

#[test]
fn test_epoch_completion_tracker_interleaved_epochs() {
    let mut tracker = EpochCompletionTracker::new();

    // Simulate transactions arriving interleaved for epochs 1, 2, 3
    for i in 0..30 {
        let epoch = (i % 3) + 1;
        tracker.record_received(EpochId(epoch));
    }

    // Complete transactions interleaved
    for i in 0..30 {
        let epoch = (i % 3) + 1;
        tracker.record_completed(EpochId(epoch));
    }

    // Seal epochs in order
    for epoch in 1..=3 {
        assert!(tracker.seal_epoch(EpochId(epoch)));
        assert!(tracker.is_ready(EpochId(epoch)));
    }
}

#[test]
fn test_epoch_completion_tracker_zero_transactions_sealed() {
    let mut tracker = EpochCompletionTracker::new();

    // This simulates a proxy that received no transactions for an epoch
    // (possible in elastic scaling when load is light)
    for epoch in 1..=5 {
        // Seal immediately without any transactions
        assert!(tracker.seal_epoch(EpochId(epoch)));
        assert!(tracker.is_ready(EpochId(epoch)));
    }
}

#[test]
fn test_epoch_completion_tracker_single_transaction_epochs() {
    let mut tracker = EpochCompletionTracker::new();

    // Simulate epochs with exactly 1 transaction each
    for epoch in 1..=10 {
        tracker.record_received(EpochId(epoch));
        tracker.seal_epoch(EpochId(epoch));
        assert!(!tracker.is_ready(EpochId(epoch)));

        assert!(tracker.record_completed(EpochId(epoch)));
        assert!(tracker.is_ready(EpochId(epoch)));
    }
}

// Recording for an epoch that was taken already has no effect, and other
// epochs are not touched by taking one.
#[test]
fn epochs_are_taken_one_by_one() {
    let mut tracker = ModifiedObjectTracker::new();
    tracker.record_object(EpochId(1), (1, 1), create_test_object((1, 1)));
    tracker.record_object(EpochId(2), (1, 2), create_test_object((1, 2)));
    let second = tracker.take_epoch_snapshot(EpochId(2));
    assert_eq!(second.len(), 1);
    assert!(second.contains_key(&(1, 2)));
    tracker.record_object(EpochId(1), (1, 3), create_test_object((1, 3)));
    let first = tracker.take_epoch_snapshot(EpochId(1));
    assert_eq!(first.len(), 1);
    assert!(first.contains_key(&(1, 1)));
    assert!(!first.contains_key(&(1, 3)));
}

#[test]
fn sealing_and_completing_commute() {
    let mut sealed_first = EpochCompletionTracker::new();
    sealed_first.record_received(EpochId(1));
    assert!(!sealed_first.seal_epoch(EpochId(1)));
    assert!(sealed_first.record_completed(EpochId(1)));

    let mut completed_first = EpochCompletionTracker::new();
    completed_first.record_received(EpochId(1));
    assert!(!completed_first.record_completed(EpochId(1)));
    assert!(completed_first.seal_epoch(EpochId(1)));

    assert!(sealed_first.is_ready(EpochId(1)));
    assert!(completed_first.is_ready(EpochId(1)));
}

#[test]
fn activation_readies_earlier_epochs() {
    let mut tracker = EpochCompletionTracker::new();
    tracker.initialize_for_activation(EpochId(4));
    for epoch in 1..4 {
        assert!(tracker.is_ready(EpochId(epoch)));
    }
    assert!(!tracker.is_ready(EpochId(4)));
    assert!(!tracker.is_ready(EpochId(0)));
}

#[test]
fn completion_of_unknown_epoch_is_not_ready() {
    let mut tracker = EpochCompletionTracker::new();
    assert!(!tracker.record_completed(EpochId(9)));
    assert!(!tracker.is_ready(EpochId(9)));
}

#[test]
fn epochs_are_numbered_from_one() {
    let mut manager = EpochManager::new();
    assert_eq!(manager.peek_next_epoch(), EpochId(1));
    assert_eq!(manager.end_epoch_and_begin_next(), EpochId(1));
    assert_eq!(manager.end_epoch_and_begin_next(), EpochId(2));
    assert_eq!(manager.peek_next_epoch(), EpochId(3));
    assert_eq!(EpochManager::default().peek_next_epoch(), EpochId(1));
}

#[test]
fn readiness_follows_the_history() {
    let mut tracker = EpochCompletionTracker::new();
    // Never seen.
    assert!(!tracker.is_ready(EpochId(1)));
    // What is completed before an epoch is known does not count.
    assert!(!tracker.record_completed(EpochId(5)));
    tracker.record_received(EpochId(5));
    tracker.record_received(EpochId(5));
    assert!(!tracker.record_completed(EpochId(5)));
    assert!(!tracker.seal_epoch(EpochId(5)));
    assert!(!tracker.is_ready(EpochId(5)));
    assert!(tracker.record_completed(EpochId(5)));
    assert!(tracker.is_ready(EpochId(5)));
    // Sealed without a transaction.
    assert!(tracker.seal_epoch(EpochId(6)));
    assert!(tracker.is_ready(EpochId(6)));
    // Entering service seals what is not known, and nothing else.
    tracker.record_received(EpochId(2));
    tracker.initialize_for_activation(EpochId(4));
    assert!(tracker.is_ready(EpochId(1)));
    assert!(!tracker.is_ready(EpochId(2)));
    assert!(tracker.is_ready(EpochId(3)));
    assert!(!tracker.is_ready(EpochId(4)));
    assert!(!tracker.record_completed(EpochId(2)));
    assert!(!tracker.is_ready(EpochId(2)));
    assert!(tracker.seal_epoch(EpochId(2)));
    // More is received after the seal.
    tracker.record_received(EpochId(2));
    assert!(!tracker.is_ready(EpochId(2)));
    // More is completed than was received.
    assert!(tracker.record_completed(EpochId(2)));
    assert!(!tracker.record_completed(EpochId(2)));
    assert!(!tracker.is_ready(EpochId(2)));
}

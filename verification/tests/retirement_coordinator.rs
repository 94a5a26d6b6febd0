use rand::Rng;
use remora::base_types::{Object, Owner, ProxyId};
use remora::checkpoint::state_collector::StateCollector;
use remora::checkpoint::{EpochId, EpochObjectStates};
use remora::primary::elastic_scaler::retirement_coordinator::{
    RetirementAction, RetirementCoordinator, RetirementPhase,
};

const NUM_ITERATIONS: usize = 100;

#[test]
fn test_initial_state_is_idle() {
    let coordinator = RetirementCoordinator::new();
    assert_eq!(*coordinator.phase(), RetirementPhase::Idle);
    assert!(!coordinator.is_retiring());
}

#[test]
fn test_initiate_retirement() {
    let mut coordinator = RetirementCoordinator::new();

    assert!(coordinator.initiate(2));
    assert!(coordinator.is_retiring());
    assert!(coordinator.is_proxy_retiring(2));
    assert!(!coordinator.is_proxy_retiring(1));
}

#[test]
fn test_cannot_initiate_twice() {
    let mut coordinator = RetirementCoordinator::new();

    assert!(coordinator.initiate(2));
    assert!(!coordinator.initiate(1)); // Should fail
    assert!(coordinator.is_proxy_retiring(2)); // Original still pending
}

#[test]
fn test_cancel_pending_retirement() {
    let mut coordinator = RetirementCoordinator::new();

    coordinator.initiate(2);
    assert!(coordinator.cancel());
    assert!(!coordinator.is_retiring());
}

#[test]
fn test_epoch_boundary_transitions_state() {
    let mut coordinator = RetirementCoordinator::new();

    coordinator.initiate(2);
    let action = coordinator.on_epoch_boundary(EpochId(5));

    assert!(matches!(
        action,
        Some(RetirementAction::SendRetirementSignal {
            proxy_id: 2,
            epoch: EpochId(5)
        })
    ));

    assert!(matches!(
        coordinator.phase(),
        RetirementPhase::AwaitingSnapshot {
            proxy_id: 2,
            epoch: EpochId(5)
        }
    ));
}

#[test]
fn test_snapshot_received_transitions_state() {
    let mut coordinator = RetirementCoordinator::new();

    coordinator.initiate(2);
    coordinator.on_epoch_boundary(EpochId(5));

    let snapshot = EpochObjectStates::new();
    let action = coordinator.on_snapshot_received(2, EpochId(5), &snapshot, &mut StateCollector::new(3));

    assert!(matches!(
        action,
        Some(RetirementAction::UpdateOwnership { proxy_id: 2 })
    ));

    assert!(matches!(
        coordinator.phase(),
        RetirementPhase::AwaitingNextEpochSeal { proxy_id: 2 }
    ));
}

#[test]
fn test_epoch_sealed_completes_retirement() {
    let mut coordinator = RetirementCoordinator::new();

    coordinator.initiate(2);
    coordinator.on_epoch_boundary(EpochId(5));
    coordinator.on_snapshot_received(2, EpochId(5), &EpochObjectStates::new(), &mut StateCollector::new(3));

    let action = coordinator.on_epoch_sealed(EpochId(6));

    assert!(matches!(
        action,
        Some(RetirementAction::CompleteRetirement { proxy_id: 2 })
    ));

    assert!(!coordinator.is_retiring());
}

#[test]
fn test_full_retirement_flow() {
    let mut coordinator = RetirementCoordinator::new();

    // Phase 1: Initiate
    assert!(coordinator.initiate(2));
    assert!(matches!(
        coordinator.phase(),
        RetirementPhase::PendingEpochBoundary { proxy_id: 2 }
    ));

    // Phase 2: Epoch boundary
    let action1 = coordinator.on_epoch_boundary(EpochId(10));
    assert!(action1.is_some());

    // Phase 3: Snapshot received
    let action2 = coordinator.on_snapshot_received(2, EpochId(10), &EpochObjectStates::new(), &mut StateCollector::new(3));
    assert!(action2.is_some());

    // Phase 4: Next epoch sealed
    let action3 = coordinator.on_epoch_sealed(EpochId(11));
    assert!(action3.is_some());

    // Back to idle
    assert!(!coordinator.is_retiring());
}

#[test]
fn prop_initiate_always_sets_retiring() {
    let mut rng = rand::thread_rng();
    for _ in 0..NUM_ITERATIONS {
        let proxy_id: ProxyId = rng.gen_range(0..100);
        let mut coordinator = RetirementCoordinator::new();
        coordinator.initiate(proxy_id);
        assert!(
            coordinator.is_retiring(),
            "Failed for proxy_id={}",
            proxy_id
        );
    }
}

#[test]
fn prop_double_initiation_fails() {
    let mut rng = rand::thread_rng();
    for _ in 0..NUM_ITERATIONS {
        let proxy_id1: ProxyId = rng.gen_range(0..100);
        let proxy_id2: ProxyId = rng.gen_range(0..100);
        let mut coordinator = RetirementCoordinator::new();
        let first = coordinator.initiate(proxy_id1);
        let second = coordinator.initiate(proxy_id2);
        assert!(first, "First initiation should succeed");
        assert!(!second, "Second initiation should fail");
    }
}

#[test]
fn prop_cancel_always_returns_to_idle() {
    let mut rng = rand::thread_rng();
    for _ in 0..NUM_ITERATIONS {
        let proxy_id: ProxyId = rng.gen_range(0..100);
        let mut coordinator = RetirementCoordinator::new();
        coordinator.initiate(proxy_id);
        coordinator.cancel();
        assert!(!coordinator.is_retiring());
        assert_eq!(*coordinator.phase(), RetirementPhase::Idle);
    }
}

#[test]
fn prop_full_flow_terminates_in_idle() {
    let mut rng = rand::thread_rng();
    for _ in 0..NUM_ITERATIONS {
        let proxy_id: ProxyId = rng.gen_range(0..100);
        let epoch1 = EpochId(rng.gen_range(1..500));
        let epoch2 = EpochId(epoch1.0 + rng.gen_range(1..10));

        let mut coordinator = RetirementCoordinator::new();
        coordinator.initiate(proxy_id);
        coordinator.on_epoch_boundary(epoch1);
        coordinator.on_snapshot_received(proxy_id, epoch1, &EpochObjectStates::new(), &mut StateCollector::new(3));
        coordinator.on_epoch_sealed(epoch2);

        assert!(
            !coordinator.is_retiring(),
            "Failed for proxy={}, epoch1={:?}, epoch2={:?}",
            proxy_id,
            epoch1,
            epoch2
        );
    }
}

#[test]
fn prop_epoch_boundary_on_idle_is_noop() {
    let mut rng = rand::thread_rng();
    for _ in 0..NUM_ITERATIONS {
        let epoch = EpochId(rng.gen_range(1..1000));
        let mut coordinator = RetirementCoordinator::new();
        let action = coordinator.on_epoch_boundary(epoch);
        assert!(action.is_none());
        assert!(!coordinator.is_retiring());
    }
}

#[test]
fn prop_snapshot_from_wrong_proxy_ignored() {
    let mut rng = rand::thread_rng();
    for _ in 0..NUM_ITERATIONS {
        let retiring_proxy: ProxyId = rng.gen_range(0..50);
        let wrong_proxy: ProxyId = rng.gen_range(50..100);
        let epoch = EpochId(rng.gen_range(1..1000));

        let mut coordinator = RetirementCoordinator::new();
        coordinator.initiate(retiring_proxy);
        coordinator.on_epoch_boundary(epoch);

        let action =
            coordinator.on_snapshot_received(wrong_proxy, epoch, &EpochObjectStates::new(), &mut StateCollector::new(3));
        assert!(
            action.is_none(),
            "Snapshot from wrong proxy should be ignored"
        );
        assert!(coordinator.is_retiring(), "Should still be retiring");
    }
}

#[test]
fn prop_snapshot_wrong_epoch_ignored() {
    let mut rng = rand::thread_rng();
    for _ in 0..NUM_ITERATIONS {
        let proxy_id: ProxyId = rng.gen_range(0..100);
        let signal_epoch = EpochId(rng.gen_range(1..500));
        let wrong_epoch = EpochId(signal_epoch.0 + rng.gen_range(1..100));

        let mut coordinator = RetirementCoordinator::new();
        coordinator.initiate(proxy_id);
        coordinator.on_epoch_boundary(signal_epoch);

        let action =
            coordinator.on_snapshot_received(proxy_id, wrong_epoch, &EpochObjectStates::new(), &mut StateCollector::new(3));
        assert!(
            action.is_none(),
            "Snapshot with wrong epoch should be ignored"
        );
        assert!(coordinator.is_retiring());
    }
}

#[test]
fn prop_state_advances_monotonically() {
    let mut rng = rand::thread_rng();
    for _ in 0..NUM_ITERATIONS {
        let proxy_id: ProxyId = rng.gen_range(0..100);
        let epoch1 = EpochId(rng.gen_range(1..500));
        let epoch2 = EpochId(epoch1.0 + 1);

        let mut coordinator = RetirementCoordinator::new();

        coordinator.initiate(proxy_id);
        assert!(matches!(
            coordinator.phase(),
            RetirementPhase::PendingEpochBoundary { .. }
        ));

        coordinator.on_epoch_boundary(epoch1);
        assert!(matches!(
            coordinator.phase(),
            RetirementPhase::AwaitingSnapshot { .. }
        ));

        coordinator.on_snapshot_received(proxy_id, epoch1, &EpochObjectStates::new(), &mut StateCollector::new(3));
        assert!(matches!(
            coordinator.phase(),
            RetirementPhase::AwaitingNextEpochSeal { .. }
        ));

        coordinator.on_epoch_sealed(epoch2);
        assert_eq!(*coordinator.phase(), RetirementPhase::Idle);
    }
}

#[test]
fn prop_any_epoch_seal_completes_after_snapshot() {
    // Note: The retirement coordinator completes on ANY epoch seal after snapshot,
    // regardless of actual epoch number. This tests that behavior.
    let mut rng = rand::thread_rng();
    for _ in 0..NUM_ITERATIONS {
        let proxy_id: ProxyId = rng.gen_range(0..100);
        let signal_epoch = EpochId(rng.gen_range(1..500));
        let seal_epoch = EpochId(rng.gen_range(1..1000)); // Any epoch

        let mut coordinator = RetirementCoordinator::new();
        coordinator.initiate(proxy_id);
        coordinator.on_epoch_boundary(signal_epoch);
        coordinator.on_snapshot_received(proxy_id, signal_epoch, &EpochObjectStates::new(), &mut StateCollector::new(3));

        // Any epoch seal should complete retirement when in AwaitingNextEpochSeal phase
        let action = coordinator.on_epoch_sealed(seal_epoch);
        assert!(
            matches!(action, Some(RetirementAction::CompleteRetirement { .. })),
            "Any epoch seal should complete retirement after snapshot"
        );
        assert!(!coordinator.is_retiring());
    }
}

#[test]
fn prop_random_event_sequence_never_panics() {
    let mut rng = rand::thread_rng();
    for _ in 0..NUM_ITERATIONS {
        let mut coordinator = RetirementCoordinator::new();

        for _ in 0..20 {
            let event_type = rng.gen_range(0..6);
            let proxy_id: ProxyId = rng.gen_range(0..10);
            let epoch = EpochId(rng.gen_range(1..100));

            match event_type {
                0 => {
                    coordinator.initiate(proxy_id);
                }
                1 => {
                    coordinator.cancel();
                }
                2 => {
                    coordinator.on_epoch_boundary(epoch);
                }
                3 => {
                    coordinator.on_snapshot_received(proxy_id, epoch, &EpochObjectStates::new(), &mut StateCollector::new(3));
                }
                4 => {
                    coordinator.on_epoch_sealed(epoch);
                }
                5 => {
                    coordinator.is_retiring();
                }
                _ => {}
            }
        }
    }
}

#[test]
fn the_last_snapshot_is_merged_once() {
    let mut coordinator = RetirementCoordinator::new();
    let mut collector = StateCollector::new(3);
    let mut snapshot = EpochObjectStates::new();
    snapshot.insert((1, 1), Object::new_gas_coin(4, (1, 1), 100, Owner::Immutable));
    assert_eq!(
        coordinator.on_snapshot_received(2, EpochId(5), &snapshot, &mut collector),
        None
    );
    assert_eq!(collector.get_persisted_version(&(1, 1)), None);
    coordinator.initiate(2);
    coordinator.on_epoch_boundary(EpochId(5));
    assert!(!coordinator.cancel());
    assert_eq!(
        coordinator.on_snapshot_received(2, EpochId(5), &snapshot, &mut collector),
        Some(RetirementAction::UpdateOwnership { proxy_id: 2 })
    );
    assert_eq!(collector.get_persisted_version(&(1, 1)), Some(4));
    assert_eq!(coordinator.on_epoch_boundary(EpochId(6)), None);
}

#[test]
fn a_seal_without_retirement_does_nothing() {
    let mut coordinator = RetirementCoordinator::new();
    assert_eq!(coordinator.on_epoch_sealed(EpochId(1)), None);
    coordinator.initiate(1);
    assert_eq!(coordinator.on_epoch_sealed(EpochId(1)), None);
    assert!(coordinator.is_proxy_retiring(1));
}

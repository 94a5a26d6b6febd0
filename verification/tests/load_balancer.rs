use std::sync::Arc;

use rand::Rng;
use remora::base_types::{
    Object, ObjectID, Owner, ProxyId, SequenceNumber, StateKey, TransactionDigest,
};
use remora::checkpoint::state_collector::StateCollector;
use remora::checkpoint::{EpochId, EpochObjectStates};
use remora::config::{LoadBalancingPolicy, ProxyMode};
use remora::duration::Duration;
use remora::error::NodeError;
use remora::executor::api::{PrimaryToProxyMessage, RequiredStates, TransactionWithTimestamp};
use remora::primary::connections::{ProxyConnections, RetiringProxies};
use remora::primary::elastic_scaler::retirement_coordinator::RetirementPhase;
use remora::primary::elastic_scaler::{RetirementEvent, ScalingDecision};
use remora::primary::load_balancer::{
    checkpoint_participants, LoadBalancer, EPOCH_TXN_THRESHOLD,
};
use remora::primary::ownership::{OwnerSet, PRIMARY_FETCH_SENTINEL};
use remora::primary::replay::replay_cuts;
use remora::primary::shared_obj_txn_forwarder::{ForwardingTask, LoadTracking, ProxyChoice};
use remora::recovery::LogRecord;

const NUM_ITERATIONS: usize = 100;

fn create_test_object(obj_id: ObjectID, version: SequenceNumber) -> Object {
    Object::new_gas_coin(version, obj_id, 1000, Owner::AddressOwner((0, 0)))
}

// The proxy reports the object in the next epoch, the others report nothing,
// which commits the epoch.
fn add_object_to_collector(
    collector: &mut StateCollector,
    proxy_id: ProxyId,
    obj_id: ObjectID,
    version: SequenceNumber,
) {
    let mut snapshot = EpochObjectStates::new();
    snapshot.insert(obj_id, create_test_object(obj_id, version));
    let completed_up_to = collector.get_persist_index() + 1;
    collector.process_snapshot(proxy_id, completed_up_to, &snapshot);
    for other_proxy in 0..3 {
        if other_proxy != proxy_id {
            collector.process_snapshot(other_proxy, completed_up_to, &EpochObjectStates::new());
        }
    }
}

fn create_transaction(digest: TransactionDigest, shared: Vec<ObjectID>) -> TransactionWithTimestamp {
    let none = Duration { secs: 0, nanos: 0 };
    TransactionWithTimestamp::new(digest, vec![], 0, shared, none, none, Some(0))
}

fn create_test_log_record(
    epoch: u64,
    required_states: Vec<StateKey>,
    txn_digest: TransactionDigest,
) -> LogRecord {
    let mut required = RequiredStates::new();
    for key in required_states {
        required.insert(key, None);
    }
    LogRecord {
        epoch: EpochId(epoch),
        transaction: Arc::new(create_transaction(txn_digest, vec![])),
        required_states: required,
        txn_digest,
    }
}

fn connected(ids: &[ProxyId]) -> ProxyConnections<u32> {
    let mut connections = ProxyConnections::new();
    for id in ids {
        connections.connect(*id, 100 + *id as u32);
    }
    connections
}

fn listed(owners: &OwnerSet) -> Vec<usize> {
    (0..owners.len()).map(|i| owners.at(i)).collect()
}

#[test]
fn test_build_replay_messages_empty_uncommitted() {
    let collector = StateCollector::new(3);
    let uncommitted_txns = vec![];

    let result = LoadBalancer::<()>::build_replay_messages_with_state_blobs(
        &uncommitted_txns,
        &collector,
    );

    assert_eq!(
        result.len(),
        0,
        "Should return empty vec for no uncommitted transactions"
    );
}

#[test]
fn test_build_replay_messages_skip_v2_initial_versions() {
    let collector = StateCollector::new(3);
    let obj_a = (0x51, 1);
    let txn_digest = (0x51, 2);

    // Transaction requires object A version 2 (initial version)
    let uncommitted_txns = vec![create_test_log_record(
        10,
        vec![(obj_a, 2)],
        txn_digest,
    )];

    let result = LoadBalancer::<()>::build_replay_messages_with_state_blobs(
        &uncommitted_txns,
        &collector,
    );

    assert_eq!(result.len(), 1, "Should have 1 result");
    assert_eq!(
        result[0].1.len(),
        0,
        "Should skip v2 initial version - no state blobs attached"
    );
}

#[test]
fn test_build_replay_messages_attach_v3_state() {
    let mut collector = StateCollector::new(3);
    let obj_a = (0x51, 1);
    let txn_digest = (0x51, 2);

    // Add object A v3 to collector for proxy 0
    add_object_to_collector(&mut collector, 0, obj_a, 3);

    // Transaction requires object A version 3
    let uncommitted_txns = vec![create_test_log_record(
        10,
        vec![(obj_a, 3)],
        txn_digest,
    )];

    let result = LoadBalancer::<()>::build_replay_messages_with_state_blobs(
        &uncommitted_txns,
        &collector,
    );

    assert_eq!(result.len(), 1, "Should have 1 result");
    assert_eq!(result[0].1.len(), 1, "Should attach 1 state blob");
    assert!(result[0].1.contains_key(&obj_a), "Should contain object A");
    assert_eq!(result[0].1.get(&obj_a).unwrap().version(), 3);
}

#[test]
fn test_build_replay_messages_skip_produced_versions() {
    let mut collector = StateCollector::new(3);
    let obj_a = (0x51, 1);
    let txn1_digest = (0x51, 2);
    let txn2_digest = (0x51, 3);

    // Add object A v3 to collector for proxy 0
    add_object_to_collector(&mut collector, 0, obj_a, 3);

    // Transaction 1: requires A v3, will produce A v4
    // Transaction 2: requires A v4 (produced by txn 1)
    let uncommitted_txns = vec![
        create_test_log_record(10, vec![(obj_a, 3)], txn1_digest),
        create_test_log_record(10, vec![(obj_a, 4)], txn2_digest),
    ];

    let result = LoadBalancer::<()>::build_replay_messages_with_state_blobs(
        &uncommitted_txns,
        &collector,
    );

    assert_eq!(result.len(), 2, "Should have 2 results");
    assert_eq!(result[0].1.len(), 1, "Txn 1 should attach A v3");
    assert_eq!(
        result[1].1.len(),
        0,
        "Txn 2 should skip A v4 (produced by txn 1)"
    );
}

#[test]
fn test_build_replay_messages_chain_of_dependencies() {
    let mut collector = StateCollector::new(3);
    let obj_a = (0x51, 1);
    let txn1_digest = (0x51, 2);
    let txn2_digest = (0x51, 3);
    let txn3_digest = (0x51, 4);

    // Add object A v3 to collector for proxy 0
    add_object_to_collector(&mut collector, 0, obj_a, 3);

    // Chain: Txn1 (requires v3) → v4, Txn2 (requires v4) → v5, Txn3 (requires v5) → v6
    let uncommitted_txns = vec![
        create_test_log_record(10, vec![(obj_a, 3)], txn1_digest),
        create_test_log_record(10, vec![(obj_a, 4)], txn2_digest),
        create_test_log_record(10, vec![(obj_a, 5)], txn3_digest),
    ];

    let result = LoadBalancer::<()>::build_replay_messages_with_state_blobs(
        &uncommitted_txns,
        &collector,
    );

    assert_eq!(result.len(), 3, "Should have 3 results");
    assert_eq!(result[0].1.len(), 1, "Txn 1 should attach A v3");
    assert_eq!(result[1].1.len(), 0, "Txn 2 should skip A v4");
    assert_eq!(result[2].1.len(), 0, "Txn 3 should skip A v5");
}

#[test]
fn test_build_replay_messages_multiple_objects() {
    let mut collector = StateCollector::new(3);
    let obj_a = (0x51, 1);
    let obj_b = (0x51, 2);
    let txn_digest = (0x51, 3);

    // Add objects to collector - both on proxy 0 (same proxy as transaction)
    add_object_to_collector(&mut collector, 0, obj_a, 3);
    add_object_to_collector(&mut collector, 0, obj_b, 5);

    // Transaction on proxy 0 requires both A v3 and B v5
    let uncommitted_txns = vec![create_test_log_record(
        10,
        vec![
            (obj_a, 3),
            (obj_b, 5),
        ],
        txn_digest,
    )];

    let result = LoadBalancer::<()>::build_replay_messages_with_state_blobs(
        &uncommitted_txns,
        &collector,
    );

    assert_eq!(result.len(), 1, "Should have 1 result");
    assert_eq!(result[0].1.len(), 2, "Should attach 2 state blobs");
    assert!(result[0].1.contains_key(&obj_a), "Should contain object A");
    assert!(result[0].1.contains_key(&obj_b), "Should contain object B");
}

#[test]
fn test_build_replay_messages_mixed_v2_and_higher() {
    let mut collector = StateCollector::new(3);
    let obj_a = (0x51, 1);
    let obj_b = (0x51, 2);
    let txn_digest = (0x51, 3);

    // Add object A v3 to collector
    add_object_to_collector(&mut collector, 0, obj_a, 3);

    // Transaction requires A v3 (should attach) and B v2 (should skip)
    let uncommitted_txns = vec![create_test_log_record(
        10,
        vec![
            (obj_a, 3),
            (obj_b, 2), // initial version
        ],
        txn_digest,
    )];

    let result = LoadBalancer::<()>::build_replay_messages_with_state_blobs(
        &uncommitted_txns,
        &collector,
    );

    assert_eq!(result.len(), 1, "Should have 1 result");
    assert_eq!(
        result[0].1.len(),
        1,
        "Should attach only 1 state blob (not v2)"
    );
    assert!(result[0].1.contains_key(&obj_a), "Should contain object A");
    assert!(
        !result[0].1.contains_key(&obj_b),
        "Should NOT contain object B (v2)"
    );
}

#[test]
fn test_build_replay_messages_missing_state_in_collector() {
    let collector = StateCollector::new(3);
    let obj_a = (0x51, 1);
    let txn_digest = (0x51, 2);

    // Don't add object to collector - it's missing

    // Transaction requires object A version 3 (not in collector)
    let uncommitted_txns = vec![create_test_log_record(
        10,
        vec![(obj_a, 3)],
        txn_digest,
    )];

    let result = LoadBalancer::<()>::build_replay_messages_with_state_blobs(
        &uncommitted_txns,
        &collector,
    );

    assert_eq!(result.len(), 1, "Should have 1 result");
    assert_eq!(
        result[0].1.len(),
        0,
        "Should have no state blobs (missing from collector)"
    );
}

#[test]
fn test_build_replay_messages_cross_proxy_dependencies() {
    let mut collector = StateCollector::new(3);
    let obj_a = (0x51, 1);
    let txn1_digest = (0x51, 2);
    let txn2_digest = (0x51, 3);

    // Proxy 0 produces A v3
    add_object_to_collector(&mut collector, 0, obj_a, 3);

    // Txn1 (proxy 0): requires A v3, produces A v4
    // Txn2 (proxy 1): requires A v4 (cross-proxy dependency)
    let uncommitted_txns = vec![
        create_test_log_record(10, vec![(obj_a, 3)], txn1_digest),
        create_test_log_record(10, vec![(obj_a, 4)], txn2_digest),
    ];

    let result = LoadBalancer::<()>::build_replay_messages_with_state_blobs(
        &uncommitted_txns,
        &collector,
    );

    assert_eq!(result.len(), 2, "Should have 2 results");
    assert_eq!(result[0].1.len(), 1, "Txn1 should attach A v3 from proxy 0");
    assert_eq!(
        result[1].1.len(),
        0,
        "Txn2 should skip A v4 (produced by txn1)"
    );
}

#[test]
fn test_build_replay_messages_preserves_consensus_order() {
    let mut collector = StateCollector::new(3);
    let obj_a = (0x51, 1);

    // Add objects to collector
    for v in 3..=6 {
        add_object_to_collector(&mut collector, 0, obj_a, v);
    }

    // Create transactions in consensus order
    let uncommitted_txns = vec![
        create_test_log_record(
            10,
            vec![(obj_a, 3)],
            (0x51, 2),
        ),
        create_test_log_record(
            10,
            vec![(obj_a, 4)],
            (0x51, 3),
        ),
        create_test_log_record(
            10,
            vec![(obj_a, 5)],
            (0x51, 4),
        ),
    ];

    let result = LoadBalancer::<()>::build_replay_messages_with_state_blobs(
        &uncommitted_txns,
        &collector,
    );

    assert_eq!(result.len(), 3, "Should have 3 results");
    // Verify epochs are preserved in order
    assert_eq!(result[0].0.epoch.0, 10);
    assert_eq!(result[1].0.epoch.0, 10);
    assert_eq!(result[2].0.epoch.0, 10);
}

#[test]
fn test_build_replay_messages_same_batch_out_of_order_versions() {
    let mut collector = StateCollector::new(3);
    let obj_a = (0x51, 1);
    let obj_b = (0x51, 2);

    // SAME epoch, but out-of-order version touching
    // Different objects with different version numbers
    // Txn 1: requires A v4 → produces A v5
    // Txn 2: requires B v3 → produces B v4
    add_object_to_collector(&mut collector, 0, obj_a, 4);
    add_object_to_collector(&mut collector, 0, obj_b, 3);

    let uncommitted_txns = vec![
        create_test_log_record(
            10,
            vec![(obj_a, 4)],
            (0x51, 3),
        ),
        create_test_log_record(
            10,
            vec![(obj_b, 3)],
            (0x51, 4),
        ),
    ];

    let result = LoadBalancer::<()>::build_replay_messages_with_state_blobs(
        &uncommitted_txns,
        &collector,
    );

    assert_eq!(result.len(), 2, "Should have 2 results");
    // Both should attach their required states (different objects)
    assert_eq!(result[0].1.len(), 1, "Txn 1 should attach A v4");
    assert!(
        result[0].1.contains_key(&obj_a),
        "Txn 1 should have object A"
    );
    assert_eq!(result[0].1.get(&obj_a).unwrap().version(), 4);

    assert_eq!(result[1].1.len(), 1, "Txn 2 should attach B v3");
    assert!(
        result[1].1.contains_key(&obj_b),
        "Txn 2 should have object B"
    );
    assert_eq!(result[1].1.get(&obj_b).unwrap().version(), 3);
}

#[test]
fn test_build_replay_messages_same_batch_dependency_chain() {
    let mut collector = StateCollector::new(3);
    let obj_a = (0x51, 1);

    // Add initial version to collector
    add_object_to_collector(&mut collector, 0, obj_a, 3);

    // SAME epoch (same batch), with dependency chain
    // Txn 1: requires v3, will produce v4
    // Txn 2: requires v4 (produced by Txn 1)
    // Txn 3: requires v5 (produced by Txn 2)
    let uncommitted_txns = vec![
        create_test_log_record(
            10,
            vec![(obj_a, 3)],
            (0x51, 2),
        ),
        create_test_log_record(
            10,
            vec![(obj_a, 4)],
            (0x51, 3),
        ),
        create_test_log_record(
            10,
            vec![(obj_a, 5)],
            (0x51, 4),
        ),
    ];

    let result = LoadBalancer::<()>::build_replay_messages_with_state_blobs(
        &uncommitted_txns,
        &collector,
    );

    assert_eq!(result.len(), 3, "Should have 3 results");
    // Only first transaction should attach state blob
    assert_eq!(result[0].1.len(), 1, "Txn 1 should attach A v3");
    assert_eq!(
        result[1].1.len(),
        0,
        "Txn 2 should skip A v4 (produced by Txn 1)"
    );
    assert_eq!(
        result[2].1.len(),
        0,
        "Txn 3 should skip A v5 (produced by Txn 2)"
    );
}

#[test]
fn test_build_replay_messages_same_batch_interleaved_objects() {
    let mut collector = StateCollector::new(3);
    let obj_a = (0x51, 1);
    let obj_b = (0x51, 2);

    // Simplified scenario: Each proxy has ONE object
    // Proxy 1: A v5
    // Proxy 0: B v6
    add_object_to_collector(&mut collector, 1, obj_a, 5);
    add_object_to_collector(&mut collector, 0, obj_b, 6);

    // SAME epoch, each txn needs a state from a different proxy
    // Txn 1 (from Proxy 1): requires A v5 (own proxy), will produce A v6
    // Txn 2 (from Proxy 0): requires B v6 (own proxy), will produce B v7
    // Shows that same-epoch txns can access their own proxy's states
    let uncommitted_txns = vec![
        create_test_log_record(
            10,
            vec![(obj_a, 5)],
            (0x51, 3),
        ),
        create_test_log_record(
            10,
            vec![(obj_b, 6)],
            (0x51, 4),
        ),
    ];

    let result = LoadBalancer::<()>::build_replay_messages_with_state_blobs(
        &uncommitted_txns,
        &collector,
    );

    assert_eq!(result.len(), 2, "Should have 2 results");

    // Txn 1 should attach A v5
    assert_eq!(result[0].1.len(), 1, "Txn 1 should attach 1 state blob");
    assert!(
        result[0].1.contains_key(&obj_a),
        "Txn 1 should have object A"
    );
    assert_eq!(result[0].1.get(&obj_a).unwrap().version(), 5);

    // Txn 2 should attach B v6
    assert_eq!(result[1].1.len(), 1, "Txn 2 should attach 1 state blob");
    assert!(
        result[1].1.contains_key(&obj_b),
        "Txn 2 should have object B"
    );
    assert_eq!(result[1].1.get(&obj_b).unwrap().version(), 6);
}

#[test]
fn test_build_replay_messages_same_batch_partial_production() {
    let mut collector = StateCollector::new(3);
    let obj_a = (0x51, 1);
    let obj_b = (0x51, 2);
    let obj_c = (0x51, 3);

    // Realistic scenario: different proxies have different objects
    // Proxy 0 has A v3 and C v5
    // Proxy 1 has B v4
    add_object_to_collector(&mut collector, 0, obj_a, 3);
    add_object_to_collector(&mut collector, 0, obj_c, 5);
    add_object_to_collector(&mut collector, 1, obj_b, 4);

    // SAME epoch
    // Txn 1: requires A v3, C v5 → produces A v6, C v6 (max(3,5)+1=6)
    // Txn 2: requires A v6 (produced by Txn 1), B v4 → produces A v7, B v7 (max(6,4)+1=7)
    // Shows that production tracking works correctly: A v6 is skipped, B v4 is attached
    let uncommitted_txns = vec![
        create_test_log_record(
            10,
            vec![
                (obj_a, 3),
                (obj_c, 5),
            ],
            (0x51, 4),
        ),
        create_test_log_record(
            10,
            vec![
                (obj_a, 6), // Produced by Txn 1, should be skipped
                (obj_b, 4), // From proxy 1, should be attached
            ],
            (0x51, 5),
        ),
    ];

    let result = LoadBalancer::<()>::build_replay_messages_with_state_blobs(
        &uncommitted_txns,
        &collector,
    );

    assert_eq!(result.len(), 2, "Should have 2 results");

    // Txn 1 should attach both states
    assert_eq!(result[0].1.len(), 2, "Txn 1 should attach 2 state blobs");
    assert!(result[0].1.contains_key(&obj_a));
    assert!(result[0].1.contains_key(&obj_c));

    // Txn 2 should skip A v6 (produced by Txn 1) but attach B v4
    assert_eq!(
        result[1].1.len(),
        1,
        "Txn 2 should attach 1 state blob (only B v4)"
    );
    assert!(
        !result[1].1.contains_key(&obj_a),
        "Txn 2 should NOT have object A (produced by Txn 1)"
    );
    assert!(
        result[1].1.contains_key(&obj_b),
        "Txn 2 should have object B"
    );
    assert_eq!(result[1].1.get(&obj_b).unwrap().version(), 4);
}

#[test]
fn test_build_replay_messages_detects_version_ordering_violation() {
    let mut collector = StateCollector::new(3);
    let obj_a = (0x51, 1);

    // Add version 5 to merged state (latest committed version)
    // The merged state only keeps the latest version
    add_object_to_collector(&mut collector, 0, obj_a, 5);

    // VIOLATION: Txn 1 (from proxy 0) requires v5, then Txn 2 (from proxy 1) requires v3
    // This violates partial dependency ordering - we're going backwards in version numbers
    let uncommitted_txns = vec![
        create_test_log_record(
            10,
            vec![(obj_a, 5)],
            (0x51, 2),
        ),
        create_test_log_record(
            10,
            vec![(obj_a, 3)], // Lower version after higher!
            (0x51, 3),
        ),
    ];

    // The function should still complete but log an error
    // (In production this would indicate a serious bug in consensus ordering)
    let result = LoadBalancer::<()>::build_replay_messages_with_state_blobs(
        &uncommitted_txns,
        &collector,
    );

    // Function completes despite violation
    assert_eq!(result.len(), 2, "Should have 2 results even with violation");

    // Txn 1 should attach v5 (available in merged state)
    assert_eq!(result[0].1.len(), 1);
    assert_eq!(result[0].1.get(&obj_a).unwrap().version(), 5);

    // Txn 2 requires v3, but merged state only has v5 (latest version)
    // Since the exact version doesn't match, no state blob is attached
        assert_eq!(
        result[1].1.len(),
        0,
        "v3 not available in merged state, only v5"
    );
}

fn setup_proxy_scenario(
    total_proxies: usize,
    active_count: usize,
    retiring_proxy: Option<ProxyId>,
) -> Vec<ProxyId> {
    let ids: Vec<ProxyId> = (0..total_proxies).collect();
    let connections = connected(&ids);
    let mut retiring = RetiringProxies::new();
    if let Some(pid) = retiring_proxy {
        retiring.insert(pid, EpochId(1));
    }
    checkpoint_participants(&connections, active_count, &retiring)
}

/// Invariant: no more reports are expected for an epoch than proxies take
/// part in it, a pending retirement notwithstanding.
#[test]
fn prop_expected_proxies_never_exceeds_proxy_ids_len() {
    let mut rng = rand::thread_rng();
    for _ in 0..NUM_ITERATIONS {
        let total_proxies = rng.gen_range(1..10);
        let active_count = rng.gen_range(1..=total_proxies);
        let has_pending_retirement = rng.gen_bool(0.5);
        let proxy_ids = setup_proxy_scenario(total_proxies, active_count, None);

        let ids: Vec<ProxyId> = (0..total_proxies).collect();
        let mut balancer = LoadBalancer::new(connected(&ids), StateCollector::new(1), 0);
        for epoch in 1..active_count as u64 {
            balancer.check_and_handle_scaling(0, 1, 0, 0);
            balancer.broadcast_checkpoint(EpochId(epoch));
        }
        assert_eq!(balancer.active_node_count(), active_count);
        if has_pending_retirement {
            balancer.check_and_handle_scaling(0, 1, 1, 1);
        }
        let epoch = EpochId(active_count as u64);
        let messages = balancer.broadcast_checkpoint(epoch);
        let expected_for_epoch = balancer.collector().get_expected_proxies_for_epoch(epoch);
        assert!(
            expected_for_epoch <= proxy_ids.len(),
            "expected_for_epoch ({}) should not exceed proxy_ids.len() ({})",
            expected_for_epoch,
            proxy_ids.len()
        );
        assert_eq!(expected_for_epoch, messages.len());
    }
}

/// Invariant: proxy count with one retiring should be N-1, not N
#[test]
fn prop_proxy_count_decreases_with_retired_proxy() {
    let mut rng = rand::thread_rng();
    for _ in 0..NUM_ITERATIONS {
        let total_proxies = rng.gen_range(2..10);
        let retiring_proxy = total_proxies - 1; // Highest ID

        let proxy_ids_before = setup_proxy_scenario(total_proxies, total_proxies, None);
        assert_eq!(
            proxy_ids_before.len(),
            total_proxies,
            "Before retirement: all proxies active"
        );

        let proxy_ids_after =
            setup_proxy_scenario(total_proxies, total_proxies, Some(retiring_proxy));
        assert_eq!(
            proxy_ids_after.len(),
            total_proxies - 1,
            "After retirement: one fewer proxy"
        );
    }
}

#[test]
fn epochs_hold_ten_thousand_transactions() {
    let mut balancer = LoadBalancer::new(connected(&[0]), StateCollector::new(1), 0);
    let owned = create_transaction((1, 1), vec![]);
    let shared = create_transaction((1, 2), vec![(9, 9)]);
    for i in 0..EPOCH_TXN_THRESHOLD {
        let admission = balancer.take_in(if i % 2 == 0 { &owned } else { &shared });
        assert_eq!(admission.epoch, EpochId(1));
        assert_eq!(admission.owned_only, i % 2 == 0);
        assert_eq!(admission.completes_epoch, i + 1 == EPOCH_TXN_THRESHOLD);
    }
    assert_eq!(balancer.take_in(&owned).epoch, EpochId(2));
}

#[test]
fn a_checkpoint_brings_a_queued_proxy_into_service() {
    let mut balancer = LoadBalancer::new(connected(&[4, 7, 9]), StateCollector::new(1), 0);
    balancer.record_transactions(5);
    assert_eq!(
        balancer.check_and_handle_scaling(0, 2, 1, 0),
        Some(ScalingDecision::ScaleOut)
    );
    assert_eq!(balancer.active_node_count(), 1);
    let messages = balancer.broadcast_checkpoint(EpochId(3));
    assert_eq!(messages.len(), 3);
    assert_eq!(messages[0].0, 7);
    assert!(matches!(
        messages[0].1,
        PrimaryToProxyMessage::ActivateProxy {
            first_active_epoch: EpochId(3),
            completed_up_to: 2
        }
    ));
    assert_eq!(messages[1].0, 4);
    assert!(matches!(messages[1].1, PrimaryToProxyMessage::Checkpoint(EpochId(3))));
    assert_eq!(messages[2].0, 7);
    assert!(matches!(messages[2].1, PrimaryToProxyMessage::Checkpoint(EpochId(3))));
    assert_eq!(balancer.collector().get_expected_proxies_for_epoch(EpochId(3)), 2);
    assert_eq!(balancer.active_node_count(), 2);
}

#[test]
fn a_retirement_runs_from_boundary_to_shutdown() {
    let mut balancer = LoadBalancer::new(connected(&[0, 1]), StateCollector::new(1), 0);
    assert_eq!(balancer.check_and_handle_scaling(0, 0, 0, 0), None);
    balancer.check_and_handle_scaling(0, 2, 1, 0);
    balancer.broadcast_checkpoint(EpochId(1));
    balancer.finish_checkpoint(EpochId(1));
    assert_eq!(
        balancer.check_and_handle_scaling(0, 1, 1, 1),
        Some(ScalingDecision::ScaleIn)
    );
    assert_eq!(
        *balancer.retirement_phase(),
        RetirementPhase::PendingEpochBoundary { proxy_id: 1 }
    );

    // The proxy takes part in the epoch that it retires with.
    assert_eq!(balancer.broadcast_checkpoint(EpochId(2)).len(), 2);
    let step = balancer.finish_checkpoint(EpochId(2));
    let (to, message) = step.message.unwrap();
    assert_eq!(to, 1);
    assert!(matches!(message, PrimaryToProxyMessage::RetirementSignal(EpochId(2))));
    assert!(step.released.is_none());
    assert!(balancer.retiring().contains(1));
    assert_eq!(balancer.retiring().last_epoch(1), Some(EpochId(2)));
    assert_eq!(balancer.broadcast_checkpoint(EpochId(3)).len(), 1);

    // A snapshot event brings about nothing by itself.
    let step = balancer.handle_retirement_event(&RetirementEvent::Snapshot {
        proxy_id: 1,
        epoch: EpochId(2),
        snapshot: EpochObjectStates::new(),
    });
    assert!(step.message.is_none());
    // An earlier epoch does not complete the retirement, its last one does.
    let step = balancer.handle_retirement_event(&RetirementEvent::EpochSealed { epoch: EpochId(1) });
    assert!(step.message.is_none());
    assert!(balancer.connections().is_connected(1));
    let step = balancer.handle_retirement_event(&RetirementEvent::EpochSealed { epoch: EpochId(2) });
    let (to, message) = step.message.unwrap();
    assert_eq!(to, 1);
    assert!(matches!(message, PrimaryToProxyMessage::ShutdownConfirmation));
    assert_eq!(step.released, Some(101));
    assert!(!balancer.connections().is_connected(1));
    assert!(balancer.retiring().contains(1));
    assert_eq!(balancer.active_node_count(), 1);
    assert_eq!(*balancer.retirement_phase(), RetirementPhase::Idle);
}

#[test]
fn the_standby_replaces_a_failed_proxy() {
    let mut balancer = LoadBalancer::new(connected(&[0, 1, 2]), StateCollector::new(3), 0);
    let a = (1, 1);
    let b = (1, 2);
    let c = (1, 3);
    balancer.ownership().add_owner((a, 3), 0);
    balancer.ownership().add_owner((b, 3), 2);
    balancer.ownership().add_owner((c, 3), PRIMARY_FETCH_SENTINEL);
    assert_eq!(balancer.begin_recovery(2, &vec![]), None);

    let records = vec![create_test_log_record(1, vec![(a, 3)], (2, 1))];
    assert_eq!(balancer.begin_recovery(0, &records), Some(2));
    assert!(!balancer.connections().is_connected(0));
    let ownership = balancer.ownership();
    assert_eq!(
        listed(&ownership.owners(&(a, 3)).unwrap()),
        vec![PRIMARY_FETCH_SENTINEL]
    );
    assert_eq!(listed(&ownership.owners(&(b, 3)).unwrap()), vec![1]);
    assert_eq!(
        listed(&ownership.owners(&(c, 3)).unwrap()),
        vec![PRIMARY_FETCH_SENTINEL]
    );
    assert_eq!(listed(&ownership.owners(&(a, 4)).unwrap()), vec![1]);
}

fn replayed(messages: &[PrimaryToProxyMessage]) -> Vec<(u64, Vec<TransactionDigest>)> {
    messages
        .iter()
        .map(|message| match message {
            PrimaryToProxyMessage::Replay(batch) => (
                batch.epoch.0,
                batch
                    .items
                    .iter()
                    .map(|item| item.transaction.as_ref().unwrap().digest)
                    .collect(),
            ),
            _ => panic!("no replay"),
        })
        .collect()
}

#[test]
fn replay_batches_are_cut_where_they_get_too_large() {
    let balancer = LoadBalancer::new(connected(&[0, 1]), StateCollector::new(2), 0);
    let records: Vec<_> = [2, 1, 2, 2, 1, 2]
        .iter()
        .enumerate()
        .map(|(i, epoch)| create_test_log_record(*epoch, vec![], (2, i as u128)))
        .collect();
    // A chunk begins with a record, and belongs to the epoch of that record.
    let cuts = vec![true, false, false, true, false, false];
    let messages = balancer.start_replay_process(1, &records, &cuts).unwrap();
    assert_eq!(
        replayed(&messages),
        vec![
            (1, vec![(2, 1), (2, 4)]),
            (2, vec![(2, 0), (2, 2)]),
            (2, vec![(2, 3), (2, 5)]),
        ]
    );

    // The second epoch has 4, 3, 90 and 5 to replay, where 8 fit.
    let sizes = vec![4, 8, 3, 90, 1, 5];
    let cuts = replay_cuts(&records, &sizes, 8);
    assert_eq!(cuts, vec![false, false, false, true, true, true]);
    assert_eq!(replay_cuts(&records, &sizes, 200), vec![false; 6]);
    assert_eq!(replay_cuts(&records, &vec![usize::MAX; 6], usize::MAX)[2..], [true; 4]);
    let messages = balancer.start_replay_process(1, &records, &cuts).unwrap();
    assert_eq!(
        replayed(&messages),
        vec![
            (1, vec![(2, 1)]),
            (1, vec![(2, 4)]),
            (2, vec![(2, 0), (2, 2)]),
            (2, vec![(2, 3)]),
            (2, vec![(2, 5)]),
        ]
    );
}

#[test]
fn replay_batches_go_out_by_epoch() {
    let balancer = LoadBalancer::new(connected(&[0, 1]), StateCollector::new(2), 0);
    let records = vec![
        create_test_log_record(2, vec![((1, 1), 2)], (2, 1)),
        create_test_log_record(1, vec![((1, 2), 2)], (2, 2)),
        create_test_log_record(2, vec![((1, 1), 3)], (2, 3)),
    ];
    let whole = vec![false, false, false];
    let messages = balancer.start_replay_process(1, &records, &whole).unwrap();
    assert_eq!(replayed(&messages), vec![(1, vec![(2, 2)]), (2, vec![(2, 1), (2, 3)])]);
    assert_eq!(balancer.start_replay_process(7, &vec![], &vec![]).unwrap().len(), 0);
    assert!(matches!(
        balancer.start_replay_process(7, &records, &whole),
        Err(NodeError::ProxyConnectionNotFound(7))
    ));
    assert_eq!(balancer.persisted_epoch(), EpochId(0));
}

// Brings proxies into service until a number of them is active.
fn activate<C>(balancer: &mut LoadBalancer<C>, active: u64) {
    for epoch in 1..active {
        balancer.check_and_handle_scaling(0, 1, 0, 0);
        balancer.broadcast_checkpoint(EpochId(epoch));
        balancer.finish_checkpoint(EpochId(epoch));
    }
    assert_eq!(balancer.active_node_count() as u64, active);
}

// Has a proxy start to retire with an epoch.
fn retire<C>(balancer: &mut LoadBalancer<C>, epoch: EpochId) -> ProxyId {
    assert_eq!(
        balancer.check_and_handle_scaling(0, 1, 1, 1),
        Some(ScalingDecision::ScaleIn)
    );
    balancer.broadcast_checkpoint(epoch);
    let step = balancer.finish_checkpoint(epoch);
    step.message.unwrap().0
}

fn round_robin<C>(balancer: &LoadBalancer<C>, standby_excluded: bool, turn: usize) -> Option<usize> {
    let choice = balancer.choose_proxy(
        LoadBalancingPolicy::RoundRobin,
        standby_excluded,
        turn,
        &vec![],
        None,
        &LoadTracking::new(0),
    );
    match choice {
        ProxyChoice::Decided(choice) => choice.map(|(stateful, _)| stateful),
        _ => panic!("the turn decides"),
    }
}

// The proxies that a transaction on one object is sent to.
fn reached<C>(
    balancer: &mut LoadBalancer<C>,
    index: Option<usize>,
    standby_excluded: bool,
) -> Vec<ProxyId> {
    let task = ForwardingTask {
        transaction: Arc::new(create_transaction((0, 1), vec![(8, 8)])),
        required_versions: vec![((8, 8), 2)],
        txn_cnt: 0,
        epoch_id: EpochId(9),
    };
    let messages = balancer.forward_shared_object_txn(
        &task,
        index.map(|index| (index, index)),
        standby_excluded,
        ProxyMode::Separation,
    );
    messages.into_iter().map(|(to, _)| to).collect()
}

#[test]
fn a_proxy_that_retires_gets_no_transaction() {
    let mut balancer = LoadBalancer::new(connected(&[0, 1]), StateCollector::new(1), 0);
    activate(&mut balancer, 2);
    assert_eq!(round_robin(&balancer, false, 1), Some(1));
    assert_eq!(retire(&mut balancer, EpochId(2)), 1);
    assert!(balancer.connections().is_connected(1));
    assert_eq!(balancer.candidates(false), vec![0]);
    let choice = round_robin(&balancer, false, 1);
    assert_eq!(choice, Some(0));
    assert_eq!(reached(&mut balancer, choice, false), vec![0, 0]);
    // Nor where it is named outright.
    assert_eq!(reached(&mut balancer, Some(1), false), vec![]);
    let hermes = balancer.choose_proxy(
        LoadBalancingPolicy::Hermes,
        false,
        0,
        &vec![],
        Some(1),
        &LoadTracking::new(0),
    );
    assert!(matches!(hermes, ProxyChoice::Decided(None)));
    // Only the other proxy closes the next epoch.
    let messages = balancer.broadcast_checkpoint(EpochId(3));
    assert_eq!(messages.iter().map(|(to, _)| *to).collect::<Vec<_>>(), vec![0]);
}

#[test]
fn a_proxy_that_is_not_active_gets_no_transaction() {
    let mut balancer = LoadBalancer::new(connected(&[0, 1]), StateCollector::new(1), 0);
    for turn in 0..4 {
        assert_eq!(round_robin(&balancer, false, turn), Some(0));
    }
    assert_eq!(reached(&mut balancer, Some(0), false), vec![0, 0]);
    assert_eq!(reached(&mut balancer, Some(1), false), vec![]);
    let closing = balancer.broadcast_checkpoint(EpochId(1));
    assert_eq!(closing.iter().map(|(to, _)| *to).collect::<Vec<_>>(), vec![0]);
    activate(&mut balancer, 2);
    assert_eq!(round_robin(&balancer, false, 1), Some(1));
    assert_eq!(reached(&mut balancer, Some(1), false), vec![1, 1]);
    assert_eq!(reached(&mut balancer, Some(1), true), vec![]);
}

#[test]
fn a_destination_is_an_identity() {
    let mut balancer = LoadBalancer::new(connected(&[0, 2, 3]), StateCollector::new(1), 0);
    activate(&mut balancer, 3);
    let choose = |destination| match balancer.choose_proxy(
        LoadBalancingPolicy::Hermes,
        false,
        0,
        &vec![],
        destination,
        &LoadTracking::new(0),
    ) {
        ProxyChoice::Decided(choice) => choice,
        _ => panic!("the destination decides"),
    };
    assert_eq!(choose(Some(0)), Some((0, 0)));
    assert_eq!(choose(Some(1)), None);
    assert_eq!(choose(Some(2)), Some((1, 1)));
    assert_eq!(choose(Some(3)), Some((2, 2)));
    assert_eq!(choose(None), None);
}

#[test]
fn every_other_proxy_keeps_its_states_when_one_fails() {
    let mut balancer = LoadBalancer::new(connected(&[0, 2, 3]), StateCollector::new(3), 0);
    let (a, b, c, d) = ((1, 1), (1, 2), (1, 3), (1, 4));
    balancer.ownership().add_owner((a, 3), 0);
    balancer.ownership().add_owner((b, 3), 1);
    balancer.ownership().add_owner((c, 3), 2);
    balancer.ownership().add_owner((d, 3), 1);
    balancer.ownership().add_owner((d, 3), 2);
    assert_eq!(balancer.begin_recovery(2, &vec![]), Some(3));
    let ownership = balancer.ownership();
    assert_eq!(listed(&ownership.owners(&(a, 3)).unwrap()), vec![0]);
    assert_eq!(
        listed(&ownership.owners(&(b, 3)).unwrap()),
        vec![PRIMARY_FETCH_SENTINEL]
    );
    assert_eq!(listed(&ownership.owners(&(c, 3)).unwrap()), vec![1]);
    assert_eq!(listed(&ownership.owners(&(d, 3)).unwrap()), vec![1]);
    // One that is not connected any more has nothing to lose.
    assert_eq!(balancer.begin_recovery(2, &vec![]), Some(3));
    let ownership = balancer.ownership();
    assert_eq!(listed(&ownership.owners(&(a, 3)).unwrap()), vec![0]);
    assert_eq!(listed(&ownership.owners(&(c, 3)).unwrap()), vec![1]);
}

#[test]
fn the_highest_active_proxy_retires() {
    let mut balancer = LoadBalancer::new(connected(&[0, 1, 2]), StateCollector::new(1), 0);
    activate(&mut balancer, 2);
    assert_eq!(balancer.get_highest_active_proxy_id(), Some(1));
    let (a, b, c) = ((1, 1), (1, 2), (1, 3));
    balancer.ownership().add_owner((a, 3), 0);
    balancer.ownership().add_owner((b, 3), 1);
    balancer.ownership().add_owner((c, 3), 2);
    assert_eq!(retire(&mut balancer, EpochId(2)), 1);
    assert_eq!(balancer.get_highest_active_proxy_id(), Some(0));
    let closing = balancer.broadcast_checkpoint(EpochId(3));
    assert_eq!(closing.iter().map(|(to, _)| *to).collect::<Vec<_>>(), vec![0]);

    let step = balancer.handle_retirement_event(&RetirementEvent::EpochSealed { epoch: EpochId(2) });
    assert_eq!(step.released, Some(101));
    assert_eq!(balancer.active_node_count(), 1);
    let ownership = balancer.ownership();
    assert_eq!(listed(&ownership.owners(&(a, 3)).unwrap()), vec![0]);
    assert_eq!(
        listed(&ownership.owners(&(b, 3)).unwrap()),
        vec![PRIMARY_FETCH_SENTINEL]
    );
    assert_eq!(listed(&ownership.owners(&(c, 3)).unwrap()), vec![1]);
    assert_eq!(balancer.candidates(false), vec![0]);
}

#[test]
fn the_last_proxy_retires_without_a_change_of_owners() {
    let mut balancer = LoadBalancer::new(connected(&[0, 1]), StateCollector::new(1), 0);
    activate(&mut balancer, 2);
    let a: ObjectID = (8, 8);
    balancer.ownership().add_owner((a, 2), 1);
    assert_eq!(retire(&mut balancer, EpochId(2)), 1);
    let mut snapshot = EpochObjectStates::new();
    snapshot.insert(a, create_test_object(a, 2));
    balancer.collector().process_snapshot(0, 1, &snapshot);
    balancer.collector().process_snapshot(1, 1, &EpochObjectStates::new());
    let step = balancer.handle_retirement_event(&RetirementEvent::EpochSealed { epoch: EpochId(2) });
    assert_eq!(step.released, Some(101));
    assert_eq!(listed(&balancer.ownership().owners(&(a, 2)).unwrap()), vec![1]);
    // The primary sends the state, then the check, then the execution.
    assert_eq!(reached(&mut balancer, Some(0), false), vec![0, 0, 0]);
}

#[test]
fn the_states_of_the_retired_stay_with_the_primary_when_another_fails() {
    let mut balancer = LoadBalancer::new(connected(&[0, 1, 2]), StateCollector::new(1), 0);
    activate(&mut balancer, 3);
    let a: ObjectID = (8, 8);
    balancer.ownership().add_owner((a, 2), 2);
    assert_eq!(retire(&mut balancer, EpochId(3)), 2);
    let mut snapshot = EpochObjectStates::new();
    snapshot.insert(a, create_test_object(a, 2));
    balancer.collector().process_snapshot(0, 1, &snapshot);
    balancer.collector().process_snapshot(1, 1, &EpochObjectStates::new());
    balancer.handle_retirement_event(&RetirementEvent::EpochSealed { epoch: EpochId(3) });
    assert_eq!(balancer.begin_recovery(0, &vec![]), Some(1));
    assert_eq!(listed(&balancer.ownership().owners(&(a, 2)).unwrap()), vec![1]);
    assert_eq!(reached(&mut balancer, Some(0), false), vec![1, 1, 1]);
}

#[test]
fn who_works_in_an_epoch_closes_it() {
    let mut balancer = LoadBalancer::new(connected(&[0, 1, 2, 3, 4]), StateCollector::new(1), 0);
    activate(&mut balancer, 4);
    assert_eq!(retire(&mut balancer, EpochId(4)), 3);
    assert_eq!(balancer.candidates(false), vec![0, 1, 2]);
    assert_eq!(reached(&mut balancer, Some(2), false), vec![2, 2]);
    // One proxy retires and another one fails before the epoch ends.
    balancer.handle_retirement_event(&RetirementEvent::EpochSealed { epoch: EpochId(4) });
    assert_eq!(balancer.active_node_count(), 3);
    assert_eq!(balancer.begin_recovery(1, &vec![]), Some(4));
    let closing = balancer.broadcast_checkpoint(EpochId(5));
    assert_eq!(closing.iter().map(|(to, _)| *to).collect::<Vec<_>>(), vec![0, 2, 4]);
}

#[test]
fn a_transaction_follows_the_states_it_needs() {
    let mut balancer = LoadBalancer::new(connected(&[4, 7, 9]), StateCollector::new(3), 0);
    activate(&mut balancer, 3);
    let object: ObjectID = (0, 5);
    balancer.ownership().add_owner((object, 3), 1);
    let tracking = LoadTracking::new(3);
    let required = vec![(object, 3)];
    let choice = balancer.choose_proxy(
        LoadBalancingPolicy::Zeus,
        false,
        0,
        &required,
        None,
        &tracking,
    );
    let ProxyChoice::Decided(Some((executor, checker))) = choice else {
        panic!("no proxy is chosen");
    };
    assert_eq!((executor, checker), (1, 1));

    let task = ForwardingTask {
        transaction: Arc::new(create_transaction((0, 1), vec![object])),
        required_versions: required,
        txn_cnt: 0,
        epoch_id: EpochId(1),
    };
    let messages = balancer.forward_shared_object_txn(
        &task,
        Some((executor, checker)),
        false,
        ProxyMode::NoSeparation,
    );
    assert_eq!(messages.len(), 1);
    assert_eq!(messages[0].0, 7);
    let PrimaryToProxyMessage::CombinedTxn(epoch, _, checked_by, states) = &messages[0].1 else {
        panic!("not a combined transaction");
    };
    assert_eq!((*epoch, *checked_by), (EpochId(1), 7));
    assert_eq!(states.get(&(object, 3)), Some(&None));
    let owners = balancer.ownership().owners(&(object, 4)).unwrap();
    assert_eq!(listed(&owners), vec![1]);

    let elsewhere = ForwardingTask {
        transaction: Arc::new(create_transaction((0, 2), vec![object])),
        required_versions: vec![(object, 4)],
        txn_cnt: 1,
        epoch_id: EpochId(1),
    };
    let messages = balancer.forward_shared_object_txn(
        &elsewhere,
        Some((0, 0)),
        false,
        ProxyMode::NoSeparation,
    );
    let PrimaryToProxyMessage::CombinedTxn(_, _, _, states) = &messages[0].1 else {
        panic!("not a combined transaction");
    };
    assert_eq!(messages[0].0, 4);
    assert_eq!(states.get(&(object, 4)), Some(&Some(7)));
}

#[test]
fn the_rate_is_taken_over_a_window() {
    let mut balancer = LoadBalancer::new(connected(&[0, 1]), StateCollector::new(2), 1_000);
    balancer.record_transactions(40);
    assert_eq!(balancer.calculate_current_rate(1_000), None);
    assert_eq!(balancer.calculate_current_rate(1_500), Some((40, 500)));
    assert_eq!(balancer.calculate_current_rate(2_000), Some((40, 1_000)));
    assert_eq!(balancer.calculate_current_rate(2_500), Some((0, 500)));
}

use std::sync::Arc;

use rand::Rng;
use remora::base_types::{Object, ObjectID, Owner, ProxyId, StateKey, TransactionDigest};
use remora::checkpoint::state_collector::StateCollector;
use remora::checkpoint::{EpochId, EpochObjectStates};
use remora::config::{LoadBalancingPolicy, ProxyMode};
use remora::duration::Duration;
use remora::executor::api::{
    ExecutionResultsAndEffects, PrimaryToProxyMessage, RequiredStates, TransactionWithTimestamp,
};
use remora::executor::fake::{
    fake_owned_object_with_id, fake_shared_object_with_id, FakeExecutionContext, FakeExecutor,
    FakeObjectStore, FakeTransaction,
};
use remora::primary::connections::{
    candidate_positions, effective_proxy_count, resolve_candidate, resolve_proxy_id,
    ProxyConnections, RetiringProxies,
};
use remora::primary::decentralized_forwarder::DecentralizedForwarder;
use remora::primary::owned_obj_txn_forwarder::OwnedObjTxnForwarder;
use remora::primary::owned_processors::OwnedTxnProcessor;
use remora::primary::ownership::{StateOwnership, PRIMARY_FETCH_SENTINEL};
use remora::primary::primary_core::{PrimaryCore, ResultStep};
use remora::primary::shared_obj_txn_forwarder::{
    ForwardingTask, LoadTracking, ProxyChoice, SharedObjTxnForwarder, VersionAssignmentTask,
};
use remora::primary::shared_processor::SharedTxnProcessor;

const NUM_ITERATIONS: usize = 100;
const NONE: Duration = Duration { secs: 0, nanos: 0 };

fn connected(ids: &[ProxyId]) -> ProxyConnections<()> {
    let mut connections = ProxyConnections::new();
    for id in ids {
        connections.connect(*id, ());
    }
    connections
}

fn transaction(digest: TransactionDigest, shared: Vec<ObjectID>) -> TransactionWithTimestamp {
    TransactionWithTimestamp::new(digest, vec![], 0, shared, NONE, NONE, None)
}

fn generate_test_transactions(count: u128) -> Vec<Arc<TransactionWithTimestamp>> {
    (0..count).map(|i| Arc::new(transaction((7, i), vec![]))).collect()
}

fn entries(required: &RequiredStates) -> Vec<(StateKey, Option<ProxyId>)> {
    (0..required.len()).map(|i| *required.entry_at(i)).collect()
}

#[test]
fn prop_effective_proxy_ids_excludes_retiring() {
    let mut rng = rand::thread_rng();
    for _ in 0..NUM_ITERATIONS {
        let proxy_count = rng.gen_range(2..12);
        let retiring_proxy = proxy_count - 1;
        let ids: Vec<ProxyId> = (0..proxy_count).collect();
        let proxy_connections = connected(&ids);
        let mut retiring_proxies = RetiringProxies::new();
        retiring_proxies.insert(retiring_proxy, EpochId(1));

        let effective = OwnedObjTxnForwarder::effective_proxy_ids(
            &proxy_connections,
            proxy_count,
            &retiring_proxies,
        );
        assert!(!effective.is_empty());
        assert!(
            !effective.contains(&retiring_proxy),
            "effective_proxy_ids returned retiring proxy"
        );
    }
}

#[test]
fn test_owned_processor_forwarding() {
    let proxy_connections = connected(&[0, 1]);
    let mut owned_processor = OwnedTxnProcessor {
        policy: LoadBalancingPolicy::RoundRobin,
        index: 0,
    };
    let remora_txns = generate_test_transactions(5);
    let sent = owned_processor.forward_owned_txns_in_parallel(
        &proxy_connections,
        EpochId(1),
        &remora_txns,
    );

    let mut received_stateless = 0;
    let mut received_stateful = 0;
    for (i, dispatch) in sent.iter().enumerate() {
        for (to, message) in dispatch {
            assert_eq!(*to, i % 2);
            match message {
                PrimaryToProxyMessage::StatelessTxn(_, _) => received_stateless += 1,
                PrimaryToProxyMessage::Txn(_, _, _, _) => received_stateful += 1,
                _ => unreachable!(),
            }
        }
    }
    assert_eq!(
        received_stateless, 5,
        "Should have received 5 stateless transactions"
    );
    assert_eq!(
        received_stateful, 5,
        "Should have received 5 stateful transactions"
    );
    assert_eq!(owned_processor.index, 1);
}

#[test]
fn test_dedicated_policy_forwarding() {
    let proxy_connections = connected(&[0, 1]);
    let mut owned_processor = OwnedTxnProcessor {
        policy: LoadBalancingPolicy::Dedicated,
        index: 0,
    };
    let remora_txns = generate_test_transactions(5);
    let sent = owned_processor.forward_owned_txns_in_parallel(
        &proxy_connections,
        EpochId(1),
        &remora_txns,
    );

    let mut stateless_on_0 = 0;
    let mut stateful_on_1 = 0;
    for dispatch in &sent {
        for (to, message) in dispatch {
            match (*to, message) {
                (0, PrimaryToProxyMessage::StatelessTxn(_, _)) => stateless_on_0 += 1,
                (0, _) => panic!("Proxy 0 should only receive stateless transactions"),
                (_, PrimaryToProxyMessage::Txn(_, _, _, _)) => stateful_on_1 += 1,
                _ => panic!("Proxy 1 should only receive stateful transactions"),
            }
        }
    }
    assert_eq!(
        stateless_on_0, 5,
        "Proxy 0 should have received 5 stateless transactions"
    );
    assert_eq!(
        stateful_on_1, 5,
        "Proxy 1 should have received 5 stateful transactions"
    );
}

#[test]
fn combined_transactions_go_out_once() {
    let mut owned_processor = OwnedTxnProcessor {
        policy: LoadBalancingPolicy::Combined,
        index: 1,
    };
    let sent = owned_processor.forward_owned_txns_in_parallel(
        &connected(&[0, 5]),
        EpochId(3),
        &generate_test_transactions(2),
    );
    // The turn of an identity that is not connected is lost.
    assert_eq!(sent[0].len(), 0);
    assert_eq!(sent[1].len(), 1);
    assert_eq!(sent[1][0].0, 0);
    assert!(matches!(
        sent[1][0].1,
        PrimaryToProxyMessage::CombinedTxn(EpochId(3), _, 0, _)
    ));
    let none = owned_processor.forward_owned_txns_in_parallel(
        &connected(&[]),
        EpochId(3),
        &generate_test_transactions(2),
    );
    assert_eq!(none.len(), 0);
}

#[test]
fn owned_transactions_take_turns_among_those_in_service() {
    let connections = connected(&[2, 4, 6]);
    let mut retiring = RetiringProxies::new();
    retiring.insert(4, EpochId(1));
    let mut forwarder = OwnedObjTxnForwarder::new(ProxyMode::NoSeparation);
    let sent = forwarder.forward_owned_txns_in_parallel(
        &connections,
        3,
        &retiring,
        EpochId(2),
        &generate_test_transactions(3),
    );
    let turns: Vec<ProxyId> = sent.iter().map(|dispatch| dispatch[0].0).collect();
    assert_eq!(turns, vec![2, 6, 2]);
    assert!(sent.iter().all(|dispatch| dispatch.len() == 1));
    let mut forwarder = OwnedObjTxnForwarder::new(ProxyMode::Separation);
    let sent = forwarder.forward_owned_txns_in_parallel(
        &connections,
        3,
        &retiring,
        EpochId(2),
        &generate_test_transactions(1),
    );
    assert_eq!(sent[0].len(), 2);
    assert!(matches!(sent[0][0].1, PrimaryToProxyMessage::StatelessTxn(EpochId(2), _)));
    assert!(matches!(sent[0][1].1, PrimaryToProxyMessage::Txn(EpochId(2), _, 2, _)));

    // Of the first two, one retires; the third is not active.
    let mut forwarder = OwnedObjTxnForwarder::new(ProxyMode::NoSeparation);
    let sent = forwarder.forward_owned_txns_in_parallel(
        &connections,
        2,
        &retiring,
        EpochId(2),
        &generate_test_transactions(3),
    );
    let turns: Vec<ProxyId> = sent.iter().map(|dispatch| dispatch[0].0).collect();
    assert_eq!(turns, vec![2, 2, 2]);
    assert_eq!(forwarder.index, 0);
}

#[test]
fn the_standby_is_not_in_service() {
    let connections = connected(&[3, 1, 8]);
    assert_eq!(effective_proxy_count(&connections, false), 3);
    assert_eq!(effective_proxy_count(&connections, true), 2);
    assert_eq!(effective_proxy_count(&connected(&[3]), true), 1);
    assert_eq!(resolve_proxy_id(&connections, false, 2), Some(8));
    assert_eq!(resolve_proxy_id(&connections, true, 2), None);
    assert_eq!(resolve_proxy_id(&connections, true, 1), Some(3));
}

#[test]
fn candidates_are_in_service_active_and_not_retiring() {
    let connections = connected(&[3, 1, 8, 5]);
    let mut retiring = RetiringProxies::new();
    assert_eq!(candidate_positions(&connections, false, 4, &retiring), vec![0, 1, 2, 3]);
    assert_eq!(candidate_positions(&connections, true, 4, &retiring), vec![0, 1, 2]);
    assert_eq!(candidate_positions(&connections, true, 2, &retiring), vec![0, 1]);
    assert_eq!(candidate_positions(&connections, false, 9, &retiring), vec![0, 1, 2, 3]);
    retiring.insert(3, EpochId(1));
    assert_eq!(candidate_positions(&connections, false, 3, &retiring), vec![0, 2]);
    assert_eq!(candidate_positions(&connections, false, 0, &retiring), vec![]);

    assert_eq!(resolve_candidate(&connections, false, 3, &retiring, 0), Some(1));
    assert_eq!(resolve_candidate(&connections, false, 3, &retiring, 1), None);
    assert_eq!(resolve_candidate(&connections, false, 3, &retiring, 2), Some(5));
    assert_eq!(resolve_candidate(&connections, false, 3, &retiring, 3), None);
    assert_eq!(resolve_candidate(&connections, false, 4, &retiring, 3), Some(8));
    assert_eq!(resolve_candidate(&connections, true, 4, &retiring, 3), None);
}

#[test]
fn versions_follow_the_highest_one_that_is_needed() {
    let (a, b, c) = ((1, 1), (1, 2), (1, 3));
    let mut task = VersionAssignmentTask::new();
    let mut first = transaction((2, 1), vec![a, b]);
    assert_eq!(task.assign_shared_object_versions(&mut first), vec![(a, 2), (b, 2)]);
    assert_eq!(first.required_versions(), vec![(a, 2), (b, 2)]);
    let mut second = transaction((2, 2), vec![a]);
    assert_eq!(task.assign_shared_object_versions(&mut second), vec![(a, 3)]);
    let mut third = transaction((2, 3), vec![b, a, c]);
    assert_eq!(
        task.assign_shared_object_versions(&mut third),
        vec![(b, 3), (a, 4), (c, 2)]
    );
    let mut fourth = transaction((2, 4), vec![c]);
    assert_eq!(task.assign_shared_object_versions(&mut fourth), vec![(c, 5)]);

    let record =
        VersionAssignmentTask::log_record(EpochId(4), &Arc::new(first), &vec![(a, 2), (b, 2)]);
    assert_eq!(record.epoch, EpochId(4));
    assert_eq!(record.txn_digest, (2, 1));
    assert_eq!(entries(&record.required_states), vec![((a, 2), None), ((b, 2), None)]);
    assert_eq!(record.produced_version(), 3);
}

fn ownership(of: &[(StateKey, usize)]) -> StateOwnership {
    let mut owners = StateOwnership::new();
    for (key, owner) in of {
        owners.add_owner(*key, *owner);
    }
    owners
}

#[test]
fn most_states_decide_and_ties_take_turns() {
    let candidates = vec![0, 1, 2];
    let (a, b, c) = ((1, 1), (1, 2), (1, 3));
    let owners = ownership(&[((a, 2), 1), ((b, 2), 1), ((c, 2), 2), ((a, 2), 2)]);
    let choose = |required: Vec<StateKey>, turn: usize| {
        SharedObjTxnForwarder::get_proxy_for_shared_objects_most_states(
            &candidates,
            &owners,
            &required,
            turn,
        )
    };
    assert_eq!(choose(vec![(a, 2), (b, 2)], 0), Some((1, 1)));
    assert_eq!(choose(vec![(a, 2), (c, 2)], 0), Some((2, 2)));
    assert_eq!(choose(vec![(a, 2)], 0), Some((1, 1)));
    assert_eq!(choose(vec![(a, 2)], 1), Some((2, 2)));
    assert_eq!(choose(vec![(a, 9)], 1), Some((1, 1)));
    assert_eq!(choose(vec![], 1), Some((0, 0)));
    assert_eq!(
        SharedObjTxnForwarder::get_proxy_for_shared_objects_most_states(
            &vec![],
            &owners,
            &vec![(a, 2)],
            0
        ),
        None
    );
    let required = vec![(a, 2), (b, 2), (c, 2)];
    assert_eq!(
        SharedObjTxnForwarder::locality_counts(&owners, &required, &candidates),
        vec![0, 2, 2]
    );

    // The proxy at position 1, which has two of the states, is no candidate.
    let fewer = vec![0, 2];
    let choose = |required: Vec<StateKey>, turn: usize| {
        SharedObjTxnForwarder::get_proxy_for_shared_objects_most_states(
            &fewer,
            &owners,
            &required,
            turn,
        )
    };
    assert_eq!(SharedObjTxnForwarder::locality_counts(&owners, &required, &fewer), vec![0, 2]);
    assert_eq!(choose(vec![(a, 2), (b, 2)], 0), Some((2, 2)));
    assert_eq!(choose(vec![(b, 2)], 0), Some((0, 0)));
    assert_eq!(choose(vec![(b, 2)], 1), Some((2, 2)));
}

#[test]
fn the_policy_chooses_the_proxy() {
    let candidates = vec![0, 1, 2];
    let owners = ownership(&[(((1, 1), 2), 1)]);
    let mut tracking = LoadTracking::new(3);
    let required = vec![((1, 1), 2)];
    let choose = |policy, destination, tracking: &LoadTracking| {
        SharedObjTxnForwarder::get_proxy_for_shared_objects(
            policy,
            &candidates,
            &owners,
            4,
            &required,
            destination,
            tracking,
        )
    };
    assert!(matches!(
        choose(LoadBalancingPolicy::RoundRobin, None, &tracking),
        ProxyChoice::Decided(Some((1, 1)))
    ));
    assert!(matches!(
        choose(LoadBalancingPolicy::Zeus, None, &tracking),
        ProxyChoice::Decided(Some((1, 1)))
    ));
    assert!(matches!(
        choose(LoadBalancingPolicy::Hermes, Some(2), &tracking),
        ProxyChoice::Decided(Some((2, 2)))
    ));
    assert!(matches!(
        choose(LoadBalancingPolicy::Hermes, Some(3), &tracking),
        ProxyChoice::Decided(None)
    ));
    assert!(matches!(
        choose(LoadBalancingPolicy::Hermes, None, &tracking),
        ProxyChoice::Decided(None)
    ));
    for _ in 0..50 {
        match choose(LoadBalancingPolicy::Random, None, &tracking) {
            ProxyChoice::Decided(Some((stateful, stateless))) => {
                assert_eq!(stateful, stateless);
                assert!(stateful < 3);
            }
            _ => panic!("a proxy is there"),
        }
    }
    let chosen = SharedObjTxnForwarder::compute_locality_load_proxy(
        &candidates,
        &vec![5, 9, 9],
        &required,
        &mut tracking,
        true,
        &Duration { secs: 0, nanos: 2_500_999 },
    );
    assert_eq!(chosen, Some((1, 1)));
    assert_eq!(tracking.current_loads(3), vec![0, 2500, 0]);
    match choose(LoadBalancingPolicy::LocalityLoad, None, &tracking) {
        ProxyChoice::ByScore { locality, loads } => {
            assert_eq!(locality, vec![0, 1, 0]);
            assert_eq!(loads, vec![0, 2500, 0]);
        }
        _ => panic!("scores decide"),
    }
    match choose(LoadBalancingPolicy::AffinityAware, None, &tracking) {
        ProxyChoice::ByScore { locality, loads } => {
            assert_eq!(locality, vec![0, 1, 0]);
            assert_eq!(loads, vec![0, 2500, 0]);
        }
        _ => panic!("scores decide"),
    }
}

#[test]
fn the_policy_passes_over_who_is_no_candidate() {
    let candidates = vec![1, 3];
    let owners = ownership(&[(((1, 1), 2), 0), (((1, 2), 2), 3)]);
    let mut tracking = LoadTracking::new(4);
    let required = vec![((1, 1), 2), ((1, 2), 2)];
    let chosen = SharedObjTxnForwarder::compute_locality_load_proxy(
        &candidates,
        &vec![5, 9],
        &required,
        &mut tracking,
        true,
        &Duration { secs: 0, nanos: 7_000 },
    );
    assert_eq!(chosen, Some((3, 3)));
    assert_eq!(tracking.current_loads(4), vec![0, 0, 0, 7]);
    assert_eq!(tracking.access_counts(&required, 4), vec![0, 0, 0, 2]);
    let choose = |policy, destination| {
        SharedObjTxnForwarder::get_proxy_for_shared_objects(
            policy,
            &candidates,
            &owners,
            5,
            &required,
            destination,
            &tracking,
        )
    };
    assert!(matches!(
        choose(LoadBalancingPolicy::RoundRobin, None),
        ProxyChoice::Decided(Some((3, 3)))
    ));
    assert!(matches!(
        choose(LoadBalancingPolicy::Zeus, None),
        ProxyChoice::Decided(Some((3, 3)))
    ));
    assert!(matches!(
        choose(LoadBalancingPolicy::Hermes, Some(3)),
        ProxyChoice::Decided(Some((3, 3)))
    ));
    assert!(matches!(
        choose(LoadBalancingPolicy::Hermes, Some(2)),
        ProxyChoice::Decided(None)
    ));
    for _ in 0..50 {
        assert!(matches!(
            choose(LoadBalancingPolicy::Random, None),
            ProxyChoice::Decided(Some((1, 1))) | ProxyChoice::Decided(Some((3, 3)))
        ));
    }
    for policy in [LoadBalancingPolicy::LocalityLoad, LoadBalancingPolicy::AffinityAware] {
        let expected = if policy == LoadBalancingPolicy::LocalityLoad { 1 } else { 2 };
        match choose(policy, None) {
            ProxyChoice::ByScore { locality, loads } => {
                assert_eq!(locality, vec![0, expected]);
                assert_eq!(loads, vec![0, 7]);
            }
            _ => panic!("scores decide"),
        }
    }
}

#[test]
fn missing_states_name_their_owners() {
    let (a, b, c, d) = ((1, 1), (1, 2), (1, 3), (1, 4));
    let mut owners = ownership(&[
        ((a, 4), 0),
        ((b, 3), 1),
        ((b, 3), 2),
        ((c, 2), PRIMARY_FETCH_SENTINEL),
    ]);
    let mut collector = StateCollector::new(1);
    let mut snapshot = EpochObjectStates::new();
    snapshot.insert(c, Object::new_gas_coin(2, c, 1, Owner::Immutable));
    collector.process_snapshot(0, 1, &snapshot);
    let required = vec![(a, 4), (b, 3), (c, 2), (d, 2)];
    let missing = SharedObjTxnForwarder::get_missing_states_for_transaction(
        &required,
        0,
        3,
        &mut owners,
        &collector,
    );
    assert_eq!(
        entries(&missing.required_states),
        vec![((a, 4), None), ((b, 3), Some(1)), ((c, 2), None), ((d, 2), None)]
    );
    assert_eq!(missing.lazy_fetched_blobs.len(), 1);
    assert_eq!(missing.lazy_fetched_blobs.get(&c).unwrap().version(), 2);
    for id in [a, b, c, d] {
        assert!(owners.owners(&(id, 5)).unwrap().contains(0));
    }
    assert!(!owners.owners(&(a, 4)).unwrap().contains(0));
    assert!(owners.owners(&(b, 3)).unwrap().contains(1));

    // The last owner is gone: the primary sends the state.
    let mut retired = ownership(&[((c, 2), 2)]);
    let missing = SharedObjTxnForwarder::get_missing_states_for_transaction(
        &vec![(c, 2)],
        0,
        2,
        &mut retired,
        &collector,
    );
    assert_eq!(entries(&missing.required_states), vec![((c, 2), None)]);
    assert!(missing.lazy_fetched_blobs.contains_key(&c));
}

#[test]
fn a_task_is_forwarded_in_order() {
    let connections = connected(&[10, 20, 30]);
    let (a, c) = ((1, 1), (1, 3));
    let mut collector = StateCollector::new(1);
    let mut snapshot = EpochObjectStates::new();
    snapshot.insert(c, Object::new_gas_coin(3, c, 1, Owner::Immutable));
    collector.process_snapshot(0, 1, &snapshot);
    let task = ForwardingTask {
        transaction: Arc::new(transaction((5, 5), vec![a, c])),
        required_versions: vec![(a, 3), (c, 3)],
        txn_cnt: 0,
        epoch_id: EpochId(2),
    };
    let mut owners = ownership(&[((a, 3), 2), ((c, 3), PRIMARY_FETCH_SENTINEL)]);
    let messages = SharedObjTxnForwarder::process_forwarding_task(
        &task,
        Some((0, 1)),
        &connections,
        false,
        3,
        &RetiringProxies::new(),
        ProxyMode::Separation,
        &mut owners,
        &collector,
    );
    assert_eq!(messages.len(), 3);
    assert_eq!(messages[0].0, 10);
    match &messages[0].1 {
        PrimaryToProxyMessage::Replay(batch) => {
            assert_eq!(batch.epoch, EpochId(0));
            assert_eq!(batch.items.len(), 1);
            assert!(batch.items[0].transaction.is_none());
            assert!(batch.items[0].state_blobs.contains_key(&c));
        }
        _ => panic!("states first"),
    }
    assert_eq!(messages[1].0, 20);
    assert!(matches!(messages[1].1, PrimaryToProxyMessage::StatelessTxn(EpochId(2), _)));
    assert_eq!(messages[2].0, 10);
    match &messages[2].1 {
        PrimaryToProxyMessage::Txn(epoch, txn, checker, required) => {
            assert_eq!(*epoch, EpochId(2));
            assert_eq!(txn.digest, (5, 5));
            assert_eq!(*checker, 20);
            assert_eq!(entries(required), vec![((a, 3), Some(30)), ((c, 3), None)]);
        }
        _ => panic!("execution last"),
    }
    let none = SharedObjTxnForwarder::process_forwarding_task(
        &task,
        None,
        &connections,
        false,
        3,
        &RetiringProxies::new(),
        ProxyMode::Separation,
        &mut owners,
        &collector,
    );
    assert_eq!(none.len(), 0);
    let combined = SharedObjTxnForwarder::process_forwarding_task(
        &task,
        Some((0, 5)),
        &connections,
        false,
        3,
        &RetiringProxies::new(),
        ProxyMode::NoSeparation,
        &mut ownership(&[]),
        &collector,
    );
    assert_eq!(combined.len(), 1);
    assert!(matches!(
        combined[0].1,
        PrimaryToProxyMessage::CombinedTxn(EpochId(2), _, usize::MAX, _)
    ));
}

#[test]
fn a_task_goes_to_no_proxy_that_retires_or_is_not_active() {
    let connections = connected(&[10, 20, 30]);
    let a = (1, 1);
    let mut collector = StateCollector::new(1);
    let mut snapshot = EpochObjectStates::new();
    snapshot.insert(a, Object::new_gas_coin(3, a, 1, Owner::Immutable));
    collector.process_snapshot(0, 1, &snapshot);
    let task = ForwardingTask {
        transaction: Arc::new(transaction((5, 5), vec![a])),
        required_versions: vec![(a, 3)],
        txn_cnt: 0,
        epoch_id: EpochId(2),
    };
    let mut retiring = RetiringProxies::new();
    retiring.insert(20, EpochId(1));
    let forward = |choice, standby_excluded, active, mode, owners: &[(StateKey, usize)]| {
        SharedObjTxnForwarder::process_forwarding_task(
            &task,
            Some(choice),
            &connections,
            standby_excluded,
            active,
            &retiring,
            mode,
            &mut ownership(owners),
            &collector,
        )
    };
    assert_eq!(forward((1, 1), false, 3, ProxyMode::NoSeparation, &[]).len(), 0);
    assert_eq!(forward((2, 2), false, 2, ProxyMode::NoSeparation, &[]).len(), 0);
    assert_eq!(forward((2, 1), false, 2, ProxyMode::Separation, &[]).len(), 0);

    // A proxy that retires still hands out the states that it has.
    let messages = forward((0, 0), false, 2, ProxyMode::NoSeparation, &[((a, 3), 1)]);
    assert_eq!(messages.len(), 1);
    let PrimaryToProxyMessage::CombinedTxn(_, _, 10, required) = &messages[0].1 else {
        panic!("not a combined transaction");
    };
    assert_eq!(entries(required), vec![((a, 3), Some(20))]);

    // The standby is connected: the primary sends nothing in its stead.
    let messages = forward((0, 0), true, 3, ProxyMode::NoSeparation, &[((a, 3), 2)]);
    assert_eq!(messages.len(), 1);
    let PrimaryToProxyMessage::CombinedTxn(_, _, 10, required) = &messages[0].1 else {
        panic!("not a combined transaction");
    };
    assert_eq!(entries(required), vec![((a, 3), None)]);

    // An owner that is gone: the primary sends the state.
    let messages = forward((0, 0), true, 3, ProxyMode::NoSeparation, &[((a, 3), 3)]);
    assert_eq!(messages.len(), 2);
    assert!(matches!(messages[0].1, PrimaryToProxyMessage::Replay(_)));
}

#[test]
fn a_shared_processor_follows_the_states() {
    let connections = connected(&[0, 1, 2]);
    let (a, b) = ((1, 1), (1, 2));
    let mut processor = SharedTxnProcessor::new(LoadBalancingPolicy::Zeus);
    let txn = Arc::new(transaction((5, 5), vec![a, b]));
    let required = vec![(a, 2), (b, 2)];
    assert_eq!(entries(&processor.get_missing_states_for_transaction(&required, 1)).len(), 2);
    assert_eq!(
        processor.get_proxy_for_shared_objects(&connections, &required),
        Some((1, 1))
    );
    let asked = processor.get_missing_states_for_transaction(&vec![(a, 3)], 2);
    assert_eq!(entries(&asked), vec![((a, 3), Some(1))]);
    let sent = processor.forward_shared_object_txn(&connections, EpochId(1), &txn, &required);
    assert_eq!(sent.len(), 2);
    assert_eq!(sent[0].0, 1);
    assert!(matches!(sent[0].1, PrimaryToProxyMessage::StatelessTxn(EpochId(1), _)));
    match &sent[1].1 {
        PrimaryToProxyMessage::Txn(_, _, checker, states) => {
            assert_eq!(*checker, 1);
            assert_eq!(entries(states), vec![((a, 2), Some(2)), ((b, 2), None)]);
        }
        _ => panic!("execution last"),
    }
    let mut turns = SharedTxnProcessor::new(LoadBalancingPolicy::RoundRobin);
    let order: Vec<usize> = (0..4)
        .map(|_| turns.get_proxy_for_shared_objects(&connections, &required).unwrap().0)
        .collect();
    assert_eq!(order, vec![0, 1, 2, 0]);
    let mut dedicated = SharedTxnProcessor::new(LoadBalancingPolicy::Dedicated);
    assert_eq!(
        dedicated.get_proxy_for_shared_objects(&connections, &required),
        Some((1, 0))
    );
}

#[test]
fn batches_are_numbered_and_broadcast() {
    let mut forwarder = DecentralizedForwarder::new(ProxyMode::Separation);
    let transactions = generate_test_transactions(3);
    let sent = forwarder.process_committed_transactions(&connected(&[4, 2]), &transactions);
    assert_eq!(forwarder.batch_sequence, 1);
    assert_eq!(sent.len(), 2);
    let mut receivers: Vec<ProxyId> = sent.iter().map(|(to, _)| *to).collect();
    receivers.sort();
    assert_eq!(receivers, vec![2, 4]);
    for (_, message) in &sent {
        match message {
            PrimaryToProxyMessage::TransactionBatch(batch, number) => {
                assert_eq!(batch.len(), 3);
                assert_eq!(batch[2].digest, (7, 2));
                assert_eq!(*number, 1);
            }
            _ => panic!("a batch"),
        }
    }
    forwarder.process_committed_transactions(&connected(&[4, 2]), &transactions);
    assert_eq!(forwarder.batch_sequence, 2);
}

#[test]
fn only_current_results_are_applied() {
    let mut store = FakeObjectStore::new();
    store.write_object(fake_shared_object_with_id(2, (1, 1)));
    store.write_object(fake_owned_object_with_id(4, (1, 2), (9, 9)));
    let txn = Arc::new(
        FakeTransaction::from_store(&store, (5, 5), &vec![(1, 1), (1, 2)]).with_timestamp(0, NONE),
    );
    let versions =
        PrimaryCore::get_input_object_ids_and_versions(&store, &vec![(1, 1), (1, 2)]);
    assert_eq!(versions.get(&(1, 1)), Some(&2));
    assert_eq!(versions.get(&(1, 2)), Some(&4));
    assert!(PrimaryCore::is_current(&versions, &vec![((1, 1), 2)]));
    assert!(!PrimaryCore::is_current(&versions, &vec![((1, 1), 3)]));

    let context = FakeExecutionContext::new(1, 1);
    let mut proxy_store = FakeObjectStore::new();
    proxy_store.write_object(fake_shared_object_with_id(2, (1, 1)));
    proxy_store.write_object(fake_owned_object_with_id(4, (1, 2), (9, 9)));
    let results =
        FakeExecutor::execute(&context, &mut proxy_store, &txn, &vec![(6, 1), (6, 2)]);
    assert!(results.success());
    assert!(PrimaryCore::check_and_apply_proxy_results(&mut store, &results, (9, 9)));
    assert_eq!(store.read_object(&(1, 1)).unwrap().version(), 3);
    // The results are stale where an input has moved on.
    let mut later = FakeObjectStore::new();
    later.write_object(fake_shared_object_with_id(3, (1, 1)));
    later.write_object(fake_owned_object_with_id(4, (1, 2), (9, 9)));
    assert!(!PrimaryCore::check_and_apply_proxy_results(&mut later, &results, (9, 9)));
    assert_eq!(later.read_object(&(1, 1)).unwrap().version(), 3);
    assert_eq!(later.read_object(&(1, 2)).unwrap().version(), 4);
    // Inputs that are not there are created at version 0 first.
    let mut empty = FakeObjectStore::new();
    assert!(!PrimaryCore::check_and_apply_proxy_results(&mut empty, &results, (9, 9)));
    assert_eq!(empty.read_object(&(1, 1)).unwrap().version(), 0);
    let skipped = ExecutionResultsAndEffects::new(Arc::clone(&txn), None, None);
    assert!(!skipped.success());
    assert_eq!(skipped.transaction_digest(), (5, 5));
}

#[test]
fn refused_results_are_executed_locally() {
    let mut store = FakeObjectStore::new();
    store.write_object(fake_shared_object_with_id(2, (1, 1)));
    let txn = Arc::new(
        FakeTransaction::from_store(&store, (5, 5), &vec![(1, 1)]).with_timestamp(77, NONE),
    );
    let current = ExecutionResultsAndEffects::new(
        Arc::clone(&txn),
        Some(vec![((1, 1), 2)]),
        Some(EpochObjectStates::new()),
    );
    let step = PrimaryCore::handle_proxy_result(&mut store, &current, (9, 9));
    assert!(matches!(step, ResultStep::Announce(77)));

    let stale = ExecutionResultsAndEffects::new(
        Arc::clone(&txn),
        Some(vec![((1, 1), 1)]),
        Some(EpochObjectStates::new()),
    );
    let ResultStep::ExecuteLocally(again) =
        PrimaryCore::handle_proxy_result(&mut store, &stale, (9, 9))
    else {
        panic!("a stale result is applied");
    };
    assert_eq!(again.digest, (5, 5));
    assert_eq!(store.read_object(&(1, 1)).unwrap().version(), 2);

    let context = FakeExecutionContext::new(1, 1);
    let (timestamp, results) =
        PrimaryCore::local_execute(&context, &mut store, &again, &vec![(6, 1)]);
    assert_eq!(timestamp, 77);
    assert!(results.success());
    assert_eq!(results.modified_at_versions, Some(vec![((1, 1), 2)]));
    assert_eq!(store.read_object(&(1, 1)).unwrap().version(), 3);
}

#[test]
fn loads_are_kept_for_proxies_without_a_history() {
    let mut tracking = LoadTracking::new(1);
    let chosen = SharedObjTxnForwarder::compute_locality_load_proxy(
        &vec![0, 1, 2],
        &vec![5, 9, 7],
        &vec![((1, 1), 2)],
        &mut tracking,
        false,
        &Duration { secs: 0, nanos: 4_000 },
    );
    assert_eq!(chosen, Some((1, 1)));
    assert_eq!(tracking.current_loads(3), vec![0, 4, 0]);
}

use std::sync::Arc;
use std::time::Instant;

use rand::rngs::StdRng;
use rand::{Rng, SeedableRng};
use remora::base_types::{InputObjectKind, ObjectID, ProxyId, StateKey};
use remora::checkpoint::EpochId;
use remora::config::{BenchmarkParameters, LoadBalancingPolicy, ProxyMode, SeparationMode};
use remora::duration::Duration;
use remora::executor::api::{
    InterProxyReply, InterProxyRequest, NewStates, PrimaryToProxyMessage, ProxyToProxyMessage,
    RequiredStates, TransactionWithTimestamp,
};
use remora::executor::calibration::Calibration;
use remora::executor::fake::{
    fake_shared_object_with_id, generate_fake_transactions, FakeDraws, FakeExecutionContext,
    FakeExecutor, FakeObjectStore,
};
use remora::executor::oneshot_dependency_controller::OneshotDependencyController;
use remora::primary::shared_obj_txn_forwarder::{ProxyChoice, VersionAssignmentTask};
use remora::proxy::available_states::AvailableStates;
use remora::proxy::decentralized_scheduler::DecentralizedScheduler;
use remora::proxy::proxy_core::{
    PrimaryMessageProcessor, ProxyMessageProcessor, ProxyWork, StatefulTask, Step,
};


fn transaction(n: u128, versions: Vec<StateKey>) -> TransactionWithTimestamp {
    let inputs: Vec<InputObjectKind> = versions
        .iter()
        .map(|(id, _)| InputObjectKind::SharedMoveObject {
            id: *id,
            initial_shared_version: 2,
            mutable: true,
        })
        .collect();
    let ids: Vec<ObjectID> = versions.iter().map(|(id, _)| *id).collect();
    let span = Duration { secs: 0, nanos: 5_000 };
    let mut made = TransactionWithTimestamp::new((8, n), inputs, 0, ids, span, span, None);
    for (at, (_, version)) in versions.iter().enumerate() {
        made.shared_objects[at].1 = Some(*version);
    }
    made
}

fn entries(required: &RequiredStates) -> Vec<(StateKey, Option<ProxyId>)> {
    (0..required.len()).map(|i| *required.entry_at(i)).collect()
}

fn steps(task: &mut StatefulTask, ready: bool) -> Vec<Step> {
    let mut taken = Vec::new();
    loop {
        let step = task.next(ready);
        if step == Step::Rest {
            return taken;
        }
        taken.push(step);
    }
}

#[test]
fn a_transaction_takes_its_course() {
    let shared = transaction(1, vec![((1, 1), 2)]);
    let mut required = RequiredStates::new();
    required.insert(((1, 1), 2), None);
    let mode = SeparationMode::ProxySeparation;
    let mut task = StatefulTask::spawn_stateful_txn(&shared, &required, true, mode);
    assert_eq!(
        steps(&mut task, true),
        vec![
            Step::AssignVersions,
            Step::Enlist,
            Step::AwaitCheck,
            Step::AwaitPriors,
            Step::CompareVersions,
            Step::Execute,
            Step::ReportResult,
        ]
    );
    let mut task = StatefulTask::spawn_stateful_txn(&shared, &required, false, mode);
    assert_eq!(
        steps(&mut task, false),
        vec![
            Step::AssignVersions,
            Step::Enlist,
            Step::AwaitPriors,
            Step::CompareVersions,
            Step::ReportSkipped,
        ]
    );
    let owned = transaction(2, vec![]);
    let mut task = StatefulTask::spawn_stateful_txn(
        &owned,
        &RequiredStates::new(),
        false,
        SeparationMode::NoSeparation,
    );
    assert_eq!(
        steps(&mut task, false),
        vec![Step::AwaitPriors, Step::Check, Step::Execute, Step::ReportResult]
    );
}

#[test]
fn messages_of_the_primary_become_work() {
    let separated =
        PrimaryMessageProcessor { id: 3, mode: SeparationMode::ProxySeparation };
    let txn = Arc::new(transaction(1, vec![((1, 1), 2)]));
    let work = separated
        .handle_primary_message(PrimaryToProxyMessage::StatelessTxn(EpochId(1), Arc::clone(&txn)));
    assert_eq!(work.check, Some(((8, 1), Duration { secs: 0, nanos: 5_000 })));
    assert!(work.execution.is_none());
    let mut required = RequiredStates::new();
    required.insert(((1, 1), 2), Some(6));
    let work = separated.handle_primary_message(PrimaryToProxyMessage::Txn(
        EpochId(1),
        Arc::clone(&txn),
        4,
        required,
    ));
    assert!(work.check.is_none());
    let (executed, checker, needs) = work.execution.unwrap();
    assert_eq!(executed.digest, (8, 1));
    assert_eq!(checker, 4);
    assert_eq!(entries(&needs), vec![(((1, 1), 2), Some(6))]);
    assert_eq!(PrimaryMessageProcessor::get_dependencies(&needs), vec![((1, 1), 2)]);
    let requests = separated.schedule_stateful_transaction(&needs);
    assert_eq!(requests.len(), 1);
    assert_eq!(requests[0].0, 6);
    match &requests[0].1 {
        InterProxyRequest::Stateful(asking, keys) => {
            assert_eq!(*asking, 3);
            assert_eq!(*keys, vec![((1, 1), 2)]);
        }
        _ => panic!("states are asked for"),
    }
}

#[test]
fn outcomes_of_checks_arrive() {
    let processor = PrimaryMessageProcessor { id: 3, mode: SeparationMode::ProxySeparation };
    let mut controller = OneshotDependencyController::new();

    // Checked here.
    let sender = processor.process_stateless_transaction(&mut controller, (8, 1));
    let (receiver, request) = processor.process_stateful_transaction(&mut controller, (8, 1), 3);
    assert!(request.is_none());
    sender.send(true).unwrap();
    assert!(receiver.unwrap().blocking_recv().unwrap());

    // Checked on another proxy.
    let (receiver, request) = processor.process_stateful_transaction(&mut controller, (8, 2), 5);
    match request {
        Some((5, InterProxyRequest::Stateless(3, digest))) => assert_eq!(digest, (8, 2)),
        _ => panic!("the outcome is asked for"),
    }
    let sender = ProxyMessageProcessor::handle_stateless_reply(&mut controller, &(8, 2)).unwrap();
    assert!(!controller.has_entry_for_txn(&(8, 2)));
    sender.send(false).unwrap();
    assert!(!receiver.unwrap().blocking_recv().unwrap());

    // Asked for by another proxy.
    let sender = processor.process_stateless_transaction(&mut controller, (8, 3));
    let receiver = ProxyMessageProcessor::handle_stateless_request(&mut controller, &(8, 3));
    sender.send(true).unwrap();
    assert!(receiver.unwrap().blocking_recv().unwrap());
    assert!(ProxyMessageProcessor::handle_stateless_request(&mut controller, &(8, 9)).is_none());

    // Not separated.
    let combined = PrimaryMessageProcessor { id: 3, mode: SeparationMode::NoSeparation };
    let (receiver, request) = combined.process_stateful_transaction(&mut controller, (8, 4), 5);
    assert!(receiver.is_none() && request.is_none());
}

#[test]
fn states_come_at_the_requested_versions() {
    let mut store = FakeObjectStore::new();
    store.write_object(fake_shared_object_with_id(4, (1, 1)));
    store.write_object(fake_shared_object_with_id(5, (1, 2)));
    let sent = ProxyMessageProcessor::handle_stateful_request(
        &store,
        &vec![((1, 1), 4), ((1, 2), 4), ((1, 3), 2)],
    );
    assert_eq!(sent.len(), 1);
    assert_eq!(sent.get(&(1, 1)).unwrap().version(), 4);

    let mut asking = FakeObjectStore::new();
    let before = ProxyMessageProcessor::handle_stateful_reply(&mut asking, &sent);
    assert_eq!(before, vec![((1, 1), 3)]);
    assert_eq!(asking.read_object(&(1, 1)).unwrap().version(), 4);
}

#[test]
fn messages_of_proxies_become_work() {
    let processor = ProxyMessageProcessor { id: 3, mode: SeparationMode::ProxySeparation };
    let work = processor.handle_proxy_message(ProxyToProxyMessage::Request(
        InterProxyRequest::Stateful(5, vec![((1, 1), 2)]),
    ));
    assert!(matches!(work, ProxyWork::SendStates(5, keys) if keys == vec![((1, 1), 2)]));
    let work = processor.handle_proxy_message(ProxyToProxyMessage::Request(
        InterProxyRequest::Stateless(5, (8, 1)),
    ));
    assert!(matches!(work, ProxyWork::SendOutcome(5, (8, 1))));
    let work = processor.handle_proxy_message(ProxyToProxyMessage::Reply(
        InterProxyReply::Stateless((8, 1), true),
    ));
    assert!(matches!(work, ProxyWork::TakeOutcome((8, 1), true)));
    let work = processor.handle_proxy_message(ProxyToProxyMessage::Reply(
        InterProxyReply::Stateful(NewStates::new()),
    ));
    assert!(matches!(work, ProxyWork::TakeStates(states) if states.is_empty()));
}

#[test]
fn proxies_decide_alike() {
    for policy in [
        LoadBalancingPolicy::RoundRobin,
        LoadBalancingPolicy::Random,
        LoadBalancingPolicy::Zeus,
    ] {
        let mut first = DecentralizedScheduler::new(0, 3, policy, ProxyMode::Separation);
        let mut second = DecentralizedScheduler::new(2, 3, policy, ProxyMode::Separation);
        for n in 0..30u64 {
            let txn = Arc::new(transaction(n as u128, vec![((1, n as u128 % 4), 2 + n / 4)]));
            let here = first.process_single_transaction(&txn, n as usize).unwrap();
            let there = second.process_single_transaction(&txn, n as usize).unwrap();
            assert_eq!(here.assigned_proxy, there.assigned_proxy);
            assert_eq!(entries(&here.missing_states), entries(&there.missing_states));
            assert_eq!(first.is_assigned_here(&here), here.assigned_proxy == 0);
            assert_eq!(second.is_assigned_here(&there), there.assigned_proxy == 2);
        }
    }
}

#[test]
fn random_proxies_follow_the_number_of_the_transaction() {
    let mut scheduler =
        DecentralizedScheduler::new(0, 5, LoadBalancingPolicy::Random, ProxyMode::Separation);
    for n in 0..30u64 {
        let txn = Arc::new(transaction(n as u128, vec![]));
        let drawn: usize = StdRng::seed_from_u64(n).gen_range(0..5);
        let scheduled = scheduler.process_single_transaction(&txn, n as usize).unwrap();
        assert_eq!(scheduled.assigned_proxy, drawn);
    }
}

#[test]
fn scheduled_proxies_ask_the_last_writer() {
    let mut scheduler =
        DecentralizedScheduler::new(0, 2, LoadBalancingPolicy::RoundRobin, ProxyMode::Separation);
    let first = Arc::new(transaction(1, vec![((1, 1), 2)]));
    let second = Arc::new(transaction(2, vec![((1, 1), 3)]));
    let scheduled = scheduler.process_single_transaction(&first, 0).unwrap();
    assert_eq!(scheduled.assigned_proxy, 0);
    assert_eq!(entries(&scheduled.missing_states), vec![(((1, 1), 2), None)]);
    let scheduled = scheduler.process_single_transaction(&second, 1).unwrap();
    assert_eq!(scheduled.assigned_proxy, 1);
    assert_eq!(entries(&scheduled.missing_states), vec![(((1, 1), 3), Some(0))]);
    assert_eq!(scheduled.required_versions, vec![((1, 1), 3)]);

    let mut scored =
        DecentralizedScheduler::new(0, 2, LoadBalancingPolicy::LocalityLoad, ProxyMode::Separation);
    assert!(scored.process_single_transaction(&first, 0).is_none());
    match scored.get_proxy_for_shared_objects(&vec![((1, 1), 2)], 0, None) {
        ProxyChoice::ByScore { locality, loads } => {
            assert_eq!(locality, vec![0, 0]);
            assert_eq!(loads, vec![0, 0]);
        }
        _ => panic!("scores decide"),
    }
    assert_eq!(scored.process_scored_transaction(&first, &vec![3, 8]).assigned_proxy, 1);
    match scored.get_proxy_for_shared_objects(&vec![((1, 1), 3)], 0, None) {
        ProxyChoice::ByScore { locality, loads } => {
            assert_eq!(locality, vec![0, 1]);
            assert_eq!(loads, vec![0, 10]);
        }
        _ => panic!("scores decide"),
    }
}

#[test]
fn a_transaction_waits_for_those_before_it() {
    let (a, b) = ((1, 1), (1, 2));
    let mut available = AvailableStates::new();
    // Initial versions are there, and stay.
    let first = vec![(a, 2), (b, 2)];
    assert!(available.ready(&first));
    assert!(available.ready(&vec![]));
    let second = vec![(a, 3)];
    assert!(!available.ready(&second));
    available.finish(&first);
    assert!(available.ready(&second));
    assert!(available.ready(&first));
    assert!(available.is_available(&(b, 3)));
    // A version is used once; what is not used stays.
    available.finish(&second);
    assert!(!available.ready(&second));
    assert!(available.is_available(&(a, 4)));
    assert!(available.is_available(&(b, 3)));
    // What another proxy wrote comes in.
    assert!(!available.ready(&vec![(a, 4), (b, 7)]));
    available.note((b, 7));
    assert!(available.ready(&vec![(a, 4), (b, 7)]));
    available.finish(&vec![(a, 4), (b, 7)]);
    assert!(available.ready(&vec![(a, 8), (b, 8)]));
    assert!(!available.is_available(&(b, 7)));
    assert!(available.is_available(&(b, 3)));
}

#[test]
fn a_destination_is_taken_as_it_is() {
    let mut scheduler =
        DecentralizedScheduler::new(0, 2, LoadBalancingPolicy::Hermes, ProxyMode::Separation);
    let mut asked = transaction(1, vec![((1, 1), 2)]);
    asked.destination = Some(7);
    let scheduled = scheduler.process_single_transaction(&Arc::new(asked), 0).unwrap();
    assert_eq!(scheduled.assigned_proxy, 7);
    let free = Arc::new(transaction(2, vec![((1, 1), 3)]));
    let scheduled = scheduler.process_single_transaction(&free, 1).unwrap();
    assert_eq!(scheduled.assigned_proxy, 0);
    assert_eq!(entries(&scheduled.missing_states), vec![(((1, 1), 3), Some(7))]);
}

// The number of iterations that take about a span of time.
fn calibrate(target: Duration) -> u64 {
    let mut search = Calibration::new();
    loop {
        let start = Instant::now();
        Calibration::calibrated_work(search.iterations);
        let elapsed = start.elapsed();
        let measured = Duration { secs: elapsed.as_secs(), nanos: elapsed.subsec_nanos() };
        let expected = std::time::Duration::new(target.secs, target.nanos);
        let gap = elapsed.as_secs_f64() - expected.as_secs_f64();
        if search.calibrate(&measured, &target, gap.abs() < 0.000_001) {
            return search.iterations;
        }
    }
}

// Takes the transactions of a synthetic workload through a proxy; whether one
// of them is executed with success.
fn process_transaction(config: &BenchmarkParameters) -> bool {
    let (execution, verification) = FakeExecutor::target_durations(config).unwrap();
    let executor = FakeExecutor::new(FakeExecutionContext::new(
        calibrate(execution),
        calibrate(verification),
    ));
    let ctx = executor.execution_context;
    let mut store = FakeObjectStore::new();
    let proxy = PrimaryMessageProcessor { id: 0, mode: SeparationMode::ProxySeparation };
    let mut controller = OneshotDependencyController::new();

    // Generate transactions
    let total = config.calculate_total_transactions() as usize;
    let draws = FakeDraws {
        digests: (0..total as u128).map(|i| (8, i)).collect(),
        ids: vec![],
        loads: (0..total).map(|i| vec![i % 3, 100 + i]).collect(),
    };
    let transactions = generate_fake_transactions(config, &draws);
    assert_eq!(transactions.len(), 10);

    // Set up version assignment
    let mut versions = VersionAssignmentTask::new();
    let mut success = false;
    for tx in transactions {
        let mut timed = tx.with_timestamp(0, Duration { secs: 0, nanos: 0 });
        let mut required = RequiredStates::new();
        for key in versions.assign_shared_object_versions(&mut timed) {
            required.insert(key, None);
        }
        let timed = Arc::new(timed);

        // First send the stateless transaction
        let work = proxy.handle_primary_message(PrimaryToProxyMessage::StatelessTxn(
            EpochId(1),
            Arc::clone(&timed),
        ));
        let (digest, _) = work.check.unwrap();
        let outcome = proxy.process_stateless_transaction(&mut controller, digest);
        outcome.send(FakeExecutor::verify_transaction(&ctx, &timed)).unwrap();

        // Then send the stateful transaction with required states (empty or not)
        let work = proxy.handle_primary_message(PrimaryToProxyMessage::Txn(
            EpochId(1),
            Arc::clone(&timed),
            0,
            required,
        ));
        let (txn, checker, needs) = work.execution.unwrap();
        let (outcome, request) =
            proxy.process_stateful_transaction(&mut controller, txn.digest, checker);
        assert!(request.is_none());
        assert!(proxy.schedule_stateful_transaction(&needs).is_empty());
        let mut outcome = outcome;
        let mut task =
            StatefulTask::spawn_stateful_txn(&txn, &needs, outcome.is_some(), proxy.mode);
        loop {
            match task.next(FakeExecutor::pre_execute_check(&ctx, &store, &txn)) {
                Step::AwaitCheck => {
                    assert!(outcome.take().unwrap().blocking_recv().unwrap());
                }
                Step::Execute => {
                    if !FakeExecutor::pre_execute_check_objects(&store, &txn) {
                        FakeExecutor::optimistically_pre_generate_objects(
                            &mut store,
                            &txn,
                            (9, 9),
                        );
                    }
                    let fresh = (0..txn.inputs.len() as u128).map(|i| (0xf5e5, i)).collect();
                    let result = FakeExecutor::execute(&ctx, &mut store, &txn, &fresh);
                    success = success || result.success();
                }
                Step::ReportSkipped => panic!("versions match"),
                Step::Rest => break,
                _ => {}
            }
        }
    }
    success
}

#[test]
fn test_proxy_processes_fake_transaction() {
    let config = BenchmarkParameters::new_for_fake_tests();
    let success = process_transaction(&config);
    assert!(success, "Transaction should be processed successfully");
}

#[test]
fn test_proxy_fake_transactions() {
    let config = BenchmarkParameters::new_for_fake_tests();
    let success = process_transaction(&config);
    assert!(success, "Fake transaction should be processed successfully");
}

#[test]
fn test_proxy_fake_transactions_contention() {
    let config = BenchmarkParameters::new_for_fake_contention_tests();
    let success = process_transaction(&config);
    assert!(
        success,
        "Contention transaction should be processed successfully"
    );
}

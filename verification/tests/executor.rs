use std::sync::Arc;
use std::time::Instant;

use rand::rngs::StdRng;
use rand::{Rng, SeedableRng};

use remora::base_types::{InputObjectKind, Object, ObjectID, Owner};
use remora::config::{
    default_fake_execution_duration, default_fake_verification_duration, default_zipfian_alpha,
    BenchmarkParameters, LoadConfig, WorkloadType, DEFAULT_CHANNEL_SIZE,
};
use remora::duration::Duration;
use remora::executor::calibration::Calibration;
use remora::executor::fake::{
    fake_owned_object_with_id, fake_shared_object_transaction, fake_shared_object_with_id,
    generate_fake_load_objects_and_transactions, generate_fake_owned_object_transaction,
    generate_fake_shared_object_transaction, generate_fake_transactions, FakeDraws,
    FakeExecutionContext, FakeExecutor, FakeObjectStore, FakeTransaction, ZERO_ID,
};
use remora::executor::oneshot_dependency_controller::OneshotDependencyController;
use remora::executor::worker_pool::{WorkerPool, WorkerPoolConfig, DEFAULT_WORKERS};

const NONE: Duration = Duration { secs: 0, nanos: 0 };

fn span(duration: Duration) -> std::time::Duration {
    std::time::Duration::new(duration.secs, duration.nanos)
}

fn time_of(iterations: u64) -> std::time::Duration {
    let start = Instant::now();
    Calibration::calibrated_work(iterations);
    start.elapsed()
}

// The number of iterations that take a span of time. The last try of the
// search may fall short of it by chance: what the fastest of some runs misses
// is added.
fn calibrate(target: Duration) -> u64 {
    let mut search = Calibration::new();
    loop {
        let elapsed = time_of(search.iterations);
        let measured = Duration { secs: elapsed.as_secs(), nanos: elapsed.subsec_nanos() };
        let gap = elapsed.as_secs_f64() - span(target).as_secs_f64();
        if search.calibrate(&measured, &target, gap.abs() < 0.000_001) {
            break;
        }
    }
    let mut iterations = search.iterations;
    while (0..20).map(|_| time_of(iterations)).min().unwrap() < span(target).mul_f64(1.05) {
        iterations += iterations / 50 + 1;
    }
    iterations
}

fn executor_for(config: &BenchmarkParameters) -> FakeExecutor {
    let (execution, verification) = FakeExecutor::target_durations(config).unwrap();
    FakeExecutor::new(FakeExecutionContext::new(calibrate(execution), calibrate(verification)))
}

// A calibration holds as long as the machine keeps its pace: where it has
// become faster and an execution falls short, the executor is made anew.
fn execute_and_check(
    config: &BenchmarkParameters,
    executor: &mut FakeExecutor,
    store: &mut FakeObjectStore,
    transaction: FakeTransaction,
) {
    let fresh: Vec<ObjectID> =
        (0..transaction.inputs.len() as u128).map(|i| (0xf5e5, i)).collect();
    let transaction_with_timestamp = Arc::new(transaction.with_timestamp(0, NONE));

    let mut duration = std::time::Duration::ZERO;
    for _ in 0..10 {
        let ctx = executor.execution_context;
        let start = Instant::now();
        let result = FakeExecutor::execute(&ctx, store, &transaction_with_timestamp, &fresh);
        duration = start.elapsed();

        assert!(result.success());
        if duration >= span(default_fake_execution_duration()) {
            break;
        }
        *executor = executor_for(config);
    }
    assert!(duration >= span(default_fake_execution_duration()));
}

#[test]
fn execute_fake_owned_object_transaction() {
    let mut store = FakeObjectStore::new();
    let config = BenchmarkParameters::new_for_fake_tests();
    let mut executor = executor_for(&config);

    let inputs: Vec<ObjectID> = (0..2)
        .map(|i| {
            let object = fake_owned_object_with_id(0, (0x51, i), (9, 9));
            let id = object.id();
            store.write_object(object);
            id
        })
        .collect();
    let transaction = FakeTransaction::from_store(&store, (1, 1), &inputs);
    execute_and_check(&config, &mut executor, &mut store, transaction);
}

#[test]
fn execute_fake_shared_object_transaction() {
    let mut store = FakeObjectStore::new();
    let config = BenchmarkParameters::new_for_fake_tests();
    let mut executor = executor_for(&config);

    let inputs: Vec<ObjectID> = (0..2)
        .map(|i| {
            let object = fake_shared_object_with_id(0, (0x51, i));
            let id = object.id();
            store.write_object(object);
            id
        })
        .collect();
    let transaction = FakeTransaction::from_store(&store, (1, 1), &inputs);
    execute_and_check(&config, &mut executor, &mut store, transaction);
}

#[test]
fn execute_fake_shared_object_transaction_with_contention() {
    let mut store = FakeObjectStore::new();
    let config = BenchmarkParameters::new_for_fake_tests();
    let mut executor = executor_for(&config);

    // Write the object to the store
    store.write_object(fake_shared_object_with_id(0, ZERO_ID));

    for i in 0..10 {
        let contention = 100;
        let transaction =
            generate_fake_shared_object_transaction((1, i), &vec![(0x51, i)], contention);
        execute_and_check(&config, &mut executor, &mut store, transaction);
    }
}

// Executes transactions on recorded loads.
fn execute_loads(config: &BenchmarkParameters, loads: Vec<Vec<usize>>) {
    let mut store = FakeObjectStore::new();
    let mut executor = executor_for(config);

    let digests = (0..loads.len() as u128).map(|i| (1, i)).collect();
    let (objects, transactions) = generate_fake_load_objects_and_transactions(&digests, &loads);
    assert_eq!(transactions.len(), loads.len());

    // Write the object to the store.
    for i in 0..objects.len() {
        store.write_object(objects.entry_at(i).1.clone());
    }
    for transaction in transactions {
        execute_and_check(config, &mut executor, &mut store, transaction);
    }
}

#[test]
fn execute_fake_solana_transactions() {
    let config = BenchmarkParameters {
        workload: WorkloadType::FakeSolanaTransactions {
            execution_duration: default_fake_execution_duration(),
        },
        ..BenchmarkParameters::new_for_fake_tests()
    };

    // A transaction uses some accounts.
    let mut rng = StdRng::seed_from_u64(0);
    let loads = (0..10)
        .map(|_| {
            let accounts = rng.gen_range(1..12);
            (0..accounts).map(|_| rng.gen_range(0..1_000)).collect()
        })
        .collect();
    execute_loads(&config, loads);
}

#[test]
fn execute_fake_ethereum_transactions() {
    let config = BenchmarkParameters {
        workload: WorkloadType::FakeEthereumTransfers {
            execution_duration: default_fake_execution_duration(),
        },
        ..BenchmarkParameters::new_for_fake_tests()
    };

    // Transfers use a sender and a recipient, mints a token and a minter,
    // swaps, in normal and in peak times, a pair of coins.
    let mut rng = StdRng::seed_from_u64(0);
    let mut loads = Vec::new();
    for inputs in [2, 2, 1, 1] {
        for _ in 0..3 {
            loads.push((0..inputs).map(|_| rng.gen_range(0..1_000)).collect());
        }
    }
    execute_loads(&config, loads);
}

#[test]
fn executors_are_made_for_every_synthetic_workload() {
    let execution_duration = default_fake_execution_duration();
    let alpha = default_zipfian_alpha();
    for workload in [
        WorkloadType::FakedNoContention { execution_duration, number_of_inputs: 2 },
        WorkloadType::FakedContention { execution_duration, number_of_inputs: 2, contention: 5 },
        WorkloadType::FakeSolanaTransactions { execution_duration },
        WorkloadType::FakeEthereumTransfers { execution_duration },
        WorkloadType::FakeEthereumNftMint { execution_duration },
        WorkloadType::FakeUniswapNormal { execution_duration },
        WorkloadType::FakeUniswapPeak { execution_duration },
        WorkloadType::FakeZipfian { execution_duration, alpha, number_of_inputs: 2 },
    ] {
        assert!(workload.is_fake());
        let config =
            BenchmarkParameters { workload, ..BenchmarkParameters::new_for_fake_tests() };
        assert_eq!(
            FakeExecutor::target_durations(&config),
            Some((Duration::from_micros(500), Duration::from_micros(2000)))
        );
    }

    let config = BenchmarkParameters::new_for_fake_contention_tests();
    let transaction = FakeTransaction::new((1, 1), vec![]).with_timestamp(0, NONE);
    let mut duration = std::time::Duration::ZERO;
    for _ in 0..10 {
        let ctx = executor_for(&config).execution_context;
        let start = Instant::now();
        assert!(FakeExecutor::verify_transaction(&ctx, &transaction));
        duration = start.elapsed();
        if duration >= span(default_fake_verification_duration()) {
            break;
        }
    }
    assert!(duration >= span(default_fake_verification_duration()));
}

#[test]
fn power_law_workloads_are_generated_from_drawn_numbers() {
    let config = BenchmarkParameters::new_for_fake_tests();
    assert_eq!(config.calculate_total_transactions(), 10);
    let draws = FakeDraws {
        digests: (0..10).map(|i| (1, i)).collect(),
        ids: vec![],
        loads: (0..10).map(|i| vec![i, 7]).collect(),
    };
    let transactions = generate_fake_transactions(&config, &draws);
    assert_eq!(transactions.len(), 10);
    for (i, transaction) in transactions.iter().enumerate() {
        assert_eq!(transaction.digest, (1, i as u128));
        assert_eq!(transaction.inputs.len(), 2);
        assert_eq!(transaction.inputs[1], transactions[0].inputs[1]);
    }
    assert_eq!(transactions[7].inputs[0], transactions[7].inputs[1]);
    assert_ne!(transactions[3].inputs[0], transactions[4].inputs[0]);
}

#[test]
fn execution_moves_every_input_on() {
    let ctx = FakeExecutionContext::new(1, 1);
    let mut store = FakeObjectStore::new();
    store.write_object(fake_owned_object_with_id(4, (1, 1), (9, 9)));
    store.write_object(fake_shared_object_with_id(6, (1, 2)));
    let transaction = Arc::new(
        FakeTransaction::from_store(&store, (3, 3), &vec![(1, 1), (1, 2)]).with_timestamp(8, NONE),
    );
    assert_eq!(
        transaction.inputs,
        vec![
            InputObjectKind::ImmOrOwnedMoveObject((1, 1), 4),
            InputObjectKind::SharedMoveObject {
                id: (1, 2),
                initial_shared_version: 6,
                mutable: true
            },
        ]
    );
    assert_eq!(transaction.timestamp(), 8);
    assert!(FakeExecutor::pre_execute_check(&ctx, &store, &transaction));
    assert!(FakeExecutor::pre_execute_check_objects(&store, &transaction));
    assert!(FakeExecutor::verify_transaction(&ctx, &transaction));
    let result = FakeExecutor::execute(&ctx, &mut store, &transaction, &vec![(7, 1), (7, 2)]);
    assert_eq!(result.transaction_digest(), (3, 3));
    assert_eq!(
        result.modified_at_versions,
        Some(vec![((1, 1), 4), ((1, 2), 6)])
    );
    assert_eq!(store.read_object(&(1, 1)).unwrap().version(), 5);
    assert_eq!(
        store.read_object(&(1, 2)).unwrap().owner,
        Owner::Shared { initial_shared_version: 7 }
    );
    assert_eq!(store.read_object(&(1, 3)), None);
    let new_state = result.new_state.unwrap();
    assert_eq!(new_state.len(), 2);
    assert_eq!(new_state.get(&(1, 2)).unwrap().id(), (7, 2));

    let mut empty = FakeObjectStore::new();
    assert!(!FakeExecutor::pre_execute_check_objects(&empty, &transaction));
    FakeExecutor::optimistically_pre_generate_objects(&mut empty, &transaction, (9, 9));
    assert_eq!(empty.read_object(&(1, 1)).unwrap().version(), 0);
    assert_eq!(empty.read_object(&(1, 2)).unwrap().id(), (1, 2));
}

#[test]
fn an_update_keeps_the_owner() {
    let owned = fake_owned_object_with_id(4, (1, 1), (9, 9));
    let updated = FakeExecutor::update_object(&owned, (7, 7));
    assert_eq!(updated.id(), (7, 7));
    assert_eq!(updated.version(), 5);
    assert_eq!(updated.owner, Owner::AddressOwner((9, 9)));
    assert!(!updated.is_shared());
    let shared = FakeExecutor::update_object(&fake_shared_object_with_id(4, (1, 1)), (7, 8));
    assert!(shared.is_shared());
}

#[test]
fn contention_puts_the_common_object_first() {
    let ids = vec![(5, 1), (5, 2)];
    let input = |id| InputObjectKind::ImmOrOwnedMoveObject(id, 0);
    assert_eq!(
        fake_shared_object_transaction((1, 1), &ids, 30, 29).inputs,
        vec![input(ZERO_ID), input((5, 2))]
    );
    assert_eq!(
        fake_shared_object_transaction((1, 1), &ids, 30, 30).inputs,
        vec![input((5, 1)), input((5, 2))]
    );
    assert_eq!(
        fake_shared_object_transaction((1, 1), &ids, 500, 99).inputs,
        vec![input(ZERO_ID), input((5, 2))]
    );
    assert_eq!(
        generate_fake_shared_object_transaction((1, 1), &ids, 100).inputs[0],
        input(ZERO_ID)
    );
    assert_eq!(
        generate_fake_shared_object_transaction((1, 1), &ids, 0).inputs[0],
        input((5, 1))
    );
    assert_eq!(
        generate_fake_owned_object_transaction((1, 1), &ids).inputs,
        vec![input((5, 1)), input((5, 2))]
    );
}

#[test]
fn recorded_loads_share_their_objects() {
    let (objects, transactions) =
        generate_fake_load_objects_and_transactions(&vec![(1, 1), (1, 2)], &vec![vec![3, 4], vec![4]]);
    assert_eq!(objects.len(), 2);
    assert_eq!(transactions[0].inputs.len(), 2);
    assert_eq!(transactions[1].inputs, transactions[0].inputs[1..].to_vec());
    for input in &transactions[0].inputs {
        assert!(objects.contains_key(&input.object_id()));
    }
}

#[test]
fn synthetic_workloads_have_as_many_transactions_as_it_takes() {
    let execution_duration = default_fake_execution_duration();
    let mut config = BenchmarkParameters::new_for_fake_tests();
    config.load_config = LoadConfig::Constant(2);
    config.load = None;
    config.workload = WorkloadType::FakedNoContention { execution_duration, number_of_inputs: 1 };
    let mut draws = FakeDraws {
        digests: vec![(1, 1), (1, 2)],
        ids: vec![vec![(5, 1)], vec![(5, 2)]],
        loads: vec![],
    };
    let transactions = generate_fake_transactions(&config, &draws);
    assert_eq!(transactions.len(), 2);
    assert_eq!(transactions[1].digest, (1, 2));
    assert_eq!(
        transactions[1].inputs,
        vec![InputObjectKind::ImmOrOwnedMoveObject((5, 2), 0)]
    );
    config.workload = WorkloadType::FakedContention {
        execution_duration,
        number_of_inputs: 1,
        contention: 100,
    };
    let transactions = generate_fake_transactions(&config, &draws);
    assert_eq!(
        transactions[0].inputs,
        vec![InputObjectKind::ImmOrOwnedMoveObject(ZERO_ID, 0)]
    );
    draws.loads = vec![vec![8], vec![8, 9]];
    config.workload = WorkloadType::FakeUniswapPeak { execution_duration };
    let transactions = generate_fake_transactions(&config, &draws);
    assert_eq!(transactions[1].inputs.len(), 2);
    assert_eq!(
        FakeExecutor::target_durations(&config),
        Some((execution_duration, config.verification_duration))
    );
    config.workload = WorkloadType::Transfers;
    assert_eq!(FakeExecutor::target_durations(&config), None);
    let executor = FakeExecutor::new(FakeExecutionContext::new(3, 4));
    assert_eq!(executor.execution_context.execution_spins, 3);
    assert_eq!(executor.execution_context.verification_spins, 4);
}

#[test]
fn a_store_keeps_the_last_write() {
    let mut store = FakeObjectStore::default();
    store.write_object(Object::new_gas_coin(1, (1, 1), 10, Owner::Immutable));
    store.write_object(Object::new_gas_coin(2, (1, 1), 10, Owner::Immutable));
    assert_eq!(store.read_object(&(1, 1)).unwrap().version(), 2);
    let coin = store.read_object(&(1, 1)).unwrap();
    assert_eq!(*coin.contents, vec![10, 0, 0, 0, 0, 0, 0, 0]);
}

#[test]
fn test_set_and_get_dependency() {
    let mut dependency_controller = OneshotDependencyController::new();
    let txn_id = (0x51, 1);

    // Initially there should be no entry
    assert!(!dependency_controller.has_entry_for_txn(&txn_id));

    // Set a dependency
    let sender = dependency_controller.set_local_dependency(txn_id);

    // Now there should be an entry
    assert!(dependency_controller.has_entry_for_txn(&txn_id));

    // Get the dependency
    let handle = dependency_controller
        .get_dependency(&txn_id)
        .expect("Should have dependency");

    // Verify we can use the sender to signal completion
    sender.send(true).expect("Failed to send completion signal");

    // We should be able to receive the signal through the handle
    let result = tokio::runtime::Runtime::new()
        .unwrap()
        .block_on(async { handle.await.expect("Failed to receive completion signal") });

    assert!(result, "Expected successful completion signal");
}

#[test]
fn test_has_entry_for_txn() {
    let mut dependency_controller = OneshotDependencyController::new();
    let txn_id = (0x51, 1);

    // Initially there should be no entry
    assert!(!dependency_controller.has_entry_for_txn(&txn_id));

    // Set a dependency
    let _ = dependency_controller.set_remote_dependency(txn_id);

    // Now there should be an entry
    assert!(dependency_controller.has_entry_for_txn(&txn_id));
}

#[test]
fn test_get_dependencies_nonexistent() {
    let mut dependency_controller = OneshotDependencyController::new();
    let txn_id = (0x51, 1);

    // This should return None because the transaction doesn't exist
    assert!(dependency_controller.get_dependency(&txn_id).is_none());
}

#[test]
fn test_multiple_transactions() {
    let mut dependency_controller = OneshotDependencyController::new();
    let txn_id1 = (0x51, 1);
    let txn_id2 = (0x51, 2);

    // Set dependencies for both transactions
    let sender1 = dependency_controller.set_local_dependency(txn_id1);
    let sender2 = dependency_controller.set_local_dependency(txn_id2);

    // Both should have entries
    assert!(dependency_controller.has_entry_for_txn(&txn_id1));
    assert!(dependency_controller.has_entry_for_txn(&txn_id2));

    // Complete the first transaction with success
    sender1
        .send(true)
        .expect("Failed to send completion signal");

    // Complete the second transaction with failure
    sender2
        .send(false)
        .expect("Failed to send completion signal");

    // Get the handles
    let handle1 = dependency_controller
        .get_dependency(&txn_id1)
        .expect("Should have dependency for txn1");
    let handle2 = dependency_controller
        .get_dependency(&txn_id2)
        .expect("Should have dependency for txn2");

    // Verify the results
    let runtime = tokio::runtime::Runtime::new().unwrap();

    let result1 =
        runtime.block_on(async { handle1.await.expect("Failed to receive completion signal") });
    assert!(result1, "Expected successful completion for transaction 1");

    let result2 =
        runtime.block_on(async { handle2.await.expect("Failed to receive completion signal") });
    assert!(!result2, "Expected failure completion for transaction 2");
}

#[test]
fn a_remote_check_is_announced_once() {
    let mut controller = OneshotDependencyController::default();
    let receiver = controller.set_remote_dependency((1, 1));
    assert!(controller.get_dependency(&(1, 1)).is_none());
    assert!(controller.has_entry_for_txn(&(1, 1)));
    let sender = controller.take_signal(&(1, 1)).unwrap();
    assert!(!controller.has_entry_for_txn(&(1, 1)));
    assert!(controller.take_signal(&(1, 1)).is_none());
    sender.send(false).unwrap();
    assert!(!receiver.blocking_recv().unwrap());
    let _ = controller.set_local_dependency((1, 2));
    assert!(controller.take_signal(&(1, 2)).is_none());
    assert!(controller.remove_dependency(&(1, 2)).is_some());
    assert!(controller.remove_dependency(&(1, 2)).is_none());
}

#[test]
fn a_search_converges_on_the_target() {
    let span = |nanos: u32| Duration { secs: 0, nanos };
    let mut search = Calibration::new();
    assert_eq!(search, Calibration { iterations: 1_000_000, step_size: 1_000_000 });
    assert!(!search.calibrate(&span(10), &span(20), false));
    assert_eq!(search, Calibration { iterations: 1_500_000, step_size: 500_000 });
    assert!(!search.calibrate(&span(30), &span(20), false));
    assert_eq!(search, Calibration { iterations: 1_250_000, step_size: 250_000 });
    assert!(search.calibrate(&span(21), &span(20), true));
    assert_eq!(search, Calibration { iterations: 1_125_000, step_size: 125_000 });
    assert!(search.calibrate(&span(20), &span(20), false));
    let mut last = Calibration { iterations: 5, step_size: 1 };
    assert!(last.calibrate(&Duration { secs: 1, nanos: 0 }, &span(20), false));
    assert_eq!(last, Calibration { iterations: 5, step_size: 0 });
}

#[test]
fn workers_take_turns_and_cores() {
    let mut next_core = 3;
    let config = WorkerPoolConfig::default();
    assert_eq!(config.buffer_size, DEFAULT_CHANNEL_SIZE);
    let mut pool = WorkerPool::new(&config, Some(2), &mut next_core);
    assert_eq!(pool.worker_count(), 2);
    assert_eq!(next_core, 5);
    assert_eq!(
        (0..3).map(|_| pool.send_task()).collect::<Vec<usize>>(),
        vec![0, 1, 0]
    );
    assert_eq!(pool.core_index(1, 4), Some(0));
    assert_eq!(pool.core_index(1, 0), None);
    let given = WorkerPoolConfig {
        num_workers: Some(7),
        buffer_size: 1,
        enable_core_affinity: true,
        core_offset: Some(2),
    };
    let pool = WorkerPool::new(&given, Some(2), &mut next_core);
    assert_eq!((pool.workers, pool.core_offset, next_core), (7, 2, 5));
    assert_eq!(WorkerPool::new(&config, None, &mut next_core).workers, DEFAULT_WORKERS);
}

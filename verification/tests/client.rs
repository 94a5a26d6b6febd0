use std::sync::Arc;

use remora::base_types::InputObjectKind;
use remora::client::load_generator::{
    arrival_for_load, GeneratedTransaction, LoadGenerator, Pacer, NUM_CLIENTS,
};
use remora::config::{
    Alpha, BenchmarkParameters, ConfigErrorType, DynamicLoadConfig, LoadConfig, WorkloadType,
};
use remora::executor::api::TransactionWithTimestamp;
use remora::executor::sui::{
    assign_shared_object_versions_with_required_versions, init_workload, WorkloadKind,
};

fn generated(n: u128) -> GeneratedTransaction {
    GeneratedTransaction {
        digest: (1, n),
        inputs: vec![
            InputObjectKind::ImmOrOwnedMoveObject((2, n), 4),
            InputObjectKind::SharedMoveObject {
                id: (3, n),
                initial_shared_version: 2,
                mutable: true,
            },
        ],
    }
}

#[test]
fn transactions_are_prepared_with_the_durations_of_the_benchmark() {
    let generator = LoadGenerator::new(BenchmarkParameters::new_for_tests());
    let transactions = generator.initialize(&vec![generated(1), generated(2)]);
    assert_eq!(transactions.len(), 2);
    assert_eq!(transactions[1].digest, (1, 2));
    assert_eq!(transactions[1].shared_objects, vec![((3, 2), None)]);
    assert_eq!(transactions[1].timestamp, 0);
    assert_eq!(transactions[1].destination, None);
    assert_eq!(
        transactions[1].verification_duration,
        generator.config.verification_duration
    );
    let mut stale = generator.initialize(&vec![generated(3)]).remove(0);
    stale.shared_objects[0].1 = Some(7);
    let restamped = LoadGenerator::restamp(&stale, 1234);
    assert_eq!(restamped.timestamp, 1234);
    assert_eq!(restamped.shared_objects, vec![((3, 3), None)]);
    assert_eq!(restamped.digest, (1, 3));
}

#[test]
fn clients_get_consecutive_shares() {
    let generator = LoadGenerator::new(BenchmarkParameters::new_for_tests());
    for total in [1usize, 15, 16, 17, 33, 160] {
        let generated: Vec<GeneratedTransaction> = (0..total as u128).map(generated).collect();
        let transactions: Vec<Arc<TransactionWithTimestamp>> =
            generator.initialize(&generated).into_iter().map(Arc::new).collect();
        let shares = generator.split_transactions(&transactions);
        assert!(shares.len() <= NUM_CLIENTS);
        let size = (total + NUM_CLIENTS - 1) / NUM_CLIENTS;
        assert!(shares[..shares.len() - 1].iter().all(|share| share.len() == size));
        let digests: Vec<u128> = shares.concat().iter().map(|txn| txn.digest.1).collect();
        assert_eq!(digests, (0..total as u128).collect::<Vec<u128>>());
    }
}

#[test]
fn the_pace_follows_the_load() {
    assert_eq!(arrival_for_load(0), 1_000_000_000);
    assert_eq!(arrival_for_load(3), 333_333_333);
    let load = LoadConfig::Dynamic(DynamicLoadConfig::from_intervals(
        3,
        &vec![(0, 1600), (1, 3200), (2, 0)],
    ));
    let mut pacer = Pacer::new(&load, 16);
    assert_eq!(pacer, Pacer { last_load_check_sec: -1, mean_interval: 10_000_000 });
    assert!(pacer.submit_transactions(0, &load, 16));
    assert!(pacer.submit_transactions(0, &load, 16));
    assert!(pacer.submit_transactions(1, &load, 16));
    assert_eq!(pacer, Pacer { last_load_check_sec: 1, mean_interval: 5_000_000 });
    assert!(!pacer.submit_transactions(2, &load, 16));
    assert!(!pacer.submit_transactions(9, &load, 16));
}

#[test]
fn a_schedule_orders_and_assigns() {
    let generator = LoadGenerator::new(BenchmarkParameters::new_for_tests());
    let batch = vec![generated(0), generated(1), generated(2)];
    let scheduled = generator.apply_schedule(&batch, &vec![2, 0, 1], &vec![5, 6, 7]);
    let outcome: Vec<(u128, Option<usize>)> =
        scheduled.iter().map(|txn| (txn.digest.1, txn.destination)).collect();
    assert_eq!(outcome, vec![(2, Some(7)), (0, Some(5)), (1, Some(6))]);
}

#[test]
fn workloads_have_their_generators() {
    let mut config = BenchmarkParameters::new_for_tests();
    let kind = |config: &BenchmarkParameters| init_workload(config).ok().map(|found| found.1);
    assert_eq!(init_workload(&config).ok().unwrap().0, 10);
    assert!(matches!(
        kind(&config),
        Some(WorkloadKind::Ptb { num_transfers: 0, nft_size: 32, .. })
    ));
    config.workload = WorkloadType::SharedObjects { txs_per_counter: 3 };
    assert_eq!(kind(&config), Some(WorkloadKind::Counter { txs_per_counter: 3 }));
    config.workload = WorkloadType::SolanaTransactions;
    assert_eq!(kind(&config), Some(WorkloadKind::SolanaTransactions));
    config.workload = WorkloadType::EthereumTransfers;
    assert_eq!(kind(&config), Some(WorkloadKind::EthereumTransfers));
    config.workload = WorkloadType::EthereumNftMint;
    assert_eq!(kind(&config), Some(WorkloadKind::EthereumNftMint));
    config.workload = WorkloadType::UniswapNormal;
    assert_eq!(kind(&config), Some(WorkloadKind::UniswapNormal));
    config.workload = WorkloadType::UniswapPeak;
    assert_eq!(kind(&config), Some(WorkloadKind::UniswapPeak));
    let alpha = Alpha { bits: 0.75f64.to_bits() };
    config.workload = WorkloadType::Zipfian { alpha, number_of_inputs: 4 };
    assert_eq!(
        kind(&config),
        Some(WorkloadKind::ZipfianWorkload { theta: alpha, number_of_inputs: 4 })
    );
    let fake = BenchmarkParameters::new_for_fake_tests();
    assert!(matches!(init_workload(&fake), Err(ConfigErrorType::InvalidWorkload)));
}

#[test]
fn only_versions_of_shared_objects_are_assigned() {
    let required = vec![((1, 1), 3), ((1, 2), 4), ((1, 1), 5)];
    assert_eq!(
        assign_shared_object_versions_with_required_versions(&vec![(1, 1)], &required),
        vec![((1, 1), 3), ((1, 1), 5)]
    );
    assert_eq!(
        assign_shared_object_versions_with_required_versions(&vec![], &required),
        vec![]
    );
}

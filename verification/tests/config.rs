use remora::base_types::{object_id_from_bytes, same_id};
use remora::config::{
    default_cont_level_for_shared_obj, default_duration, default_fake_execution_duration,
    default_fake_verification_duration, default_load, default_load_balancing_policy,
    default_load_config, default_number_of_inputs, default_proxy_mode, default_workload,
    default_zipfian_alpha, AssignmentMode, BenchmarkParameters, ConfigErrorType,
    DynamicLoadConfig, LoadBalancingPolicy, LoadConfig, LoadInterval, ProxyMode, SeparationMode,
    ValidatorParameters, WorkloadType, DEFAULT_CHANNEL_SIZE,
};
use remora::duration::Duration;
use remora::error::NodeError;
use remora::ordered_map::OrderedMap;
use remora::recovery::find_highest_version;
use remora::text::numbered;

fn interval(start_time_secs: u64, end_time_secs: u64, target_load: u64) -> LoadInterval {
    LoadInterval { start_time_secs, end_time_secs, target_load }
}

fn dynamic(total_duration_secs: u64, intervals: Vec<LoadInterval>) -> DynamicLoadConfig {
    DynamicLoadConfig { total_duration_secs, intervals }
}

#[test]
fn intervals_are_sorted_and_closed() {
    let config = DynamicLoadConfig::from_intervals(30, &vec![(20, 10_000), (0, 10_000), (10, 20_000)]);
    let listed: Vec<(u64, u64, u64)> = config
        .intervals
        .iter()
        .map(|i| (i.start_time_secs, i.end_time_secs, i.target_load))
        .collect();
    assert_eq!(
        listed,
        vec![(0, 10, 10_000), (10, 20, 20_000), (20, 30, 10_000)]
    );
    assert_eq!(config.total_duration_secs, 30);
    assert_eq!(config.validate(), Ok(()));
    assert_eq!(config.get_load_at_time(0), Some(10_000));
    assert_eq!(config.get_load_at_time(10), Some(20_000));
    assert_eq!(config.get_load_at_time(29), Some(10_000));
    assert_eq!(config.get_load_at_time(30), None);
}

#[test]
fn invalid_profiles_are_refused() {
    assert_eq!(
        dynamic(5, vec![]).validate(),
        Err("Dynamic load config must have at least one interval".to_string())
    );
    assert_eq!(
        dynamic(5, vec![interval(0, 2, 1), interval(3, 5, 1)]).validate(),
        Err("Gap or overlap in intervals: expected start 2 but got 3".to_string())
    );
    assert_eq!(
        dynamic(5, vec![interval(0, 0, 1)]).validate(),
        Err("Invalid interval: end time 0 <= start time 0".to_string())
    );
    assert_eq!(
        dynamic(7, vec![interval(0, 5, 1)]).validate(),
        Err("Intervals don't cover full duration: 5 vs 7".to_string())
    );
    let full = dynamic(5, vec![interval(0, 2, 3), interval(2, 5, 4)]);
    assert_eq!(full.validate(), Ok(()));
    for second in 0..5 {
        assert!(full.get_load_at_time(second).is_some());
    }
}

#[test]
fn loads_are_constant_or_follow_a_profile() {
    let constant = LoadConfig::Constant(7);
    assert_eq!(constant.get_load_at_time(99), 7);
    assert_eq!(constant.initial_load(), 7);
    assert!(!constant.is_dynamic());
    assert_eq!(constant.get_duration(), None);
    assert_eq!(
        constant.calculate_total_transactions(Duration { secs: 3, nanos: 999_999_999 }),
        21
    );
    let profile = LoadConfig::Dynamic(dynamic(5, vec![interval(0, 2, 3), interval(2, 5, 4)]));
    assert_eq!(profile.get_load_at_time(4), 4);
    assert_eq!(profile.get_load_at_time(5), 0);
    assert_eq!(profile.initial_load(), 3);
    assert!(profile.is_dynamic());
    assert_eq!(profile.get_duration(), Some(Duration::from_secs(5)));
    assert_eq!(profile.calculate_total_transactions(Duration::from_secs(99)), 18);
    assert_eq!(LoadConfig::Dynamic(dynamic(5, vec![])).initial_load(), 0);
    assert_eq!(LoadConfig::default().initial_load(), 10_000);
    assert_eq!(default_load_config().initial_load(), default_load());
}

#[test]
fn an_older_load_setting_prevails() {
    let mut config = BenchmarkParameters::new_for_tests();
    config.load_config = LoadConfig::Dynamic(dynamic(5, vec![interval(0, 5, 4)]));
    config.load = Some(9);
    assert_eq!(config.get_initial_load(), 9);
    assert_eq!(config.effective_duration(), Duration::from_secs(1));
    assert_eq!(config.calculate_total_transactions(), 9);
    config.load = None;
    assert_eq!(config.get_initial_load(), 4);
    assert_eq!(config.effective_duration(), Duration::from_secs(5));
    assert_eq!(config.calculate_total_transactions(), 20);
    assert!(config.effective_load_config().is_dynamic());
}

#[test]
fn defaults_are_as_documented() {
    assert_eq!(DEFAULT_CHANNEL_SIZE, 100_000);
    assert_eq!(default_duration(), Duration::from_secs(30));
    assert_eq!(default_fake_execution_duration(), Duration::from_micros(500));
    assert_eq!(default_fake_verification_duration(), Duration::from_micros(2000));
    assert_eq!(default_cont_level_for_shared_obj(), 2);
    assert_eq!(default_number_of_inputs(), 2);
    assert_eq!(f64::from_bits(default_zipfian_alpha().bits), 0.5);
    assert_eq!(default_load_balancing_policy(), LoadBalancingPolicy::RoundRobin);
    assert_eq!(default_proxy_mode(), ProxyMode::Separation);
    assert!(matches!(default_workload(), WorkloadType::Transfers));
    let parameters = ValidatorParameters::new_for_tests();
    assert_eq!(parameters.load_balancing_policy, LoadBalancingPolicy::RoundRobin);
    assert_eq!(parameters.proxy_mode, ProxyMode::Separation);
    assert_eq!(ValidatorParameters::default().proxy_mode, ProxyMode::Separation);
    let defaults = BenchmarkParameters::default();
    assert_eq!(defaults.load, Some(10_000));
    assert_eq!(defaults.calculate_total_transactions(), 300_000);
    let fake = BenchmarkParameters::new_for_fake_tests();
    assert!(matches!(
        fake.workload,
        WorkloadType::FakeZipfian { number_of_inputs: 2, .. }
    ));
    assert_eq!(fake.workload.fake_execution_duration(), Some(Duration::from_micros(500)));
    let contended = BenchmarkParameters::new_for_fake_contention_tests();
    match contended.workload {
        WorkloadType::FakeZipfian { alpha, .. } => assert_eq!(f64::from_bits(alpha.bits), 0.5),
        _ => panic!("a power law"),
    }
    assert!(matches!(
        BenchmarkParameters::new_for_contention_tests().workload,
        WorkloadType::SharedObjects { txs_per_counter: 2 }
    ));
    let ethereum = BenchmarkParameters::new_for_ethereum_tests();
    assert_eq!(ethereum.calculate_total_transactions(), 500);
    assert!(matches!(ethereum.assignment_mode, AssignmentMode::Reordering | AssignmentMode::Sequential));
}

#[test]
fn workloads_have_names() {
    let execution_duration = default_fake_execution_duration();
    let fake = WorkloadType::FakeSolanaTransactions { execution_duration };
    assert!(fake.is_fake() && !fake.is_tpcc());
    assert_eq!(fake.fake_execution_duration(), Some(execution_duration));
    assert_eq!(fake.name(), "Fake Solana transactions");
    assert!(!WorkloadType::Transfers.is_fake());
    assert_eq!(WorkloadType::Transfers.fake_execution_duration(), None);
    assert_eq!(WorkloadType::Transfers.name(), "transfers");
    assert_eq!(WorkloadType::EthereumNftMint.name(), "Ethereum NFT mint");
    assert_eq!(WorkloadType::SharedObjects { txs_per_counter: 1 }.name(), "shared objects");
    assert_eq!(
        ConfigErrorType::InvalidWorkload.message(),
        "Invalid workload type provided."
    );
}

#[test]
fn modes_say_where_checks_run() {
    assert!(!SeparationMode::NoSeparation.is_proxy_separation());
    assert!(SeparationMode::ProxySeparation.is_proxy_separation());
    assert!(!SeparationMode::ProxySeparation.is_primary_separation());
    assert!(SeparationMode::PrimaryPreSeparation.is_primary_separation());
    assert!(SeparationMode::PrimaryPostSeparation.is_primary_separation());
}

#[test]
fn errors_have_texts() {
    assert_eq!(NodeError::ShuttingDown.message(), "Node shutting down");
    assert_eq!(
        NodeError::ProxyConnectionNotFound(1207).message(),
        "Proxy connection not found for proxy 1207"
    );
    assert_eq!(
        NodeError::FailedToReplayBatches("closed".to_string()).message(),
        "Failed to send replay batches: closed"
    );
}

#[test]
fn spans_count_in_parts_of_a_second() {
    let span = Duration::from_micros(2_000_750);
    assert_eq!(span, Duration { secs: 2, nanos: 750_000 });
    assert_eq!(span.as_secs(), 2);
    assert_eq!(span.as_micros(), 2_000_750);
    let late = Duration { secs: 1, nanos: 999_999_999 };
    assert_eq!(late.plus(&Duration { secs: 0, nanos: 2 }), Duration { secs: 2, nanos: 1 });
}

#[test]
fn identifiers_are_read_from_their_bytes() {
    let mut bytes = vec![0u8; 32];
    bytes[15] = 1;
    bytes[16] = 0x80;
    bytes[31] = 7;
    assert_eq!(object_id_from_bytes(&bytes), Some((1, (0x80u128 << 120) + 7)));
    assert_eq!(object_id_from_bytes(&bytes[1..].to_vec()), None);
    assert!(same_id(&(1, 2), &(1, 2)));
    assert!(!same_id(&(1, 2), &(2, 2)));
    assert_eq!(numbered("C_", 1203), "C_1203");
    assert_eq!(numbered("W", 0), "W0");
}

#[test]
fn versions_start_from_the_initial_one() {
    assert_eq!(find_highest_version(&vec![]), 2);
    assert_eq!(find_highest_version(&vec![((1, 1), 1)]), 1);
    assert_eq!(find_highest_version(&vec![((1, 1), 4), ((1, 2), 9), ((1, 3), 3)]), 9);
}

#[test]
fn maps_keep_their_keys_in_order() {
    let mut map: OrderedMap<u64, u8> = OrderedMap::new();
    assert!(map.is_empty());
    for (key, value) in [(5, 1), (2, 2), (9, 3), (5, 4)] {
        map.insert(key, value);
    }
    let entries: Vec<(u64, u8)> = (0..map.len()).map(|i| *map.entry_at(i)).collect();
    assert_eq!(entries, vec![(2, 2), (5, 4), (9, 3)]);
    assert_eq!(map.get(&9), Some(&3));
    assert_eq!(map.get(&3), None);
    assert!(map.contains_key(&2));
    let copy = map.duplicate();
    assert_eq!(copy.get(&5), Some(&4));
    map.push_last(11, 7);
    assert_eq!(*map.entry_at(3), (11, 7));
}

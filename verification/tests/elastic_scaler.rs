use rand::Rng;
use remora::primary::elastic_scaler::{
    ElasticScaler, ScaleOutActivation, ScalingDecision, RATE_WINDOW_MS,
};

const NUM_ITERATIONS: usize = 100;

const SCALE_IN_THRESHOLD: f64 = 0.8;
const SCALE_OUT_THRESHOLD: f64 = 0.8;

fn should_scale_in(scaler: &ElasticScaler, rate: f64, capacity: f64) -> bool {
    let one_less = capacity * (scaler.active_node_count() - 1) as f64;
    scaler.should_scale_in(rate.to_bits(), (one_less * SCALE_IN_THRESHOLD).to_bits())
}

fn should_scale_out(scaler: &ElasticScaler, rate: f64, capacity: f64) -> bool {
    let total = capacity * scaler.active_node_count() as f64;
    scaler.should_scale_out(rate.to_bits(), (total * SCALE_OUT_THRESHOLD).to_bits())
}

#[test]
fn test_elastic_scaler_new() {
    let scaler = ElasticScaler::with_initial_nodes(3, 5, 0);
    assert_eq!(scaler.active_node_count(), 3);
}

#[test]
fn test_should_scale_in_with_low_load() {
    let mut scaler = ElasticScaler::with_initial_nodes(3, 5, 0);
    scaler.set_capacity_known(); // 10k TPS per node

    // 3 nodes = 30k capacity
    // With 2 nodes = 20k capacity
    // Scale-in threshold = 20k * 0.8 = 16k
    // So if load < 16k, should scale in

    assert!(should_scale_in(&scaler, 10000.0, 10000.0)); // 10k < 16k
    assert!(should_scale_in(&scaler, 15000.0, 10000.0)); // 15k < 16k
    assert!(!should_scale_in(&scaler, 20000.0, 10000.0)); // 20k > 16k
}

#[test]
fn test_should_not_scale_in_with_min_nodes() {
    let mut scaler = ElasticScaler::with_initial_nodes(1, 5, 0);
    scaler.set_capacity_known();

    // Cannot scale in when at min nodes
    assert!(!should_scale_in(&scaler, 1000.0, 10000.0));
}

#[test]
fn test_should_scale_out_with_high_load() {
    let mut scaler = ElasticScaler::with_initial_nodes(2, 5, 0);
    scaler.set_capacity_known(); // 10k TPS per node

    // 2 nodes = 20k capacity
    // Scale-out threshold = 20k * 0.8 = 16k
    // So if load > 16k, should scale out

    assert!(should_scale_out(&scaler, 18000.0, 10000.0)); // 18k > 16k
    assert!(!should_scale_out(&scaler, 15000.0, 10000.0)); // 15k < 16k
}

#[test]
fn test_should_not_scale_out_at_max_nodes() {
    let mut scaler = ElasticScaler::with_initial_nodes(5, 5, 0);
    scaler.set_capacity_known();

    // Cannot scale out when at max nodes
    assert!(!should_scale_out(&scaler, 100000.0, 10000.0));
}

#[test]
fn test_increase_decrease_nodes() {
    let mut scaler = ElasticScaler::with_initial_nodes(3, 5, 0);

    scaler.increase_active_nodes();
    assert_eq!(scaler.active_node_count(), 4);

    scaler.decrease_active_nodes();
    assert_eq!(scaler.active_node_count(), 3);
}

#[test]
fn test_record_transactions_calculates_rate() {
    let mut scaler = ElasticScaler::with_initial_nodes(1, 5, 0);
    scaler.record_transactions(100);

    assert_eq!(scaler.recorded_transactions(), 100);
}

#[test]
fn test_queue_scale_out_sets_pending() {
    let mut scaler = ElasticScaler::with_initial_nodes(2, 5, 0);

    assert!(!scaler.is_scale_out_pending());
    assert!(scaler.queue_scale_out());
    assert!(scaler.is_scale_out_pending());
    // Active nodes should NOT change yet
    assert_eq!(scaler.active_node_count(), 2);
}

#[test]
fn test_queue_scale_out_idempotent() {
    let mut scaler = ElasticScaler::with_initial_nodes(2, 5, 0);

    assert!(scaler.queue_scale_out()); // First call succeeds
    assert!(!scaler.queue_scale_out()); // Duplicate call fails
    assert!(scaler.is_scale_out_pending());
}

#[test]
fn test_queue_scale_out_at_max_fails() {
    let mut scaler = ElasticScaler::with_initial_nodes(5, 5, 0);

    assert!(!scaler.queue_scale_out()); // Already at max
    assert!(!scaler.is_scale_out_pending());
}

#[test]
fn test_on_epoch_boundary_activates_pending() {
    let mut scaler = ElasticScaler::with_initial_nodes(2, 5, 0);

    scaler.queue_scale_out();
    let activation = scaler.on_epoch_boundary();

    assert!(activation.is_some());
    let activation = activation.unwrap();
    assert_eq!(activation.previous_count, 2);
    assert_eq!(activation.new_count, 3);
    assert_eq!(scaler.active_node_count(), 3);
    assert!(!scaler.is_scale_out_pending());
}

#[test]
fn test_on_epoch_boundary_no_pending() {
    let mut scaler = ElasticScaler::with_initial_nodes(2, 5, 0);

    // No pending scale-out
    let activation = scaler.on_epoch_boundary();
    assert!(activation.is_none());
    assert_eq!(scaler.active_node_count(), 2);
}

#[test]
fn test_epoch_aligned_scale_out_full_flow() {
    let mut scaler = ElasticScaler::with_initial_nodes(1, 3, 0);

    // Epoch 1: queue scale-out mid-epoch
    assert!(scaler.queue_scale_out());
    assert_eq!(scaler.active_node_count(), 1); // Still 1

    // Epoch 2: boundary activates scale-out
    let activation = scaler.on_epoch_boundary();
    assert!(activation.is_some());
    assert_eq!(scaler.active_node_count(), 2); // Now 2

    // Queue another
    assert!(scaler.queue_scale_out());

    // Epoch 3: boundary activates again
    let activation = scaler.on_epoch_boundary();
    assert!(activation.is_some());
    assert_eq!(scaler.active_node_count(), 3); // Now 3

    // Cannot queue more (at max)
    assert!(!scaler.queue_scale_out());
}

/// Invariant: queue_scale_out should be idempotent (second call always fails)
#[test]
fn prop_queue_scale_out_is_idempotent() {
    let mut rng = rand::thread_rng();
    for _ in 0..NUM_ITERATIONS {
        let initial: usize = rng.gen_range(1..5);
        let max: usize = rng.gen_range(initial..10);
        let mut scaler = ElasticScaler::with_initial_nodes(initial, max, 0);

        let first = scaler.queue_scale_out();
        let second = scaler.queue_scale_out();

        // If first succeeded, second must fail (idempotent)
        if first {
            assert!(!second, "Duplicate queue_scale_out should fail");
        }
    }
}

/// Invariant: on_epoch_boundary without pending always returns None
#[test]
fn prop_epoch_boundary_no_pending_is_noop() {
    let mut rng = rand::thread_rng();
    for _ in 0..NUM_ITERATIONS {
        let initial: usize = rng.gen_range(1..5);
        let max: usize = rng.gen_range(initial..10);
        let mut scaler = ElasticScaler::with_initial_nodes(initial, max, 0);

        // No queued scale-out
        let activation = scaler.on_epoch_boundary();
        assert!(activation.is_none());
        assert_eq!(scaler.active_node_count(), initial);
    }
}

/// Invariant: queue_scale_out should never exceed max_nodes
#[test]
fn prop_active_nodes_never_exceed_max() {
    let mut rng = rand::thread_rng();
    for _ in 0..NUM_ITERATIONS {
        let initial: usize = rng.gen_range(1..5);
        let max: usize = rng.gen_range(initial..10);
        let mut scaler = ElasticScaler::with_initial_nodes(initial, max, 0);

        // Queue and activate multiple times
        for _ in 0..20 {
            scaler.queue_scale_out();
            scaler.on_epoch_boundary();
        }

        assert!(
            scaler.active_node_count() <= max,
            "Active nodes {} exceeded max {}",
            scaler.active_node_count(),
            max
        );
    }
}

/// Invariant: on_epoch_boundary clears pending state
#[test]
fn prop_epoch_boundary_clears_pending() {
    let mut rng = rand::thread_rng();
    for _ in 0..NUM_ITERATIONS {
        let initial: usize = rng.gen_range(1..4);
        let max: usize = rng.gen_range(initial + 1..10);
        let mut scaler = ElasticScaler::with_initial_nodes(initial, max, 0);

        scaler.queue_scale_out();
        assert!(scaler.is_scale_out_pending());

        scaler.on_epoch_boundary();
        assert!(
            !scaler.is_scale_out_pending(),
            "Pending should be cleared after epoch boundary"
        );
    }
}

/// Invariant: after successful queue + boundary, active_nodes increases by 1
#[test]
fn prop_scale_out_increases_by_one() {
    let mut rng = rand::thread_rng();
    for _ in 0..NUM_ITERATIONS {
        let initial: usize = rng.gen_range(1..4);
        let max: usize = rng.gen_range(initial + 1..10);
        let mut scaler = ElasticScaler::with_initial_nodes(initial, max, 0);

        let before = scaler.active_node_count();
        let queued = scaler.queue_scale_out();
        let activation = scaler.on_epoch_boundary();
        let after = scaler.active_node_count();

        if queued && activation.is_some() {
            assert_eq!(
                after,
                before + 1,
                "Scale-out should increase active nodes by 1"
            );
        }
    }
}

/// Invariant: ScaleOutActivation contains correct previous/new counts
#[test]
fn prop_activation_counts_are_consistent() {
    let mut rng = rand::thread_rng();
    for _ in 0..NUM_ITERATIONS {
        let initial: usize = rng.gen_range(1..4);
        let max: usize = rng.gen_range(initial + 1..10);
        let mut scaler = ElasticScaler::with_initial_nodes(initial, max, 0);

        scaler.queue_scale_out();
        if let Some(activation) = scaler.on_epoch_boundary() {
            assert_eq!(
                activation.new_count,
                activation.previous_count + 1,
                "new_count should be previous_count + 1"
            );
            assert_eq!(
                scaler.active_node_count(),
                activation.new_count,
                "active_node_count should equal new_count"
            );
        }
    }
}

/// Invariant: random sequence of operations never panics and maintains invariants
#[test]
fn prop_random_operations_maintain_invariants() {
    let mut rng = rand::thread_rng();
    for _ in 0..NUM_ITERATIONS {
        let initial: usize = rng.gen_range(1..5);
        let max: usize = rng.gen_range(initial..10);
        let mut scaler = ElasticScaler::with_initial_nodes(initial, max, 0);

        for _ in 0..50 {
            let op = rng.gen_range(0..5);
            match op {
                0 => {
                    scaler.queue_scale_out();
                }
                1 => {
                    scaler.on_epoch_boundary();
                }
                2 => {
                    scaler.is_scale_out_pending();
                }
                3 => {
                    scaler.active_node_count();
                }
                4 => {
                    // Simulate decrease (scale-in)
                    scaler.decrease_active_nodes();
                }
                _ => {}
            }

            // Invariants must hold after every operation
            assert!(scaler.active_node_count() >= 1, "Active nodes must be >= 1");
            assert!(
                scaler.active_node_count() <= max,
                "Active nodes {} exceeded max {}",
                scaler.active_node_count(),
                max
            );
        }
    }
}

#[test]
fn a_scaler_starts_with_one_node() {
    assert_eq!(ElasticScaler::new(4, 0).active_node_count(), 1);
    assert_eq!(ElasticScaler::with_initial_nodes(0, 4, 0).active_node_count(), 1);
    assert_eq!(ElasticScaler::with_initial_nodes(9, 4, 0).active_node_count(), 4);
}

#[test]
fn rate_is_taken_over_a_window() {
    let mut scaler = ElasticScaler::new(4, 5_000);
    scaler.record_transactions(30);
    assert_eq!(scaler.calculate_current_rate(5_000), None);
    assert_eq!(scaler.calculate_current_rate(5_999), Some((30, 999)));
    assert_eq!(
        scaler.calculate_current_rate(5_000 + RATE_WINDOW_MS),
        Some((30, RATE_WINDOW_MS))
    );
    assert_eq!(scaler.recorded_transactions(), 0);
    assert_eq!(scaler.calculate_current_rate(5_000 + RATE_WINDOW_MS), None);
}

#[test]
fn scaling_is_decided_by_the_thresholds() {
    let mut scaler = ElasticScaler::with_initial_nodes(2, 3, 0);
    assert!(!scaler.should_scale_out(u64::MAX, 0));
    assert!(!scaler.is_capacity_known());
    assert_eq!(scaler.check_scaling(1, 11, 10, 5), Some(ScalingDecision::ScaleOut));
    assert!(scaler.is_capacity_known());
    assert_eq!(scaler.check_scaling(2, 10, 10, 5), None);
    assert_eq!(scaler.check_scaling(3, 6, 10, 5), None);
    assert_eq!(scaler.check_scaling(4, 5, 10, 5), Some(ScalingDecision::ScaleIn));
    scaler.decrease_active_nodes();
    assert_eq!(scaler.check_scaling(5, 5, 10, 5), None);
}

#[test]
fn a_queued_scale_out_is_dropped_where_no_node_is_left() {
    let mut scaler = ElasticScaler::with_initial_nodes(1, 2, 0);
    assert!(scaler.queue_scale_out());
    scaler.increase_active_nodes();
    assert_eq!(scaler.on_epoch_boundary(), None);
    assert!(!scaler.is_scale_out_pending());
    assert_eq!(scaler.active_node_count(), 2);
    scaler.decrease_active_nodes();
    assert!(scaler.queue_scale_out());
    assert_eq!(
        scaler.on_epoch_boundary(),
        Some(ScaleOutActivation { previous_count: 1, new_count: 2 })
    );
}

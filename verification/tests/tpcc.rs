use std::collections::hash_map::DefaultHasher;
use std::hash::{Hash, Hasher};
use std::sync::Arc;

use rand::rngs::StdRng;
use rand::{Rng, SeedableRng};
use remora::base_types::{object_id_from_bytes, ObjectID, Owner};
use remora::config::{BenchmarkParameters, LoadConfig, Ratio, WorkloadType};
use remora::duration::Duration;
use remora::executor::api::{NewStates, TransactionWithTimestamp};
use remora::executor::tpcc::constants::{
    CUSTOMERS_PER_DISTRICT, DISTRICTS_PER_WAREHOUSE, INITIAL_BALANCE_CENTS, INITIAL_D_YTD_CENTS,
    INITIAL_NEXT_O_ID, INITIAL_W_YTD_CENTS, MAX_OL_CNT, MAX_OL_QUANTITY, MAX_PAYMENT_CENTS,
    MAX_DISCOUNT_BPS, MAX_TAX_BPS, MIN_OL_CNT, MIN_PAYMENT_CENTS, NUM_ITEMS, STOCK_PER_WAREHOUSE,
};
use remora::executor::tpcc::data::{RecordKey, Stock, TpccState, RANGE_STEPS, TABLES_SEED};
use remora::executor::tpcc::executor::{
    generator_task_count, TpccExecutableTransaction, TpccExecutionContext, TpccExecutor,
    TpccObjectStore, NUM_GENERATOR_TASKS,
};
use remora::executor::tpcc::generator::{SupplySource, TpccGenerator};
use remora::executor::tpcc::transactions::{OrderItem, TpccTransaction};

const ZERO: Ratio = Ratio { numerator: 0, denominator: 1 };
const HALF: Ratio = Ratio { numerator: 1, denominator: 2 };
const NONE: Duration = Duration { secs: 0, nanos: 0 };

#[test]
fn test_state_creation() {
    let state = TpccState::new(1);

    assert_eq!(state.warehouse_count(), 1);
    assert_eq!(state.district_count(), DISTRICTS_PER_WAREHOUSE);
    assert_eq!(
        state.customer_count(),
        DISTRICTS_PER_WAREHOUSE * CUSTOMERS_PER_DISTRICT
    );
    assert_eq!(state.stock_count(), STOCK_PER_WAREHOUSE);
    assert_eq!(state.item_count(), NUM_ITEMS);
}

#[test]
fn test_object_id_deterministic() {
    let id1 = TpccState::object_id_for_warehouse(1);
    let id2 = TpccState::object_id_for_warehouse(1);
    assert_eq!(id1, id2);

    let id3 = TpccState::object_id_for_warehouse(2);
    assert_ne!(id1, id3);
}

#[test]
fn test_object_id_uniqueness() {
    let w_id = TpccState::object_id_for_warehouse(1);
    let d_id = TpccState::object_id_for_district(1, 1);
    let c_id = TpccState::object_id_for_customer(1, 1, 1);
    let s_id = TpccState::object_id_for_stock(1, 1);
    let i_id = TpccState::object_id_for_item(1);

    // All IDs should be unique
    let ids = vec![w_id, d_id, c_id, s_id, i_id];
    for i in 0..ids.len() {
        for j in (i + 1)..ids.len() {
            assert_ne!(ids[i], ids[j], "IDs at {} and {} should be different", i, j);
        }
    }
}

#[test]
fn test_tpcc_executable_transaction() {
    let txn = TpccTransaction::NewOrder {
        w_id: 1,
        d_id: 1,
        c_id: 1,
        items: vec![OrderItem {
            i_id: 1,
            supply_w_id: 1,
            quantity: 5,
        }],
    };

    let exec_txn = TpccExecutableTransaction::new((0x51, 1), txn);
    assert!(!exec_txn.inputs.is_empty());
    assert!(!exec_txn.shared_object_ids().is_empty());
}

#[test]
fn test_tpcc_object_store() {
    let mut store = TpccObjectStore::new();
    let id = (0x51, 1);
    let obj = TpccExecutor::create_shared_object(id);

    store.write_object(obj.clone());
    let read = store.read_object(&id);
    assert!(read.is_some());
    assert_eq!(read.unwrap().id(), id);
}

#[test]
fn test_generator_creation() {
    let generator = TpccGenerator::new(2, HALF, 1, ZERO, 42);
    assert_eq!(generator.num_warehouses, 2);
}

#[test]
fn test_transaction_mix() {
    let mut generator = TpccGenerator::new(1, HALF, 1, ZERO, 42);
    let mut new_order_count = 0;
    let mut _payment_count = 0;

    for _ in 0..1000 {
        match generator.generate_transaction() {
            TpccTransaction::NewOrder { .. } => new_order_count += 1,
            TpccTransaction::Payment { .. } => _payment_count += 1,
        }
    }

    // Should be roughly 50/50 (allow 10% variance)
    let ratio = new_order_count as f64 / 1000.0;
    assert!(ratio > 0.4 && ratio < 0.6, "Unexpected ratio: {}", ratio);
}

#[test]
fn test_new_order_generation() {
    let mut generator = TpccGenerator::new(1, HALF, 1, ZERO, 42);
    let txn = generator.generate_new_order();

    match txn {
        TpccTransaction::NewOrder {
            w_id,
            d_id,
            c_id,
            items,
        } => {
            assert_eq!(w_id, 1);
            assert!(d_id >= 1 && d_id <= DISTRICTS_PER_WAREHOUSE as u32);
            assert!(c_id >= 1 && c_id <= CUSTOMERS_PER_DISTRICT as u32);
            assert!(items.len() >= MIN_OL_CNT && items.len() <= MAX_OL_CNT);
        }
        _ => panic!("Expected NEW_ORDER"),
    }
}

#[test]
fn test_payment_generation() {
    let mut generator = TpccGenerator::new(1, HALF, 1, ZERO, 42);
    let txn = generator.generate_payment();

    match txn {
        TpccTransaction::Payment {
            w_id,
            d_id,
            c_w_id,
            c_d_id,
            c_id,
            h_amount,
        } => {
            assert_eq!(w_id, 1);
            assert!(d_id >= 1 && d_id <= DISTRICTS_PER_WAREHOUSE as u32);
            assert_eq!(c_w_id, 1); // Single warehouse, so customer is local
            assert!(c_d_id >= 1 && c_d_id <= DISTRICTS_PER_WAREHOUSE as u32);
            assert!(c_id >= 1 && c_id <= CUSTOMERS_PER_DISTRICT as u32);
            assert!(h_amount >= MIN_PAYMENT_CENTS && h_amount <= MAX_PAYMENT_CENTS);
        }
        _ => panic!("Expected PAYMENT"),
    }
}

#[test]
fn test_no_cross_node_transactions_with_zero_prob() {
    // Test with 3 nodes, 96 warehouses (32 per node), cross_node_prob = 0.0
    // This simulates Zeus policy with empty states_to_proxy at init
    let mut generator = TpccGenerator::new(96, ZERO, 3, ZERO, 42);

    // Generate 1000 NEW_ORDER transactions and verify none are cross-node
    for _ in 0..1000 {
        let txn = generator.generate_new_order();

        match txn {
            TpccTransaction::NewOrder { w_id, items, .. } => {
                // Determine the home node for this transaction
                let home_node = (w_id - 1) / 32;

                // Verify all item warehouse IDs belong to the same node
                for item in items {
                    let item_node = (item.supply_w_id - 1) / 32;
                    assert_eq!(
                        item_node, home_node,
                        "Cross-node transaction detected! w_id={} (node {}), supply_w_id={} (node {})",
                        w_id, home_node, item.supply_w_id, item_node
                    );
                }
            }
            _ => panic!("Expected NEW_ORDER"),
        }
    }
}

#[test]
fn test_cross_node_transactions_with_nonzero_prob() {
    // Test with 3 nodes, 96 warehouses, cross_node_prob = 0.5
    let mut generator = TpccGenerator::new(96, ZERO, 3, HALF, 42);

    let mut cross_node_count = 0;
    let total_transactions = 1000;

    // Generate transactions and count cross-node ones
    for _ in 0..total_transactions {
        let txn = generator.generate_new_order();

        match txn {
            TpccTransaction::NewOrder { w_id, items, .. } => {
                let home_node = (w_id - 1) / 32;

                // Check if any item is from a different node
                let is_cross_node = items.iter().any(|item| {
                    let item_node = (item.supply_w_id - 1) / 32;
                    item_node != home_node
                });

                if is_cross_node {
                    cross_node_count += 1;
                }
            }
            _ => panic!("Expected NEW_ORDER"),
        }
    }

    // With cross_node_prob = 0.5 and remote warehouse prob = 0.15,
    // we expect some cross-node transactions (but not all)
    assert!(
        cross_node_count > 0,
        "Expected some cross-node transactions with cross_node_prob=0.5, got {}",
        cross_node_count
    );

    // Should be less than 100% cross-node
    assert!(
        cross_node_count < total_transactions,
        "Not all transactions should be cross-node, got {}/{}",
        cross_node_count,
        total_transactions
    );
}

#[test]
fn test_node_partitioning() {
    // Test with 6 nodes, 192 warehouses (32 per node)
    let generator = TpccGenerator::new(192, HALF, 6, ZERO, 42);

    // Verify each warehouse is assigned to the correct node
    for w_id in 1..=192 {
        let expected_node = (w_id - 1) / 32;
        let actual_node = generator.node_for_warehouse(w_id);
        assert_eq!(
            actual_node, expected_node as usize,
            "Warehouse {} should belong to node {}, got {}",
            w_id, expected_node, actual_node
        );
    }

    // Verify node boundaries
    assert_eq!(generator.node_for_warehouse(1), 0); // First warehouse of node 0
    assert_eq!(generator.node_for_warehouse(32), 0); // Last warehouse of node 0
    assert_eq!(generator.node_for_warehouse(33), 1); // First warehouse of node 1
    assert_eq!(generator.node_for_warehouse(64), 1); // Last warehouse of node 1
    assert_eq!(generator.node_for_warehouse(192), 5); // Last warehouse of node 5
}

#[test]
fn test_zeus_policy_with_states_to_proxy() {
    // Test with 3 nodes, 96 warehouses (32 per node), cross_node_prob = 0.0
    // Simulate Zeus policy: assign transactions to proxy with most states
    let mut generator = TpccGenerator::new(96, ZERO, 3, ZERO, 42);

    // Track which proxy owns which object states (simulates states_to_proxy)
    let mut states_to_proxy: std::collections::HashMap<ObjectID, usize> = std::collections::HashMap::new();

    // Generate and process 100 NEW_ORDER transactions
    for _ in 0..100 {
        let txn = generator.generate_new_order();

        match &txn {
            TpccTransaction::NewOrder { w_id, items, .. } => {
                // Determine the home node for this transaction
                let home_node = ((w_id - 1) / 32) as usize;

                // Get all objects accessed by this transaction
                let access_set = txn.access_set();

                // Simulate Zeus policy: count states per proxy
                let mut state_counts = vec![0usize; 3]; // 3 proxies
                for obj_id in &access_set {
                    if let Some(&proxy_id) = states_to_proxy.get(obj_id) {
                        state_counts[proxy_id] += 1;
                    }
                }

                // Select proxy with most states (Zeus "most_states" policy)
                let selected_proxy = state_counts
                    .iter()
                    .enumerate()
                    .max_by_key(|(_, count)| *count)
                    .map(|(idx, _)| idx)
                    .unwrap_or(home_node); // Default to home node if no states exist yet

                // Verify all warehouses touched by the transaction belong to the same node
                // For non-cross-node transactions, this should be the selected proxy's node
                let mut touched_nodes = std::collections::HashSet::new();
                touched_nodes.insert(home_node);

                for item in items {
                    let item_node = ((item.supply_w_id - 1) / 32) as usize;
                    touched_nodes.insert(item_node);
                }

                // Assert that all touched nodes are the same (single-node transaction)
                assert_eq!(
                    touched_nodes.len(),
                    1,
                    "Cross-node transaction detected! Transaction w_id={} touches nodes {:?}",
                    w_id,
                    touched_nodes
                );

                // The single touched node should be the selected proxy's node
                // (for node-local transactions with cross_node_prob=0.0)
                let single_node = *touched_nodes.iter().next().unwrap();
                assert_eq!(
                    single_node, home_node,
                    "Transaction should only touch home node {}, but touched node is {}",
                    home_node, single_node
                );

                // Update states_to_proxy: assign all accessed objects to the selected proxy
                for obj_id in access_set {
                    states_to_proxy.insert(obj_id, selected_proxy);
                }
            }
            _ => panic!("Expected NEW_ORDER"),
        }
    }

    // Verify that states_to_proxy has been populated
    assert!(
        !states_to_proxy.is_empty(),
        "states_to_proxy should be populated after processing transactions"
    );

    // Additional validation: verify states are partitioned by node
    // For each proxy, all its states should belong to warehouses from the corresponding node
    let mut proxy_states: std::collections::HashMap<usize, Vec<ObjectID>> = std::collections::HashMap::new();
    for (obj_id, proxy_id) in &states_to_proxy {
        proxy_states
            .entry(*proxy_id)
            .or_insert_with(Vec::new)
            .push(*obj_id);
    }

    // For each proxy, verify its states align with node boundaries
    // (Note: This is a soft check since Zeus might assign to any proxy, but
    //  with cross_node_prob=0.0, states should naturally cluster by node)
    for (proxy_id, _states) in proxy_states {
        // Just verify the proxy ID is within range
        assert!(proxy_id < 3, "Proxy ID {} should be < 3", proxy_id);
    }
}

#[test]
fn test_new_order_access_set() {
    let txn = TpccTransaction::NewOrder {
        w_id: 1,
        d_id: 1,
        c_id: 100,
        items: vec![
            OrderItem {
                i_id: 1,
                supply_w_id: 1,
                quantity: 5,
            },
            OrderItem {
                i_id: 2,
                supply_w_id: 1,
                quantity: 3,
            },
        ],
    };

    let reads = txn.read_set();
    let writes = txn.write_set();

    // Reads: warehouse, customer, 2 items, 2 stocks = 6
    assert_eq!(reads.len(), 6);

    // Writes: district, 2 stocks = 3
    assert_eq!(writes.len(), 3);
}

#[test]
fn test_payment_access_set() {
    let txn = TpccTransaction::Payment {
        w_id: 1,
        d_id: 1,
        c_w_id: 1,
        c_d_id: 1,
        c_id: 100,
        h_amount: 10_000,
    };

    let reads = txn.read_set();
    let writes = txn.write_set();

    // Reads: warehouse, district, customer = 3
    assert_eq!(reads.len(), 3);

    // Writes: warehouse, district, customer = 3
    assert_eq!(writes.len(), 3);
}

#[test]
fn test_access_set_deduplication() {
    let txn = TpccTransaction::Payment {
        w_id: 1,
        d_id: 1,
        c_w_id: 1,
        c_d_id: 1,
        c_id: 100,
        h_amount: 10_000,
    };

    let access = txn.access_set();

    // Should be deduplicated: warehouse, district, customer = 3
    assert_eq!(access.len(), 3);
}

fn order(items: Vec<OrderItem>) -> TpccTransaction {
    TpccTransaction::NewOrder { w_id: 1, d_id: 2, c_id: 3, items }
}

fn payment(h_amount: i64) -> TpccTransaction {
    TpccTransaction::Payment { w_id: 1, d_id: 2, c_w_id: 2, c_d_id: 4, c_id: 5, h_amount }
}

#[test]
fn objects_are_hashes_of_names() {
    for (name, id) in [
        ("W_7", TpccState::object_id_for_warehouse(7)),
        ("D_7_10", TpccState::object_id_for_district(7, 10)),
        ("C_7_10_2999", TpccState::object_id_for_customer(7, 10, 2999)),
        ("S_7_4294967295", TpccState::object_id_for_stock(7, u32::MAX)),
        ("I_0", TpccState::object_id_for_item(0)),
    ] {
        let mut hasher = DefaultHasher::new();
        name.hash(&mut hasher);
        let hash = hasher.finish();
        let mut bytes = hash.to_le_bytes().to_vec();
        bytes.extend((0..24).map(|i| (hash >> (i % 8)) as u8));
        assert_eq!(object_id_from_bytes(&bytes), Some(id), "{}", name);
    }
    assert_eq!(RecordKey::Stock { w_id: 1, i_id: 20 }.key_bytes(), b"S_1_20".to_vec());
}

#[test]
fn fresh_tables_hold_what_is_prescribed() {
    let state = TpccState::new(2);
    assert_eq!(state.num_warehouses(), 2);
    assert!(state.has_warehouse(2) && !state.has_warehouse(3) && !state.has_warehouse(0));
    assert!(state.has_district(2, 10) && !state.has_district(2, 11));
    assert!(state.has_customer(1, 1, 3000) && !state.has_customer(1, 1, 3001));
    assert!(state.has_item(1) && state.has_item(100_000) && !state.has_item(0));
    let warehouse = state.warehouse(1).unwrap();
    assert_eq!(warehouse.w_ytd, INITIAL_W_YTD_CENTS);
    let district = state.district(1, 3).unwrap();
    assert_eq!(district.d_ytd, INITIAL_D_YTD_CENTS);
    assert_eq!(district.d_next_o_id, INITIAL_NEXT_O_ID);
    let customer = state.customer(2, 3, 4).unwrap();
    assert_eq!(customer.c_balance, INITIAL_BALANCE_CENTS);
    assert_eq!((customer.c_w_id, customer.c_d_id, customer.c_id), (2, 3, 4));
    let stock = state.stock(2, 9).unwrap();
    assert_eq!((stock.s_w_id, stock.s_i_id, stock.s_order_cnt), (2, 9, 0));
    assert_eq!(state.item(9).unwrap().i_id, 9);
    assert_eq!(state.all_warehouse_ids().len(), 2);
    assert_eq!(state.all_district_ids().len(), 20);
    assert_eq!(state.all_warehouse_ids()[1], TpccState::object_id_for_warehouse(2));
}

#[test]
fn orders_are_numbered_and_booked() {
    let mut state = TpccState::new(2);
    state.put_stock(
        1,
        8,
        Stock { s_i_id: 8, s_w_id: 1, s_quantity: 20, s_ytd: 0, s_order_cnt: 0, s_remote_cnt: 0 },
    );
    state.put_stock(
        2,
        9,
        Stock { s_i_id: 9, s_w_id: 2, s_quantity: 12, s_ytd: 0, s_order_cnt: 4, s_remote_cnt: 0 },
    );
    let items = vec![
        OrderItem { i_id: 8, supply_w_id: 1, quantity: 5 },
        OrderItem { i_id: 9, supply_w_id: 2, quantity: 5 },
    ];
    assert_eq!(TpccExecutor::execute_new_order(&mut state, 1, 2, 3, &items), 3001);
    assert_eq!(TpccExecutor::execute_new_order(&mut state, 1, 2, 3, &vec![]), 3002);
    assert_eq!(TpccExecutor::execute_new_order(&mut state, 1, 3, 3, &vec![]), 3001);
    let local = state.stock(1, 8).unwrap();
    assert_eq!(
        (local.s_quantity, local.s_ytd, local.s_order_cnt, local.s_remote_cnt),
        (15, 5, 1, 0)
    );
    let remote = state.stock(2, 9).unwrap();
    assert_eq!(
        (remote.s_quantity, remote.s_ytd, remote.s_order_cnt, remote.s_remote_cnt),
        (98, 5, 5, 1)
    );
}

#[test]
fn a_payment_moves_money() {
    let mut state = TpccState::new(2);
    TpccExecutor::execute_tpcc_logic(&mut state, &payment(2_500));
    assert_eq!(state.warehouse(1).unwrap().w_ytd, INITIAL_W_YTD_CENTS + 2_500);
    assert_eq!(state.district(1, 2).unwrap().d_ytd, INITIAL_D_YTD_CENTS + 2_500);
    let customer = state.customer(2, 4, 5).unwrap();
    assert_eq!(customer.c_balance, INITIAL_BALANCE_CENTS - 2_500);
    assert_eq!(customer.c_payment_cnt, 2);
    assert_eq!(state.warehouse(2).unwrap().w_ytd, INITIAL_W_YTD_CENTS);
}

#[test]
fn execution_reaches_the_assigned_versions() {
    let mut state = TpccState::new(1);
    let mut store = TpccObjectStore::default();
    let txn = order(vec![OrderItem { i_id: 8, supply_w_id: 1, quantity: 1 }]);
    let executable = TpccExecutableTransaction::new((3, 3), order(vec![OrderItem {
        i_id: 8,
        supply_w_id: 1,
        quantity: 1,
    }]));
    let ids = executable.shared_object_ids();
    for id in &ids {
        store.write_object(TpccExecutor::create_shared_object(*id));
    }
    let mut transaction =
        TransactionWithTimestamp::new((3, 3), executable.inputs, 0, ids.clone(), NONE, NONE, None);
    for (at, object) in transaction.shared_objects.iter_mut().enumerate() {
        object.1 = Some(if at == 0 { 6 } else { 2 });
    }
    let transaction = Arc::new(transaction);
    assert!(!TpccExecutor::pre_execute_check(&store, &transaction));
    let moved = TpccExecutor::update_object_with_version(
        &TpccExecutor::create_shared_object(ids[0]),
        6,
    );
    assert_eq!((moved.id(), moved.version()), (ids[0], 6));
    store.write_object(moved);
    assert!(TpccExecutor::pre_execute_check(&store, &transaction));
    let results = TpccExecutor::execute(&mut state, &mut store, &txn, &transaction);
    assert!(results.success());
    for id in &ids {
        assert_eq!(store.read_object(id).unwrap().version(), 7);
    }
    assert_eq!(state.next_order_id(1, 2), 3002);
    assert!(TpccExecutor::verify_transaction(3));
}

#[test]
fn a_store_is_filled_with_the_shared_objects() {
    let mut store = TpccObjectStore::new();
    let mut states = NewStates::new();
    states.insert((1, 1), TpccExecutor::create_shared_object((1, 1)));
    store.commit_objects(&states);
    assert!(store.read_object(&(1, 1)).is_some());
    let mut other = NewStates::new();
    other.insert((1, 2), TpccExecutor::create_shared_object((1, 2)));
    store.commit_new_objects(&other);
    assert!(store.read_object(&(1, 2)).is_some());
    TpccExecutor::init_objects(&mut store, 1);
    for id in [
        TpccState::object_id_for_warehouse(1),
        TpccState::object_id_for_district(1, 10),
        TpccState::object_id_for_customer(1, 10, 3000),
        TpccState::object_id_for_stock(1, 100_000),
        TpccState::object_id_for_item(1),
    ] {
        let object = store.read_object(&id).unwrap();
        assert_eq!(object.version(), 2);
        assert_eq!(object.owner, Owner::Shared { initial_shared_version: 2 });
    }
    let context = TpccExecutionContext::new(1, 5);
    assert_eq!(context.tpcc_state.num_warehouses(), 1);
    assert_eq!(context.verification_spins, 5);
}

#[test]
fn orders_stay_on_their_node() {
    let mut generator = TpccGenerator::new(6, ZERO, 3, ZERO, 7);
    for _ in 0..300 {
        match generator.generate_transaction() {
            TpccTransaction::NewOrder { w_id, items, .. } => {
                for item in &items {
                    assert_eq!(
                        generator.node_for_warehouse(item.supply_w_id),
                        generator.node_for_warehouse(w_id)
                    );
                    assert!(item.quantity >= 1 && item.quantity <= MAX_OL_QUANTITY);
                    assert!(item.i_id >= 1 && item.i_id as usize <= NUM_ITEMS);
                }
            }
            _ => panic!("orders only"),
        }
    }
    assert!(matches!(generator.supply_source(false, true), SupplySource::Home));
    assert!(matches!(generator.supply_source(true, false), SupplySource::SameNode));
    assert!(matches!(generator.supply_source(true, true), SupplySource::SameNode));
    let crossing = TpccGenerator::new(6, ZERO, 3, HALF, 7);
    assert!(matches!(crossing.supply_source(true, true), SupplySource::OtherNode));
    let single = TpccGenerator::new(3, ZERO, 3, ZERO, 7);
    assert!(matches!(single.supply_source(true, true), SupplySource::Home));
}

#[test]
fn equal_seeds_generate_alike() {
    let mut first = TpccGenerator::new(4, HALF, 2, HALF, 9);
    let mut second = TpccGenerator::new(4, HALF, 2, HALF, 9);
    for _ in 0..50 {
        assert_eq!(
            first.generate_transaction().access_set(),
            second.generate_transaction().access_set()
        );
    }
    assert_eq!(payment(100).name(), "PAYMENT");
    assert_eq!(order(vec![]).name(), "NEW_ORDER");
}

#[test]
fn tasks_cover_all_transactions() {
    for total in [0u64, 1, 15, 16, 17, 100] {
        let sum: u64 =
            (0..NUM_GENERATOR_TASKS).map(|task| generator_task_count(total, task)).sum();
        assert_eq!(sum, total);
    }
    let mut config = BenchmarkParameters::new_for_tests();
    config.load = None;
    config.load_config = LoadConfig::Constant(20);
    config.workload = WorkloadType::Tpcc { num_warehouses: 2, payment_ratio: HALF };
    assert_eq!(TpccExecutor::warehouses_of(&config), Some(2));
    let digests: Vec<(u128, u128)> = (0..20).map(|i| (4, i)).collect();
    let transactions = TpccExecutor::generate_transactions(&config, &digests);
    assert_eq!(transactions.len(), 20);
    let checked = TpccExecutor::try_generate_transactions(&config, &digests).unwrap();
    assert_eq!(
        checked.iter().map(|made| format!("{:?}", made.txn)).collect::<Vec<_>>(),
        transactions.iter().map(|made| format!("{:?}", made.txn)).collect::<Vec<_>>()
    );
    for (at, transaction) in transactions.iter().enumerate() {
        assert_eq!(transaction.digest, digests[at]);
        let ids: Vec<ObjectID> = transaction.txn.access_set();
        assert_eq!(transaction.shared_object_ids(), ids);
    }
    assert_eq!(TpccExecutor::warehouses_of(&BenchmarkParameters::new_for_tests()), None);
}

#[test]
fn orders_follow_the_draws_of_their_seed() {
    let mut generator = TpccGenerator::new(1, ZERO, 1, ZERO, 9);
    let mut rng = StdRng::seed_from_u64(9);
    for _ in 0..20 {
        assert!(!rng.gen_ratio(0, 1));
        let w_id: u32 = rng.gen_range(1..=1);
        let d_id: u32 = rng.gen_range(1..=10);
        let c_id: u32 = rng.gen_range(1..=3000);
        let ol_cnt: usize = rng.gen_range(5..=15);
        let lines: Vec<(u32, u32, u32)> = (0..ol_cnt)
            .map(|_| {
                let i_id: u32 = rng.gen_range(1..=100_000);
                let quantity: u32 = rng.gen_range(1..=10);
                (i_id, w_id, quantity)
            })
            .collect();
        match generator.generate_transaction() {
            TpccTransaction::NewOrder { w_id: w, d_id: d, c_id: c, items } => {
                assert_eq!((w, d, c), (w_id, d_id, c_id));
                let drawn: Vec<(u32, u32, u32)> =
                    items.iter().map(|i| (i.i_id, i.supply_w_id, i.quantity)).collect();
                assert_eq!(drawn, lines);
            }
            _ => panic!("orders only"),
        }
    }
}

#[test]
fn nodes_start_alike() {
    let here = TpccState::new(1);
    let there = TpccState::new(1);
    for i_id in [1, 2, 50_000, 100_000] {
        assert_eq!(here.item(i_id).unwrap().i_price, there.item(i_id).unwrap().i_price);
        assert_eq!(here.stock(1, i_id), there.stock(1, i_id));
    }
    for d_id in 1..=10 {
        assert_eq!(here.district(1, d_id).unwrap().d_tax, there.district(1, d_id).unwrap().d_tax);
        assert_eq!(
            here.customer(1, d_id, 7).unwrap().c_discount,
            there.customer(1, d_id, 7).unwrap().c_discount
        );
    }
}

// What lies so many steps above the low end of a range.
fn value(step: u64, low: f64, high: f64) -> f64 {
    low + (high - low) * step as f64 / RANGE_STEPS as f64
}

#[test]
fn tables_follow_the_draws_of_their_seed() {
    let state = TpccState::new(1);
    let close = |a: f64, b: f64| (a - b).abs() < 1e-9;
    let mut rng = StdRng::seed_from_u64(TABLES_SEED);
    for i_id in 1..=NUM_ITEMS as u32 {
        let price: f64 = rng.gen_range(1.00..=100.00);
        let item = state.item(i_id).unwrap();
        assert!(close(value(item.i_price, 1.00, 100.00), price));
        let cents = item.price_cents() as f64;
        assert!(cents <= price * 100.0 + 1e-6 && price * 100.0 < cents + 1.0 + 1e-6);
    }
    let tax: f64 = rng.gen_range(0.0..=0.2);
    let warehouse = state.warehouse(1).unwrap();
    assert!(close(value(warehouse.w_tax, 0.0, 0.2), tax));
    assert!(warehouse.tax_bps() <= MAX_TAX_BPS);
    for d_id in 1..=DISTRICTS_PER_WAREHOUSE as u32 {
        let tax: f64 = rng.gen_range(0.0..=0.2);
        let district = state.district(1, d_id).unwrap();
        assert!(close(value(district.d_tax, 0.0, 0.2), tax));
        assert_eq!(district.tax_bps(), (tax * 10_000.0) as u32);
        for c_id in 1..=CUSTOMERS_PER_DISTRICT as u32 {
            let discount: f64 = rng.gen_range(0.0..=0.5);
            let customer = state.customer(1, d_id, c_id).unwrap();
            assert!(close(value(customer.c_discount, 0.0, 0.5), discount));
            assert!(customer.discount_bps() <= MAX_DISCOUNT_BPS);
        }
    }
    for i_id in 1..=STOCK_PER_WAREHOUSE as u32 {
        let quantity: i32 = rng.gen_range(10..=100);
        assert_eq!(state.stock(1, i_id).unwrap().s_quantity, quantity);
    }
}

#[test]
fn suppliers_on_other_nodes_follow_the_draws_of_their_seed() {
    const ONE: Ratio = Ratio { numerator: 1, denominator: 1 };
    // Four nodes with two warehouses each, and no supplier on the home node.
    let mut generator = TpccGenerator::new(8, ZERO, 4, ONE, 13);
    let mut rng = StdRng::seed_from_u64(13);
    let mut remote_lines = 0;
    for _ in 0..50 {
        let w_id: u32 = rng.gen_range(1..=8);
        let d_id: u32 = rng.gen_range(1..=10);
        let c_id: u32 = rng.gen_range(1..=3000);
        let ol_cnt: usize = rng.gen_range(5..=15);
        let mut lines = Vec::new();
        for _ in 0..ol_cnt {
            let i_id: u32 = rng.gen_range(1..=100_000);
            let mut supply_w_id = w_id;
            if rng.gen_bool(0.15) && rng.gen_bool(1.0) {
                let home = (w_id - 1) as usize / 2;
                let node = loop {
                    let node: usize = rng.gen_range(0..4);
                    if node != home {
                        break node as u32;
                    }
                };
                supply_w_id = rng.gen_range(2 * node + 1..=2 * node + 2);
                remote_lines += 1;
            }
            let quantity: u32 = rng.gen_range(1..=10);
            lines.push((i_id, supply_w_id, quantity));
        }
        match generator.generate_new_order() {
            TpccTransaction::NewOrder { w_id: w, d_id: d, c_id: c, items } => {
                assert_eq!((w, d, c), (w_id, d_id, c_id));
                let drawn: Vec<(u32, u32, u32)> =
                    items.iter().map(|i| (i.i_id, i.supply_w_id, i.quantity)).collect();
                assert_eq!(drawn, lines);
            }
            _ => panic!("orders only"),
        }
    }
    assert!(remote_lines > 0);
}

#[test]
fn checked_generation_makes_the_same_transactions() {
    let mut generator = TpccGenerator::new(8, HALF, 4, HALF, 5);
    let mut checked = TpccGenerator::new(8, HALF, 4, HALF, 5);
    for _ in 0..200 {
        let made = generator.generate_transaction();
        let again = checked.try_generate_transaction().unwrap();
        assert_eq!(format!("{:?}", made), format!("{:?}", again));
    }
}

#[test]
fn remote_counts_matter_for_remote_lines_only() {
    let mut state = TpccState::new(1);
    let mut stock = state.stock(1, 1).unwrap();
    stock.s_remote_cnt = u32::MAX;
    state.put_stock(1, 1, stock);
    let line = OrderItem { i_id: 1, supply_w_id: 1, quantity: 1 };
    TpccExecutor::execute_new_order(&mut state, 1, 1, 1, &vec![line]);
    assert_eq!(state.stock(1, 1).unwrap().s_remote_cnt, u32::MAX);
    assert_eq!(state.stock(1, 1).unwrap().s_order_cnt, 1);
}

#[test]
fn payments_follow_the_draws_of_their_seed() {
    const ONE: Ratio = Ratio { numerator: 1, denominator: 1 };
    let mut generator = TpccGenerator::new(1, ONE, 1, ZERO, 11);
    let mut rng = StdRng::seed_from_u64(11);
    for _ in 0..20 {
        assert!(rng.gen_ratio(1, 1));
        let w_id: u32 = rng.gen_range(1..=1);
        let d_id: u32 = rng.gen_range(1..=10);
        let c_id: u32 = rng.gen_range(1..=3000);
        let h_amount: i64 = rng.gen_range(MIN_PAYMENT_CENTS..=MAX_PAYMENT_CENTS);
        match generator.generate_transaction() {
            TpccTransaction::Payment { w_id: w, d_id: d, c_w_id, c_d_id, c_id: c, h_amount: h } => {
                assert_eq!((w, d, c, h), (w_id, d_id, c_id, h_amount));
                assert_eq!((c_w_id, c_d_id), (w_id, d_id));
            }
            _ => panic!("payments only"),
        }
    }
}

#[test]
fn access_sets_list_objects_in_the_order_of_first_use() {
    let line = OrderItem { i_id: 1, supply_w_id: 1, quantity: 5 };
    let order =
        TpccTransaction::NewOrder { w_id: 1, d_id: 2, c_id: 3, items: vec![line, line] };
    assert_eq!(
        order.access_set(),
        vec![
            TpccState::object_id_for_warehouse(1),
            TpccState::object_id_for_customer(1, 2, 3),
            TpccState::object_id_for_item(1),
            TpccState::object_id_for_stock(1, 1),
            TpccState::object_id_for_district(1, 2),
        ]
    );
    let payment = TpccTransaction::Payment {
        w_id: 1,
        d_id: 2,
        c_w_id: 4,
        c_d_id: 5,
        c_id: 6,
        h_amount: 100,
    };
    assert_eq!(
        payment.access_set(),
        vec![
            TpccState::object_id_for_warehouse(1),
            TpccState::object_id_for_district(1, 2),
            TpccState::object_id_for_customer(4, 5, 6),
        ]
    );
}

//! Execution of the transactions of the benchmark.
use std::sync::Arc;

use vstd::prelude::*;

use crate::base_types::{
    InputObjectKind, Object, ObjectID, Owner, SequenceNumber, StateKey, TransactionDigest,
    INITIAL_VERSION,
};
use crate::config::{BenchmarkParameters, Ratio, WorkloadType};
use crate::executor::api::{
    shared_object_ids, ExecutionResultsAndEffects, NewStates, StateStore, TransactionWithTimestamp,
};
use crate::executor::calibration::Calibration;
use crate::executor::fake::fake_shared_object_with_id;
use crate::executor::tpcc::constants::{
    CUSTOMERS_PER_DISTRICT, DISTRICTS_PER_WAREHOUSE, NUM_ITEMS, STOCK_PER_WAREHOUSE,
};
use crate::executor::tpcc::data::{RecordKey, Stock, TpccState, TpccTables};
use crate::executor::tpcc::generator::{Mix, TpccGenerator};
use crate::executor::tpcc::transactions::{OrderItem, TpccTransaction};
use crate::ordered_map::OrderedMap;
use crate::recovery::find_highest_version;
use crate::tables::ConcurrentMap;

verus! {

/// A transaction with the objects that it declares as inputs.
#[derive(Debug)]
pub struct TpccExecutableTransaction {
    /// The digest of the transaction.
    pub digest: TransactionDigest,
    /// The transaction.
    pub txn: TpccTransaction,
    /// The inputs: every object that the transaction uses.
    pub inputs: Vec<InputObjectKind>,
}

/// Inputs that name shared objects, all of which may be changed.
pub open spec fn shared_inputs(ids: Seq<ObjectID>) -> Seq<InputObjectKind> {
    ids.map_values(
        |id: ObjectID|
            InputObjectKind::SharedMoveObject {
                id,
                initial_shared_version: INITIAL_VERSION,
                mutable: true,
            },
    )
}

impl TpccExecutableTransaction {
    /// A transaction with all objects that it uses as shared inputs.
    pub fn new(digest: TransactionDigest, txn: TpccTransaction) -> (transaction: Self)
        ensures
            transaction.digest == digest,
            transaction.txn == txn,
            transaction.inputs@ =~= shared_inputs(txn.accesses()),
    {
        let ids: Vec<ObjectID> = txn.access_set();
        let mut inputs: Vec<InputObjectKind> = Vec::new();
        let mut i: usize = 0;
        while i < ids.len()
            invariant
                i <= ids.len(),
                inputs@ =~= shared_inputs(ids@.take(i as int)),
            decreases ids.len() - i,
        {
            inputs.push(
                InputObjectKind::SharedMoveObject {
                    id: ids[i],
                    initial_shared_version: INITIAL_VERSION,
                    mutable: true,
                },
            );
            i = i + 1;
        }
        proof {
            assert(ids@.take(i as int) =~= ids@);
        }
        TpccExecutableTransaction { digest, txn, inputs }
    }

    /// The shared objects of the transaction.
    pub fn shared_object_ids(&self) -> (ids: Vec<ObjectID>)
        ensures
            ids@ == crate::executor::api::shared_ids(self.inputs@),
    {
        shared_object_ids(&self.inputs)
    }
}

/// The objects of the benchmark, in memory.
pub struct TpccObjectStore {
    objects: ConcurrentMap<ObjectID, Object>,
}

impl View for TpccObjectStore {
    type V = Map<ObjectID, Object>;

    closed spec fn view(&self) -> Map<ObjectID, Object> {
        self.objects@
    }
}

impl Default for TpccObjectStore {
    fn default() -> (store: Self)
        ensures
            store@ =~= Map::<ObjectID, Object>::empty(),
    {
        Self::new()
    }
}

impl TpccObjectStore {
    /// An empty store.
    pub fn new() -> (store: Self)
        ensures
            store@ =~= Map::<ObjectID, Object>::empty(),
    {
        TpccObjectStore { objects: ConcurrentMap::new() }
    }

    /// Writes an object under its identity.
    pub fn write_object(&mut self, object: Object)
        ensures
            final(self)@ == old(self)@.insert(object.id, object),
    {
        let _ = self.objects.insert(object.id, object);
    }

    /// The object with an identity, if there is one.
    pub fn read_object(&self, id: &ObjectID) -> (object: Option<Object>)
        ensures
            object == self@.get(*id),
    {
        self.objects.get(id)
    }

    /// Writes objects under given identities, in place of earlier ones.
    pub fn commit_objects(&mut self, new_state: &NewStates)
        requires
            new_state.wf(),
        ensures
            final(self)@ =~= old(self)@.union_prefer_right(new_state@),
    {
        let ghost before = self@;
        let mut i: usize = 0;
        while i < new_state.len()
            invariant
                i <= new_state.sorted().len(),
                new_state.wf(),
                self@ =~= before.union_prefer_right(
                    crate::ordered_map::entries_map(new_state.sorted().take(i as int)),
                ),
            decreases new_state.sorted().len() - i,
        {
            proof {
                crate::ordered_map::lemma_take_next(new_state.sorted(), i as int);
            }
            let entry: &(ObjectID, Object) = new_state.entry_at(i);
            let _ = self.objects.insert(entry.0, entry.1.clone());
            i = i + 1;
        }
        proof {
            crate::ordered_map::lemma_whole(new_state.sorted());
        }
    }

    /// Writes new objects under given identities.
    pub fn commit_new_objects(&mut self, new_state: &NewStates)
        requires
            new_state.wf(),
        ensures
            final(self)@ =~= old(self)@.union_prefer_right(new_state@),
    {
        self.commit_objects(new_state);
    }
}

impl StateStore for TpccObjectStore {
    open spec fn contents(&self) -> Map<ObjectID, Object> {
        self@
    }

    open spec fn valid(&self) -> bool {
        true
    }

    fn read(&self, id: &ObjectID) -> (object: Option<Object>) {
        self.read_object(id)
    }

    fn commit(&mut self, new_state: &NewStates) {
        self.commit_objects(new_state);
    }
}

/// The tables and the amount of work of checking a transaction.
pub struct TpccExecutionContext {
    /// The tables.
    pub tpcc_state: TpccState,
    /// The work of checking a transaction, in iterations.
    pub verification_spins: u64,
}

impl TpccExecutionContext {
    /// Fresh tables for a number of warehouses.
    pub fn new(num_warehouses: usize, verification_spins: u64) -> (context: Self)
        requires
            num_warehouses <= u32::MAX,
        ensures
            context.verification_spins == verification_spins,
            context.tpcc_state@.num_warehouses == num_warehouses,
            context.tpcc_state@.fresh(num_warehouses as int),
    {
        TpccExecutionContext { tpcc_state: TpccState::new(num_warehouses), verification_spins }
    }
}

/// The stock after an order line is taken from it: where enough stays, the
/// quantity goes down, else 91 are added first.
pub open spec fn stock_taken(stock: Stock, quantity: u32, remote: bool) -> Stock {
    Stock {
        s_quantity: (if stock.s_quantity >= quantity + 10 {
            stock.s_quantity - quantity
        } else {
            stock.s_quantity + 91 - quantity
        }) as i32,
        s_ytd: (stock.s_ytd + quantity) as u32,
        s_order_cnt: (stock.s_order_cnt + 1) as u32,
        s_remote_cnt: (stock.s_remote_cnt + if remote {
            1int
        } else {
            0int
        }) as u32,
        ..stock
    }
}

/// Whether an order line can be booked. Only one for another warehouse counts
/// as remote.
pub open spec fn bookable(stock: Stock, quantity: u32, remote: bool) -> bool {
    &&& quantity + 10 <= i32::MAX
    &&& i32::MIN <= stock.s_quantity + 91 - quantity
    &&& stock.s_ytd + quantity <= u32::MAX
    &&& stock.s_order_cnt < u32::MAX
    &&& remote ==> stock.s_remote_cnt < u32::MAX
}

/// The stock after order lines are taken from it, in order.
pub open spec fn stock_after(
    stock: Map<(u32, u32), Stock>,
    w_id: u32,
    items: Seq<OrderItem>,
) -> Map<(u32, u32), Stock>
    decreases items.len(),
{
    if items.len() == 0 {
        stock
    } else {
        let line = items.last();
        let key = (line.supply_w_id, line.i_id);
        let before = stock_after(stock, w_id, items.drop_last());
        before.insert(key, stock_taken(before[key], line.quantity, line.supply_w_id != w_id))
    }
}

/// Whether order lines can be booked, in order, and name known items.
pub open spec fn all_bookable(tables: TpccTables, w_id: u32, items: Seq<OrderItem>) -> bool
    decreases items.len(),
{
    if items.len() == 0 {
        true
    } else {
        let line = items.last();
        let key = (line.supply_w_id, line.i_id);
        let before = stock_after(tables.stock, w_id, items.drop_last());
        &&& all_bookable(tables, w_id, items.drop_last())
        &&& tables.items.contains_key(line.i_id)
        &&& before.contains_key(key)
        &&& bookable(before[key], line.quantity, line.supply_w_id != w_id)
    }
}

/// Whether a transaction can be executed on the tables: what it names is
/// there, and no number gets too large.
pub open spec fn executable(tables: TpccTables, transaction: TpccTransaction) -> bool {
    match transaction {
        TpccTransaction::NewOrder { w_id, d_id, c_id, items } => {
            &&& tables.warehouses.contains_key(w_id)
            &&& tables.districts.contains_key((w_id, d_id))
            &&& tables.next_order.contains_key((w_id, d_id))
            &&& tables.customers.contains_key((w_id, d_id, c_id))
            &&& all_bookable(tables, w_id, items@)
        },
        TpccTransaction::Payment { w_id, d_id, c_w_id, c_d_id, c_id, h_amount } => {
            &&& tables.warehouses.contains_key(w_id)
            &&& i64::MIN <= tables.warehouses[w_id].w_ytd + h_amount <= i64::MAX
            &&& tables.districts.contains_key((w_id, d_id))
            &&& i64::MIN <= tables.districts[(w_id, d_id)].d_ytd + h_amount <= i64::MAX
            &&& tables.customers.contains_key((c_w_id, c_d_id, c_id))
            &&& tables.customers[(c_w_id, c_d_id, c_id)].can_pay(h_amount)
        },
    }
}

/// The tables after a transaction.
pub open spec fn executed(tables: TpccTables, transaction: TpccTransaction) -> TpccTables {
    match transaction {
        TpccTransaction::NewOrder { w_id, d_id, items, .. } => TpccTables {
            next_order: tables.next_order.insert(
                (w_id, d_id),
                tables.next_order[(w_id, d_id)].wrapping_add(1),
            ),
            stock: stock_after(tables.stock, w_id, items@),
            ..tables
        },
        TpccTransaction::Payment { w_id, d_id, c_w_id, c_d_id, c_id, h_amount } => TpccTables {
            warehouses: tables.warehouses.insert(
                w_id,
                crate::executor::tpcc::data::Warehouse {
                    w_ytd: (tables.warehouses[w_id].w_ytd + h_amount) as i64,
                    ..tables.warehouses[w_id]
                },
            ),
            districts: tables.districts.insert(
                (w_id, d_id),
                crate::executor::tpcc::data::District {
                    d_ytd: (tables.districts[(w_id, d_id)].d_ytd + h_amount) as i64,
                    ..tables.districts[(w_id, d_id)]
                },
            ),
            customers: tables.customers.insert(
                (c_w_id, c_d_id, c_id),
                tables.customers[(c_w_id, c_d_id, c_id)].paid(h_amount),
            ),
            ..tables
        },
    }
}

/// Whether an object is another one at a given version.
pub open spec fn at_version(before: Object, after: Object, version: SequenceNumber) -> bool {
    &&& after.id == before.id
    &&& after.version == version
    &&& after.owner == (match before.owner {
        Owner::Shared { .. } => Owner::Shared { initial_shared_version: version },
        owner => owner,
    })
    &&& after.contents@ == vstd::bytes::spec_u64_to_le_bytes(
        crate::executor::fake::FAKE_COIN_VALUE,
    )
}

/// Whether these are the states that a transaction writes: every input at a
/// given version.
pub open spec fn all_at_version(
    states: Map<ObjectID, Object>,
    before: Map<ObjectID, Object>,
    inputs: Seq<InputObjectKind>,
    version: SequenceNumber,
) -> bool {
    &&& forall|id: ObjectID| #[trigger]
        states.contains_key(id) <==> crate::executor::fake::last_use(inputs, id) >= 0
    &&& forall|id: ObjectID| #[trigger]
        states.contains_key(id) ==> at_version(before[id], states[id], version)
}

/// The version that is first given for a shared object.
pub open spec fn first_version(
    shared: Seq<(ObjectID, Option<SequenceNumber>)>,
    id: ObjectID,
) -> Option<SequenceNumber>
    decreases shared.len(),
{
    if shared.len() == 0 {
        None
    } else if shared[0].0 == id {
        shared[0].1
    } else {
        first_version(shared.drop_first(), id)
    }
}

/// Whether an input is in a store, at the version that the transaction needs.
pub open spec fn input_ready(
    store: Map<ObjectID, Object>,
    shared: Seq<(ObjectID, Option<SequenceNumber>)>,
    input: InputObjectKind,
) -> bool {
    let id = input.spec_object_id();
    &&& store.contains_key(id)
    &&& input is SharedMoveObject ==> (first_version(shared, id) matches Some(version)
        ==> store[id].version == version)
}

/// Executes the transactions of the benchmark.
pub struct TpccExecutor {
    /// The tables, and the work of checking a transaction.
    pub execution_context: TpccExecutionContext,
    /// The objects.
    pub store: TpccObjectStore,
}

impl TpccExecutor {
    /// What creating an object for the benchmark gives: a shared object at its
    /// first version.
    pub fn create_shared_object(id: ObjectID) -> (object: Object)
        ensures
            crate::executor::fake::is_shared_coin(object, INITIAL_VERSION, id),
    {
        fake_shared_object_with_id(INITIAL_VERSION, id)
    }

    /// An object at another version.
    pub fn update_object_with_version(input: &Object, version: SequenceNumber) -> (output: Object)
        requires
            !(input.owner is Immutable),
        ensures
            at_version(*input, output, version),
    {
        let owner: Owner = match input.owner {
            Owner::Shared { .. } => Owner::Shared { initial_shared_version: version },
            owner => owner,
        };
        Object::new_gas_coin(version, input.id, crate::executor::fake::FAKE_COIN_VALUE, owner)
    }

    /// Books a transaction in the tables.
    pub fn execute_tpcc_logic(state: &mut TpccState, txn: &TpccTransaction)
        requires
            executable(old(state)@, *txn),
        ensures
            final(state)@ =~= executed(old(state)@, *txn),
    {
        match txn {
            TpccTransaction::NewOrder { w_id, d_id, c_id, items } => {
                Self::execute_new_order(state, *w_id, *d_id, *c_id, items);
            },
            TpccTransaction::Payment { w_id, d_id, c_w_id, c_d_id, c_id, h_amount } => {
                Self::execute_payment(state, *w_id, *d_id, *c_w_id, *c_d_id, *c_id, *h_amount);
            },
        }
    }

    /// Books an order: the district gets one more order, and every line is
    /// taken from the stock of its supplier. The price is not computed.
    pub fn execute_new_order(
        state: &mut TpccState,
        w_id: u32,
        d_id: u32,
        c_id: u32,
        items: &Vec<OrderItem>,
    ) -> (o_id: u32)
        requires
            old(state)@.warehouses.contains_key(w_id),
            old(state)@.districts.contains_key((w_id, d_id)),
            old(state)@.next_order.contains_key((w_id, d_id)),
            old(state)@.customers.contains_key((w_id, d_id, c_id)),
            all_bookable(old(state)@, w_id, items@),
        ensures
            o_id == old(state)@.next_order[(w_id, d_id)],
            final(state)@ =~= (TpccTables {
                next_order: old(state)@.next_order.insert((w_id, d_id), o_id.wrapping_add(1)),
                stock: stock_after(old(state)@.stock, w_id, items@),
                ..old(state)@
            }),
    {
        let ghost before = state@;
        let o_id: u32 = state.next_order_id(w_id, d_id);
        let ghost numbered = state@;
        proof {
            assert(items@.take(items@.len() as int) =~= items@);
        }
        let mut i: usize = 0;
        while i < items.len()
            invariant
                i <= items.len(),
                all_bookable(before, w_id, items@),
                numbered.stock == before.stock,
                state@ =~= (TpccTables {
                    stock: stock_after(before.stock, w_id, items@.take(i as int)),
                    ..numbered
                }),
            decreases items.len() - i,
        {
            proof {
                lemma_bookable_prefix(before, w_id, items@, i + 1);
                assert(items@.take(i + 1).drop_last() =~= items@.take(i as int));
            }
            let line: OrderItem = items[i];
            if let Some(stock) = state.stock(line.supply_w_id, line.i_id) {
                let quantity: i32 = line.quantity as i32;
                let left: i32 = if stock.s_quantity >= quantity + 10 {
                    stock.s_quantity - quantity
                } else {
                    stock.s_quantity + (91 - quantity)
                };
                let s_remote_cnt: u32 = if line.supply_w_id != w_id {
                    stock.s_remote_cnt + 1
                } else {
                    stock.s_remote_cnt
                };
                state.put_stock(
                    line.supply_w_id,
                    line.i_id,
                    Stock {
                        s_quantity: left,
                        s_ytd: stock.s_ytd + line.quantity,
                        s_order_cnt: stock.s_order_cnt + 1,
                        s_remote_cnt,
                        ..stock
                    },
                );
            }
            i = i + 1;
        }
        proof {
            assert(items@.take(i as int) =~= items@);
        }
        o_id
    }

    /// Books a payment: the warehouse and the district take it in, the
    /// customer owes that much less.
    pub fn execute_payment(
        state: &mut TpccState,
        w_id: u32,
        d_id: u32,
        c_w_id: u32,
        c_d_id: u32,
        c_id: u32,
        h_amount: i64,
    )
        requires
            executable(
                old(state)@,
                (TpccTransaction::Payment { w_id, d_id, c_w_id, c_d_id, c_id, h_amount }),
            ),
        ensures
            final(state)@ =~= executed(
                old(state)@,
                (TpccTransaction::Payment { w_id, d_id, c_w_id, c_d_id, c_id, h_amount }),
            ),
    {
        state.credit_warehouse(w_id, h_amount);
        state.credit_district(w_id, d_id, h_amount);
        state.debit_customer(c_w_id, c_d_id, c_id, h_amount);
    }

    /// Executes a transaction: it is booked in the tables, and every input,
    /// read or written, goes to the version after the highest one that the
    /// transaction needs.
    pub fn execute(
        state: &mut TpccState,
        store: &mut TpccObjectStore,
        txn: &TpccTransaction,
        transaction: &Arc<TransactionWithTimestamp>,
    ) -> (results: ExecutionResultsAndEffects)
        requires
            executable(old(state)@, *txn),
            crate::recovery::can_advance(
                TransactionWithTimestamp::assigned_versions(transaction.shared_objects@),
            ),
            forall|i: int|
                0 <= i < transaction.inputs@.len() ==> {
                    let id = (#[trigger] transaction.inputs@[i]).spec_object_id();
                    old(store)@.contains_key(id) && !(old(store)@[id].owner is Immutable)
                },
        ensures
            final(state)@ =~= executed(old(state)@, *txn),
            results.transaction == *transaction,
            ({
                let needs = TransactionWithTimestamp::assigned_versions(
                    transaction.shared_objects@,
                );
                &&& results.modified_at_versions matches Some(versions) && versions@ == needs
                &&& results.new_state matches Some(states) && states.wf() && all_at_version(
                    states@,
                    old(store)@,
                    transaction.inputs@,
                    crate::primary::shared_obj_txn_forwarder::assigned_version(needs),
                ) && final(store)@ =~= old(store)@.union_prefer_right(states@)
            }),
    {
        Self::execute_tpcc_logic(state, txn);
        let ghost before = store@;
        let ghost inputs = transaction.inputs@;
        let modified_at_versions: Vec<StateKey> = transaction.required_versions();
        let highest: SequenceNumber = find_highest_version(&modified_at_versions);
        let next_version: SequenceNumber = if highest > INITIAL_VERSION {
            highest + 1
        } else {
            INITIAL_VERSION + 1
        };
        let mut new_state: NewStates = OrderedMap::new();
        let mut i: usize = 0;
        while i < transaction.inputs.len()
            invariant
                i <= transaction.inputs.len(),
                inputs == transaction.inputs@,
                store@ == before,
                new_state.wf(),
                forall|k: int|
                    0 <= k < inputs.len() ==> {
                        let id = (#[trigger] inputs[k]).spec_object_id();
                        before.contains_key(id) && !(before[id].owner is Immutable)
                    },
                all_at_version(new_state@, before, inputs.take(i as int), next_version),
            decreases transaction.inputs.len() - i,
        {
            let id: ObjectID = transaction.inputs[i].object_id();
            proof {
                let shorter = inputs.take(i as int);
                let longer = inputs.take(i + 1);
                assert(longer.drop_last() =~= shorter);
                assert(longer.last() == inputs[i as int]);
                assert(before.contains_key(inputs[i as int].spec_object_id()));
            }
            if let Some(input_object) = store.read_object(&id) {
                let output_object: Object = Self::update_object_with_version(
                    &input_object,
                    next_version,
                );
                new_state.insert(id, output_object);
            }
            i = i + 1;
        }
        proof {
            assert(inputs.take(i as int) =~= inputs);
        }
        store.commit_objects(&new_state);
        ExecutionResultsAndEffects::new(
            Arc::clone(transaction),
            Some(modified_at_versions),
            Some(new_state),
        )
    }

    /// Whether every input is in the store, the shared ones at the versions
    /// that the transaction needs.
    pub fn pre_execute_check(
        store: &TpccObjectStore,
        transaction: &TransactionWithTimestamp,
    ) -> (ready: bool)
        ensures
            ready == (forall|i: int|
                0 <= i < transaction.inputs@.len() ==> input_ready(
                    store@,
                    transaction.shared_objects@,
                    #[trigger] transaction.inputs@[i],
                )),
    {
        let mut i: usize = 0;
        while i < transaction.inputs.len()
            invariant
                i <= transaction.inputs.len(),
                forall|k: int|
                    0 <= k < i ==> input_ready(
                        store@,
                        transaction.shared_objects@,
                        #[trigger] transaction.inputs@[k],
                    ),
            decreases transaction.inputs.len() - i,
        {
            let id: ObjectID = transaction.inputs[i].object_id();
            match store.read_object(&id) {
                Some(object) => {
                    if transaction.inputs[i].is_shared() {
                        if let Some(expected) = Self::expected_version(transaction, &id) {
                            if object.version != expected {
                                assert(!input_ready(
                                    store@,
                                    transaction.shared_objects@,
                                    transaction.inputs@[i as int],
                                ));
                                return false;
                            }
                        }
                    }
                },
                None => {
                    assert(!input_ready(
                        store@,
                        transaction.shared_objects@,
                        transaction.inputs@[i as int],
                    ));
                    return false;
                },
            }
            i = i + 1;
        }
        true
    }

    fn expected_version(
        transaction: &TransactionWithTimestamp,
        id: &ObjectID,
    ) -> (version: Option<SequenceNumber>)
        ensures
            version == first_version(transaction.shared_objects@, *id),
    {
        let ghost shared = transaction.shared_objects@;
        let mut i: usize = 0;
        proof {
            assert(shared.skip(0) =~= shared);
        }
        while i < transaction.shared_objects.len()
            invariant
                i <= transaction.shared_objects.len(),
                shared == transaction.shared_objects@,
                first_version(shared, *id) == first_version(shared.skip(i as int), *id),
            decreases transaction.shared_objects.len() - i,
        {
            proof {
                assert(shared.skip(i as int).drop_first() =~= shared.skip(i + 1));
                assert(shared.skip(i as int)[0] == shared[i as int]);
            }
            let (object, version) = transaction.shared_objects[i];
            if crate::base_types::same_id(&object, id) {
                return version;
            }
            i = i + 1;
        }
        None
    }

    /// Checks a transaction: the work is done, and it passes.
    pub fn verify_transaction(verification_spins: u64) -> (valid: bool)
        ensures
            valid,
    {
        Calibration::calibrated_work(verification_spins);
        true
    }
}

proof fn lemma_bookable_prefix(tables: TpccTables, w_id: u32, items: Seq<OrderItem>, n: int)
    requires
        all_bookable(tables, w_id, items),
        0 <= n <= items.len(),
    ensures
        all_bookable(tables, w_id, items.take(n)),
    decreases items.len() - n,
{
    if n == items.len() {
        assert(items.take(n) =~= items);
    } else {
        lemma_bookable_prefix(tables, w_id, items, n + 1);
        assert(items.take(n + 1).drop_last() =~= items.take(n));
    }
}

/// Whether a key is one of the records of a number of warehouses.
pub open spec fn is_record(key: RecordKey, warehouses: int) -> bool {
    match key {
        RecordKey::Warehouse { w_id } => 1 <= w_id <= warehouses,
        RecordKey::District { w_id, d_id } => 1 <= w_id <= warehouses && 1 <= d_id
            <= DISTRICTS_PER_WAREHOUSE,
        RecordKey::Customer { w_id, d_id, c_id } => 1 <= w_id <= warehouses && 1 <= d_id
            <= DISTRICTS_PER_WAREHOUSE && 1 <= c_id <= CUSTOMERS_PER_DISTRICT,
        RecordKey::Stock { w_id, i_id } => 1 <= w_id <= warehouses && 1 <= i_id
            <= STOCK_PER_WAREHOUSE,
        RecordKey::Item { i_id } => 1 <= i_id <= NUM_ITEMS,
    }
}

/// The objects of records.
pub open spec fn objects_of(keys: Set<RecordKey>) -> Set<ObjectID> {
    Set::new(
        |id: ObjectID|
            exists|key: RecordKey| #[trigger]
                keys.contains(key) && crate::executor::tpcc::data::record_id(key) == id,
    )
}

spec fn object_rule() -> spec_fn(ObjectID, Object) -> bool {
    |id: ObjectID, object: Object|
        crate::executor::fake::is_shared_coin(object, INITIAL_VERSION, id)
}

spec fn holds_fresh(
    before: Map<ObjectID, Object>,
    after: Map<ObjectID, Object>,
    keys: Set<RecordKey>,
) -> bool {
    crate::executor::tpcc::data::extended(before, after, objects_of(keys), object_rule())
}

proof fn lemma_fresh_nothing(store: Map<ObjectID, Object>)
    ensures
        holds_fresh(store, store, Set::empty()),
{
    assert(objects_of(Set::empty()) =~= Set::<ObjectID>::empty());
}

proof fn lemma_fresh_more(
    before: Map<ObjectID, Object>,
    middle: Map<ObjectID, Object>,
    after: Map<ObjectID, Object>,
    first: Set<RecordKey>,
    second: Set<RecordKey>,
)
    requires
        holds_fresh(before, middle, first),
        holds_fresh(middle, after, second),
    ensures
        holds_fresh(before, after, first + second),
{
    crate::executor::tpcc::data::lemma_extended_further(
        before,
        middle,
        after,
        objects_of(first),
        objects_of(second),
        object_rule(),
    );
    let both = first + second;
    assert(objects_of(first) + objects_of(second) =~= objects_of(both)) by {
        assert forall|id: ObjectID|
            (objects_of(first) + objects_of(second)).contains(id) <==> objects_of(both).contains(
                id,
            ) by {
            if objects_of(first).contains(id) {
                let key = choose|key: RecordKey| #[trigger]
                    first.contains(key) && crate::executor::tpcc::data::record_id(key) == id;
                assert(both.contains(key));
            }
            if objects_of(second).contains(id) {
                let key = choose|key: RecordKey| #[trigger]
                    second.contains(key) && crate::executor::tpcc::data::record_id(key) == id;
                assert(both.contains(key));
            }
            if objects_of(both).contains(id) {
                let key = choose|key: RecordKey| #[trigger]
                    both.contains(key) && crate::executor::tpcc::data::record_id(key) == id;
                assert(first.contains(key) || second.contains(key));
            }
        }
    }
}

proof fn lemma_fresh_one(store: Map<ObjectID, Object>, key: RecordKey, object: Object)
    requires
        crate::executor::fake::is_shared_coin(
            object,
            INITIAL_VERSION,
            crate::executor::tpcc::data::record_id(key),
        ),
    ensures
        holds_fresh(
            store,
            store.insert(crate::executor::tpcc::data::record_id(key), object),
            set![key],
        ),
{
    lemma_fresh_nothing(store);
    let id = crate::executor::tpcc::data::record_id(key);
    crate::executor::tpcc::data::lemma_extended_by_one(
        store,
        store,
        objects_of(Set::empty()),
        object_rule(),
        id,
        object,
    );
    assert(objects_of(Set::empty()).insert(id) =~= objects_of(set![key])) by {
        assert(set![key].contains(key));
    }
}

spec fn district_keys(w_id: u32, bound: int) -> Set<RecordKey> {
    Set::new(
        |k: RecordKey|
            k matches RecordKey::District { w_id: w, d_id } && w == w_id && 1 <= d_id <= bound,
    )
}

spec fn customer_keys(w_id: u32, d_id: u32, bound: int) -> Set<RecordKey> {
    Set::new(
        |k: RecordKey|
            k matches RecordKey::Customer { w_id: w, d_id: d, c_id } && w == w_id && d == d_id && 1
                <= c_id <= bound,
    )
}

spec fn district_customer_keys(w_id: u32, districts: int) -> Set<RecordKey> {
    Set::new(
        |k: RecordKey|
            k matches RecordKey::Customer { w_id: w, d_id, c_id } && w == w_id && 1 <= d_id
                <= districts && 1 <= c_id <= CUSTOMERS_PER_DISTRICT,
    )
}

spec fn stock_keys(w_id: u32, bound: int) -> Set<RecordKey> {
    Set::new(
        |k: RecordKey|
            k matches RecordKey::Stock { w_id: w, i_id } && w == w_id && 1 <= i_id <= bound,
    )
}

spec fn item_keys(bound: int) -> Set<RecordKey> {
    Set::new(|k: RecordKey| k matches RecordKey::Item { i_id } && 1 <= i_id <= bound)
}

spec fn keys_but_items(warehouses: int) -> Set<RecordKey> {
    Set::new(|k: RecordKey| is_record(k, warehouses) && !(k is Item))
}

fn init_districts(store: &mut TpccObjectStore, w_id: u32)
    ensures
        holds_fresh(
            old(store)@,
            final(store)@,
            district_keys(w_id, DISTRICTS_PER_WAREHOUSE as int),
        ),
{
    let ghost before = store@;
    proof {
        lemma_fresh_nothing(before);
        assert(district_keys(w_id, 0) =~= Set::<RecordKey>::empty());
    }
    let mut done: u32 = 0;
    while done < DISTRICTS_PER_WAREHOUSE as u32
        invariant
            done <= DISTRICTS_PER_WAREHOUSE,
            holds_fresh(before, store@, district_keys(w_id, done as int)),
        decreases DISTRICTS_PER_WAREHOUSE - done,
    {
        let d_id: u32 = done + 1;
        let object: Object = TpccExecutor::create_shared_object(
            TpccState::object_id_for_district(w_id, d_id),
        );
        proof {
            let key = RecordKey::District { w_id, d_id };
            let id = crate::executor::tpcc::data::record_id(key);
            lemma_fresh_one(store@, key, object);
            lemma_fresh_more(
                before,
                store@,
                store@.insert(id, object),
                district_keys(w_id, done as int),
                set![key],
            );
            assert(district_keys(w_id, done as int) + set![key] =~= district_keys(w_id, done + 1));
        }
        store.write_object(object);
        done = d_id;
    }
}

fn init_customers(store: &mut TpccObjectStore, w_id: u32, d_id: u32)
    ensures
        holds_fresh(
            old(store)@,
            final(store)@,
            customer_keys(w_id, d_id, CUSTOMERS_PER_DISTRICT as int),
        ),
{
    let ghost before = store@;
    proof {
        lemma_fresh_nothing(before);
        assert(customer_keys(w_id, d_id, 0) =~= Set::<RecordKey>::empty());
    }
    let mut done: u32 = 0;
    while done < CUSTOMERS_PER_DISTRICT as u32
        invariant
            done <= CUSTOMERS_PER_DISTRICT,
            holds_fresh(before, store@, customer_keys(w_id, d_id, done as int)),
        decreases CUSTOMERS_PER_DISTRICT - done,
    {
        let c_id: u32 = done + 1;
        let object: Object = TpccExecutor::create_shared_object(
            TpccState::object_id_for_customer(w_id, d_id, c_id),
        );
        proof {
            let key = RecordKey::Customer { w_id, d_id, c_id };
            let id = crate::executor::tpcc::data::record_id(key);
            lemma_fresh_one(store@, key, object);
            lemma_fresh_more(
                before,
                store@,
                store@.insert(id, object),
                customer_keys(w_id, d_id, done as int),
                set![key],
            );
            assert(customer_keys(w_id, d_id, done as int) + set![key] =~= customer_keys(
                w_id,
                d_id,
                done + 1,
            ));
        }
        store.write_object(object);
        done = c_id;
    }
}

fn init_stock(store: &mut TpccObjectStore, w_id: u32)
    ensures
        holds_fresh(old(store)@, final(store)@, stock_keys(w_id, STOCK_PER_WAREHOUSE as int)),
{
    let ghost before = store@;
    proof {
        lemma_fresh_nothing(before);
        assert(stock_keys(w_id, 0) =~= Set::<RecordKey>::empty());
    }
    let mut done: u32 = 0;
    while done < STOCK_PER_WAREHOUSE as u32
        invariant
            done <= STOCK_PER_WAREHOUSE,
            holds_fresh(before, store@, stock_keys(w_id, done as int)),
        decreases STOCK_PER_WAREHOUSE - done,
    {
        let i_id: u32 = done + 1;
        let object: Object = TpccExecutor::create_shared_object(
            TpccState::object_id_for_stock(w_id, i_id),
        );
        proof {
            let key = RecordKey::Stock { w_id, i_id };
            let id = crate::executor::tpcc::data::record_id(key);
            lemma_fresh_one(store@, key, object);
            lemma_fresh_more(
                before,
                store@,
                store@.insert(id, object),
                stock_keys(w_id, done as int),
                set![key],
            );
            assert(stock_keys(w_id, done as int) + set![key] =~= stock_keys(w_id, done + 1));
        }
        store.write_object(object);
        done = i_id;
    }
}

fn init_items(store: &mut TpccObjectStore)
    ensures
        holds_fresh(old(store)@, final(store)@, item_keys(NUM_ITEMS as int)),
{
    let ghost before = store@;
    proof {
        lemma_fresh_nothing(before);
        assert(item_keys(0) =~= Set::<RecordKey>::empty());
    }
    let mut done: u32 = 0;
    while done < NUM_ITEMS as u32
        invariant
            done <= NUM_ITEMS,
            holds_fresh(before, store@, item_keys(done as int)),
        decreases NUM_ITEMS - done,
    {
        let i_id: u32 = done + 1;
        let object: Object = TpccExecutor::create_shared_object(
            TpccState::object_id_for_item(i_id),
        );
        proof {
            let key = RecordKey::Item { i_id };
            let id = crate::executor::tpcc::data::record_id(key);
            lemma_fresh_one(store@, key, object);
            lemma_fresh_more(
                before,
                store@,
                store@.insert(id, object),
                item_keys(done as int),
                set![key],
            );
            assert(item_keys(done as int) + set![key] =~= item_keys(done + 1));
        }
        store.write_object(object);
        done = i_id;
    }
}

spec fn warehouse_keys(w_id: u32) -> Set<RecordKey> {
    set![RecordKey::Warehouse { w_id }] + district_keys(w_id, DISTRICTS_PER_WAREHOUSE as int)
        + district_customer_keys(w_id, DISTRICTS_PER_WAREHOUSE as int) + stock_keys(
        w_id,
        STOCK_PER_WAREHOUSE as int,
    )
}

fn init_warehouse(store: &mut TpccObjectStore, w_id: u32)
    ensures
        holds_fresh(old(store)@, final(store)@, warehouse_keys(w_id)),
{
    let ghost before = store@;
    let object: Object = TpccExecutor::create_shared_object(
        TpccState::object_id_for_warehouse(w_id),
    );
    proof {
        lemma_fresh_one(store@, RecordKey::Warehouse { w_id }, object);
    }
    store.write_object(object);
    let ghost first = set![RecordKey::Warehouse { w_id }];
    let ghost middle = store@;
    init_districts(store, w_id);
    let ghost second = first + district_keys(w_id, DISTRICTS_PER_WAREHOUSE as int);
    proof {
        lemma_fresh_more(
            before,
            middle,
            store@,
            first,
            district_keys(w_id, DISTRICTS_PER_WAREHOUSE as int),
        );
    }
    let ghost districts_done = store@;
    proof {
        lemma_fresh_nothing(districts_done);
        assert(district_customer_keys(w_id, 0) =~= Set::<RecordKey>::empty());
    }
    let mut done: u32 = 0;
    while done < DISTRICTS_PER_WAREHOUSE as u32
        invariant
            done <= DISTRICTS_PER_WAREHOUSE,
            holds_fresh(districts_done, store@, district_customer_keys(w_id, done as int)),
        decreases DISTRICTS_PER_WAREHOUSE - done,
    {
        let d_id: u32 = done + 1;
        let ghost earlier = store@;
        init_customers(store, w_id, d_id);
        proof {
            lemma_fresh_more(
                districts_done,
                earlier,
                store@,
                district_customer_keys(w_id, done as int),
                customer_keys(w_id, d_id, CUSTOMERS_PER_DISTRICT as int),
            );
            assert(district_customer_keys(w_id, done as int) + customer_keys(
                w_id,
                d_id,
                CUSTOMERS_PER_DISTRICT as int,
            ) =~= district_customer_keys(w_id, done + 1));
        }
        done = d_id;
    }
    proof {
        lemma_fresh_more(
            before,
            districts_done,
            store@,
            second,
            district_customer_keys(w_id, DISTRICTS_PER_WAREHOUSE as int),
        );
    }
    let ghost third = second + district_customer_keys(w_id, DISTRICTS_PER_WAREHOUSE as int);
    let ghost customers_done = store@;
    init_stock(store, w_id);
    proof {
        lemma_fresh_more(
            before,
            customers_done,
            store@,
            third,
            stock_keys(w_id, STOCK_PER_WAREHOUSE as int),
        );
    }
}

/// Whether a store has come to hold a fresh shared object for every record of
/// a number of warehouses, and is otherwise as before.
pub open spec fn initialised(
    before: Map<ObjectID, Object>,
    after: Map<ObjectID, Object>,
    warehouses: int,
) -> bool {
    let ids = objects_of(Set::new(|key: RecordKey| is_record(key, warehouses)));
    &&& forall|id: ObjectID| #[trigger]
        after.contains_key(id) <==> before.contains_key(id) || ids.contains(id)
    &&& forall|id: ObjectID| #[trigger]
        after.contains_key(id) ==> if ids.contains(id) {
            crate::executor::fake::is_shared_coin(after[id], INITIAL_VERSION, id)
        } else {
            after[id] == before[id]
        }
}

impl TpccExecutor {
    /// Creates an object for every record of a number of warehouses.
    pub fn init_objects(store: &mut TpccObjectStore, num_warehouses: usize)
        requires
            num_warehouses <= u32::MAX,
        ensures
            initialised(old(store)@, final(store)@, num_warehouses as int),
    {
        let ghost before = store@;
        proof {
            lemma_fresh_nothing(before);
            assert(keys_but_items(0) =~= Set::<RecordKey>::empty());
        }
        let mut done: u32 = 0;
        while done < num_warehouses as u32
            invariant
                done <= num_warehouses <= u32::MAX,
                holds_fresh(before, store@, keys_but_items(done as int)),
            decreases num_warehouses - done,
        {
            let w_id: u32 = done + 1;
            let ghost earlier = store@;
            init_warehouse(store, w_id);
            proof {
                lemma_fresh_more(
                    before,
                    earlier,
                    store@,
                    keys_but_items(done as int),
                    warehouse_keys(w_id),
                );
                assert(keys_but_items(done as int) + warehouse_keys(w_id) =~= keys_but_items(
                    done + 1,
                ));
            }
            done = w_id;
        }
        let ghost earlier = store@;
        init_items(store);
        proof {
            lemma_fresh_more(
                before,
                earlier,
                store@,
                keys_but_items(num_warehouses as int),
                item_keys(NUM_ITEMS as int),
            );
            assert(keys_but_items(num_warehouses as int) + item_keys(NUM_ITEMS as int)
                =~= Set::new(|key: RecordKey| is_record(key, num_warehouses as int)));
        }
    }

    /// The number of warehouses that a benchmark asks for; `None` where its
    /// workload is another one.
    pub fn warehouses_of(config: &BenchmarkParameters) -> (count: Option<usize>)
        ensures
            count == (match config.workload {
                WorkloadType::Tpcc { num_warehouses, .. } => Some(num_warehouses),
                _ => None,
            }),
    {
        match config.workload {
            WorkloadType::Tpcc { num_warehouses, .. } => Some(num_warehouses),
            _ => None,
        }
    }

    /// An executor with fresh tables and objects for a number of warehouses.
    pub fn new(num_warehouses: usize, verification_spins: u64) -> (executor: Self)
        requires
            num_warehouses <= u32::MAX,
        ensures
            executor.execution_context.verification_spins == verification_spins,
            executor.execution_context.tpcc_state@.num_warehouses == num_warehouses,
            executor.execution_context.tpcc_state@.fresh(num_warehouses as int),
            initialised(Map::empty(), executor.store@, num_warehouses as int),
    {
        let mut store: TpccObjectStore = TpccObjectStore::new();
        Self::init_objects(&mut store, num_warehouses);
        TpccExecutor {
            execution_context: TpccExecutionContext::new(num_warehouses, verification_spins),
            store,
        }
    }
}

/// The number of tasks that generate transactions.
pub const NUM_GENERATOR_TASKS: u64 = 16;

/// The greatest number of transactions of a task.
pub open spec fn task_size(total: int) -> int {
    (total + NUM_GENERATOR_TASKS - 1) / (NUM_GENERATOR_TASKS as int)
}

/// How many of the transactions come before a task.
pub open spec fn before_task(total: int, task: int) -> int {
    if task * task_size(total) < total {
        task * task_size(total)
    } else {
        total
    }
}

/// The number of transactions of a task.
pub open spec fn task_count(total: int, task: int) -> int {
    before_task(total, task + 1) - before_task(total, task)
}

/// The tasks together generate every transaction, and none twice: the first
/// begins at the beginning, each begins where the one before it ends, and the
/// last ends at the end.
pub proof fn law_tasks_cover_all_transactions(total: int, task: int)
    requires
        total >= 0,
        0 <= task < NUM_GENERATOR_TASKS,
    ensures
        before_task(total, 0) == 0,
        before_task(total, task) + task_count(total, task) == before_task(total, task + 1),
        0 <= task_count(total, task) <= task_size(total),
        before_task(total, NUM_GENERATOR_TASKS as int) == total,
{
    let size = task_size(total);
    assert(total <= 16 * size);
    assert((task + 1) * size == task * size + size) by (nonlinear_arith);
    assert(0 <= task * size) by (nonlinear_arith)
        requires
            0 <= task,
            0 <= size,
    ;
}

/// The number of transactions that a task generates.
pub fn generator_task_count(total: u64, task_id: u64) -> (count: u64)
    requires
        total + 2 * NUM_GENERATOR_TASKS <= u64::MAX,
        task_id < NUM_GENERATOR_TASKS,
    ensures
        count == task_count(total as int, task_id as int),
{
    let chunk_size: u64 = (total + NUM_GENERATOR_TASKS - 1) / NUM_GENERATOR_TASKS;
    proof {
        assert(chunk_size == task_size(total as int));
        assert(task_id * chunk_size + chunk_size <= 16 * chunk_size) by (nonlinear_arith)
            requires
                task_id < 16,
        ;
        assert(16 * chunk_size <= total + 15);
        assert((task_id + 1) * chunk_size == task_id * chunk_size + chunk_size)
            by (nonlinear_arith);
        assert(0 <= task_id * chunk_size) by (nonlinear_arith);
    }
    let start: u64 = task_id * chunk_size;
    let limit: u64 = start + chunk_size;
    let end: u64 = if limit < total {
        limit
    } else {
        total
    };
    if end > start {
        end - start
    } else {
        0
    }
}

/// What the transactions of a benchmark are drawn by: all warehouses are on
/// one node.
pub open spec fn task_mix(warehouses: usize, payment_ratio: Ratio) -> Mix {
    Mix {
        num_warehouses: warehouses,
        payment_ratio,
        num_nodes: 1,
        warehouses_per_node: warehouses,
        cross_node_prob: Ratio { numerator: 0, denominator: 1 },
    }
}

/// Whether a transaction is the one at a position that is drawn from a seed
/// on, with all objects that it uses as inputs.
pub open spec fn is_generated(
    transaction: TpccExecutableTransaction,
    mix: Mix,
    seed: u64,
    position: nat,
    digest: TransactionDigest,
) -> bool {
    &&& transaction.digest == digest
    &&& transaction.inputs@ =~= shared_inputs(transaction.txn.accesses())
    &&& match (mix.past_after(seed, position), mix.past_after(seed, position + 1)) {
        (Some(past), Some(after)) => mix.makes(past, transaction.txn, after),
        _ => false,
    }
    &&& mix.can_generate(transaction.txn)
}

/// Whether no search of a task is out of reach.
pub open spec fn task_in_reach(mix: Mix, total: int, task: int) -> bool {
    mix.past_after(task as u64, task_count(total, task) as nat) is Some
}

/// Whether no search of any task is out of reach.
pub open spec fn all_in_reach(mix: Mix, total: int) -> bool {
    forall|task: int|
        0 <= task < NUM_GENERATOR_TASKS ==> #[trigger] task_in_reach(mix, total, task)
}

impl TpccExecutor {
    /// The transactions of one task, one for each digest. The number of the
    /// task is the seed of its draws.
    pub fn generate_task(
        num_warehouses: usize,
        payment_ratio: Ratio,
        task_id: u64,
        digests: &Vec<TransactionDigest>,
    ) -> (transactions: Vec<TpccExecutableTransaction>)
        requires
            1 <= num_warehouses <= u32::MAX,
            payment_ratio.wf(),
            task_mix(num_warehouses, payment_ratio).past_after(task_id, digests@.len()) is Some,
        ensures
            transactions@.len() == digests@.len(),
            forall|i: int|
                0 <= i < transactions@.len() ==> is_generated(
                    #[trigger] transactions@[i],
                    task_mix(num_warehouses, payment_ratio),
                    task_id,
                    i as nat,
                    digests@[i],
                ),
    {
        let mut generator: TpccGenerator = TpccGenerator::new(
            num_warehouses,
            payment_ratio,
            1,
            Ratio { numerator: 0, denominator: 1 },
            task_id,
        );
        let ghost mix = task_mix(num_warehouses, payment_ratio);
        let mut transactions: Vec<TpccExecutableTransaction> = Vec::new();
        let mut i: usize = 0;
        while i < digests.len()
            invariant
                i <= digests.len(),
                generator.wf(),
                generator.mix() == mix,
                mix.past_after(task_id, i as nat) == Some(generator.rng@),
                mix.past_after(task_id, digests@.len()) is Some,
                transactions@.len() == i,
                forall|k: int|
                    0 <= k < i ==> is_generated(
                        #[trigger] transactions@[k],
                        mix,
                        task_id,
                        k as nat,
                        digests@[k],
                    ),
            decreases digests.len() - i,
        {
            let ghost past = generator.rng@;
            proof {
                mix.lemma_fewer_transactions(task_id, (i + 1) as nat, digests@.len());
            }
            let txn: TpccTransaction = generator.generate_transaction();
            proof {
                crate::executor::tpcc::generator::law_generation_is_reproducible(
                    mix,
                    past,
                    txn,
                    generator.rng@,
                    txn,
                    generator.rng@,
                );
            }
            let transaction = TpccExecutableTransaction::new(digests[i], txn);
            transactions.push(transaction);
            i = i + 1;
        }
        transactions
    }

    /// Whether no search of a task is out of reach.
    fn is_in_reach(num_warehouses: usize, payment_ratio: Ratio, task_id: u64, count: u64) -> (
        in_reach: bool)
        requires
            1 <= num_warehouses <= u32::MAX,
            payment_ratio.wf(),
        ensures
            in_reach == (task_mix(num_warehouses, payment_ratio).past_after(task_id, count as nat)
                is Some),
    {
        let mut generator: TpccGenerator = TpccGenerator::new(
            num_warehouses,
            payment_ratio,
            1,
            Ratio { numerator: 0, denominator: 1 },
            task_id,
        );
        let ghost mix = task_mix(num_warehouses, payment_ratio);
        let mut done: u64 = 0;
        while done < count
            invariant
                done <= count,
                mix == task_mix(num_warehouses, payment_ratio),
                generator.wf(),
                generator.mix() == mix,
                mix.past_after(task_id, done as nat) == Some(generator.rng@),
            decreases count - done,
        {
            let ghost past = generator.rng@;
            match generator.try_generate_transaction() {
                Some(txn) => {
                    proof {
                        crate::executor::tpcc::generator::law_generation_is_reproducible(
                            mix,
                            past,
                            txn,
                            generator.rng@,
                            txn,
                            generator.rng@,
                        );
                    }
                },
                None => {
                    proof {
                        if mix.past_after(task_id, count as nat) is Some {
                            mix.lemma_fewer_transactions(
                                task_id,
                                (done + 1) as nat,
                                count as nat,
                            );
                        }
                    }
                    return false;
                },
            }
            done = done + 1;
        }
        true
    }
}

/// The number of warehouses and the share of payments of a workload: one
/// warehouse and every other transaction where it is another one.
pub open spec fn workload_mix(workload: WorkloadType) -> (usize, Ratio) {
    match workload {
        WorkloadType::Tpcc { num_warehouses, payment_ratio } => (num_warehouses, payment_ratio),
        _ => (1, Ratio { numerator: 1, denominator: 2 }),
    }
}

impl TpccExecutor {
    /// The transactions of a benchmark, task by task, one for each digest. The
    /// number of its task is the seed of a transaction.
    pub fn generate_transactions(
        config: &BenchmarkParameters,
        digests: &Vec<TransactionDigest>,
    ) -> (transactions: Vec<TpccExecutableTransaction>)
        requires
            config.countable(),
            config.transactions() + 2 * NUM_GENERATOR_TASKS <= u64::MAX,
            digests@.len() == config.transactions(),
            1 <= workload_mix(config.workload).0 <= u32::MAX,
            workload_mix(config.workload).1.wf(),
            all_in_reach(
                task_mix(workload_mix(config.workload).0, workload_mix(config.workload).1),
                config.transactions() as int,
            ),
        ensures
            transactions@.len() == config.transactions(),
            forall|i: int|
                0 <= i < transactions@.len() ==> is_generated(
                    #[trigger] transactions@[i],
                    task_mix(workload_mix(config.workload).0, workload_mix(config.workload).1),
                    (i / task_size(config.transactions() as int)) as u64,
                    (i % task_size(config.transactions() as int)) as nat,
                    digests@[i],
                ),
    {
        let (num_warehouses, payment_ratio) = match config.workload {
            WorkloadType::Tpcc { num_warehouses, payment_ratio } => (num_warehouses, payment_ratio),
            _ => (1, Ratio { numerator: 1, denominator: 2 }),
        };
        let total: u64 = config.calculate_total_transactions();
        let ghost mix = task_mix(num_warehouses, payment_ratio);
        let ghost size = task_size(total as int);
        let mut transactions: Vec<TpccExecutableTransaction> = Vec::new();
        let mut task_id: u64 = 0;
        while task_id < NUM_GENERATOR_TASKS
            invariant
                task_id <= NUM_GENERATOR_TASKS,
                total + 2 * NUM_GENERATOR_TASKS <= u64::MAX,
                digests@.len() == total,
                1 <= num_warehouses <= u32::MAX,
                payment_ratio.wf(),
                transactions@.len() == before_task(total as int, task_id as int),
                forall|i: int|
                    0 <= i < transactions@.len() ==> is_generated(
                        #[trigger] transactions@[i],
                        mix,
                        (i / size) as u64,
                        (i % size) as nat,
                        digests@[i],
                    ),
                mix == task_mix(num_warehouses, payment_ratio),
                all_in_reach(mix, total as int),
                size == task_size(total as int),
            decreases NUM_GENERATOR_TASKS - task_id,
        {
            proof {
                assert(task_in_reach(mix, total as int, task_id as int));
                law_tasks_cover_all_transactions(total as int, task_id as int);
            }
            let count: u64 = generator_task_count(total, task_id);
            let start: usize = transactions.len();
            let ghost generated = transactions@;
            let mut own: Vec<TransactionDigest> = Vec::new();
            while (own.len() as u64) < count
                invariant
                    own@.len() <= count,
                    start + count <= digests.len(),
                    own@ =~= digests@.subrange(start as int, start + own@.len()),
                decreases count - own@.len(),
            {
                own.push(digests[start + own.len()]);
            }
            let mut chunk: Vec<TpccExecutableTransaction> = Self::generate_task(
                num_warehouses,
                payment_ratio,
                task_id,
                &own,
            );
            let ghost added = chunk@;
            transactions.append(&mut chunk);
            proof {
                assert forall|i: int| 0 <= i < transactions@.len() implies is_generated(
                    #[trigger] transactions@[i],
                    mix,
                    (i / size) as u64,
                    (i % size) as nat,
                    digests@[i],
                ) by {
                    if i < start {
                        assert(transactions@[i] == generated[i]);
                    } else {
                        assert(transactions@[i] == added[i - start]);
                        assert(own@[i - start] == digests@[i]);
                        assert(start == task_id * size);
                        vstd::arithmetic::div_mod::lemma_fundamental_div_mod_converse(
                            i,
                            size,
                            task_id as int,
                            i - start,
                        );
                    }
                }
            }
            task_id = task_id + 1;
        }
        proof {
            law_tasks_cover_all_transactions(total as int, 0);
        }
        transactions
    }

    /// The transactions of a benchmark, where no search takes more draws than
    /// can be counted: else there are none.
    pub fn try_generate_transactions(
        config: &BenchmarkParameters,
        digests: &Vec<TransactionDigest>,
    ) -> (transactions: Option<Vec<TpccExecutableTransaction>>)
        requires
            config.countable(),
            config.transactions() + 2 * NUM_GENERATOR_TASKS <= u64::MAX,
            digests@.len() == config.transactions(),
            1 <= workload_mix(config.workload).0 <= u32::MAX,
            workload_mix(config.workload).1.wf(),
        ensures
            ({
                let mix = task_mix(
                    workload_mix(config.workload).0,
                    workload_mix(config.workload).1,
                );
                match transactions {
                    Some(all) => {
                        &&& all@.len() == config.transactions()
                        &&& forall|i: int|
                            0 <= i < all@.len() ==> is_generated(
                                #[trigger] all@[i],
                                mix,
                                (i / task_size(config.transactions() as int)) as u64,
                                (i % task_size(config.transactions() as int)) as nat,
                                digests@[i],
                            )
                    },
                    None => !all_in_reach(mix, config.transactions() as int),
                }
            }),
    {
        let (num_warehouses, payment_ratio) = match config.workload {
            WorkloadType::Tpcc { num_warehouses, payment_ratio } => (num_warehouses, payment_ratio),
            _ => (1, Ratio { numerator: 1, denominator: 2 }),
        };
        let total: u64 = config.calculate_total_transactions();
        let ghost mix = task_mix(num_warehouses, payment_ratio);
        let mut task_id: u64 = 0;
        while task_id < NUM_GENERATOR_TASKS
            invariant
                task_id <= NUM_GENERATOR_TASKS,
                total + 2 * NUM_GENERATOR_TASKS <= u64::MAX,
                1 <= num_warehouses <= u32::MAX,
                payment_ratio.wf(),
                mix == task_mix(num_warehouses, payment_ratio),
                mix == task_mix(
                    workload_mix(config.workload).0,
                    workload_mix(config.workload).1,
                ),
                total == config.transactions(),
                forall|task: int|
                    0 <= task < task_id ==> #[trigger] task_in_reach(mix, total as int, task),
            decreases NUM_GENERATOR_TASKS - task_id,
        {
            proof {
                law_tasks_cover_all_transactions(total as int, task_id as int);
            }
            let count: u64 = generator_task_count(total, task_id);
            if !Self::is_in_reach(num_warehouses, payment_ratio, task_id, count) {
                proof {
                    assert(!task_in_reach(mix, total as int, task_id as int));
                }
                return None;
            }
            task_id = task_id + 1;
        }
        Some(Self::generate_transactions(config, digests))
    }
}

/// Executing a transaction takes its objects to the versions that were
/// assigned to them, so that the next transaction finds what it needs.
pub proof fn law_execution_reaches_assigned_versions(
    versions: Map<ObjectID, SequenceNumber>,
    ids: Seq<ObjectID>,
    before: Map<ObjectID, Object>,
    states: Map<ObjectID, Object>,
    inputs: Seq<InputObjectKind>,
    i: int,
)
    requires
        0 <= i < ids.len(),
        all_at_version(
            states,
            before,
            inputs,
            crate::primary::shared_obj_txn_forwarder::assigned_version(
                crate::primary::shared_obj_txn_forwarder::needs_of(versions, ids),
            ),
        ),
        states.contains_key(ids[i]),
    ensures
        states[ids[i]].version == crate::primary::shared_obj_txn_forwarder::versions_after(
            versions,
            ids,
        )[ids[i]],
{
    assert(ids.contains(ids[i]));
}

/// A stock that starts between 10 and 100 stays there, as long as order lines
/// are for 1 to 10 pieces.
pub proof fn law_stock_stays_in_range(stock: Stock, quantity: u32, remote: bool)
    requires
        10 <= stock.s_quantity <= 100,
        1 <= quantity <= 10,
    ensures
        10 <= stock_taken(stock, quantity, remote).s_quantity <= 100,
{
}

/// An order counts each of its lines once: what a stock sold this year goes up
/// by the quantity, and its number of orders by one.
pub proof fn law_order_lines_are_counted(
    stock: Map<(u32, u32), Stock>,
    w_id: u32,
    items: Seq<OrderItem>,
    line: OrderItem,
)
    requires
        stock_after(stock, w_id, items).contains_key((line.supply_w_id, line.i_id)),
        bookable(
            stock_after(stock, w_id, items)[(line.supply_w_id, line.i_id)],
            line.quantity,
            line.supply_w_id != w_id,
        ),
    ensures
        ({
            let key = (line.supply_w_id, line.i_id);
            let before = stock_after(stock, w_id, items)[key];
            let after = stock_after(stock, w_id, items.push(line))[key];
            &&& after.s_ytd == before.s_ytd + line.quantity
            &&& after.s_order_cnt == before.s_order_cnt + 1
            &&& after.s_remote_cnt == before.s_remote_cnt + if line.supply_w_id != w_id {
                1int
            } else {
                0int
            }
        }),
{
    assert(items.push(line).drop_last() =~= items);
}

/// A payment moves money without loss: what the warehouse and the district
/// take in is what the customer pays, and nobody else is affected.
pub proof fn law_payment_conserves_money(
    tables: TpccTables,
    w_id: u32,
    d_id: u32,
    c_w_id: u32,
    c_d_id: u32,
    c_id: u32,
    h_amount: i64,
)
    requires
        executable(
            tables,
            (TpccTransaction::Payment { w_id, d_id, c_w_id, c_d_id, c_id, h_amount }),
        ),
    ensures
        ({
            let after = executed(
                tables,
                (TpccTransaction::Payment { w_id, d_id, c_w_id, c_d_id, c_id, h_amount }),
            );
            let customer = (c_w_id, c_d_id, c_id);
            &&& after.warehouses[w_id].w_ytd - tables.warehouses[w_id].w_ytd == h_amount
            &&& after.districts[(w_id, d_id)].d_ytd - tables.districts[(w_id, d_id)].d_ytd
                == h_amount
            &&& tables.customers[customer].c_balance - after.customers[customer].c_balance
                == h_amount
            &&& after.customers[customer].c_ytd_payment + after.customers[customer].c_balance
                == tables.customers[customer].c_ytd_payment + tables.customers[customer].c_balance
            &&& after.customers.remove(customer) =~= tables.customers.remove(customer)
            &&& after.stock == tables.stock
            &&& after.next_order == tables.next_order
        }),
{
}

/// An order line takes its quantity from the stock, whoever supplies it: where
/// at least ten pieces stay, that much is gone, else 91 pieces have been added
/// before. Nothing but the quantity and the counts of the stock changes.
pub proof fn law_order_lines_are_taken_from_the_stock(stock: Stock, quantity: u32, remote: bool)
    requires
        bookable(stock, quantity, remote),
    ensures
        ({
            let after = stock_taken(stock, quantity, remote);
            &&& stock.s_quantity - quantity >= 10 ==> after.s_quantity == stock.s_quantity
                - quantity
            &&& stock.s_quantity - quantity < 10 ==> after.s_quantity == stock.s_quantity
                - quantity + 91
            &&& 1 <= quantity <= 10 ==> after.s_quantity != stock.s_quantity
            &&& after.s_ytd - stock.s_ytd == quantity
            &&& after.s_order_cnt - stock.s_order_cnt == 1
            &&& remote ==> after.s_remote_cnt - stock.s_remote_cnt == 1
            &&& !remote ==> after.s_remote_cnt == stock.s_remote_cnt
            &&& after.s_i_id == stock.s_i_id
            &&& after.s_w_id == stock.s_w_id
        }),
{
}

/// What one more line of an order does: the stock of its item at its supplier
/// goes down by its quantity, with 91 pieces added where fewer than ten would
/// stay, and no other stock changes.
pub proof fn law_each_line_is_taken_from_its_supplier(
    stock: Map<(u32, u32), Stock>,
    w_id: u32,
    items: Seq<OrderItem>,
    line: OrderItem,
    other: (u32, u32),
)
    requires
        bookable(
            stock_after(stock, w_id, items)[(line.supply_w_id, line.i_id)],
            line.quantity,
            line.supply_w_id != w_id,
        ),
        other != (line.supply_w_id, line.i_id),
    ensures
        stock_after(stock, w_id, Seq::empty()) == stock,
        ({
            let key = (line.supply_w_id, line.i_id);
            let before = stock_after(stock, w_id, items);
            let after = stock_after(stock, w_id, items.push(line));
            &&& after.contains_key(key)
            &&& after[key].s_quantity == before[key].s_quantity - line.quantity + (
            if before[key].s_quantity - line.quantity >= 10 {
                0int
            } else {
                91int
            })
            &&& after.get(other) == before.get(other)
        }),
{
    assert(items.push(line).drop_last() =~= items);
}

/// The quantities of the lines of an order that are for one stock.
pub open spec fn ordered_of(items: Seq<OrderItem>, key: (u32, u32)) -> int
    decreases items.len(),
{
    if items.len() == 0 {
        0
    } else {
        ordered_of(items.drop_last(), key) + (if (items.last().supply_w_id, items.last().i_id)
            == key {
            items.last().quantity as int
        } else {
            0int
        })
    }
}

/// Over a whole order a stock gives what is ordered of it: what is missing was
/// added in lots of 91 pieces.
pub proof fn law_orders_are_taken_from_the_stock(
    tables: TpccTables,
    w_id: u32,
    items: Seq<OrderItem>,
    key: (u32, u32),
) -> (lots: nat)
    requires
        all_bookable(tables, w_id, items),
        tables.stock.contains_key(key),
    ensures
        lots <= items.len(),
        stock_after(tables.stock, w_id, items).contains_key(key),
        stock_after(tables.stock, w_id, items)[key].s_quantity == tables.stock[key].s_quantity
            - ordered_of(items, key) + 91 * lots,
        stock_after(tables.stock, w_id, items)[key].s_ytd == tables.stock[key].s_ytd + ordered_of(
            items,
            key,
        ),
    decreases items.len(),
{
    if items.len() == 0 {
        0
    } else {
        let rest = items.drop_last();
        let line = items.last();
        let lots = law_orders_are_taken_from_the_stock(tables, w_id, rest, key);
        assert(items =~= rest.push(line));
        if (line.supply_w_id, line.i_id) == key {
            let before = stock_after(tables.stock, w_id, rest)[key];
            if before.s_quantity - line.quantity >= 10 {
                lots
            } else {
                (lots + 1) as nat
            }
        } else {
            lots
        }
    }
}

/// An order gives its district one more number and takes its lines from the
/// stock. Nothing else in the tables changes: no other district, no item, no
/// warehouse and no customer.
pub proof fn law_orders_change_number_and_stock_only(
    tables: TpccTables,
    transaction: TpccTransaction,
    other: (u32, u32),
)
    requires
        executable(tables, transaction),
        transaction is NewOrder,
    ensures
        transaction matches TpccTransaction::NewOrder { w_id, d_id, items, .. } ==> {
            let after = executed(tables, transaction);
            &&& tables.next_order[(w_id, d_id)] < u32::MAX ==> after.next_order[(w_id, d_id)]
                == tables.next_order[(w_id, d_id)] + 1
            &&& other != (w_id, d_id) ==> after.next_order.get(other) == tables.next_order.get(
                other,
            )
            &&& (forall|i: int|
                0 <= i < items@.len() ==> ((#[trigger] items@[i]).supply_w_id, items@[i].i_id)
                    != other) ==> after.stock.get(other) == tables.stock.get(other)
            &&& after.warehouses == tables.warehouses
            &&& after.districts == tables.districts
            &&& after.customers == tables.customers
            &&& after.items == tables.items
            &&& after.num_warehouses == tables.num_warehouses
        },
{
    if let TpccTransaction::NewOrder { w_id, d_id, c_id, items } = transaction {
        if forall|i: int|
            0 <= i < items@.len() ==> ((#[trigger] items@[i]).supply_w_id, items@[i].i_id)
                != other {
            lemma_other_stock(tables.stock, w_id, items@, other);
        }
    }
}

proof fn lemma_other_stock(
    stock: Map<(u32, u32), Stock>,
    w_id: u32,
    items: Seq<OrderItem>,
    other: (u32, u32),
)
    requires
        forall|i: int|
            0 <= i < items.len() ==> ((#[trigger] items[i]).supply_w_id, items[i].i_id) != other,
    ensures
        stock_after(stock, w_id, items).get(other) == stock.get(other),
    decreases items.len(),
{
    if items.len() > 0 {
        let rest = items.drop_last();
        assert forall|i: int| 0 <= i < rest.len() implies ((#[trigger] rest[i]).supply_w_id,
            rest[i].i_id) != other by {
            assert(rest[i] == items[i]);
        }
        lemma_other_stock(stock, w_id, rest, other);
        assert(items[items.len() - 1] == items.last());
    }
}

/// A payment counts once for the customer, and changes nothing but what was
/// taken in and what the customer has: names, taxes, discounts, items, other
/// warehouses and other districts stay.
pub proof fn law_payments_change_balances_only(
    tables: TpccTables,
    transaction: TpccTransaction,
    warehouse: u32,
    district: (u32, u32),
)
    requires
        executable(tables, transaction),
        transaction is Payment,
    ensures
        transaction matches TpccTransaction::Payment {
            w_id,
            d_id,
            c_w_id,
            c_d_id,
            c_id,
            h_amount,
        } ==> {
            let after = executed(tables, transaction);
            let key = (c_w_id, c_d_id, c_id);
            let old_customer = tables.customers[key];
            let new_customer = after.customers[key];
            &&& new_customer.c_payment_cnt == old_customer.c_payment_cnt + 1
            &&& new_customer.c_ytd_payment == old_customer.c_ytd_payment + h_amount
            &&& new_customer.c_balance == old_customer.c_balance - h_amount
            &&& new_customer.c_id == old_customer.c_id
            &&& new_customer.c_d_id == old_customer.c_d_id
            &&& new_customer.c_w_id == old_customer.c_w_id
            &&& new_customer.c_discount == old_customer.c_discount
            &&& new_customer.c_first == old_customer.c_first
            &&& new_customer.c_last == old_customer.c_last
            &&& after.warehouses[w_id].w_tax == tables.warehouses[w_id].w_tax
            &&& after.warehouses[w_id].w_id == tables.warehouses[w_id].w_id
            &&& after.warehouses[w_id].w_name == tables.warehouses[w_id].w_name
            &&& warehouse != w_id ==> after.warehouses.get(warehouse) == tables.warehouses.get(
                warehouse,
            )
            &&& after.districts[(w_id, d_id)].d_tax == tables.districts[(w_id, d_id)].d_tax
            &&& after.districts[(w_id, d_id)].d_id == tables.districts[(w_id, d_id)].d_id
            &&& after.districts[(w_id, d_id)].d_w_id == tables.districts[(w_id, d_id)].d_w_id
            &&& after.districts[(w_id, d_id)].d_next_o_id == tables.districts[(
                w_id,
                d_id,
            )].d_next_o_id
            &&& after.districts[(w_id, d_id)].d_name == tables.districts[(w_id, d_id)].d_name
            &&& district != (w_id, d_id) ==> after.districts.get(district)
                == tables.districts.get(district)
            &&& after.items == tables.items
            &&& after.num_warehouses == tables.num_warehouses
        },
{
}

/// Every object that a transaction has as an input is written by it, and no
/// other, all at one version; it keeps its identity and who owns it, but that
/// a shared object is shared from that version on.
pub proof fn law_execution_writes_its_inputs(
    states: Map<ObjectID, Object>,
    before: Map<ObjectID, Object>,
    inputs: Seq<InputObjectKind>,
    version: SequenceNumber,
    id: ObjectID,
)
    requires
        all_at_version(states, before, inputs, version),
    ensures
        states.contains_key(id) <==> exists|i: int|
            0 <= i < inputs.len() && (#[trigger] inputs[i]).spec_object_id() == id,
        states.contains_key(id) ==> {
            &&& states[id].id == before[id].id
            &&& states[id].version == version
            &&& before[id].owner is Shared ==> states[id].owner == Owner::Shared {
                initial_shared_version: version,
            }
            &&& !(before[id].owner is Shared) ==> states[id].owner == before[id].owner
        },
{
    crate::executor::fake::law_last_use_is_the_last_input(inputs, id);
}

/// The version that a transaction is given for a shared object is the one at
/// its first mention; where it is not mentioned, none is given.
pub proof fn law_first_mention_gives_the_version(
    shared: Seq<(ObjectID, Option<SequenceNumber>)>,
    id: ObjectID,
    i: int,
)
    requires
        0 <= i < shared.len(),
        shared[i].0 == id,
        forall|k: int| 0 <= k < i ==> (#[trigger] shared[k]).0 != id,
    ensures
        first_version(shared, id) == shared[i].1,
    decreases i,
{
    if i > 0 {
        assert(shared[0].0 != id);
        let rest = shared.drop_first();
        assert forall|k: int| 0 <= k < i - 1 implies (#[trigger] rest[k]).0 != id by {
            assert(shared[k + 1].0 != id);
        }
        law_first_mention_gives_the_version(rest, id, i - 1);
    }
}

/// Where an object is not mentioned, no version is given for it.
pub proof fn law_unmentioned_objects_have_no_version(
    shared: Seq<(ObjectID, Option<SequenceNumber>)>,
    id: ObjectID,
)
    requires
        forall|k: int| 0 <= k < shared.len() ==> (#[trigger] shared[k]).0 != id,
    ensures
        first_version(shared, id) is None,
    decreases shared.len(),
{
    if shared.len() > 0 {
        let rest = shared.drop_first();
        assert(shared[0].0 != id);
        assert forall|k: int| 0 <= k < rest.len() implies (#[trigger] rest[k]).0 != id by {
            assert(shared[k + 1].0 != id);
        }
        law_unmentioned_objects_have_no_version(rest, id);
    }
}

/// A transaction can run once each of its inputs is there, and each shared one
/// is at the version that the transaction was given for it.
pub proof fn law_inputs_are_ready_at_their_versions(
    store: Map<ObjectID, Object>,
    shared: Seq<(ObjectID, Option<SequenceNumber>)>,
    input: InputObjectKind,
    i: int,
    version: SequenceNumber,
)
    requires
        0 <= i < shared.len(),
        shared[i] == (input.spec_object_id(), Some(version)),
        forall|k: int| 0 <= k < i ==> (#[trigger] shared[k]).0 != input.spec_object_id(),
    ensures
        input_ready(store, shared, input) <==> store.contains_key(input.spec_object_id()) && (
        input is SharedMoveObject ==> store[input.spec_object_id()].version == version),
{
    law_first_mention_gives_the_version(shared, input.spec_object_id(), i);
}

/// Every object that a transaction accesses is a shared input that it may
/// change, in the order in which it accesses them.
pub proof fn law_accessed_objects_are_inputs(ids: Seq<ObjectID>, i: int)
    requires
        0 <= i < ids.len(),
    ensures
        shared_inputs(ids).len() == ids.len(),
        shared_inputs(ids)[i] == (InputObjectKind::SharedMoveObject {
            id: ids[i],
            initial_shared_version: INITIAL_VERSION,
            mutable: true,
        }),
{
}

/// All transactions of a benchmark have their place in one task: the tasks
/// before it have the transactions before it.
pub proof fn law_every_transaction_has_its_task(total: int, i: int)
    requires
        0 <= i < total,
    ensures
        ({
            let task = i / task_size(total);
            &&& 0 <= task < 16
            &&& before_task(total, task) <= i < before_task(total, task + 1)
            &&& i % task_size(total) == i - before_task(total, task)
            &&& before_task(total, 16) == total
        }),
{
    let size = task_size(total);
    assert(total <= 16 * size);
    assert(size > 0);
    vstd::arithmetic::div_mod::lemma_fundamental_div_mod(i, size);
    vstd::arithmetic::div_mod::lemma_mod_bound(i, size);
    let task = i / size;
    assert(i == size * task + i % size);
    assert(task < 16) by (nonlinear_arith)
        requires
            i == size * task + i % size,
            i < total,
            total <= 16 * size,
            size > 0,
            0 <= i % size,
    ;
    assert(0 <= task) by (nonlinear_arith)
        requires
            i == size * task + i % size,
            0 <= i,
            0 <= i % size < size,
            size > 0,
    ;
    assert(size * task == task * size) by (nonlinear_arith);
    assert((task + 1) * size == task * size + size) by (nonlinear_arith);
}

/// The records of a benchmark: its warehouses with ten districts of three
/// thousand customers and a stock of a hundred thousand items each, and the
/// items themselves, all numbered from 1.
pub proof fn law_records_are_those_of_the_benchmark(w: u32, d: u32, c: u32, warehouses: int)
    ensures
        is_record(RecordKey::Warehouse { w_id: w }, warehouses) <==> 0 < w <= warehouses,
        is_record(RecordKey::District { w_id: w, d_id: d }, warehouses) <==> 0 < w <= warehouses
            && 0 < d <= 10,
        is_record(RecordKey::Customer { w_id: w, d_id: d, c_id: c }, warehouses) <==> 0 < w
            <= warehouses && 0 < d <= 10 && 0 < c <= 3_000,
        is_record(RecordKey::Stock { w_id: w, i_id: c }, warehouses) <==> 0 < w <= warehouses && 0
            < c <= 100_000,
        is_record(RecordKey::Item { i_id: c }, warehouses) <==> 0 < c <= 100_000,
{
}

/// An initialised store holds a shared object at the initial version for
/// every record, and whatever else was there, untouched.
pub proof fn law_initialised_stores_hold_every_record(
    before: Map<ObjectID, Object>,
    after: Map<ObjectID, Object>,
    warehouses: int,
    key: RecordKey,
    id: ObjectID,
)
    requires
        initialised(before, after, warehouses),
    ensures
        is_record(key, warehouses) ==> {
            let record = crate::executor::tpcc::data::record_id(key);
            &&& after.contains_key(record)
            &&& after[record].id == record
            &&& after[record].version == 2
            &&& after[record].owner == (Owner::Shared { initial_shared_version: 2 })
        },
        (forall|k: RecordKey|
            is_record(k, warehouses) ==> #[trigger] crate::executor::tpcc::data::record_id(k) != id)
            ==> (after.contains_key(id) <==> before.contains_key(id)) && (before.contains_key(id)
            ==> after[id] == before[id]),
{
    let records = Set::new(|k: RecordKey| is_record(k, warehouses));
    let ids = objects_of(records);
    if is_record(key, warehouses) {
        assert(records.contains(key));
        assert(ids.contains(crate::executor::tpcc::data::record_id(key)));
        assert(after.contains_key(crate::executor::tpcc::data::record_id(key)));
    }
    if forall|k: RecordKey|
        is_record(k, warehouses) ==> #[trigger] crate::executor::tpcc::data::record_id(k) != id {
        if ids.contains(id) {
            let k = choose|k: RecordKey| #[trigger]
                records.contains(k) && crate::executor::tpcc::data::record_id(k) == id;
            assert(is_record(k, warehouses));
        }
        assert(after.contains_key(id) <==> before.contains_key(id));
    }
}

/// Transactions at positions in a row are drawn in a row: what the draws of
/// one leave is where those of the next begin. Each has its digest, and the
/// objects that it uses as inputs.
pub proof fn law_generated_transactions_follow_each_other(
    one: TpccExecutableTransaction,
    next: TpccExecutableTransaction,
    mix: Mix,
    seed: u64,
    position: nat,
    digest: TransactionDigest,
    next_digest: TransactionDigest,
)
    requires
        is_generated(one, mix, seed, position, digest),
        is_generated(next, mix, seed, position + 1, next_digest),
    ensures
        one.digest == digest,
        one.inputs@ =~= shared_inputs(one.txn.accesses()),
        mix.can_generate(one.txn),
        exists|start: crate::random::Past, middle: crate::random::Past, end: crate::random::Past|
            {
                &&& #[trigger] mix.makes(start, one.txn, middle)
                &&& #[trigger] mix.makes(middle, next.txn, end)
                &&& position == 0 ==> start == (crate::random::Past { seed, asked: Seq::empty() })
            },
{
    let start = mix.past_after(seed, position)->0;
    let middle = mix.past_after(seed, position + 1)->0;
    let end = mix.past_after(seed, position + 2)->0;
    assert(mix.makes(start, one.txn, middle));
    assert(mix.makes(middle, next.txn, end));
    crate::executor::tpcc::generator::law_transactions_are_drawn_one_after_the_other(
        mix,
        seed,
        position,
    );
}

/// A workload of the benchmark has the warehouses and the share of payments
/// that it sets, all on one node; any other has one warehouse and as many
/// payments as orders.
pub proof fn law_workloads_set_the_mix(workload: WorkloadType)
    ensures
        workload matches WorkloadType::Tpcc { num_warehouses, payment_ratio } ==> workload_mix(
            workload,
        ) == (num_warehouses, payment_ratio),
        !(workload is Tpcc) ==> workload_mix(workload).0 == 1 && 2 * workload_mix(
            workload,
        ).1.numerator == workload_mix(workload).1.denominator,
        ({
            let (warehouses, ratio) = workload_mix(workload);
            let mix = task_mix(warehouses, ratio);
            &&& mix.num_nodes == 1
            &&& mix.num_warehouses == warehouses
            &&& mix.warehouses_per_node == warehouses
            &&& mix.payment_ratio == ratio
            &&& mix.cross_node_prob.numerator == 0
        }),
{
}

/// What a transaction writes holds the value of a coin, as the object did.
pub proof fn law_written_objects_are_coins(before: Object, after: Object, version: SequenceNumber)
    requires
        at_version(before, after, version),
    ensures
        after.id == before.id,
        after.version == version,
        vstd::bytes::spec_u64_from_le_bytes(after.contents@) == 10,
        after.contents@.len() == 8,
{
    vstd::bytes::lemma_auto_spec_u64_to_from_le_bytes();
}

} // verus!

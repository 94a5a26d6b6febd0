//! When clients submit which transactions.
use std::sync::Arc;

use vstd::prelude::*;

use crate::base_types::{InputObjectKind, ObjectID, ProxyId, TransactionDigest};
use crate::config::{BenchmarkParameters, LoadConfig};
use crate::executor::api::{shared_object_ids, Timestamp, TransactionWithTimestamp};

verus! {

/// The number of clients.
pub const NUM_CLIENTS: usize = 16;

/// One second in nanoseconds.
pub const NANOS_PER_SECOND: u64 = 1_000_000_000;

/// The number of transactions that an offline schedule takes at a time.
pub const SCHEDULE_BATCH_SIZE: usize = 1000;

/// A transaction before it is submitted: its digest and its inputs.
pub struct GeneratedTransaction {
    pub digest: TransactionDigest,
    pub inputs: Vec<InputObjectKind>,
}

/// Whether a transaction is a generated one with the durations of a benchmark.
pub open spec fn is_prepared(
    transaction: TransactionWithTimestamp,
    generated: GeneratedTransaction,
    config: BenchmarkParameters,
    destination: Option<ProxyId>,
) -> bool {
    &&& transaction.digest == generated.digest
    &&& transaction.inputs@ =~= generated.inputs@
    &&& transaction.shared_objects@ =~= crate::executor::api::unversioned(
        crate::executor::api::shared_ids(generated.inputs@),
    )
    &&& transaction.verification_duration == config.verification_duration
    &&& transaction.expected_stateful_duration == config.expected_stateful_duration
    &&& transaction.timestamp == 0
    &&& transaction.destination == destination
}

fn copy_inputs(inputs: &Vec<InputObjectKind>) -> (copy: Vec<InputObjectKind>)
    ensures
        copy@ =~= inputs@,
{
    let mut copy: Vec<InputObjectKind> = Vec::new();
    let mut i: usize = 0;
    while i < inputs.len()
        invariant
            i <= inputs.len(),
            copy@ =~= inputs@.take(i as int),
        decreases inputs.len() - i,
    {
        copy.push(inputs[i]);
        i = i + 1;
    }
    copy
}

/// The mean time between two submissions of a client, in nanoseconds: that of
/// its load, and one second where it has none.
pub open spec fn mean_interval(load_per_client: u64) -> u64 {
    if load_per_client == 0 {
        NANOS_PER_SECOND
    } else {
        NANOS_PER_SECOND / load_per_client
    }
}

/// The mean time between two submissions of a client, in nanoseconds.
pub fn arrival_for_load(load_per_client: u64) -> (nanos: u64)
    ensures
        nanos == mean_interval(load_per_client),
{
    if load_per_client == 0 {
        NANOS_PER_SECOND
    } else {
        NANOS_PER_SECOND / load_per_client
    }
}

/// The load at a moment: 0 where nothing is due.
pub open spec fn load_at_second(config: LoadConfig, second: u64) -> u64 {
    match config {
        LoadConfig::Constant(load) => load,
        LoadConfig::Dynamic(dynamic) => match crate::config::load_at(dynamic.intervals@, second) {
            Some(load) => load,
            None => 0,
        },
    }
}

/// How fast a client submits transactions.
#[derive(Clone, Copy, Debug, PartialEq, Eq, Structural)]
pub struct Pacer {
    /// The second whose load was last looked up; -1 where none was.
    pub last_load_check_sec: i64,
    /// The mean time between two submissions, in nanoseconds.
    pub mean_interval: u64,
}

impl Pacer {
    /// A client at its start.
    pub fn new(load_config: &LoadConfig, num_clients: usize) -> (pacer: Self)
        requires
            num_clients > 0,
        ensures
            pacer.last_load_check_sec == -1,
            pacer.mean_interval == mean_interval(
                (load_at_second(*load_config, 0) / (num_clients as u64)) as u64,
            ),
    {
        let initial_load: u64 = load_config.get_load_at_time(0);
        Pacer {
            last_load_check_sec: -1,
            mean_interval: arrival_for_load(initial_load / num_clients as u64),
        }
    }

    /// Whether to submit another transaction after some seconds. With each
    /// new second the load is looked up; where it is 0 the client stops.
    pub fn submit_transactions(
        &mut self,
        elapsed_secs: u64,
        load_config: &LoadConfig,
        num_clients: usize,
    ) -> (submit: bool)
        requires
            num_clients > 0,
            elapsed_secs <= i64::MAX,
        ensures
            ({
                let load = load_at_second(*load_config, elapsed_secs);
                if old(self).last_load_check_sec == elapsed_secs {
                    &&& submit
                    &&& *final(self) == *old(self)
                } else {
                    &&& submit == (load != 0)
                    &&& *final(self) == (Pacer {
                        last_load_check_sec: elapsed_secs as i64,
                        mean_interval: mean_interval((load / (num_clients as u64)) as u64),
                    })
                }
            }),
    {
        if self.last_load_check_sec == elapsed_secs as i64 {
            return true;
        }
        let target_load: u64 = load_config.get_load_at_time(elapsed_secs);
        self.last_load_check_sec = elapsed_secs as i64;
        self.mean_interval = arrival_for_load(target_load / num_clients as u64);
        target_load != 0
    }
}

/// The number of transactions of a client, but for the last one that gets any.
pub open spec fn chunk_size(total: int) -> int {
    (total + NUM_CLIENTS - 1) / (NUM_CLIENTS as int)
}

/// Whether these are the shares of the clients: consecutive pieces of equal
/// size, of which the last may be smaller.
pub open spec fn is_split(
    chunks: Seq<Seq<Arc<TransactionWithTimestamp>>>,
    transactions: Seq<Arc<TransactionWithTimestamp>>,
) -> bool {
    let size = chunk_size(transactions.len() as int);
    &&& (chunks.len() - 1) * size < transactions.len() <= chunks.len() * size
    &&& forall|i: int|
        0 <= i < chunks.len() ==> #[trigger] chunks[i] =~= transactions.subrange(
            i * size,
            if (i + 1) * size < transactions.len() {
                (i + 1) * size
            } else {
                transactions.len() as int
            },
        )
}

/// The contents of the shares.
pub open spec fn shares(
    chunks: Seq<Vec<Arc<TransactionWithTimestamp>>>,
) -> Seq<Seq<Arc<TransactionWithTimestamp>>> {
    chunks.map_values(|chunk: Vec<Arc<TransactionWithTimestamp>>| chunk@)
}

/// Generates the load of a benchmark.
pub struct LoadGenerator {
    /// The benchmark.
    pub config: BenchmarkParameters,
}

impl LoadGenerator {
    /// The load of a benchmark.
    pub fn new(config: BenchmarkParameters) -> (generator: Self)
        ensures
            generator.config == config,
    {
        LoadGenerator { config }
    }

    /// A generated transaction, ready to be submitted.
    fn prepare(
        &self,
        generated: &GeneratedTransaction,
        destination: Option<ProxyId>,
    ) -> (transaction: TransactionWithTimestamp)
        ensures
            is_prepared(transaction, *generated, self.config, destination),
    {
        let inputs: Vec<InputObjectKind> = copy_inputs(&generated.inputs);
        let shared: Vec<ObjectID> = shared_object_ids(&inputs);
        TransactionWithTimestamp::new(
            generated.digest,
            inputs,
            0,
            shared,
            self.config.verification_duration,
            self.config.expected_stateful_duration,
            destination,
        )
    }

    /// The transactions of the benchmark, ready to be submitted.
    pub fn initialize(&self, generated: &Vec<GeneratedTransaction>) -> (transactions: Vec<
        TransactionWithTimestamp,
    >)
        ensures
            transactions@.len() == generated@.len(),
            forall|i: int|
                0 <= i < transactions@.len() ==> is_prepared(
                    #[trigger] transactions@[i],
                    generated@[i],
                    self.config,
                    None,
                ),
    {
        let mut transactions: Vec<TransactionWithTimestamp> = Vec::new();
        let mut i: usize = 0;
        while i < generated.len()
            invariant
                i <= generated.len(),
                transactions@.len() == i,
                forall|k: int|
                    0 <= k < i ==> is_prepared(
                        #[trigger] transactions@[k],
                        generated@[k],
                        self.config,
                        None,
                    ),
            decreases generated.len() - i,
        {
            let transaction: TransactionWithTimestamp = self.prepare(&generated[i], None);
            transactions.push(transaction);
            i = i + 1;
        }
        transactions
    }

    /// A transaction at the moment of its submission: with the time, and with
    /// no versions assigned.
    pub fn restamp(
        transaction: &TransactionWithTimestamp,
        timestamp: Timestamp,
    ) -> (restamped: TransactionWithTimestamp)
        ensures
            restamped.digest == transaction.digest,
            restamped.inputs@ =~= transaction.inputs@,
            restamped.shared_objects@ =~= crate::executor::api::unversioned(
                crate::executor::api::shared_ids(transaction.inputs@),
            ),
            restamped.verification_duration == transaction.verification_duration,
            restamped.expected_stateful_duration == transaction.expected_stateful_duration,
            restamped.destination == transaction.destination,
            restamped.timestamp == timestamp,
    {
        let inputs: Vec<InputObjectKind> = copy_inputs(&transaction.inputs);
        let shared: Vec<ObjectID> = shared_object_ids(&inputs);
        TransactionWithTimestamp::new(
            transaction.digest,
            inputs,
            timestamp,
            shared,
            transaction.verification_duration,
            transaction.expected_stateful_duration,
            transaction.destination,
        )
    }

    /// The shares of the clients.
    pub fn split_transactions(
        &self,
        transactions: &Vec<Arc<TransactionWithTimestamp>>,
    ) -> (chunks: Vec<Vec<Arc<TransactionWithTimestamp>>>)
        requires
            0 < transactions@.len(),
            transactions@.len() + NUM_CLIENTS <= usize::MAX,
        ensures
            is_split(shares(chunks@), transactions@),
    {
        let size: usize = (transactions.len() + NUM_CLIENTS - 1) / NUM_CLIENTS;
        let mut chunks: Vec<Vec<Arc<TransactionWithTimestamp>>> = Vec::new();
        let mut start: usize = 0;
        proof {
            assert(0 * size == 0) by (nonlinear_arith);
        }
        while start < transactions.len()
            invariant
                size == chunk_size(transactions@.len() as int),
                1 <= size <= transactions.len(),
                start <= transactions.len(),
                start == (if chunks@.len() * size < transactions@.len() {
                    (chunks@.len() * size) as int
                } else {
                    transactions@.len() as int
                }),
                chunks@.len() > 0 ==> (chunks@.len() - 1) * size < transactions@.len(),
                forall|i: int|
                    0 <= i < chunks@.len() ==> (#[trigger] shares(chunks@)[i])
                        =~= transactions@.subrange(
                        i * size,
                        if (i + 1) * size < transactions@.len() {
                            (i + 1) * size
                        } else {
                            transactions@.len() as int
                        },
                    ),
            decreases transactions.len() - start,
        {
            let end: usize = if transactions.len() - start > size {
                start + size
            } else {
                transactions.len()
            };
            let ghost before = chunks@;
            let mut chunk: Vec<Arc<TransactionWithTimestamp>> = Vec::new();
            let mut i: usize = start;
            while i < end
                invariant
                    start <= i <= end <= transactions.len(),
                    chunk@ =~= transactions@.subrange(start as int, i as int),
                decreases end - i,
            {
                chunk.push(Arc::clone(&transactions[i]));
                i = i + 1;
            }
            proof {
                let n = chunks@.len() as int;
                assert((n + 1) * size == n * size + size) by (nonlinear_arith);
                assert(shares(chunks@.push(chunk)) =~= shares(chunks@).push(chunk@));
            }
            chunks.push(chunk);
            proof {
                assert forall|i: int| 0 <= i < chunks@.len() implies (#[trigger] shares(chunks@)[i])
                    =~= transactions@.subrange(
                    i * size,
                    if (i + 1) * size < transactions@.len() {
                        (i + 1) * size
                    } else {
                        transactions@.len() as int
                    },
                ) by {
                    if i < before.len() {
                        assert(shares(chunks@)[i] == shares(before)[i]);
                    }
                }
            }
            start = end;
        }
        chunks
    }

    /// A batch in the order of an offline schedule, each transaction with the
    /// proxy that the schedule gives it.
    pub fn apply_schedule(
        &self,
        batch: &Vec<GeneratedTransaction>,
        transaction_order: &Vec<usize>,
        destinations: &Vec<ProxyId>,
    ) -> (scheduled: Vec<TransactionWithTimestamp>)
        requires
            destinations@.len() == batch@.len(),
            forall|i: int|
                0 <= i < transaction_order@.len() ==> (#[trigger] transaction_order@[i])
                    < batch@.len(),
        ensures
            scheduled@.len() == transaction_order@.len(),
            forall|i: int|
                0 <= i < scheduled@.len() ==> is_prepared(
                    #[trigger] scheduled@[i],
                    batch@[transaction_order@[i] as int],
                    self.config,
                    Some(destinations@[transaction_order@[i] as int]),
                ),
    {
        let mut scheduled: Vec<TransactionWithTimestamp> = Vec::new();
        let mut i: usize = 0;
        while i < transaction_order.len()
            invariant
                i <= transaction_order.len(),
                destinations@.len() == batch@.len(),
                forall|k: int|
                    0 <= k < transaction_order@.len() ==> (#[trigger] transaction_order@[k])
                        < batch@.len(),
                scheduled@.len() == i,
                forall|k: int|
                    0 <= k < i ==> is_prepared(
                        #[trigger] scheduled@[k],
                        batch@[transaction_order@[k] as int],
                        self.config,
                        Some(destinations@[transaction_order@[k] as int]),
                    ),
            decreases transaction_order.len() - i,
        {
            let index: usize = transaction_order[i];
            let transaction: TransactionWithTimestamp = self.prepare(
                &batch[index],
                Some(destinations[index]),
            );
            scheduled.push(transaction);
            i = i + 1;
        }
        scheduled
    }
}

/// No more clients get a share than there are, and every transaction is in
/// exactly one share: that of the client at its position over the share size.
pub proof fn law_every_transaction_has_one_client(
    chunks: Seq<Seq<Arc<TransactionWithTimestamp>>>,
    transactions: Seq<Arc<TransactionWithTimestamp>>,
    i: int,
)
    requires
        is_split(chunks, transactions),
        0 <= i < transactions.len(),
    ensures
        chunks.len() <= NUM_CLIENTS,
        ({
            let size = chunk_size(transactions.len() as int);
            let client = i / size;
            &&& 0 <= client < chunks.len()
            &&& 0 <= i - client * size < chunks[client].len()
            &&& chunks[client][i - client * size] == transactions[i]
        }),
{
    let n = transactions.len() as int;
    let size = chunk_size(n);
    let count = chunks.len() as int;
    let client = i / size;
    assert(size >= 1);
    assert(n <= 16 * size);
    vstd::arithmetic::div_mod::lemma_fundamental_div_mod(i, size);
    assert(client * size == size * client) by (nonlinear_arith);
    assert((client + 1) * size == client * size + size) by (nonlinear_arith);
    assert(count <= 16) by (nonlinear_arith)
        requires
            (count - 1) * size < n,
            n <= 16 * size,
            size >= 1,
    ;
    assert(0 <= client) by (nonlinear_arith)
        requires
            client == i / size,
            0 <= i,
            size >= 1,
    ;
    assert(client < count) by (nonlinear_arith)
        requires
            client * size <= i,
            i < n,
            n <= count * size,
            size >= 1,
    ;
    assert(chunks[client] =~= transactions.subrange(
        client * size,
        if (client + 1) * size < n {
            (client + 1) * size
        } else {
            n
        },
    ));
}

/// The mean time between two submissions is one second over the load,
/// rounded down; without a load it is one second.
pub proof fn law_submissions_fill_the_second(load: u64)
    ensures
        load == 0 ==> mean_interval(load) == 1_000_000_000,
        load > 0 ==> mean_interval(load) * load <= 1_000_000_000 < (mean_interval(load) + 1)
            * load,
{
    if load > 0 {
        let n = NANOS_PER_SECOND as int;
        let l = load as int;
        let q = n / l;
        vstd::arithmetic::div_mod::lemma_fundamental_div_mod(n, l);
        vstd::arithmetic::div_mod::lemma_mod_bound(n, l);
        assert(l * q == q * l) by (nonlinear_arith);
        assert((q + 1) * l == q * l + l) by (nonlinear_arith);
    }
}

/// A constant load is the load at every second; a dynamic one is that of
/// the first interval that covers the second, and none where none does.
pub proof fn law_load_is_that_of_its_interval(config: LoadConfig, second: u64)
    ensures
        config matches LoadConfig::Constant(load) ==> load_at_second(config, second) == load,
        config matches LoadConfig::Dynamic(dynamic) ==> forall|i: int|
            0 <= i < dynamic.intervals@.len() && dynamic.intervals@[i].start_time_secs <= second
                < dynamic.intervals@[i].end_time_secs && (forall|j: int|
                0 <= j < i ==> !((#[trigger] dynamic.intervals@[j]).start_time_secs <= second
                    < dynamic.intervals@[j].end_time_secs)) ==> load_at_second(config, second) == (
            #[trigger] dynamic.intervals@[i]).target_load,
        config matches LoadConfig::Dynamic(dynamic) ==> (forall|i: int|
            0 <= i < dynamic.intervals@.len() ==> !((
            #[trigger] dynamic.intervals@[i]).start_time_secs <= second
                < dynamic.intervals@[i].end_time_secs)) ==> load_at_second(config, second) == 0,
{
    if let LoadConfig::Dynamic(dynamic) = config {
        let intervals = dynamic.intervals@;
        assert forall|i: int|
            0 <= i < intervals.len() && intervals[i].start_time_secs <= second
                < intervals[i].end_time_secs && (forall|j: int|
                0 <= j < i ==> !((#[trigger] intervals[j]).start_time_secs <= second
                    < intervals[j].end_time_secs)) implies load_at_second(config, second) == (
        #[trigger] intervals[i]).target_load by {
            crate::config::law_first_covering_interval_sets_the_load(intervals, second, i);
        }
        crate::config::law_nothing_is_due_outside_the_intervals(intervals, second);
    }
}

/// The shares are as small as sixteen clients allow; all but the last have
/// the same size, none is empty, and there are no more than sixteen.
pub proof fn law_shares_are_even(
    chunks: Seq<Seq<Arc<TransactionWithTimestamp>>>,
    transactions: Seq<Arc<TransactionWithTimestamp>>,
    i: int,
)
    requires
        is_split(chunks, transactions),
        transactions.len() > 0,
        0 <= i < chunks.len(),
    ensures
        chunks.len() <= 16,
        0 < chunks[i].len(),
        i + 1 < chunks.len() ==> chunks[i].len() == chunks[0].len(),
        chunks[i].len() <= chunks[0].len(),
        transactions.len() <= 16 * chunks[0].len(),
        16 * (chunks[0].len() - 1) < transactions.len(),
{
    let n = transactions.len() as int;
    let size = chunk_size(n);
    let count = chunks.len() as int;
    assert(size >= 1 && n <= 16 * size && 16 * (size - 1) < n);
    assert(count <= 16) by (nonlinear_arith)
        requires
            (count - 1) * size < n,
            n <= 16 * size,
            size >= 1,
    ;
    assert(0 <= i * size && i * size <= (count - 1) * size) by (nonlinear_arith)
        requires
            0 <= i < count,
            size >= 1,
    ;
    assert((i + 1) * size == i * size + size) by (nonlinear_arith);
    if i + 1 < count {
        assert((i + 1) * size <= (count - 1) * size) by (nonlinear_arith)
            requires
                i + 1 < count,
                size >= 1,
        ;
    }
    assert(chunks[i] =~= transactions.subrange(
        i * size,
        if (i + 1) * size < n {
            (i + 1) * size
        } else {
            n
        },
    ));
    assert(chunks[0] =~= transactions.subrange(
        0 * size,
        if (0 + 1) * size < n {
            (0 + 1) * size
        } else {
            n
        },
    ));
    assert(0 * size == 0 && (0 + 1) * size == size) by (nonlinear_arith);
    assert(size <= n);
    assert(chunks[0].len() == size);
}

/// A prepared transaction is the generated one, with the durations of the
/// benchmark and no time, and its shared objects have no versions yet.
pub proof fn law_prepared_transactions_are_generated_ones(
    transaction: TransactionWithTimestamp,
    generated: GeneratedTransaction,
    config: BenchmarkParameters,
    destination: Option<ProxyId>,
    i: int,
)
    requires
        is_prepared(transaction, generated, config, destination),
    ensures
        transaction.digest == generated.digest,
        transaction.inputs@.len() == generated.inputs@.len(),
        0 <= i < generated.inputs@.len() ==> transaction.inputs@[i] == generated.inputs@[i],
        0 <= i < transaction.shared_objects@.len() ==> transaction.shared_objects@[i].1 is None
            && exists|k: int|
            0 <= k < generated.inputs@.len() && (#[trigger] generated.inputs@[k]) is SharedMoveObject
                && generated.inputs@[k].spec_object_id() == transaction.shared_objects@[i].0,
        transaction.verification_duration == config.verification_duration,
        transaction.expected_stateful_duration == config.expected_stateful_duration,
        transaction.timestamp == 0,
        transaction.destination == destination,
{
    if 0 <= i < transaction.shared_objects@.len() {
        let ids = crate::executor::api::shared_ids(generated.inputs@);
        let id = transaction.shared_objects@[i].0;
        assert(ids[i] == id);
        assert(ids.contains(id));
        crate::executor::api::law_shared_objects_are_those_of_shared_inputs(
            generated.inputs@,
            id,
        );
    }
}

} // verus!

//! What the executor of Sui transactions needs to know of a benchmark.
use vstd::prelude::*;

use crate::base_types::{same_id, ObjectID, StateKey};
use crate::config::{Alpha, BenchmarkParameters, ConfigErrorType, WorkloadType};

verus! {

/// The size of a token in the transfer workload.
pub const NFT_SIZE: u64 = 32;

/// The workloads of the transaction generator.
#[derive(Clone, Copy, Debug, PartialEq, Eq)]
pub enum WorkloadKind {
    /// Programmable transactions.
    Ptb {
        num_transfers: u64,
        num_dynamic_fields: u64,
        use_batch_mint: bool,
        computation: u8,
        use_native_transfer: bool,
        num_mints: u64,
        num_shared_objects: u64,
        nft_size: u64,
    },
    /// Transactions on shared counters.
    Counter { txs_per_counter: u64 },
    SolanaTransactions,
    EthereumTransfers,
    EthereumNftMint,
    UniswapNormal,
    UniswapPeak,
    /// Transactions on objects whose popularity follows a power law.
    ZipfianWorkload { theta: Alpha, number_of_inputs: usize },
}

/// The workload of the generator for that of a benchmark, if there is one.
pub open spec fn kind_for(workload: WorkloadType) -> Option<WorkloadKind> {
    match workload {
        WorkloadType::Transfers => Some(
            WorkloadKind::Ptb {
                num_transfers: 0,
                num_dynamic_fields: 0,
                use_batch_mint: false,
                computation: 0,
                use_native_transfer: false,
                num_mints: 0,
                num_shared_objects: 0,
                nft_size: NFT_SIZE,
            },
        ),
        WorkloadType::SharedObjects { txs_per_counter } => Some(
            WorkloadKind::Counter { txs_per_counter: txs_per_counter as u64 },
        ),
        WorkloadType::SolanaTransactions => Some(WorkloadKind::SolanaTransactions),
        WorkloadType::EthereumTransfers => Some(WorkloadKind::EthereumTransfers),
        WorkloadType::EthereumNftMint => Some(WorkloadKind::EthereumNftMint),
        WorkloadType::UniswapNormal => Some(WorkloadKind::UniswapNormal),
        WorkloadType::UniswapPeak => Some(WorkloadKind::UniswapPeak),
        WorkloadType::Zipfian { alpha, number_of_inputs } => Some(
            WorkloadKind::ZipfianWorkload { theta: alpha, number_of_inputs },
        ),
        _ => None,
    }
}

/// The number of transactions to generate for a benchmark, and the workload
/// to generate them with. A workload that the generator does not have is
/// invalid.
pub fn init_workload(config: &BenchmarkParameters) -> (workload: Result<
    (u64, WorkloadKind),
    ConfigErrorType,
>)
    requires
        config.countable(),
    ensures
        match workload {
            Ok((total, kind)) => total == config.transactions() && kind_for(config.workload) == Some(
                kind,
            ),
            Err(error) => error == ConfigErrorType::InvalidWorkload && kind_for(config.workload)
                is None,
        },
{
    let pre_generation: u64 = config.calculate_total_transactions();
    match config.workload {
        WorkloadType::Transfers => Ok(
            (
                pre_generation,
                WorkloadKind::Ptb {
                    num_transfers: 0,
                    num_dynamic_fields: 0,
                    use_batch_mint: false,
                    computation: 0,
                    use_native_transfer: false,
                    num_mints: 0,
                    num_shared_objects: 0,
                    nft_size: NFT_SIZE,
                },
            ),
        ),
        WorkloadType::SharedObjects { txs_per_counter } => Ok(
            (pre_generation, WorkloadKind::Counter { txs_per_counter: txs_per_counter as u64 }),
        ),
        WorkloadType::SolanaTransactions => Ok((pre_generation, WorkloadKind::SolanaTransactions)),
        WorkloadType::EthereumTransfers => Ok((pre_generation, WorkloadKind::EthereumTransfers)),
        WorkloadType::EthereumNftMint => Ok((pre_generation, WorkloadKind::EthereumNftMint)),
        WorkloadType::UniswapNormal => Ok((pre_generation, WorkloadKind::UniswapNormal)),
        WorkloadType::UniswapPeak => Ok((pre_generation, WorkloadKind::UniswapPeak)),
        WorkloadType::Zipfian { alpha, number_of_inputs } => Ok(
            (pre_generation, WorkloadKind::ZipfianWorkload { theta: alpha, number_of_inputs }),
        ),
        _ => Err(ConfigErrorType::InvalidWorkload),
    }
}

/// Those of the required states that are of shared objects, in their order.
pub open spec fn of_shared_objects(required: Seq<StateKey>, shared: Seq<ObjectID>) -> Seq<StateKey>
    decreases required.len(),
{
    if required.len() == 0 {
        Seq::empty()
    } else {
        let rest = of_shared_objects(required.drop_last(), shared);
        if shared.contains(required.last().0) {
            rest.push(required.last())
        } else {
            rest
        }
    }
}

/// The versions to assign to the shared objects of transactions: those of the
/// required ones that are of such an object, in their order.
pub fn assign_shared_object_versions_with_required_versions(
    shared_object_ids: &Vec<ObjectID>,
    required_versions: &Vec<StateKey>,
) -> (filtered: Vec<StateKey>)
    ensures
        filtered@ =~= of_shared_objects(required_versions@, shared_object_ids@),
{
    let mut filtered: Vec<StateKey> = Vec::new();
    let mut i: usize = 0;
    while i < required_versions.len()
        invariant
            i <= required_versions.len(),
            filtered@ =~= of_shared_objects(required_versions@.take(i as int), shared_object_ids@),
        decreases required_versions.len() - i,
    {
        proof {
            assert(required_versions@.take(i + 1).drop_last() =~= required_versions@.take(
                i as int,
            ));
        }
        let mut found: bool = false;
        let mut k: usize = 0;
        while k < shared_object_ids.len() && !found
            invariant
                i < required_versions.len(),
                k <= shared_object_ids.len(),
                found ==> shared_object_ids@.contains(required_versions@[i as int].0),
                !found ==> forall|m: int|
                    0 <= m < k ==> shared_object_ids@[m] != required_versions@[i as int].0,
            decreases shared_object_ids.len() - k + if found { 0int } else { 1int },
        {
            if same_id(&shared_object_ids[k], &required_versions[i].0) {
                assert(shared_object_ids@[k as int] == required_versions@[i as int].0);
                found = true;
            } else {
                k = k + 1;
            }
        }
        if found {
            filtered.push(required_versions[i]);
        }
        i = i + 1;
    }
    proof {
        assert(required_versions@.take(i as int) =~= required_versions@);
    }
    filtered
}

/// A required state of a shared object is kept, after as many others as come
/// before it in the list; what is kept is of shared objects only.
pub proof fn law_states_of_shared_objects_are_kept(
    required: Seq<StateKey>,
    shared: Seq<ObjectID>,
    k: int,
)
    requires
        0 <= k < required.len(),
    ensures
        of_shared_objects(required, shared).len() == crate::counting::places(
            required.len() as int,
            |i: int| shared.contains(required[i].0),
        ).len(),
        shared.contains(required[k].0) ==> ({
            let before = crate::counting::places(k, |i: int| shared.contains(required[i].0)).len();
            before < of_shared_objects(required, shared).len() && of_shared_objects(
                required,
                shared,
            )[before as int] == required[k]
        }),
        forall|i: int|
            0 <= i < of_shared_objects(required, shared).len() ==> shared.contains(
                (#[trigger] of_shared_objects(required, shared)[i]).0,
            ),
{
    lemma_kept(required, shared);
    if shared.contains(required[k].0) {
        lemma_kept_at(required, shared, k);
    }
}

proof fn lemma_kept(required: Seq<StateKey>, shared: Seq<ObjectID>)
    ensures
        of_shared_objects(required, shared).len() == crate::counting::places(
            required.len() as int,
            |i: int| shared.contains(required[i].0),
        ).len(),
        forall|i: int|
            0 <= i < of_shared_objects(required, shared).len() ==> shared.contains(
                (#[trigger] of_shared_objects(required, shared)[i]).0,
            ),
    decreases required.len(),
{
    let holds = |i: int| shared.contains(required[i].0);
    crate::counting::lemma_places(required.len() as int, holds);
    if required.len() > 0 {
        let rest = required.drop_last();
        lemma_kept(rest, shared);
        crate::counting::lemma_same_places(
            rest.len() as int,
            holds,
            |i: int| shared.contains(rest[i].0),
        );
        let kept = of_shared_objects(rest, shared);
        assert forall|i: int| 0 <= i < of_shared_objects(required, shared).len() implies
            shared.contains((#[trigger] of_shared_objects(required, shared)[i]).0) by {
            if i < kept.len() {
                assert(of_shared_objects(required, shared)[i] == kept[i]);
            }
        }
    }
}

proof fn lemma_kept_at(required: Seq<StateKey>, shared: Seq<ObjectID>, k: int)
    requires
        0 <= k < required.len(),
        shared.contains(required[k].0),
    ensures
        ({
            let before = crate::counting::places(k, |i: int| shared.contains(required[i].0)).len();
            before < of_shared_objects(required, shared).len() && of_shared_objects(
                required,
                shared,
            )[before as int] == required[k]
        }),
    decreases required.len(),
{
    let holds = |i: int| shared.contains(required[i].0);
    let rest = required.drop_last();
    let there = |i: int| shared.contains(rest[i].0);
    lemma_kept(rest, shared);
    crate::counting::lemma_same_places(k, holds, there);
    if k < rest.len() {
        assert(rest[k] == required[k]);
        lemma_kept_at(rest, shared, k);
    } else {
        assert(required[k] == required.last());
    }
}

/// The generator has just the workloads that are neither synthetic nor those
/// of the database benchmark, with the sizes that the benchmark sets.
pub proof fn law_generator_has_the_real_workloads(workload: WorkloadType)
    ensures
        kind_for(workload) is Some <==> !(workload.fake() || workload is Tpcc),
        workload matches WorkloadType::SharedObjects { txs_per_counter } ==> kind_for(workload)
            == Some(WorkloadKind::Counter { txs_per_counter: txs_per_counter as u64 }),
        workload matches WorkloadType::Zipfian { alpha, number_of_inputs } ==> kind_for(workload)
            == Some(WorkloadKind::ZipfianWorkload { theta: alpha, number_of_inputs }),
        workload is Transfers ==> kind_for(workload)->0 == (WorkloadKind::Ptb {
            num_transfers: 0,
            num_dynamic_fields: 0,
            use_batch_mint: false,
            computation: 0,
            use_native_transfer: false,
            num_mints: 0,
            num_shared_objects: 0,
            nft_size: 32,
        }),
        workload is SolanaTransactions <==> kind_for(workload) == Some(
            WorkloadKind::SolanaTransactions,
        ),
        workload is EthereumTransfers <==> kind_for(workload) == Some(
            WorkloadKind::EthereumTransfers,
        ),
        workload is EthereumNftMint <==> kind_for(workload) == Some(WorkloadKind::EthereumNftMint),
        workload is UniswapNormal <==> kind_for(workload) == Some(WorkloadKind::UniswapNormal),
        workload is UniswapPeak <==> kind_for(workload) == Some(WorkloadKind::UniswapPeak),
{
}

} // verus!

//! Handing the work of a failed proxy to the proxy that takes its place.
use std::sync::Arc;

use vstd::prelude::*;

use crate::base_types::{ExecutorIndex, Object, ObjectID, ProxyId, SequenceNumber, StateKey};
use crate::base_types::INITIAL_VERSION;
use crate::checkpoint::state_collector::StateCollector;
use crate::checkpoint::EpochId;
use crate::executor::api::{copy_states, NewStates, ReplayBatch, ReplayMsg};
use crate::ordered_map::OrderedMap;
use crate::primary::connections::{sorted_proxy_ids, ProxyConnections};
use crate::primary::load_balancer::LoadBalancer;
use crate::primary::ownership::{StateOwnership, PRIMARY_FETCH_SENTINEL};
use crate::recovery::{find_highest_version, keys_of, LogRecord};

verus! {

/// Whether each record has its needs in order, and none of them is at the last version.
pub open spec fn replayable(records: Seq<LogRecord>) -> bool {
    forall|j: int|
        0 <= j < records.len() ==> (#[trigger] records[j]).required_states.wf()
            && crate::recovery::can_advance(records[j].needs())
}

/// Whether a record writes a state.
pub open spec fn writes(record: LogRecord, key: StateKey) -> bool {
    exists|i: int|
        0 <= i < record.needs().len() && key == (
            (#[trigger] record.needs()[i]).0,
            crate::recovery::next_version(record.needs()),
        )
}

/// Whether one of the first `n` records writes a state.
pub open spec fn written_before(records: Seq<LogRecord>, n: int, key: StateKey) -> bool {
    exists|j: int| 0 <= j < n && writes(#[trigger] records[j], key)
}

/// Whether the record at a position needs a state that the replacement neither
/// starts with nor gets from an earlier record.
pub open spec fn lacks(records: Seq<LogRecord>, n: int, key: StateKey) -> bool {
    &&& records[n].needs().contains(key)
    &&& key.1 != INITIAL_VERSION
    &&& !written_before(records, n, key)
}

/// The acknowledged states that go with the record at a position: those of
/// the very versions that the replacement lacks.
pub open spec fn blobs_for(
    records: Seq<LogRecord>,
    n: int,
    merged: Map<ObjectID, Object>,
) -> Map<ObjectID, Object> {
    Map::new(
        |id: ObjectID| merged.contains_key(id) && lacks(records, n, (id, merged[id].version)),
        |id: ObjectID| merged[id],
    )
}

/// The positions of the records of an epoch, in order.
pub open spec fn positions_in(records: Seq<LogRecord>, epoch: EpochId) -> Seq<int>
    decreases records.len(),
{
    if records.len() == 0 {
        Seq::empty()
    } else {
        let rest = positions_in(records.drop_last(), epoch);
        if records.last().epoch == epoch {
            rest.push(records.len() - 1)
        } else {
            rest
        }
    }
}

/// Whether a message runs the record at a position again.
pub open spec fn replays(
    message: ReplayMsg,
    records: Seq<LogRecord>,
    n: int,
    merged: Map<ObjectID, Object>,
) -> bool {
    &&& 0 <= n < records.len()
    &&& message.epoch_id == records[n].epoch
    &&& message.transaction == Some(records[n].transaction)
    &&& message.required_versions@ =~= records[n].needs()
    &&& message.state_blobs.wf()
    &&& message.state_blobs@ =~= blobs_for(records, n, merged)
}

/// The positions of the records of an epoch, in order and chunk by chunk. A
/// chunk ends before the record at which the next one is to begin.
pub open spec fn chunks_in(records: Seq<LogRecord>, cuts: Seq<bool>, epoch: EpochId) -> Seq<
    Seq<int>,
>
    decreases records.len(),
{
    if records.len() == 0 {
        Seq::empty()
    } else {
        let rest = chunks_in(records.drop_last(), cuts, epoch);
        let n = records.len() - 1;
        if records.last().epoch != epoch {
            rest
        } else if rest.len() == 0 || cuts[n] {
            rest.push(seq![n])
        } else {
            rest.update(rest.len() - 1, rest.last().push(n))
        }
    }
}

/// Whether a batch runs the records at positions again, in order.
pub open spec fn replays_chunk(
    batch: ReplayBatch,
    records: Seq<LogRecord>,
    positions: Seq<int>,
    merged: Map<ObjectID, Object>,
) -> bool {
    &&& batch.items@.len() == positions.len()
    &&& forall|i: int|
        0 <= i < positions.len() ==> replays(
            #[trigger] batch.items@[i],
            records,
            positions[i],
            merged,
        )
}

/// Whether these are the epochs of records, in ascending order.
pub open spec fn lists_epochs(epochs: Seq<u64>, records: Seq<LogRecord>) -> bool {
    &&& forall|a: int, b: int| 0 <= a < b < epochs.len() ==> epochs[a] < epochs[b]
    &&& forall|k: u64| #[trigger]
        epochs.contains(k) <==> exists|j: int|
            0 <= j < records.len() && (#[trigger] records[j]).epoch.0 == k
}

/// The chunks of epochs, one epoch after the other, each with its epoch.
pub open spec fn chunks_of(records: Seq<LogRecord>, cuts: Seq<bool>, epochs: Seq<u64>) -> Seq<
    (u64, Seq<int>),
>
    decreases epochs.len(),
{
    if epochs.len() == 0 {
        Seq::empty()
    } else {
        chunks_of(records, cuts, epochs.drop_last()) + chunks_in(
            records,
            cuts,
            EpochId(epochs.last()),
        ).map_values(|positions: Seq<int>| (epochs.last(), positions))
    }
}

/// Whether batches run chunks of records again, one each.
pub open spec fn replays_chunks(
    batches: Seq<ReplayBatch>,
    records: Seq<LogRecord>,
    chunks: Seq<(u64, Seq<int>)>,
    merged: Map<ObjectID, Object>,
) -> bool {
    &&& batches.len() == chunks.len()
    &&& forall|b: int|
        0 <= b < batches.len() ==> (#[trigger] batches[b]).epoch.0 == chunks[b].0 && replays_chunk(
            batches[b],
            records,
            chunks[b].1,
            merged,
        )
}

/// Whether batches run all records again, epoch by epoch and chunk by chunk.
pub open spec fn replays_all(
    batches: Seq<ReplayBatch>,
    records: Seq<LogRecord>,
    cuts: Seq<bool>,
    merged: Map<ObjectID, Object>,
) -> bool {
    exists|epochs: Seq<u64>| #[trigger]
        lists_epochs(epochs, records) && replays_chunks(
            batches,
            records,
            chunks_of(records, cuts, epochs),
            merged,
        )
}

/// The owners of states once a proxy has written what records write.
pub open spec fn owned_after_replay(
    owners: Map<StateKey, Set<ExecutorIndex>>,
    records: Seq<LogRecord>,
    n: int,
    index: ExecutorIndex,
) -> Map<StateKey, Set<ExecutorIndex>> {
    Map::new(
        |k: StateKey| owners.contains_key(k) || written_before(records, n, k),
        |k: StateKey|
            if written_before(records, n, k) {
                set![index]
            } else {
                owners[k]
            },
    )
}

/// The position of a proxy among the connected ones, or its identity where it
/// is not connected.
pub open spec fn index_of_proxy(connected: Set<ProxyId>, proxy: ProxyId) -> ExecutorIndex {
    let all = crate::primary::connections::ascending(connected);
    if all.contains(proxy) {
        (choose|i: int| 0 <= i < all.len() && #[trigger] all[i] == proxy) as usize
    } else {
        proxy
    }
}

/// Whether a proxy alone owns each object of each record at the version after
/// the highest that the record needs.
pub open spec fn owns_all_written(
    owners: Map<StateKey, Set<ExecutorIndex>>,
    records: Seq<LogRecord>,
    index: ExecutorIndex,
) -> bool {
    forall|j: int, i: int, m: int|
        #![trigger records[j].needs()[i], records[j].needs()[m]]
        0 <= j < records.len() && 0 <= i < records[j].needs().len() && 0 <= m
            < records[j].needs().len() && (forall|k: int|
            0 <= k < records[j].needs().len() ==> (#[trigger] records[j].needs()[k]).1
                <= records[j].needs()[m].1) ==> crate::primary::ownership::owners_in(
            owners,
            (records[j].needs()[i].0, (records[j].needs()[m].1 + 1) as SequenceNumber),
        ) =~= set![index]
}

proof fn lemma_owns_all_written(
    owners: Map<StateKey, Set<ExecutorIndex>>,
    records: Seq<LogRecord>,
    index: ExecutorIndex,
)
    requires
        replayable(records),
    ensures
        owns_all_written(
            owned_after_replay(owners, records, records.len() as int, index),
            records,
            index,
        ),
{
    let after = owned_after_replay(owners, records, records.len() as int, index);
    assert forall|j: int, i: int, m: int|
        #![trigger records[j].needs()[i], records[j].needs()[m]]
        0 <= j < records.len() && 0 <= i < records[j].needs().len() && 0 <= m
            < records[j].needs().len() && (forall|k: int|
            0 <= k < records[j].needs().len() ==> (#[trigger] records[j].needs()[k]).1
                <= records[j].needs()[m].1) implies crate::primary::ownership::owners_in(
        after,
        (records[j].needs()[i].0, (records[j].needs()[m].1 + 1) as SequenceNumber),
    ) =~= set![index] by {
        let needs = records[j].needs();
        crate::recovery::lemma_highest_version(needs);
        let version = (needs[m].1 + 1) as SequenceNumber;
        assert(needs[m].1 < u64::MAX);
        assert(needs[m].1 + 1 == version);
        law_replacement_owns_what_the_records_write(owners, records, index, j, i, version);
    }
}

proof fn lemma_written_next(records: Seq<LogRecord>, n: int)
    requires
        0 <= n < records.len(),
    ensures
        forall|k: StateKey| #[trigger]
            written_before(records, n + 1, k) <==> written_before(records, n, k) || writes(
                records[n],
                k,
            ),
{
    assert forall|k: StateKey| #[trigger]
        written_before(records, n + 1, k) <==> written_before(records, n, k) || writes(
        records[n],
        k,
    ) by {
        if written_before(records, n, k) {
            let j = choose|j: int| 0 <= j < n && writes(#[trigger] records[j], k);
            assert(writes(records[j], k));
        }
        if writes(records[n], k) {
            assert(writes(records[n], k));
        }
    }
}

/// The states that go with one record.
fn blobs_of_record(
    records: Ghost<Seq<LogRecord>>,
    n: Ghost<int>,
    keys: &Vec<StateKey>,
    produced: &OrderedMap<StateKey, bool>,
    collector: &StateCollector,
) -> (blobs: NewStates)
    requires
        0 <= n@ < records@.len(),
        keys@ =~= records@[n@].needs(),
        produced.wf(),
        forall|k: StateKey| #[trigger]
            produced@.contains_key(k) <==> written_before(records@, n@, k),
    ensures
        blobs.wf(),
        blobs@ =~= blobs_for(records@, n@, collector@.merged),
{
    let mut blobs: NewStates = OrderedMap::new();
    let mut i: usize = 0;
    while i < keys.len()
        invariant
            i <= keys.len(),
            0 <= n@ < records@.len(),
            keys@ =~= records@[n@].needs(),
            produced.wf(),
            blobs.wf(),
            forall|k: StateKey| #[trigger]
            produced@.contains_key(k) <==> written_before(records@, n@, k),
            forall|id: ObjectID| #[trigger]
                blobs@.contains_key(id) <==> collector@.merged.contains_key(id)
                    && keys@.take(i as int).contains((id, collector@.merged[id].version)) && lacks(
                    records@,
                    n@,
                    (id, collector@.merged[id].version),
                ),
            forall|id: ObjectID| #[trigger]
                blobs@.contains_key(id) ==> blobs@[id] == collector@.merged[id],
        decreases keys.len() - i,
    {
        let key: StateKey = keys[i];
        let ghost before = blobs@;
        let ghost mut attach = false;
        if key.1 != INITIAL_VERSION && !produced.contains_key(&key) {
            if let Some(object) = collector.get_object(&key.0) {
                if object.version == key.1 {
                    blobs.insert(key.0, object);
                    proof {
                        attach = true;
                    }
                }
            }
        }
        proof {
            let shorter = keys@.take(i as int);
            let longer = keys@.take(i + 1);
            assert(longer =~= shorter.push(key));
            assert(keys@.contains(keys@[i as int]));
            assert forall|k: StateKey| #[trigger] longer.contains(k) <==> shorter.contains(k) || k
                == key by {
                if longer.contains(k) {
                    let m = choose|m: int| 0 <= m < longer.len() && longer[m] == k;
                    if m < i {
                        assert(shorter[m] == k);
                    }
                }
                if shorter.contains(k) {
                    let m = choose|m: int| 0 <= m < shorter.len() && shorter[m] == k;
                    assert(longer[m] == k);
                }
                assert(longer[i as int] == key);
            }
            assert forall|id: ObjectID| #[trigger]
                blobs@.contains_key(id) <==> collector@.merged.contains_key(id) && longer.contains(
                    (id, collector@.merged[id].version),
                ) && lacks(records@, n@, (id, collector@.merged[id].version)) by {
                assert(blobs@.contains_key(id) <==> before.contains_key(id) || (attach && id
                    == key.0));
            }
        }
        i = i + 1;
    }
    proof {
        assert(keys@.take(i as int) =~= keys@);
    }
    blobs
}

impl<C> LoadBalancer<C> {
    /// Pairs each record with the acknowledged states that its transaction
    /// needs and that the replacement will not have by then.
    ///
    /// The replacement starts with the initial versions only, and gets in
    /// addition what the records before write. The order of the records stays.
    pub fn build_replay_messages_with_state_blobs(
        uncommitted_txns: &Vec<LogRecord>,
        collector: &StateCollector,
    ) -> (messages: Vec<(LogRecord, NewStates)>)
        requires
            replayable(uncommitted_txns@),
        ensures
            messages@.len() == uncommitted_txns@.len(),
            forall|n: int|
                0 <= n < messages@.len() ==> (#[trigger] messages@[n]).0.same_as(
                    &uncommitted_txns@[n],
                ) && messages@[n].1.wf() && messages@[n].1@ =~= blobs_for(
                    uncommitted_txns@,
                    n,
                    collector@.merged,
                ),
    {
        let mut messages: Vec<(LogRecord, NewStates)> = Vec::new();
        let mut produced: OrderedMap<StateKey, bool> = OrderedMap::new();
        let mut n: usize = 0;
        while n < uncommitted_txns.len()
            invariant
                n <= uncommitted_txns.len(),
                replayable(uncommitted_txns@),
                produced.wf(),
                messages@.len() == n,
                forall|k: StateKey| #[trigger]
                    produced@.contains_key(k) <==> written_before(uncommitted_txns@, n as int, k),
                forall|m: int|
                    0 <= m < n ==> (#[trigger] messages@[m]).0.same_as(&uncommitted_txns@[m])
                        && messages@[m].1.wf() && messages@[m].1@ =~= blobs_for(
                        uncommitted_txns@,
                        m,
                        collector@.merged,
                    ),
            decreases uncommitted_txns.len() - n,
        {
            let record: &LogRecord = &uncommitted_txns[n];
            let keys: Vec<StateKey> = keys_of(&record.required_states);
            let blobs: NewStates = blobs_of_record(
                Ghost(uncommitted_txns@),
                Ghost(n as int),
                &keys,
                &produced,
                collector,
            );
            let version: SequenceNumber = find_highest_version(&keys) + 1;
            let ghost before = produced@;
            let mut i: usize = 0;
            while i < keys.len()
                invariant
                    i <= keys.len(),
                    produced.wf(),
                    forall|k: StateKey| #[trigger]
                        produced@.contains_key(k) <==> before.contains_key(k) || exists|m: int|
                            0 <= m < i && k == ((#[trigger] keys@[m]).0, version),
                decreases keys.len() - i,
            {
                let ghost sofar = produced@;
                produced.insert((keys[i].0, version), true);
                proof {
                    assert forall|k: StateKey| #[trigger]
                        produced@.contains_key(k) <==> before.contains_key(k) || exists|m: int|
                            0 <= m < i + 1 && k == ((#[trigger] keys@[m]).0, version) by {
                        assert(produced@.contains_key(k) <==> sofar.contains_key(k) || k == (
                            keys@[i as int].0,
                            version,
                        ));
                    }
                }
                i = i + 1;
            }
            proof {
                lemma_written_next(uncommitted_txns@, n as int);
                assert forall|k: StateKey| #[trigger]
                    produced@.contains_key(k) <==> written_before(
                        uncommitted_txns@,
                        n + 1,
                        k,
                    ) by {
                    assert(before.contains_key(k) <==> written_before(
                        uncommitted_txns@,
                        n as int,
                        k,
                    ));
                    if writes(*record, k) {
                        let m = choose|m: int|
                            0 <= m < record.needs().len() && k == (
                                (#[trigger] record.needs()[m]).0,
                                crate::recovery::next_version(record.needs()),
                            );
                        assert(k == (keys@[m].0, version));
                    }
                    if exists|m: int| 0 <= m < i && k == ((#[trigger] keys@[m]).0, version) {
                        let m = choose|m: int|
                            0 <= m < i && k == ((#[trigger] keys@[m]).0, version);
                        assert(k == (
                            record.needs()[m].0,
                            crate::recovery::next_version(record.needs()),
                        ));
                    }
                }
            }
            messages.push((record.clone(), blobs));
            n = n + 1;
        }
        messages
    }

    /// The batches that run the records again, in the order of the epochs. The
    /// records of an epoch are one batch, but that a further batch begins with
    /// each record at which it is said to.
    pub fn prepare_replay_batches(
        uncommitted_txns: &Vec<LogRecord>,
        collector: &StateCollector,
        cuts: &Vec<bool>,
    ) -> (batches: Vec<ReplayBatch>)
        requires
            replayable(uncommitted_txns@),
            cuts@.len() == uncommitted_txns@.len(),
        ensures
            replays_all(batches@, uncommitted_txns@, cuts@, collector@.merged),
    {
        let messages: Vec<(LogRecord, NewStates)> = Self::build_replay_messages_with_state_blobs(
            uncommitted_txns,
            collector,
        );
        let epochs: OrderedMap<u64, bool> = Self::epochs_of(uncommitted_txns);
        let ghost records = uncommitted_txns@;
        let ghost merged = collector@.merged;
        let ghost listed = epochs.sorted().map_values(|entry: (u64, bool)| entry.0);
        let mut batches: Vec<ReplayBatch> = Vec::new();
        let mut e: usize = 0;
        while e < epochs.len()
            invariant
                e <= epochs.sorted().len(),
                epochs.wf(),
                records == uncommitted_txns@,
                merged == collector@.merged,
                listed == epochs.sorted().map_values(|entry: (u64, bool)| entry.0),
                cuts@.len() == records.len(),
                messages@.len() == records.len(),
                forall|n: int|
                    0 <= n < messages@.len() ==> (#[trigger] messages@[n]).0.same_as(&records[n])
                        && messages@[n].1.wf() && messages@[n].1@ =~= blobs_for(
                        records,
                        n,
                        merged,
                    ),
                replays_chunks(
                    batches@,
                    records,
                    chunks_of(records, cuts@, listed.take(e as int)),
                    merged,
                ),
            decreases epochs.sorted().len() - e,
        {
            let epoch: EpochId = EpochId(epochs.entry_at(e).0);
            let mut chunks: Vec<ReplayBatch> = Self::chunks_of_epoch(
                epoch,
                &messages,
                cuts,
                Ghost(records),
                Ghost(merged),
            );
            let ghost before = batches@;
            let ghost added = chunks@;
            batches.append(&mut chunks);
            proof {
                assert(listed.take(e + 1).drop_last() =~= listed.take(e as int));
                assert(listed.take(e + 1).last() == epoch.0);
                let all = chunks_of(records, cuts@, listed.take(e + 1));
                assert forall|b: int| 0 <= b < batches@.len() implies (
                #[trigger] batches@[b]).epoch.0 == all[b].0 && replays_chunk(
                    batches@[b],
                    records,
                    all[b].1,
                    merged,
                ) by {
                    if b < before.len() {
                        assert(batches@[b] == before[b]);
                    } else {
                        assert(batches@[b] == added[b - before.len()]);
                    }
                }
            }
            e = e + 1;
        }
        proof {
            assert(listed.take(e as int) =~= listed);
            assert forall|a: int, b: int| 0 <= a < b < listed.len() implies listed[a]
                < listed[b] by {
                use_increasing(epochs.sorted(), a, b);
            }
            assert forall|k: u64| #[trigger] listed.contains(k) <==> exists|j: int|
                0 <= j < records.len() && (#[trigger] records[j]).epoch.0 == k by {
                assert(epochs@.contains_key(k) <==> exists|j: int|
                    0 <= j < records.len() && (#[trigger] records[j]).epoch.0 == k);
                if listed.contains(k) {
                    let b = choose|b: int| 0 <= b < listed.len() && listed[b] == k;
                    crate::ordered_map::lemma_entry_in_map(epochs.sorted(), b);
                }
                if epochs@.contains_key(k) {
                    let b = choose|b: int|
                        0 <= b < epochs.sorted().len() && (#[trigger] epochs.sorted()[b]).0 == k;
                    assert(listed[b] == k);
                }
            }
            assert(lists_epochs(listed, records));
        }
        batches
    }

    /// The epochs of records.
    fn epochs_of(records: &Vec<LogRecord>) -> (epochs: OrderedMap<u64, bool>)
        ensures
            epochs.wf(),
            forall|k: u64| #[trigger]
                epochs@.contains_key(k) <==> exists|j: int|
                    0 <= j < records@.len() && (#[trigger] records@[j]).epoch.0 == k,
    {
        let mut epochs: OrderedMap<u64, bool> = OrderedMap::new();
        let mut i: usize = 0;
        while i < records.len()
            invariant
                i <= records.len(),
                epochs.wf(),
                forall|k: u64| #[trigger]
                    epochs@.contains_key(k) <==> exists|j: int|
                        0 <= j < i && (#[trigger] records@[j]).epoch.0 == k,
            decreases records.len() - i,
        {
            epochs.insert(records[i].epoch.0, true);
            i = i + 1;
        }
        epochs
    }

    /// The batches of one epoch.
    fn chunks_of_epoch(
        epoch: EpochId,
        messages: &Vec<(LogRecord, NewStates)>,
        cuts: &Vec<bool>,
        records: Ghost<Seq<LogRecord>>,
        merged: Ghost<Map<ObjectID, Object>>,
    ) -> (chunks: Vec<ReplayBatch>)
        requires
            messages@.len() == records@.len(),
            cuts@.len() == records@.len(),
            forall|n: int|
                0 <= n < messages@.len() ==> (#[trigger] messages@[n]).0.same_as(&records@[n])
                    && messages@[n].1.wf() && messages@[n].1@ =~= blobs_for(
                    records@,
                    n,
                    merged@,
                ),
        ensures
            chunks@.len() == chunks_in(records@, cuts@, epoch).len(),
            forall|c: int|
                0 <= c < chunks@.len() ==> (#[trigger] chunks@[c]).epoch == epoch && replays_chunk(
                    chunks@[c],
                    records@,
                    chunks_in(records@, cuts@, epoch)[c],
                    merged@,
                ),
    {
        let mut chunks: Vec<ReplayBatch> = Vec::new();
        let mut items: Vec<ReplayMsg> = Vec::new();
        let mut n: usize = 0;
        while n < messages.len()
            invariant
                n <= messages.len(),
                messages@.len() == records@.len(),
                cuts@.len() == records@.len(),
                forall|n: int|
                    0 <= n < messages@.len() ==> (#[trigger] messages@[n]).0.same_as(&records@[n])
                        && messages@[n].1.wf() && messages@[n].1@ =~= blobs_for(
                        records@,
                        n,
                        merged@,
                    ),
                chunks@.len() + (if items@.len() > 0 {
                    1int
                } else {
                    0int
                }) == chunks_in(records@.take(n as int), cuts@, epoch).len(),
                items@.len() == 0 ==> chunks@.len() == 0,
                forall|c: int|
                    0 <= c < chunks@.len() ==> (#[trigger] chunks@[c]).epoch == epoch
                        && replays_chunk(
                        chunks@[c],
                        records@,
                        chunks_in(records@.take(n as int), cuts@, epoch)[c],
                        merged@,
                    ),
                items@.len() > 0 ==> {
                    let last = chunks_in(records@.take(n as int), cuts@, epoch).last();
                    &&& items@.len() == last.len()
                    &&& forall|i: int|
                        0 <= i < last.len() ==> replays(
                            #[trigger] items@[i],
                            records@,
                            last[i],
                            merged@,
                        )
                },
            decreases messages.len() - n,
        {
            proof {
                assert(records@.take(n + 1).drop_last() =~= records@.take(n as int));
                assert(records@.take(n + 1).last() == records@[n as int]);
            }
            let record: &LogRecord = &messages[n].0;
            if record.epoch == epoch {
                if cuts[n] && items.len() > 0 {
                    let mut full: Vec<ReplayMsg> = Vec::new();
                    full.append(&mut items);
                    chunks.push(ReplayBatch { epoch, items: full });
                }
                let required_versions: Vec<StateKey> = keys_of(&record.required_states);
                let state_blobs: NewStates = copy_states(&messages[n].1);
                items.push(
                    ReplayMsg {
                        epoch_id: record.epoch,
                        transaction: Some(Arc::clone(&record.transaction)),
                        required_versions,
                        state_blobs,
                    },
                );
            }
            n = n + 1;
        }
        proof {
            assert(records@.take(n as int) =~= records@);
        }
        if items.len() > 0 {
            chunks.push(ReplayBatch { epoch, items });
        }
        chunks
    }

    /// Makes the replacement the one owner of every state that the records write.
    pub fn update_ownership_after_replay(
        uncommitted_txns: &Vec<LogRecord>,
        replacement_proxy: ProxyId,
        states_to_proxy: &mut StateOwnership,
        proxy_connections: &ProxyConnections<C>,
    )
        requires
            replayable(uncommitted_txns@),
            old(states_to_proxy).wf(),
        ensures
            final(states_to_proxy).wf(),
            final(states_to_proxy)@ =~= owned_after_replay(
                old(states_to_proxy)@,
                uncommitted_txns@,
                uncommitted_txns@.len() as int,
                index_of_proxy(proxy_connections@.dom(), replacement_proxy),
            ),
            owns_all_written(
                final(states_to_proxy)@,
                uncommitted_txns@,
                index_of_proxy(proxy_connections@.dom(), replacement_proxy),
            ),
            crate::primary::connections::lists(
                crate::primary::connections::ascending(proxy_connections@.dom()),
                proxy_connections@.dom(),
            ),
    {
        let index: ExecutorIndex = Self::position_of(proxy_connections, replacement_proxy);
        let ghost before = states_to_proxy@;
        let mut n: usize = 0;
        while n < uncommitted_txns.len()
            invariant
                n <= uncommitted_txns.len(),
                replayable(uncommitted_txns@),
                states_to_proxy.wf(),
                states_to_proxy@ =~= owned_after_replay(
                    before,
                    uncommitted_txns@,
                    n as int,
                    index,
                ),
            decreases uncommitted_txns.len() - n,
        {
            let record: &LogRecord = &uncommitted_txns[n];
            let keys: Vec<StateKey> = keys_of(&record.required_states);
            let version: SequenceNumber = find_highest_version(&keys) + 1;
            let ghost earlier = states_to_proxy@;
            let mut i: usize = 0;
            while i < keys.len()
                invariant
                    i <= keys.len(),
                    states_to_proxy.wf(),
                    forall|k: StateKey| #[trigger]
                        states_to_proxy@.contains_key(k) <==> earlier.contains_key(k)
                            || exists|m: int|
                            0 <= m < i && k == ((#[trigger] keys@[m]).0, version),
                    forall|k: StateKey| #[trigger]
                        states_to_proxy@.contains_key(k) ==> states_to_proxy@[k] == (if exists|
                            m: int,
                        |
                            0 <= m < i && k == ((#[trigger] keys@[m]).0, version) {
                            set![index]
                        } else {
                            earlier[k]
                        }),
                decreases keys.len() - i,
            {
                states_to_proxy.set_sole_owner((keys[i].0, version), index);
                i = i + 1;
            }
            proof {
                lemma_written_next(uncommitted_txns@, n as int);
                assert forall|k: StateKey|
                    writes(*record, k) <==> exists|m: int|
                        0 <= m < i && k == ((#[trigger] keys@[m]).0, version) by {
                    if writes(*record, k) {
                        let m = choose|m: int|
                            0 <= m < record.needs().len() && k == (
                                (#[trigger] record.needs()[m]).0,
                                crate::recovery::next_version(record.needs()),
                            );
                        assert(k == (keys@[m].0, version));
                    }
                    if exists|m: int| 0 <= m < i && k == ((#[trigger] keys@[m]).0, version) {
                        let m = choose|m: int|
                            0 <= m < i && k == ((#[trigger] keys@[m]).0, version);
                        assert(k == (
                            record.needs()[m].0,
                            crate::recovery::next_version(record.needs()),
                        ));
                    }
                }
            }
            n = n + 1;
        }
        proof {
            lemma_owns_all_written(before, uncommitted_txns@, index);
        }
    }

    /// The position of a proxy among the connected ones, or its identity where
    /// it is not connected.
    pub(crate) fn position_of(
        connections: &ProxyConnections<C>,
        proxy: ProxyId,
    ) -> (index: ExecutorIndex)
        ensures
            index == index_of_proxy(connections@.dom(), proxy),
            connections@.contains_key(proxy) ==> index < PRIMARY_FETCH_SENTINEL,
            crate::primary::connections::lists(
                crate::primary::connections::ascending(connections@.dom()),
                connections@.dom(),
            ),
    {
        let ids: Vec<ProxyId> = sorted_proxy_ids(connections);
        let mut i: usize = 0;
        while i < ids.len()
            invariant
                i <= ids.len(),
                ids@ == crate::primary::connections::ascending(connections@.dom()),
                crate::primary::connections::lists(ids@, connections@.dom()),
                forall|a: int, b: int|
                    0 <= a < b < ids@.len() ==> #[trigger] ids@[a] < #[trigger] ids@[b],
                forall|k: int| 0 <= k < i ==> ids@[k] != proxy,
            decreases ids.len() - i,
        {
            if ids[i] == proxy {
                proof {
                    let k = choose|k: int| 0 <= k < ids@.len() && #[trigger] ids@[k] == proxy;
                    assert(ids@[i as int] == proxy);
                    assert(ids@.contains(proxy));
                    if k < i {
                        assert(ids@[k] < ids@[i as int]);
                    } else if i < k {
                        assert(ids@[i as int] < ids@[k]);
                    }
                }
                return i;
            }
            i = i + 1;
        }
        proof {
            assert(connections@.dom().contains(proxy) <==> ids@.contains(proxy));
        }
        proxy
    }
}

proof fn use_increasing(s: Seq<(u64, bool)>, b: int, c: int)
    requires
        crate::ordered_map::increasing(s),
        0 <= b < c < s.len(),
    ensures
        s[b].0 < s[c].0,
{
    assert(crate::ordered_map::OrderedKey::precedes(s[b].0, s[c].0));
}


/// The replacement is sent nothing that it has: neither initial versions nor
/// what it wrote itself while running earlier records again.
pub proof fn law_replacement_gets_only_what_it_lacks(
    records: Seq<LogRecord>,
    n: int,
    merged: Map<ObjectID, Object>,
    id: ObjectID,
)
    requires
        0 <= n < records.len(),
        blobs_for(records, n, merged).contains_key(id),
    ensures
        ({
            let sent = blobs_for(records, n, merged)[id];
            &&& sent.version != INITIAL_VERSION
            &&& records[n].needs().contains((id, sent.version))
            &&& forall|j: int|
                0 <= j < n ==> !writes(#[trigger] records[j], (id, sent.version))
        }),
{
    let sent = blobs_for(records, n, merged)[id];
    assert forall|j: int| 0 <= j < n implies !writes(#[trigger] records[j], (id, sent.version)) by {
        if writes(records[j], (id, sent.version)) {
            assert(written_before(records, n, (id, sent.version)));
        }
    }
}

/// What a record needs, the replacement has when the record runs again: from
/// the start, from an earlier record, or with the record, as long as the
/// acknowledged state has the version.
pub proof fn law_needs_are_met_on_replay(
    records: Seq<LogRecord>,
    n: int,
    merged: Map<ObjectID, Object>,
    key: StateKey,
)
    requires
        0 <= n < records.len(),
        records[n].needs().contains(key),
        key.1 == INITIAL_VERSION || written_before(records, n, key) || (merged.contains_key(key.0)
            && merged[key.0].version == key.1),
    ensures
        key.1 == INITIAL_VERSION || written_before(records, n, key) || (blobs_for(
            records,
            n,
            merged,
        ).contains_key(key.0) && blobs_for(records, n, merged)[key.0].version == key.1),
{
    if key.1 != INITIAL_VERSION && !written_before(records, n, key) {
        assert(key == (key.0, merged[key.0].version));
        assert(lacks(records, n, key));
    }
}

/// After a replay the replacement is the one owner of every state that the
/// records wrote, and the owners of all other states are as before.
pub proof fn law_replay_moves_only_what_it_writes(
    owners: Map<StateKey, Set<ExecutorIndex>>,
    records: Seq<LogRecord>,
    index: ExecutorIndex,
    key: StateKey,
)
    ensures
        ({
            let after = owned_after_replay(owners, records, records.len() as int, index);
            if written_before(records, records.len() as int, key) {
                after.contains_key(key) && after[key] =~= set![index]
            } else {
                after.get(key) == owners.get(key)
            }
        }),
{
}

/// Chunks put together again.
pub open spec fn joined(chunks: Seq<Seq<int>>) -> Seq<int>
    decreases chunks.len(),
{
    if chunks.len() == 0 {
        Seq::empty()
    } else {
        joined(chunks.drop_last()) + chunks.last()
    }
}

/// However the records of an epoch are cut, the chunks together are its
/// records, in order: none is lost, none is run twice, and no chunk is empty.
pub proof fn law_cuts_lose_no_record(records: Seq<LogRecord>, cuts: Seq<bool>, epoch: EpochId)
    ensures
        joined(chunks_in(records, cuts, epoch)) =~= positions_in(records, epoch),
        forall|c: int|
            0 <= c < chunks_in(records, cuts, epoch).len() ==> (#[trigger] chunks_in(
                records,
                cuts,
                epoch,
            )[c]).len() > 0,
    decreases records.len(),
{
    if records.len() > 0 {
        law_cuts_lose_no_record(records.drop_last(), cuts, epoch);
        let rest = chunks_in(records.drop_last(), cuts, epoch);
        let all = chunks_in(records, cuts, epoch);
        let n = records.len() - 1;
        if records.last().epoch == epoch {
            if rest.len() == 0 || cuts[n] {
                assert(all.drop_last() =~= rest);
            } else {
                assert(all.drop_last() =~= rest.drop_last());
                assert(all.last() == rest.last().push(n));
                assert(joined(all) =~= joined(rest).push(n));
            }
        }
    }
}

/// Without cuts an epoch is one chunk.
pub proof fn law_uncut_epochs_are_one_batch(
    records: Seq<LogRecord>,
    cuts: Seq<bool>,
    epoch: EpochId,
)
    requires
        cuts.len() >= records.len(),
        forall|n: int| 0 <= n < records.len() ==> !#[trigger] cuts[n],
    ensures
        chunks_in(records, cuts, epoch) =~= (if positions_in(records, epoch).len() == 0 {
            Seq::empty()
        } else {
            seq![positions_in(records, epoch)]
        }),
    decreases records.len(),
{
    if records.len() > 0 {
        law_uncut_epochs_are_one_batch(records.drop_last(), cuts, epoch);
        assert(!cuts[records.len() - 1]);
        if positions_in(records.drop_last(), epoch).len() == 0 {
            assert(positions_in(records.drop_last(), epoch) =~= Seq::empty());
            assert(positions_in(records, epoch).len() > 0 ==> positions_in(records, epoch) =~= seq![
                records.len() - 1,
            ]);
        }
    }
}

/// The size of the chunk of an epoch that is open once a number of records is
/// in a chunk: a record joins the open chunk of its epoch as long as that does
/// not get too large. `None` where the epoch has no chunk yet.
pub open spec fn open_size(
    records: Seq<LogRecord>,
    sizes: Seq<usize>,
    limit: usize,
    n: nat,
    epoch: EpochId,
) -> Option<nat>
    decreases n,
{
    if n == 0 {
        None
    } else {
        let last = (n - 1) as nat;
        let before = open_size(records, sizes, limit, last, epoch);
        if records[last as int].epoch != epoch {
            before
        } else {
            match before {
                Some(size) => if size + sizes[last as int] <= limit {
                    Some(size + sizes[last as int] as nat)
                } else {
                    Some(sizes[last as int] as nat)
                },
                None => Some(sizes[last as int] as nat),
            }
        }
    }
}

/// Whether the open chunk of its epoch would get too large with a record.
pub open spec fn overfills(
    records: Seq<LogRecord>,
    sizes: Seq<usize>,
    limit: usize,
    n: int,
) -> bool {
    open_size(records, sizes, limit, n as nat, records[n].epoch) matches Some(size) && size
        + sizes[n] > limit
}

/// At which records further chunks begin, so that no message gets too large: at
/// those with which the open chunk of their epoch would. Each record counts
/// with the size that it has in a message; one that is too large by itself is
/// a chunk of its own.
pub fn replay_cuts(records: &Vec<LogRecord>, sizes: &Vec<usize>, max_message_size: usize) -> (cuts:
    Vec<bool>)
    requires
        sizes@.len() == records@.len(),
    ensures
        cuts@.len() == records@.len(),
        forall|n: int|
            0 <= n < cuts@.len() ==> #[trigger] cuts@[n] == overfills(
                records@,
                sizes@,
                max_message_size,
                n,
            ),
{
    let mut cuts: Vec<bool> = Vec::new();
    let mut open: OrderedMap<u64, usize> = OrderedMap::new();
    let mut n: usize = 0;
    while n < records.len()
        invariant
            n <= records.len(),
            sizes@.len() == records@.len(),
            cuts@.len() == n,
            open.wf(),
            forall|epoch: u64| #[trigger]
                open@.contains_key(epoch) <==> open_size(
                    records@,
                    sizes@,
                    max_message_size,
                    n as nat,
                    EpochId(epoch),
                ) is Some,
            forall|epoch: u64| #[trigger]
                open@.contains_key(epoch) ==> open_size(
                    records@,
                    sizes@,
                    max_message_size,
                    n as nat,
                    EpochId(epoch),
                ) == Some(open@[epoch] as nat),
            forall|k: int|
                0 <= k < n ==> #[trigger] cuts@[k] == overfills(
                    records@,
                    sizes@,
                    max_message_size,
                    k,
                ),
        decreases records.len() - n,
    {
        let epoch: EpochId = records[n].epoch;
        let size: usize = sizes[n];
        let ghost before = open@;
        let (cut, filled): (bool, usize) = match open.get(&epoch.0) {
            Some(used) => {
                if size > max_message_size || *used > max_message_size - size {
                    (true, size)
                } else {
                    (false, *used + size)
                }
            },
            None => (false, size),
        };
        open.insert(epoch.0, filled);
        cuts.push(cut);
        proof {
            assert(EpochId(epoch.0) == epoch);
            assert forall|e: u64| #[trigger] open@.contains_key(e) <==> open_size(
                records@,
                sizes@,
                max_message_size,
                (n + 1) as nat,
                EpochId(e),
            ) is Some by {
                assert(before.contains_key(e) <==> open_size(
                    records@,
                    sizes@,
                    max_message_size,
                    n as nat,
                    EpochId(e),
                ) is Some);
            }
            assert forall|e: u64| #[trigger] open@.contains_key(e) implies open_size(
                records@,
                sizes@,
                max_message_size,
                (n + 1) as nat,
                EpochId(e),
            ) == Some(open@[e] as nat) by {
                if e != epoch.0 {
                    assert(before.contains_key(e));
                }
            }
        }
        n = n + 1;
    }
    cuts
}

/// The size of a chunk.
pub open spec fn chunk_size(positions: Seq<int>, sizes: Seq<usize>) -> nat
    decreases positions.len(),
{
    if positions.len() == 0 {
        0
    } else {
        chunk_size(positions.drop_last(), sizes) + sizes[positions.last()] as nat
    }
}

proof fn lemma_open_chunk(
    records: Seq<LogRecord>,
    sizes: Seq<usize>,
    cuts: Seq<bool>,
    limit: usize,
    epoch: EpochId,
    n: int,
)
    requires
        0 <= n <= records.len(),
        sizes.len() == records.len(),
        cuts.len() == records.len(),
        forall|k: int|
            0 <= k < cuts.len() ==> #[trigger] cuts[k] == overfills(records, sizes, limit, k),
    ensures
        ({
            let chunks = chunks_in(records.take(n), cuts, epoch);
            &&& open_size(records, sizes, limit, n as nat, epoch) == (if chunks.len() == 0 {
                None
            } else {
                Some(chunk_size(chunks.last(), sizes))
            })
            &&& forall|c: int|
                0 <= c < chunks.len() ==> (#[trigger] chunks[c]).len() == 1 || chunk_size(
                    chunks[c],
                    sizes,
                ) <= limit
        }),
    decreases n,
{
    if n > 0 {
        lemma_open_chunk(records, sizes, cuts, limit, epoch, n - 1);
        assert(records.take(n).drop_last() =~= records.take(n - 1));
        assert(records.take(n).last() == records[n - 1]);
        assert(cuts[n - 1] == overfills(records, sizes, limit, n - 1));
        let rest = chunks_in(records.take(n - 1), cuts, epoch);
        let chunks = chunks_in(records.take(n), cuts, epoch);
        if records[n - 1].epoch == epoch {
            if rest.len() == 0 || cuts[n - 1] {
                assert(chunks.last() =~= seq![n - 1]);
                assert(seq![n - 1].drop_last() =~= Seq::<int>::empty());
                assert(chunk_size(seq![n - 1], sizes) == sizes[n - 1]) by {
                    reveal_with_fuel(chunk_size, 2);
                }
            } else {
                assert(chunks.last().drop_last() =~= rest.last());
                assert(chunks.last().last() == n - 1);
            }
            assert forall|c: int| 0 <= c < chunks.len() implies (#[trigger] chunks[c]).len() == 1
                || chunk_size(chunks[c], sizes) <= limit by {
                if c < rest.len() && c < chunks.len() - 1 {
                    assert(chunks[c] == rest[c]);
                } else {
                    assert(chunks[c] == chunks.last());
                }
            }
        }
    }
}

/// Where records are cut by their sizes, no chunk of more than one record is
/// too large.
pub proof fn law_chunks_fit(
    records: Seq<LogRecord>,
    sizes: Seq<usize>,
    cuts: Seq<bool>,
    limit: usize,
    epoch: EpochId,
    c: int,
)
    requires
        sizes.len() == records.len(),
        cuts.len() == records.len(),
        forall|k: int|
            0 <= k < cuts.len() ==> #[trigger] cuts[k] == overfills(records, sizes, limit, k),
        0 <= c < chunks_in(records, cuts, epoch).len(),
    ensures
        chunks_in(records, cuts, epoch)[c].len() == 1 || chunk_size(
            chunks_in(records, cuts, epoch)[c],
            sizes,
        ) <= limit,
{
    lemma_open_chunk(records, sizes, cuts, limit, epoch, records.len() as int);
    assert(records.take(records.len() as int) =~= records);
}

/// After a replay the replacement is the one owner of each object of each
/// record at the version that the record writes: one above the highest that
/// the record needs, whatever version it needs of that object.
pub proof fn law_replacement_owns_what_the_records_write(
    owners: Map<StateKey, Set<ExecutorIndex>>,
    records: Seq<LogRecord>,
    index: ExecutorIndex,
    j: int,
    i: int,
    version: SequenceNumber,
)
    requires
        replayable(records),
        0 <= j < records.len(),
        0 <= i < records[j].needs().len(),
        forall|m: int|
            0 <= m < records[j].needs().len() ==> (#[trigger] records[j].needs()[m]).1 < version,
        exists|m: int|
            0 <= m < records[j].needs().len() && (#[trigger] records[j].needs()[m]).1 + 1
                == version,
    ensures
        ({
            let key = (records[j].needs()[i].0, version);
            let after = owned_after_replay(owners, records, records.len() as int, index);
            after.contains_key(key) && after[key] =~= set![index]
        }),
{
    crate::recovery::law_written_version_follows_the_needs(records[j].needs(), version);
    assert(writes(records[j], (records[j].needs()[i].0, version)));
}

/// A replay changes the owners of no other state: what no record writes keeps
/// its owners, and stays unknown where it was.
pub proof fn law_replay_leaves_other_states(
    owners: Map<StateKey, Set<ExecutorIndex>>,
    records: Seq<LogRecord>,
    index: ExecutorIndex,
    key: StateKey,
)
    requires
        replayable(records),
        forall|j: int|
            0 <= j < records.len() ==> {
                let needs = (#[trigger] records[j]).needs();
                ||| forall|i: int| 0 <= i < needs.len() ==> (#[trigger] needs[i]).0 != key.0
                ||| exists|i: int| 0 <= i < needs.len() && (#[trigger] needs[i]).1 >= key.1
                ||| forall|i: int| 0 <= i < needs.len() ==> (#[trigger] needs[i]).1 + 1 != key.1
            },
    ensures
        owned_after_replay(owners, records, records.len() as int, index).get(key) == owners.get(
            key,
        ),
{
    if written_before(records, records.len() as int, key) {
        let j = choose|j: int| 0 <= j < records.len() && writes(#[trigger] records[j], key);
        let needs = records[j].needs();
        crate::recovery::law_written_version_follows_the_needs(needs, key.1);
    }
}

/// Ownership after a replay follows the states that the replacement has:
/// whatever running a record leaves there that was not there before, the
/// replacement owns.
pub proof fn law_replacement_owns_what_running_leaves(
    owners: Map<StateKey, Set<ExecutorIndex>>,
    records: Seq<LogRecord>,
    index: ExecutorIndex,
    states: Set<StateKey>,
    j: int,
    key: StateKey,
)
    requires
        replayable(records),
        0 <= j < records.len(),
        !states.contains(key),
        crate::proxy::available_states::replaced(states, records[j].needs()).contains(key),
    ensures
        ({
            let after = owned_after_replay(owners, records, records.len() as int, index);
            after.contains_key(key) && after[key] =~= set![index]
        }),
{
    let needs = records[j].needs();
    let i = choose|i: int| 0 <= i < needs.len() && (#[trigger] needs[i]).0 == key.0;
    crate::recovery::law_written_version_follows_the_needs(needs, key.1);
    law_replacement_owns_what_the_records_write(owners, records, index, j, i, key.1);
}

/// An acknowledged state goes with a record exactly where the record needs
/// that version of the object, the version is not the initial one, and no
/// earlier record writes it.
pub proof fn law_states_go_with_the_record_that_lacks_them(
    records: Seq<LogRecord>,
    n: int,
    merged: Map<ObjectID, Object>,
    id: ObjectID,
)
    requires
        replayable(records),
        0 <= n < records.len(),
    ensures
        blobs_for(records, n, merged).contains_key(id) <==> {
            &&& merged.contains_key(id)
            &&& records[n].required_states@.contains_key((id, merged[id].version))
            &&& merged[id].version != INITIAL_VERSION
            &&& forall|j: int|
                0 <= j < n ==> {
                    let needs = (#[trigger] records[j]).needs();
                    ||| forall|i: int| 0 <= i < needs.len() ==> (#[trigger] needs[i]).0 != id
                    ||| exists|i: int|
                        0 <= i < needs.len() && (#[trigger] needs[i]).1 >= merged[id].version
                    ||| forall|i: int|
                        0 <= i < needs.len() ==> (#[trigger] needs[i]).1 + 1 != merged[id].version
                }
        },
        blobs_for(records, n, merged).contains_key(id) ==> blobs_for(records, n, merged)[id]
            == merged[id],
{
    if merged.contains_key(id) {
        let key = (id, merged[id].version);
        crate::recovery::law_needs_are_the_required_states(records[n]);
        assert(records[n].needs().contains(key) <==> records[n].required_states@.contains_key(
            key,
        ));
        assert forall|j: int| 0 <= j < n implies (writes(#[trigger] records[j], key) <==> !({
            let needs = records[j].needs();
            ||| forall|i: int| 0 <= i < needs.len() ==> (#[trigger] needs[i]).0 != id
            ||| exists|i: int| 0 <= i < needs.len() && (#[trigger] needs[i]).1 >= key.1
            ||| forall|i: int| 0 <= i < needs.len() ==> (#[trigger] needs[i]).1 + 1 != key.1
        })) by {
            let needs = records[j].needs();
            if needs.len() > 0 {
                crate::recovery::law_written_version_follows_the_needs(needs, key.1);
            }
            if writes(records[j], key) {
                let i = choose|i: int|
                    0 <= i < needs.len() && key == (
                        (#[trigger] needs[i]).0,
                        crate::recovery::next_version(needs),
                    );
                assert(needs[i].0 == id);
            }
            if exists|i: int| 0 <= i < needs.len() && (#[trigger] needs[i]).0 == id {
                let i = choose|i: int| 0 <= i < needs.len() && (#[trigger] needs[i]).0 == id;
                assert(key == (needs[i].0, key.1));
            }
        }
        if written_before(records, n, key) {
            let j = choose|j: int| 0 <= j < n && writes(#[trigger] records[j], key);
            assert(writes(records[j], key));
        }
        assert forall|j: int| 0 <= j < n && writes(#[trigger] records[j], key) implies
            written_before(records, n, key) by {}
    }
}

/// A message that runs a record again carries its transaction, its epoch and
/// exactly the states that it needs.
pub proof fn law_replay_messages_carry_their_records(
    message: ReplayMsg,
    records: Seq<LogRecord>,
    n: int,
    merged: Map<ObjectID, Object>,
)
    requires
        replayable(records),
        replays(message, records, n, merged),
    ensures
        0 <= n < records.len(),
        message.transaction == Some(records[n].transaction),
        message.epoch_id == records[n].epoch,
        message.required_versions@.no_duplicates(),
        forall|key: StateKey| #[trigger]
            message.required_versions@.contains(key)
                <==> records[n].required_states@.contains_key(key),
        forall|id: ObjectID| #[trigger]
            message.state_blobs@.contains_key(id) <==> blobs_for(records, n, merged).contains_key(
                id,
            ),
        forall|id: ObjectID| #[trigger]
            message.state_blobs@.contains_key(id) ==> message.state_blobs@[id] == merged[id],
{
    crate::recovery::law_needs_are_the_required_states(records[n]);
    assert forall|key: StateKey| #[trigger]
        message.required_versions@.contains(key)
            <==> records[n].required_states@.contains_key(key) by {
        assert(records[n].needs().contains(key) <==> records[n].required_states@.contains_key(
            key,
        ));
    }
}

/// The positions of an epoch are those of its records, in increasing order.
pub proof fn law_positions_are_those_of_the_epoch(records: Seq<LogRecord>, epoch: EpochId)
    ensures
        forall|n: int| #[trigger]
            positions_in(records, epoch).contains(n) <==> 0 <= n < records.len()
                && records[n].epoch == epoch,
        forall|a: int, b: int|
            0 <= a < b < positions_in(records, epoch).len() ==> #[trigger] positions_in(
                records,
                epoch,
            )[a] < #[trigger] positions_in(records, epoch)[b],
    decreases records.len(),
{
    if records.len() > 0 {
        let rest = positions_in(records.drop_last(), epoch);
        let all = positions_in(records, epoch);
        law_positions_are_those_of_the_epoch(records.drop_last(), epoch);
        assert forall|n: int| #[trigger] all.contains(n) <==> 0 <= n < records.len()
            && records[n].epoch == epoch by {
            assert(rest.contains(n) <==> 0 <= n < records.len() - 1
                && records.drop_last()[n].epoch == epoch);
            if rest.contains(n) {
                let k = choose|k: int| 0 <= k < rest.len() && rest[k] == n;
                assert(all[k] == n);
            }
            if records.last().epoch == epoch {
                assert(all[rest.len() as int] == records.len() - 1);
                if all.contains(n) && n != records.len() - 1 {
                    let k = choose|k: int| 0 <= k < all.len() && all[k] == n;
                    assert(rest[k] == n);
                }
            }
        }
        assert forall|a: int, b: int| 0 <= a < b < all.len() implies #[trigger] all[a]
            < #[trigger] all[b] by {
            assert(rest.contains(rest[a]));
            if b < rest.len() {
                assert(rest[a] < rest[b]);
            }
        }
    }
}

/// Within an epoch a further chunk begins with a record exactly where it is
/// said to, but for the first chunk, which begins with the first record.
pub proof fn law_chunks_begin_where_they_are_cut(
    records: Seq<LogRecord>,
    cuts: Seq<bool>,
    epoch: EpochId,
)
    ensures
        forall|c: int, i: int|
            #![trigger chunks_in(records, cuts, epoch)[c][i]]
            0 <= c < chunks_in(records, cuts, epoch).len() && 0 <= i < chunks_in(
                records,
                cuts,
                epoch,
            )[c].len() ==> {
                let n = chunks_in(records, cuts, epoch)[c][i];
                &&& 0 <= n < records.len()
                &&& records[n].epoch == epoch
                &&& i > 0 ==> !cuts[n]
                &&& i == 0 && c > 0 ==> cuts[n]
            },
    decreases records.len(),
{
    if records.len() > 0 {
        law_chunks_begin_where_they_are_cut(records.drop_last(), cuts, epoch);
        law_cuts_lose_no_record(records.drop_last(), cuts, epoch);
        let rest = chunks_in(records.drop_last(), cuts, epoch);
        let all = chunks_in(records, cuts, epoch);
        let last = records.len() - 1;
        assert forall|c: int, i: int|
            #![trigger all[c][i]]
            0 <= c < all.len() && 0 <= i < all[c].len() implies {
            let n = all[c][i];
            &&& 0 <= n < records.len()
            &&& records[n].epoch == epoch
            &&& i > 0 ==> !cuts[n]
            &&& i == 0 && c > 0 ==> cuts[n]
        } by {
            let n = all[c][i];
            if n != last || records.last().epoch != epoch {
                assert(c < rest.len());
                if i < rest[c].len() {
                    assert(rest[c][i] == n);
                }
                assert(records.drop_last()[n] == records[n]);
            } else if c < rest.len() && i < rest[c].len() {
                assert(rest[c][i] == n);
            }
        }
    }
}

proof fn lemma_chunks_of(records: Seq<LogRecord>, cuts: Seq<bool>, epochs: Seq<u64>)
    requires
        forall|a: int, b: int| 0 <= a < b < epochs.len() ==> epochs[a] < epochs[b],
    ensures
        forall|b: int|
            0 <= b < chunks_of(records, cuts, epochs).len() ==> {
                let chunk = #[trigger] chunks_of(records, cuts, epochs)[b];
                &&& epochs.contains(chunk.0)
                &&& chunk.1.len() > 0
                &&& forall|i: int|
                    0 <= i < chunk.1.len() ==> 0 <= #[trigger] chunk.1[i] < records.len()
                        && records[chunk.1[i]].epoch.0 == chunk.0
            },
        forall|a: int, b: int|
            0 <= a < b < chunks_of(records, cuts, epochs).len() ==> (#[trigger] chunks_of(
                records,
                cuts,
                epochs,
            )[a]).0 <= (#[trigger] chunks_of(records, cuts, epochs)[b]).0,
        forall|n: int|
            0 <= n < records.len() && epochs.contains((#[trigger] records[n]).epoch.0)
                ==> exists|b: int|
                0 <= b < chunks_of(records, cuts, epochs).len() && (#[trigger] chunks_of(
                    records,
                    cuts,
                    epochs,
                )[b]).0 == records[n].epoch.0 && chunks_of(records, cuts, epochs)[b].1.contains(n),
    decreases epochs.len(),
{
    if epochs.len() > 0 {
        let fewer = epochs.drop_last();
        let last = epochs.last();
        lemma_chunks_of(records, cuts, fewer);
        let rest = chunks_of(records, cuts, fewer);
        let own = chunks_in(records, cuts, EpochId(last));
        let all = chunks_of(records, cuts, epochs);
        law_cuts_lose_no_record(records, cuts, EpochId(last));
        law_chunks_begin_where_they_are_cut(records, cuts, EpochId(last));
        assert forall|e: u64| fewer.contains(e) implies e < last && epochs.contains(e) by {
            let k = choose|k: int| 0 <= k < fewer.len() && fewer[k] == e;
            assert(epochs[k] == e);
        }
        assert(epochs[epochs.len() - 1] == last);
        assert forall|b: int| 0 <= b < all.len() implies {
            let chunk = #[trigger] all[b];
            &&& epochs.contains(chunk.0)
            &&& chunk.1.len() > 0
            &&& forall|i: int|
                0 <= i < chunk.1.len() ==> 0 <= #[trigger] chunk.1[i] < records.len()
                    && records[chunk.1[i]].epoch.0 == chunk.0
        } by {
            if b < rest.len() {
                assert(all[b] == rest[b]);
            } else {
                let c = b - rest.len();
                assert(all[b] == (last, own[c]));
                assert forall|i: int| 0 <= i < own[c].len() implies 0 <= #[trigger] own[c][i]
                    < records.len() && records[own[c][i]].epoch.0 == last by {}
            }
        }
        assert forall|a: int, b: int| 0 <= a < b < all.len() implies (#[trigger] all[a]).0 <= (
        #[trigger] all[b]).0 by {
            if b < rest.len() {
                assert(all[a] == rest[a] && all[b] == rest[b]);
            } else {
                assert(all[b].0 == last);
                if a < rest.len() {
                    assert(fewer.contains(rest[a].0));
                }
            }
        }
        assert forall|n: int| 0 <= n < records.len() && epochs.contains(
            (#[trigger] records[n]).epoch.0,
        ) implies exists|b: int|
            0 <= b < all.len() && (#[trigger] all[b]).0 == records[n].epoch.0 && all[b].1.contains(
                n,
            ) by {
            if records[n].epoch.0 == last {
                law_positions_are_those_of_the_epoch(records, EpochId(last));
                assert(records[n].epoch == EpochId(last));
                assert(positions_in(records, EpochId(last)).contains(n));
                let c = lemma_joined_contains(own, n);
                assert(all[rest.len() + c] == (last, own[c]));
            } else {
                let k = choose|k: int| 0 <= k < epochs.len() && epochs[k] == records[n].epoch.0;
                assert(fewer[k] == records[n].epoch.0);
                let b = choose|b: int|
                    0 <= b < rest.len() && (#[trigger] rest[b]).0 == records[n].epoch.0
                        && rest[b].1.contains(n);
                assert(all[b] == rest[b]);
            }
        }
    }
}

proof fn lemma_joined_contains(chunks: Seq<Seq<int>>, n: int) -> (c: int)
    requires
        joined(chunks).contains(n),
    ensures
        0 <= c < chunks.len(),
        chunks[c].contains(n),
    decreases chunks.len(),
{
    let k = choose|k: int| 0 <= k < joined(chunks).len() && joined(chunks)[k] == n;
    let before = joined(chunks.drop_last());
    if k < before.len() {
        assert(before[k] == n);
        let c = lemma_joined_contains(chunks.drop_last(), n);
        assert(chunks[c] == chunks.drop_last()[c]);
        c
    } else {
        assert(chunks.last()[k - before.len()] == n);
        chunks.len() - 1
    }
}

/// Every record runs again, in a batch of its epoch: none is left out.
pub proof fn law_every_record_runs_again(
    batches: Seq<ReplayBatch>,
    records: Seq<LogRecord>,
    cuts: Seq<bool>,
    merged: Map<ObjectID, Object>,
    n: int,
)
    requires
        replays_all(batches, records, cuts, merged),
        0 <= n < records.len(),
    ensures
        exists|b: int, i: int|
            #![trigger batches[b].items@[i]]
            0 <= b < batches.len() && 0 <= i < batches[b].items@.len() && batches[b].epoch
                == records[n].epoch && batches[b].items@[i].transaction == Some(
                records[n].transaction,
            ) && batches[b].items@[i].required_versions@ =~= records[n].needs(),
{
    let epochs = choose|epochs: Seq<u64>| #[trigger]
        lists_epochs(epochs, records) && replays_chunks(
            batches,
            records,
            chunks_of(records, cuts, epochs),
            merged,
        );
    lemma_chunks_of(records, cuts, epochs);
    assert(epochs.contains(records[n].epoch.0));
    let chunks = chunks_of(records, cuts, epochs);
    let b = choose|b: int|
        0 <= b < chunks.len() && (#[trigger] chunks[b]).0 == records[n].epoch.0
            && chunks[b].1.contains(n);
    let i = choose|i: int| 0 <= i < chunks[b].1.len() && chunks[b].1[i] == n;
    assert(replays(batches[b].items@[i], records, n, merged));
}

/// The batches come epoch by epoch, none is empty, and each one runs nothing
/// but records of its epoch.
pub proof fn law_batches_follow_the_epochs(
    batches: Seq<ReplayBatch>,
    records: Seq<LogRecord>,
    cuts: Seq<bool>,
    merged: Map<ObjectID, Object>,
)
    requires
        replays_all(batches, records, cuts, merged),
    ensures
        forall|a: int, b: int|
            0 <= a < b < batches.len() ==> (#[trigger] batches[a]).epoch.0 <= (
            #[trigger] batches[b]).epoch.0,
        forall|b: int| 0 <= b < batches.len() ==> (#[trigger] batches[b]).items@.len() > 0,
        forall|b: int, i: int|
            #![trigger batches[b].items@[i]]
            0 <= b < batches.len() && 0 <= i < batches[b].items@.len() ==> exists|n: int|
                0 <= n < records.len() && (#[trigger] records[n]).epoch == batches[b].epoch
                    && batches[b].items@[i].transaction == Some(records[n].transaction),
{
    let epochs = choose|epochs: Seq<u64>| #[trigger]
        lists_epochs(epochs, records) && replays_chunks(
            batches,
            records,
            chunks_of(records, cuts, epochs),
            merged,
        );
    lemma_chunks_of(records, cuts, epochs);
    let chunks = chunks_of(records, cuts, epochs);
    assert forall|a: int, b: int| 0 <= a < b < batches.len() implies (#[trigger] batches[a]).epoch.0
        <= (#[trigger] batches[b]).epoch.0 by {
        assert(chunks[a].0 <= chunks[b].0);
    }
    assert forall|b: int| 0 <= b < batches.len() implies (#[trigger] batches[b]).items@.len()
        > 0 by {
        assert(chunks[b].1.len() > 0);
    }
    assert forall|b: int, i: int|
        #![trigger batches[b].items@[i]]
        0 <= b < batches.len() && 0 <= i < batches[b].items@.len() implies exists|n: int|
            0 <= n < records.len() && (#[trigger] records[n]).epoch == batches[b].epoch
                && batches[b].items@[i].transaction == Some(records[n].transaction) by {
        let chunk = chunks[b];
        let n = chunk.1[i];
        assert(replays(batches[b].items@[i], records, n, merged));
        assert(records[n].epoch.0 == batches[b].epoch.0);
        assert(records[n].epoch == batches[b].epoch);
    }
}

/// Records are cut no earlier than they have to be: a chunk and the first
/// record of the next one do not fit into one message.
pub proof fn law_chunks_are_cut_late(
    records: Seq<LogRecord>,
    sizes: Seq<usize>,
    cuts: Seq<bool>,
    limit: usize,
    epoch: EpochId,
    c: int,
)
    requires
        sizes.len() == records.len(),
        cuts.len() == records.len(),
        forall|k: int|
            0 <= k < cuts.len() ==> #[trigger] cuts[k] == overfills(records, sizes, limit, k),
        0 <= c,
        c + 1 < chunks_in(records, cuts, epoch).len(),
    ensures
        ({
            let chunks = chunks_in(records, cuts, epoch);
            chunk_size(chunks[c], sizes) + sizes[chunks[c + 1][0]] > limit
        }),
{
    lemma_cut_late(records, sizes, cuts, limit, epoch, c, records.len() as int);
    assert(records.take(records.len() as int) =~= records);
}

proof fn lemma_cut_late(
    records: Seq<LogRecord>,
    sizes: Seq<usize>,
    cuts: Seq<bool>,
    limit: usize,
    epoch: EpochId,
    c: int,
    n: int,
)
    requires
        0 <= n <= records.len(),
        sizes.len() == records.len(),
        cuts.len() == records.len(),
        forall|k: int|
            0 <= k < cuts.len() ==> #[trigger] cuts[k] == overfills(records, sizes, limit, k),
        0 <= c,
        c + 1 < chunks_in(records.take(n), cuts, epoch).len(),
    ensures
        ({
            let chunks = chunks_in(records.take(n), cuts, epoch);
            chunks[c + 1].len() > 0 && chunk_size(chunks[c], sizes) + sizes[chunks[c + 1][0]]
                > limit
        }),
    decreases n,
{
    assert(n > 0);
    lemma_open_chunk(records, sizes, cuts, limit, epoch, n - 1);
    assert(records.take(n).drop_last() =~= records.take(n - 1));
    assert(records.take(n).last() == records[n - 1]);
    assert(cuts[n - 1] == overfills(records, sizes, limit, n - 1));
    let rest = chunks_in(records.take(n - 1), cuts, epoch);
    let chunks = chunks_in(records.take(n), cuts, epoch);
    law_cuts_lose_no_record(records.take(n - 1), cuts, epoch);
    if c + 1 < rest.len() {
        lemma_cut_late(records, sizes, cuts, limit, epoch, c, n - 1);
        assert(chunks[c] == rest[c]);
        assert(chunks[c + 1][0] == rest[c + 1][0]);
    } else {
        assert(chunks =~= rest.push(seq![n - 1]));
        assert(chunks[c] == rest.last());
    }
}

} // verus!

//! The transactions of the benchmark, and the objects that they use.
use vstd::prelude::*;

use crate::base_types::{same_id, ObjectID};
use crate::executor::tpcc::data::{RecordKey, TpccState};

verus! {

/// A line of an order.
#[derive(Clone, Copy, Debug, PartialEq, Eq, Structural)]
pub struct OrderItem {
    /// The item.
    pub i_id: u32,
    /// The warehouse that supplies the item.
    pub supply_w_id: u32,
    /// The quantity.
    pub quantity: u32,
}

/// A transaction.
#[derive(Debug)]
pub enum TpccTransaction {
    /// A customer orders items.
    NewOrder { w_id: u32, d_id: u32, c_id: u32, items: Vec<OrderItem> },
    /// A customer pays an amount, in cents.
    Payment { w_id: u32, d_id: u32, c_w_id: u32, c_d_id: u32, c_id: u32, h_amount: i64 },
}

/// The objects that order lines read: for each line the item and its stock.
pub open spec fn line_reads(items: Seq<OrderItem>) -> Seq<ObjectID>
    decreases items.len(),
{
    if items.len() == 0 {
        Seq::empty()
    } else {
        let line = items.last();
        line_reads(items.drop_last()).push(
            crate::executor::tpcc::data::record_id(RecordKey::Item { i_id: line.i_id }),
        ).push(
            crate::executor::tpcc::data::record_id(
                RecordKey::Stock { w_id: line.supply_w_id, i_id: line.i_id },
            ),
        )
    }
}

/// The objects that order lines write: for each line the stock.
pub open spec fn line_writes(items: Seq<OrderItem>) -> Seq<ObjectID> {
    items.map_values(
        |line: OrderItem|
            crate::executor::tpcc::data::record_id(
                RecordKey::Stock { w_id: line.supply_w_id, i_id: line.i_id },
            ),
    )
}

/// A sequence without what it holds already: the first of equals stays.
pub open spec fn deduplicated(ids: Seq<ObjectID>) -> Seq<ObjectID>
    decreases ids.len(),
{
    if ids.len() == 0 {
        Seq::empty()
    } else {
        let rest = deduplicated(ids.drop_last());
        if rest.contains(ids.last()) {
            rest
        } else {
            rest.push(ids.last())
        }
    }
}

impl TpccTransaction {
    /// The objects that the transaction reads.
    pub open spec fn reads(self) -> Seq<ObjectID> {
        match self {
            TpccTransaction::NewOrder { w_id, d_id, c_id, items } => seq![
                crate::executor::tpcc::data::record_id(RecordKey::Warehouse { w_id }),
                crate::executor::tpcc::data::record_id(RecordKey::Customer { w_id, d_id, c_id }),
            ] + line_reads(items@),
            TpccTransaction::Payment { w_id, d_id, c_w_id, c_d_id, c_id, .. } => seq![
                crate::executor::tpcc::data::record_id(RecordKey::Warehouse { w_id }),
                crate::executor::tpcc::data::record_id(RecordKey::District { w_id, d_id }),
                crate::executor::tpcc::data::record_id(
                    RecordKey::Customer { w_id: c_w_id, d_id: c_d_id, c_id },
                ),
            ],
        }
    }

    /// The objects that the transaction writes.
    pub open spec fn writes(self) -> Seq<ObjectID> {
        match self {
            TpccTransaction::NewOrder { w_id, d_id, items, .. } => seq![
                crate::executor::tpcc::data::record_id(RecordKey::District { w_id, d_id }),
            ] + line_writes(items@),
            TpccTransaction::Payment { .. } => self.reads(),
        }
    }

    /// The objects that the transaction uses, each once.
    pub open spec fn accesses(self) -> Seq<ObjectID> {
        deduplicated(self.reads() + self.writes())
    }

    /// The name of the kind of transaction.
    pub fn name(&self) -> (name: &'static str)
        ensures
            name@ == (match self {
                TpccTransaction::NewOrder { .. } => "NEW_ORDER"@,
                TpccTransaction::Payment { .. } => "PAYMENT"@,
            }),
    {
        match self {
            TpccTransaction::NewOrder { .. } => "NEW_ORDER",
            TpccTransaction::Payment { .. } => "PAYMENT",
        }
    }

    /// The objects that the transaction reads.
    pub fn read_set(&self) -> (ids: Vec<ObjectID>)
        ensures
            ids@ =~= self.reads(),
    {
        let mut ids: Vec<ObjectID> = Vec::new();
        match self {
            TpccTransaction::NewOrder { w_id, d_id, c_id, items } => {
                ids.push(TpccState::object_id_for_warehouse(*w_id));
                ids.push(TpccState::object_id_for_customer(*w_id, *d_id, *c_id));
                let ghost first = ids@;
                let mut i: usize = 0;
                while i < items.len()
                    invariant
                        i <= items.len(),
                        ids@ =~= first + line_reads(items@.take(i as int)),
                    decreases items.len() - i,
                {
                    proof {
                        assert(items@.take(i + 1).drop_last() =~= items@.take(i as int));
                    }
                    ids.push(TpccState::object_id_for_item(items[i].i_id));
                    ids.push(TpccState::object_id_for_stock(items[i].supply_w_id, items[i].i_id));
                    i = i + 1;
                }
                proof {
                    assert(items@.take(i as int) =~= items@);
                }
            },
            TpccTransaction::Payment { w_id, d_id, c_w_id, c_d_id, c_id, .. } => {
                ids.push(TpccState::object_id_for_warehouse(*w_id));
                ids.push(TpccState::object_id_for_district(*w_id, *d_id));
                ids.push(TpccState::object_id_for_customer(*c_w_id, *c_d_id, *c_id));
            },
        }
        ids
    }

    /// The objects that the transaction writes.
    pub fn write_set(&self) -> (ids: Vec<ObjectID>)
        ensures
            ids@ =~= self.writes(),
    {
        match self {
            TpccTransaction::NewOrder { w_id, d_id, items, .. } => {
                let mut ids: Vec<ObjectID> = Vec::new();
                ids.push(TpccState::object_id_for_district(*w_id, *d_id));
                let ghost first = ids@;
                let mut i: usize = 0;
                while i < items.len()
                    invariant
                        i <= items.len(),
                        ids@ =~= first + line_writes(items@.take(i as int)),
                    decreases items.len() - i,
                {
                    ids.push(TpccState::object_id_for_stock(items[i].supply_w_id, items[i].i_id));
                    i = i + 1;
                }
                proof {
                    assert(items@.take(i as int) =~= items@);
                }
                ids
            },
            TpccTransaction::Payment { .. } => self.read_set(),
        }
    }

    /// The objects that the transaction uses, each once, in the order of their
    /// first use.
    pub fn access_set(&self) -> (ids: Vec<ObjectID>)
        ensures
            ids@ =~= self.accesses(),
    {
        let mut all: Vec<ObjectID> = self.read_set();
        let mut writes: Vec<ObjectID> = self.write_set();
        all.append(&mut writes);
        let mut ids: Vec<ObjectID> = Vec::new();
        let mut i: usize = 0;
        while i < all.len()
            invariant
                i <= all.len(),
                ids@ =~= deduplicated(all@.take(i as int)),
            decreases all.len() - i,
        {
            proof {
                assert(all@.take(i + 1).drop_last() =~= all@.take(i as int));
            }
            if !has_id(&ids, &all[i]) {
                ids.push(all[i]);
            }
            i = i + 1;
        }
        proof {
            assert(all@.take(i as int) =~= all@);
        }
        ids
    }
}

fn has_id(ids: &Vec<ObjectID>, id: &ObjectID) -> (found: bool)
    ensures
        found == ids@.contains(*id),
{
    let mut i: usize = 0;
    while i < ids.len()
        invariant
            i <= ids.len(),
            forall|k: int| 0 <= k < i ==> ids@[k] != *id,
        decreases ids.len() - i,
    {
        if same_id(&ids[i], id) {
            assert(ids@[i as int] == *id);
            return true;
        }
        i = i + 1;
    }
    false
}

proof fn lemma_deduplicated(ids: Seq<ObjectID>)
    ensures
        deduplicated(ids).no_duplicates(),
        forall|id: ObjectID| #[trigger] deduplicated(ids).contains(id) <==> ids.contains(id),
        deduplicated(ids).len() <= ids.len(),
    decreases ids.len(),
{
    if ids.len() > 0 {
        let rest = deduplicated(ids.drop_last());
        let all = deduplicated(ids);
        lemma_deduplicated(ids.drop_last());
        assert(ids[ids.len() - 1] == ids.last());
        assert forall|id: ObjectID| #[trigger] all.contains(id) <==> ids.contains(id) by {
            assert(rest.contains(id) <==> ids.drop_last().contains(id));
            if rest.contains(id) {
                let k = choose|k: int| 0 <= k < rest.len() && rest[k] == id;
                assert(all[k] == id);
            }
            if ids.drop_last().contains(id) {
                let k = choose|k: int|
                    0 <= k < ids.drop_last().len() && ids.drop_last()[k] == id;
                assert(ids[k] == id);
            }
            if ids.contains(id) && id != ids.last() {
                let k = choose|k: int| 0 <= k < ids.len() && ids[k] == id;
                assert(ids.drop_last()[k] == id);
            }
            if !rest.contains(ids.last()) {
                assert(all[rest.len() as int] == ids.last());
                if all.contains(id) && id != ids.last() {
                    let k = choose|k: int| 0 <= k < all.len() && all[k] == id;
                    assert(rest[k] == id);
                }
            }
        }
    }
}

/// A transaction accesses what it reads and what it writes, nothing else, and
/// lists nothing twice.
pub proof fn law_access_set_is_the_union(transaction: TpccTransaction, id: ObjectID)
    ensures
        transaction.accesses().no_duplicates(),
        transaction.accesses().contains(id) <==> transaction.reads().contains(id)
            || transaction.writes().contains(id),
{
    let reads = transaction.reads();
    let writes = transaction.writes();
    let all = reads + writes;
    lemma_deduplicated(all);
    if reads.contains(id) {
        let k = choose|k: int| 0 <= k < reads.len() && reads[k] == id;
        assert(all[k] == id);
    }
    if writes.contains(id) {
        let k = choose|k: int| 0 <= k < writes.len() && writes[k] == id;
        assert(all[reads.len() + k] == id);
    }
    if all.contains(id) {
        let k = choose|k: int| 0 <= k < all.len() && all[k] == id;
        if k < reads.len() {
            assert(reads[k] == id);
        } else {
            assert(writes[k - reads.len()] == id);
        }
    }
}

/// Whether a position holds an object for the first time.
pub open spec fn first_at(ids: Seq<ObjectID>, position: int, id: ObjectID) -> bool {
    &&& 0 <= position < ids.len()
    &&& ids[position] == id
    &&& forall|k: int| 0 <= k < position ==> #[trigger] ids[k] != id
}

proof fn lemma_deduplicated_in_order(ids: Seq<ObjectID>, i: int, j: int, a: int, b: int)
    requires
        0 <= i < j < deduplicated(ids).len(),
        first_at(ids, a, deduplicated(ids)[i]),
        first_at(ids, b, deduplicated(ids)[j]),
    ensures
        a < b,
    decreases ids.len(),
{
    let shorter = ids.drop_last();
    let rest = deduplicated(shorter);
    lemma_deduplicated(shorter);
    assert(rest[i] == deduplicated(ids)[i]);
    assert(rest.contains(rest[i]));
    assert(shorter.contains(rest[i]));
    let k = choose|k: int| 0 <= k < shorter.len() && shorter[k] == rest[i];
    assert(ids[k] == rest[i]);
    assert(a <= k);
    if j < rest.len() {
        assert(rest.contains(rest[j]));
        assert(shorter.contains(rest[j]));
        let m = choose|m: int| 0 <= m < shorter.len() && shorter[m] == rest[j];
        assert(ids[m] == rest[j]);
        assert(b <= m);
        assert(first_at(shorter, a, rest[i]));
        assert(first_at(shorter, b, rest[j]));
        lemma_deduplicated_in_order(shorter, i, j, a, b);
    } else {
        assert(!rest.contains(ids.last()));
        assert(!shorter.contains(ids.last()));
        if b < shorter.len() {
            assert(shorter[b] == ids.last());
        }
    }
}

/// A transaction lists what it accesses in the order of first use, where it
/// reads before it writes.
pub proof fn law_access_set_is_in_order_of_first_use(
    transaction: TpccTransaction,
    i: int,
    j: int,
    a: int,
    b: int,
)
    requires
        0 <= i < j < transaction.accesses().len(),
        first_at(transaction.reads() + transaction.writes(), a, transaction.accesses()[i]),
        first_at(transaction.reads() + transaction.writes(), b, transaction.accesses()[j]),
    ensures
        a < b,
{
    lemma_deduplicated_in_order(transaction.reads() + transaction.writes(), i, j, a, b);
}

/// A payment accesses its warehouse, its district and its customer, in this
/// order, as long as these are three objects.
pub proof fn law_payment_accesses_three_objects(transaction: TpccTransaction)
    requires
        transaction is Payment,
        transaction.reads().no_duplicates(),
    ensures
        transaction.accesses() =~= transaction.reads(),
        transaction matches TpccTransaction::Payment { w_id, d_id, c_w_id, c_d_id, c_id, .. }
            ==> transaction.accesses() =~= seq![
            crate::executor::tpcc::data::record_id(RecordKey::Warehouse { w_id }),
            crate::executor::tpcc::data::record_id(RecordKey::District { w_id, d_id }),
            crate::executor::tpcc::data::record_id(
                RecordKey::Customer { w_id: c_w_id, d_id: c_d_id, c_id },
            ),
        ],
{
    let reads = transaction.reads();
    lemma_deduplicated_repeated(reads, reads);
}

proof fn lemma_deduplicated_repeated(ids: Seq<ObjectID>, again: Seq<ObjectID>)
    requires
        ids.no_duplicates(),
        forall|k: int| 0 <= k < again.len() ==> ids.contains(#[trigger] again[k]),
    ensures
        deduplicated(ids + again) =~= ids,
    decreases ids.len() + again.len(),
{
    if again.len() > 0 {
        let fewer = again.drop_last();
        assert((ids + again).drop_last() =~= ids + fewer);
        assert(ids.contains(again[again.len() - 1]));
        lemma_deduplicated_repeated(ids, fewer);
    } else if ids.len() > 0 {
        let rest = ids.drop_last();
        assert((ids + again).drop_last() =~= rest + again);
        assert((ids + again).last() == ids.last());
        lemma_deduplicated_repeated(rest, again);
        assert(!rest.contains(ids.last())) by {
            if rest.contains(ids.last()) {
                let k = choose|k: int| 0 <= k < rest.len() && rest[k] == ids.last();
                assert(ids[k] == ids[ids.len() - 1]);
            }
        }
    } else {
        assert(ids + again =~= Seq::empty());
    }
}

/// What an order reads: its warehouse, its customer, and for each of its lines
/// the item and the stock of the supplier; nothing else.
pub proof fn law_orders_read_items_and_stock(transaction: TpccTransaction, id: ObjectID)
    requires
        transaction is NewOrder,
    ensures
        transaction matches TpccTransaction::NewOrder { w_id, d_id, c_id, items } ==> (
        transaction.reads().contains(id) <==> {
            ||| id == crate::executor::tpcc::data::record_id(RecordKey::Warehouse { w_id })
            ||| id == crate::executor::tpcc::data::record_id(
                RecordKey::Customer { w_id, d_id, c_id },
            )
            ||| exists|i: int|
                0 <= i < items@.len() && (id == crate::executor::tpcc::data::record_id(
                    RecordKey::Item { i_id: (#[trigger] items@[i]).i_id },
                ) || id == crate::executor::tpcc::data::record_id(
                    RecordKey::Stock { w_id: items@[i].supply_w_id, i_id: items@[i].i_id },
                ))
        }),
{
    if let TpccTransaction::NewOrder { w_id, d_id, c_id, items } = transaction {
        let head = seq![
            crate::executor::tpcc::data::record_id(RecordKey::Warehouse { w_id }),
            crate::executor::tpcc::data::record_id(RecordKey::Customer { w_id, d_id, c_id }),
        ];
        let tail = line_reads(items@);
        lemma_line_reads(items@, id);
        assert(transaction.reads() == head + tail);
        lemma_concatenation_contains(head, tail, id);
        if head.contains(id) {
            let k = choose|k: int| 0 <= k < head.len() && head[k] == id;
        }
        assert(head[0] == crate::executor::tpcc::data::record_id(RecordKey::Warehouse { w_id }));
        assert(head[1] == crate::executor::tpcc::data::record_id(
            RecordKey::Customer { w_id, d_id, c_id },
        ));
    }
}

proof fn lemma_concatenation_contains(first: Seq<ObjectID>, second: Seq<ObjectID>, id: ObjectID)
    ensures
        (first + second).contains(id) <==> first.contains(id) || second.contains(id),
{
    let both = first + second;
    if first.contains(id) {
        let k = choose|k: int| 0 <= k < first.len() && first[k] == id;
        assert(both[k] == id);
    }
    if second.contains(id) {
        let k = choose|k: int| 0 <= k < second.len() && second[k] == id;
        assert(both[first.len() + k] == id);
    }
    if both.contains(id) {
        let k = choose|k: int| 0 <= k < both.len() && both[k] == id;
        if k < first.len() {
            assert(first[k] == id);
        } else {
            assert(second[k - first.len()] == id);
        }
    }
}

proof fn lemma_line_reads(items: Seq<OrderItem>, id: ObjectID)
    ensures
        line_reads(items).contains(id) <==> exists|i: int|
            0 <= i < items.len() && (id == crate::executor::tpcc::data::record_id(
                RecordKey::Item { i_id: (#[trigger] items[i]).i_id },
            ) || id == crate::executor::tpcc::data::record_id(
                RecordKey::Stock { w_id: items[i].supply_w_id, i_id: items[i].i_id },
            )),
        line_reads(items).len() == 2 * items.len(),
    decreases items.len(),
{
    if items.len() > 0 {
        let rest = items.drop_last();
        let line = items.last();
        lemma_line_reads(rest, id);
        let item = crate::executor::tpcc::data::record_id(RecordKey::Item { i_id: line.i_id });
        let stock = crate::executor::tpcc::data::record_id(
            RecordKey::Stock { w_id: line.supply_w_id, i_id: line.i_id },
        );
        assert(line_reads(items) =~= line_reads(rest) + seq![item, stock]);
        lemma_concatenation_contains(line_reads(rest), seq![item, stock], id);
        assert(seq![item, stock][0] == item);
        assert(seq![item, stock][1] == stock);
        assert(items[items.len() - 1] == line);
        if exists|i: int|
            0 <= i < rest.len() && (id == crate::executor::tpcc::data::record_id(
                RecordKey::Item { i_id: (#[trigger] rest[i]).i_id },
            ) || id == crate::executor::tpcc::data::record_id(
                RecordKey::Stock { w_id: rest[i].supply_w_id, i_id: rest[i].i_id },
            )) {
            let i = choose|i: int|
                0 <= i < rest.len() && (id == crate::executor::tpcc::data::record_id(
                    RecordKey::Item { i_id: (#[trigger] rest[i]).i_id },
                ) || id == crate::executor::tpcc::data::record_id(
                    RecordKey::Stock { w_id: rest[i].supply_w_id, i_id: rest[i].i_id },
                ));
            assert(items[i] == rest[i]);
        }
        if exists|i: int|
            0 <= i < items.len() && (id == crate::executor::tpcc::data::record_id(
                RecordKey::Item { i_id: (#[trigger] items[i]).i_id },
            ) || id == crate::executor::tpcc::data::record_id(
                RecordKey::Stock { w_id: items[i].supply_w_id, i_id: items[i].i_id },
            )) {
            let i = choose|i: int|
                0 <= i < items.len() && (id == crate::executor::tpcc::data::record_id(
                    RecordKey::Item { i_id: (#[trigger] items[i]).i_id },
                ) || id == crate::executor::tpcc::data::record_id(
                    RecordKey::Stock { w_id: items[i].supply_w_id, i_id: items[i].i_id },
                ));
            if i < rest.len() {
                assert(rest[i] == items[i]);
            }
        }
    }
}

/// What an order writes: its district and, for each of its lines, the stock of
/// the supplier; nothing else.
pub proof fn law_orders_write_district_and_stock(transaction: TpccTransaction, id: ObjectID)
    requires
        transaction is NewOrder,
    ensures
        transaction matches TpccTransaction::NewOrder { w_id, d_id, c_id, items } ==> (
        transaction.writes().contains(id) <==> {
            ||| id == crate::executor::tpcc::data::record_id(RecordKey::District { w_id, d_id })
            ||| exists|i: int|
                0 <= i < items@.len() && id == crate::executor::tpcc::data::record_id(
                    RecordKey::Stock {
                        w_id: (#[trigger] items@[i]).supply_w_id,
                        i_id: items@[i].i_id,
                    },
                )
        }),
{
    if let TpccTransaction::NewOrder { w_id, d_id, c_id, items } = transaction {
        let head = seq![
            crate::executor::tpcc::data::record_id(RecordKey::District { w_id, d_id }),
        ];
        let tail = line_writes(items@);
        assert(transaction.writes() == head + tail);
        lemma_concatenation_contains(head, tail, id);
        assert(head[0] == crate::executor::tpcc::data::record_id(
            RecordKey::District { w_id, d_id },
        ));
        if tail.contains(id) {
            let k = choose|k: int| 0 <= k < tail.len() && tail[k] == id;
            assert(id == crate::executor::tpcc::data::record_id(
                RecordKey::Stock { w_id: items@[k].supply_w_id, i_id: items@[k].i_id },
            ));
        }
        if exists|i: int|
            0 <= i < items@.len() && id == crate::executor::tpcc::data::record_id(
                RecordKey::Stock { w_id: (#[trigger] items@[i]).supply_w_id, i_id: items@[i].i_id },
            ) {
            let i = choose|i: int|
                0 <= i < items@.len() && id == crate::executor::tpcc::data::record_id(
                    RecordKey::Stock {
                        w_id: (#[trigger] items@[i]).supply_w_id,
                        i_id: items@[i].i_id,
                    },
                );
            assert(tail[i] == id);
        }
    }
}

/// A payment reads and writes the same: its warehouse, its district and its
/// customer.
pub proof fn law_payments_use_three_records(transaction: TpccTransaction)
    requires
        transaction is Payment,
    ensures
        transaction.writes() == transaction.reads(),
        transaction matches TpccTransaction::Payment { w_id, d_id, c_w_id, c_d_id, c_id, .. } ==> {
            &&& transaction.reads().len() == 3
            &&& transaction.reads()[0] == crate::executor::tpcc::data::record_id(
                RecordKey::Warehouse { w_id },
            )
            &&& transaction.reads()[1] == crate::executor::tpcc::data::record_id(
                RecordKey::District { w_id, d_id },
            )
            &&& transaction.reads()[2] == crate::executor::tpcc::data::record_id(
                RecordKey::Customer { w_id: c_w_id, d_id: c_d_id, c_id },
            )
        },
{
}

} // verus!

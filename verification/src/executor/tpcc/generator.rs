//! Random transactions of the benchmark.
use vstd::prelude::*;

use crate::config::Ratio;
use crate::executor::tpcc::constants::{
    CUSTOMERS_PER_DISTRICT, DISTRICTS_PER_WAREHOUSE, MAX_OL_CNT, MAX_OL_QUANTITY,
    MAX_PAYMENT_CENTS, MIN_OL_CNT, MIN_PAYMENT_CENTS, NUM_ITEMS, REMOTE_CUSTOMER_PERCENT,
    REMOTE_WAREHOUSE_PERCENT,
};
use crate::executor::tpcc::transactions::{OrderItem, TpccTransaction};
use crate::random::{copied, draw_u32, draw_u64, draw_usize, flip, seeded, Past, SeededRng};

verus! {

/// Generates transactions on warehouses that are spread evenly over nodes.
pub struct TpccGenerator {
    /// The number of warehouses.
    pub num_warehouses: usize,
    /// The share of payments.
    pub payment_ratio: Ratio,
    /// The number of nodes.
    pub num_nodes: usize,
    /// The number of warehouses of a node.
    pub warehouses_per_node: usize,
    /// How likely a warehouse that is not the home one is on another node.
    pub cross_node_prob: Ratio,
    /// Where the draws come from.
    pub rng: SeededRng,
}

/// The number of draws that can be counted. A search that takes more of them
/// is out of reach of any machine.
pub const MAX_TRIES: u64 = u64::MAX;

/// Where an order line is supplied from.
#[derive(Clone, Copy, Debug, PartialEq, Eq, Structural)]
pub enum SupplySource {
    /// The home warehouse.
    Home,
    /// Another warehouse of the home node.
    SameNode,
    /// A warehouse of another node.
    OtherNode,
}

/// The node of a warehouse.
pub open spec fn node_of(w_id: u32, warehouses_per_node: usize) -> int {
    (w_id - 1) / (warehouses_per_node as int)
}

/// What determines the transactions of a generator, but for its draws.
#[verifier::ext_equal]
pub struct Mix {
    pub num_warehouses: usize,
    pub payment_ratio: Ratio,
    pub num_nodes: usize,
    pub warehouses_per_node: usize,
    pub cross_node_prob: Ratio,
}

/// An order as it is drawn: its warehouse, district and customer, and its lines.
pub struct DrawnOrder {
    pub w_id: u32,
    pub d_id: u32,
    pub c_id: u32,
    pub lines: Seq<OrderItem>,
}

impl Mix {
    /// The warehouses are spread evenly over the nodes, and there is one.
    pub open spec fn wf(self) -> bool {
        &&& 1 <= self.num_warehouses <= u32::MAX
        &&& 1 <= self.num_nodes
        &&& self.num_warehouses == self.num_nodes * self.warehouses_per_node
        &&& self.payment_ratio.wf()
        &&& self.cross_node_prob.wf()
    }

    /// Whether a number is that of a warehouse.
    pub open spec fn is_warehouse(self, w_id: u32) -> bool {
        1 <= w_id <= self.num_warehouses
    }

    /// Whether a warehouse can supply an order line of a home warehouse.
    pub open spec fn can_supply(self, home: u32, supplier: u32) -> bool {
        let home_node = node_of(home, self.warehouses_per_node);
        let node = node_of(supplier, self.warehouses_per_node);
        &&& self.is_warehouse(supplier)
        &&& node != home_node ==> self.cross_node_prob.numerator > 0 && self.num_nodes > 1
    }

    /// Whether a transaction is one that the generator can come up with.
    pub open spec fn can_generate(self, transaction: TpccTransaction) -> bool {
        match transaction {
            TpccTransaction::NewOrder { w_id, d_id, c_id, items } => {
                &&& self.is_warehouse(w_id)
                &&& 1 <= d_id <= DISTRICTS_PER_WAREHOUSE
                &&& 1 <= c_id <= CUSTOMERS_PER_DISTRICT
                &&& MIN_OL_CNT <= items@.len() <= MAX_OL_CNT
                &&& forall|i: int|
                    0 <= i < items@.len() ==> self.can_order(w_id, #[trigger] items@[i])
            },
            TpccTransaction::Payment { w_id, d_id, c_w_id, c_d_id, c_id, h_amount } => {
                &&& self.is_warehouse(w_id)
                &&& 1 <= d_id <= DISTRICTS_PER_WAREHOUSE
                &&& 1 <= c_id <= CUSTOMERS_PER_DISTRICT
                &&& MIN_PAYMENT_CENTS <= h_amount <= MAX_PAYMENT_CENTS
                &&& if c_w_id == w_id {
                    c_d_id == d_id
                } else {
                    &&& self.num_warehouses > 1
                    &&& self.is_warehouse(c_w_id)
                    &&& 1 <= c_d_id <= DISTRICTS_PER_WAREHOUSE
                }
            },
        }
    }

    /// Whether an order line is one that the generator can come up with.
    pub open spec fn can_order(self, home: u32, line: OrderItem) -> bool {
        &&& 1 <= line.i_id <= NUM_ITEMS
        &&& 1 <= line.quantity <= MAX_OL_QUANTITY
        &&& self.can_supply(home, line.supply_w_id)
    }

    /// Draws a warehouse.
    pub open spec fn warehouse(self, past: Past) -> (u32, Past) {
        past.small(1, self.num_warehouses as u32)
    }

    /// Draws warehouses until one is not the excluded one. `None` where that
    /// takes more draws than are given.
    pub open spec fn other_warehouse(self, past: Past, exclude: u32, tries: nat) -> Option<
        (u32, Past),
    >
        decreases tries,
    {
        let (w_id, next) = self.warehouse(past);
        if tries == 0 {
            None
        } else if w_id != exclude {
            Some((w_id, next))
        } else {
            self.other_warehouse(next, exclude, (tries - 1) as nat)
        }
    }

    /// The first warehouse of a node.
    pub open spec fn first_of(self, node: int) -> u32 {
        (node * self.warehouses_per_node + 1) as u32
    }

    /// Draws a warehouse of a node.
    pub open spec fn warehouse_of(self, past: Past, node: int) -> (u32, Past) {
        past.small(
            self.first_of(node),
            (node * self.warehouses_per_node + self.warehouses_per_node) as u32,
        )
    }

    /// Draws warehouses of a node until one is not the excluded one. `None`
    /// where that takes more draws than are given.
    pub open spec fn other_warehouse_of(
        self,
        past: Past,
        node: int,
        exclude: u32,
        tries: nat,
    ) -> Option<(u32, Past)>
        decreases tries,
    {
        let (w_id, next) = self.warehouse_of(past, node);
        if tries == 0 {
            None
        } else if w_id != exclude {
            Some((w_id, next))
        } else {
            self.other_warehouse_of(next, node, exclude, (tries - 1) as nat)
        }
    }

    /// Draws nodes until one is not the excluded one, then a warehouse of it.
    /// `None` where that takes more draws of nodes than are given.
    pub open spec fn warehouse_elsewhere(self, past: Past, exclude: int, tries: nat) -> Option<
        (u32, Past),
    >
        decreases tries,
    {
        let (node, next) = past.index(0, (self.num_nodes - 1) as usize);
        if tries == 0 {
            None
        } else if node != exclude {
            Some(self.warehouse_of(next, node as int))
        } else {
            self.warehouse_elsewhere(next, exclude, (tries - 1) as nat)
        }
    }

    /// Where an order line is supplied from, for two coins.
    pub open spec fn source(self, remote: bool, cross: bool) -> SupplySource {
        if self.num_warehouses > 1 && remote {
            if self.cross_node_prob.numerator > 0 && self.num_nodes > 1 && cross {
                SupplySource::OtherNode
            } else if self.warehouses_per_node > 1 {
                SupplySource::SameNode
            } else {
                SupplySource::Home
            }
        } else {
            SupplySource::Home
        }
    }

    /// Draws an order line of a home warehouse: the item, the coins for where
    /// it is supplied from, the supplier, and the quantity. `None` where the
    /// search for the supplier is out of reach.
    pub open spec fn line(self, past: Past, home: u32) -> Option<(OrderItem, Past)> {
        let (i_id, past) = past.small(1, NUM_ITEMS as u32);
        let (remote, past) = if self.num_warehouses > 1 {
            past.coin(Ratio { numerator: REMOTE_WAREHOUSE_PERCENT, denominator: 100 })
        } else {
            (false, past)
        };
        let (cross, past) = if remote && self.cross_node_prob.numerator > 0 && self.num_nodes > 1 {
            past.coin(self.cross_node_prob)
        } else {
            (false, past)
        };
        let node = node_of(home, self.warehouses_per_node);
        let supplier = match self.source(remote, cross) {
            SupplySource::Home => Some((home, past)),
            SupplySource::SameNode => self.other_warehouse_of(past, node, home, MAX_TRIES as nat),
            SupplySource::OtherNode => self.warehouse_elsewhere(past, node, MAX_TRIES as nat),
        };
        match supplier {
            Some((supply_w_id, past)) => {
                let (quantity, past) = past.small(1, MAX_OL_QUANTITY);
                Some((OrderItem { i_id, supply_w_id, quantity }, past))
            },
            None => None,
        }
    }

    /// Draws a number of order lines.
    pub open spec fn lines(self, past: Past, home: u32, count: nat) -> Option<
        (Seq<OrderItem>, Past),
    >
        decreases count,
    {
        if count == 0 {
            Some((Seq::empty(), past))
        } else {
            match self.lines(past, home, (count - 1) as nat) {
                Some((lines, past)) => match self.line(past, home) {
                    Some((line, past)) => Some((lines.push(line), past)),
                    None => None,
                },
                None => None,
            }
        }
    }

    /// Draws an order. `None` where a search for a supplier is out of reach.
    pub open spec fn order(self, past: Past) -> Option<(DrawnOrder, Past)> {
        let (w_id, past) = self.warehouse(past);
        let (d_id, past) = past.small(1, DISTRICTS_PER_WAREHOUSE as u32);
        let (c_id, past) = past.small(1, CUSTOMERS_PER_DISTRICT as u32);
        let (count, past) = past.index(MIN_OL_CNT, MAX_OL_CNT);
        match self.lines(past, w_id, count as nat) {
            Some((lines, past)) => Some((DrawnOrder { w_id, d_id, c_id, lines }, past)),
            None => None,
        }
    }

    /// Draws a payment. `None` where the search for the warehouse of the
    /// customer is out of reach.
    pub open spec fn payment(self, past: Past) -> Option<(TpccTransaction, Past)> {
        let (w_id, past) = self.warehouse(past);
        let (d_id, past) = past.small(1, DISTRICTS_PER_WAREHOUSE as u32);
        let (remote, past) = if self.num_warehouses > 1 {
            past.coin(Ratio { numerator: REMOTE_CUSTOMER_PERCENT, denominator: 100 })
        } else {
            (false, past)
        };
        let home = if remote {
            self.other_warehouse(past, w_id, MAX_TRIES as nat)
        } else {
            Some((w_id, past))
        };
        match home {
            Some((c_w_id, past)) => {
                let (c_d_id, past) = if remote {
                    past.small(1, DISTRICTS_PER_WAREHOUSE as u32)
                } else {
                    (d_id, past)
                };
                let (c_id, past) = past.small(1, CUSTOMERS_PER_DISTRICT as u32);
                let (cents, past) = past.large(MIN_PAYMENT_CENTS as u64, MAX_PAYMENT_CENTS as u64);
                Some(
                    (
                        TpccTransaction::Payment {
                            w_id,
                            d_id,
                            c_w_id,
                            c_d_id,
                            c_id,
                            h_amount: cents as i64,
                        },
                        past,
                    ),
                )
            },
            None => None,
        }
    }

    /// Whether an order is the one that is drawn next, and the past after it.
    pub open spec fn makes_order(
        self,
        past: Past,
        transaction: TpccTransaction,
        after: Past,
    ) -> bool {
        match self.order(past) {
            Some((drawn, next)) => {
                &&& transaction matches TpccTransaction::NewOrder { w_id, d_id, c_id, items }
                &&& w_id == drawn.w_id
                &&& d_id == drawn.d_id
                &&& c_id == drawn.c_id
                &&& items@ == drawn.lines
                &&& after == next
            },
            None => false,
        }
    }

    /// Whether a transaction is the one that is drawn next, and the past after
    /// it: a coin tells whether it is a payment or an order.
    pub open spec fn makes(self, past: Past, transaction: TpccTransaction, after: Past) -> bool {
        let (payment, next) = past.coin(self.payment_ratio);
        if payment {
            self.payment(next) == Some((transaction, after))
        } else {
            self.makes_order(next, transaction, after)
        }
    }

    /// The past after the transaction that is drawn next. `None` where a search
    /// is out of reach.
    pub open spec fn next(self, past: Past) -> Option<Past> {
        let (payment, next) = past.coin(self.payment_ratio);
        if payment {
            match self.payment(next) {
                Some((_, after)) => Some(after),
                None => None,
            }
        } else {
            match self.order(next) {
                Some((_, after)) => Some(after),
                None => None,
            }
        }
    }

    /// The past after a number of transactions, from a seed on. `None` where a
    /// search is out of reach.
    pub open spec fn past_after(self, seed: u64, count: nat) -> Option<Past>
        decreases count,
    {
        if count == 0 {
            Some(Past { seed, asked: Seq::empty() })
        } else {
            match self.past_after(seed, (count - 1) as nat) {
                Some(past) => self.next(past),
                None => None,
            }
        }
    }
}

impl TpccGenerator {
    /// The warehouses are spread evenly over the nodes, and there is one.
    pub open spec fn wf(&self) -> bool {
        self.mix().wf()
    }

    /// What determines the transactions, but for the draws.
    pub open spec fn mix(&self) -> Mix {
        Mix {
            num_warehouses: self.num_warehouses,
            payment_ratio: self.payment_ratio,
            num_nodes: self.num_nodes,
            warehouses_per_node: self.warehouses_per_node,
            cross_node_prob: self.cross_node_prob,
        }
    }

    /// Whether the settings are those of another generator.
    pub open spec fn same_settings(&self, other: &Self) -> bool {
        &&& self.num_warehouses == other.num_warehouses
        &&& self.payment_ratio == other.payment_ratio
        &&& self.num_nodes == other.num_nodes
        &&& self.warehouses_per_node == other.warehouses_per_node
        &&& self.cross_node_prob == other.cross_node_prob
    }

    /// Whether a number is that of a warehouse.
    pub open spec fn is_warehouse(&self, w_id: u32) -> bool {
        self.mix().is_warehouse(w_id)
    }

    /// Whether a transaction is one that the generator can come up with.
    pub open spec fn can_generate(&self, transaction: TpccTransaction) -> bool {
        self.mix().can_generate(transaction)
    }

    /// Whether an order line is one that the generator can come up with.
    pub open spec fn can_order(&self, home: u32, line: OrderItem) -> bool {
        self.mix().can_order(home, line)
    }

    /// A generator for warehouses that are spread evenly over nodes.
    pub fn new(
        num_warehouses: usize,
        payment_ratio: Ratio,
        num_nodes: usize,
        cross_node_prob: Ratio,
        seed: u64,
    ) -> (generator: Self)
        requires
            num_nodes > 0,
            num_warehouses % num_nodes == 0,
        ensures
            generator.num_warehouses == num_warehouses,
            generator.payment_ratio == payment_ratio,
            generator.num_nodes == num_nodes,
            generator.warehouses_per_node == num_warehouses / num_nodes,
            generator.cross_node_prob == cross_node_prob,
            generator.rng@ == (Past { seed, asked: Seq::empty() }),
            1 <= num_warehouses <= u32::MAX && payment_ratio.wf() && cross_node_prob.wf()
                ==> generator.wf(),
    {
        let warehouses_per_node: usize = num_warehouses / num_nodes;
        proof {
            vstd::arithmetic::div_mod::lemma_fundamental_div_mod(
                num_warehouses as int,
                num_nodes as int,
            );
        }
        TpccGenerator {
            num_warehouses,
            payment_ratio,
            num_nodes,
            warehouses_per_node,
            cross_node_prob,
            rng: seeded(seed),
        }
    }

    /// A transaction: a payment with the likelihood that is set, else an order.
    pub fn generate_transaction(&mut self) -> (transaction: TpccTransaction)
        requires
            old(self).wf(),
            old(self).mix().next(old(self).rng@) is Some,
        ensures
            final(self).wf(),
            final(self).same_settings(old(self)),
            old(self).mix().makes(old(self).rng@, transaction, final(self).rng@),
            old(self).can_generate(transaction),
            old(self).payment_ratio.numerator == 0 ==> transaction is NewOrder,
            old(self).payment_ratio.numerator == old(self).payment_ratio.denominator
                ==> transaction is Payment,
    {
        let payment: bool = flip(&mut self.rng, self.payment_ratio);
        if payment {
            self.generate_payment()
        } else {
            self.generate_new_order()
        }
    }

    /// A transaction, where no search takes more draws than can be counted:
    /// else there is none, and the generator stays as it is.
    pub fn try_generate_transaction(&mut self) -> (transaction: Option<TpccTransaction>)
        requires
            old(self).wf(),
        ensures
            final(self).wf(),
            final(self).same_settings(old(self)),
            match transaction {
                Some(txn) => {
                    &&& old(self).mix().makes(old(self).rng@, txn, final(self).rng@)
                    &&& old(self).can_generate(txn)
                },
                None => {
                    &&& old(self).mix().next(old(self).rng@) is None
                    &&& final(self).rng@ == old(self).rng@
                },
            },
    {
        let mut probe: TpccGenerator = TpccGenerator {
            num_warehouses: self.num_warehouses,
            payment_ratio: self.payment_ratio,
            num_nodes: self.num_nodes,
            warehouses_per_node: self.warehouses_per_node,
            cross_node_prob: self.cross_node_prob,
            rng: copied(&self.rng),
        };
        let payment: bool = flip(&mut probe.rng, probe.payment_ratio);
        let drawn: Option<TpccTransaction> = if payment {
            probe.draw_payment()
        } else {
            probe.draw_order()
        };
        match drawn {
            Some(_) => Some(self.generate_transaction()),
            None => None,
        }
    }

    /// An order.
    pub fn generate_new_order(&mut self) -> (transaction: TpccTransaction)
        requires
            old(self).wf(),
            old(self).mix().order(old(self).rng@) is Some,
        ensures
            final(self).wf(),
            final(self).same_settings(old(self)),
            old(self).mix().makes_order(old(self).rng@, transaction, final(self).rng@),
            old(self).can_generate(transaction),
    {
        self.draw_order().unwrap()
    }

    fn draw_order(&mut self) -> (transaction: Option<TpccTransaction>)
        requires
            old(self).wf(),
        ensures
            final(self).wf(),
            final(self).same_settings(old(self)),
            match transaction {
                Some(txn) => {
                    &&& old(self).mix().makes_order(old(self).rng@, txn, final(self).rng@)
                    &&& old(self).can_generate(txn)
                },
                None => old(self).mix().order(old(self).rng@) is None,
            },
    {
        let ghost start = *self;
        let w_id: u32 = self.random_warehouse();
        let d_id: u32 = self.random_district();
        let c_id: u32 = self.random_customer();
        let ol_cnt: usize = draw_usize(&mut self.rng, MIN_OL_CNT, MAX_OL_CNT);
        let mut items: Vec<OrderItem> = Vec::new();
        let ghost before_lines = self.rng@;
        while items.len() < ol_cnt
            invariant
                start == *old(self),
                self.wf(),
                self.same_settings(&start),
                start.mix().lines(before_lines, w_id, items@.len()) == Some((items@, self.rng@)),
                self.is_warehouse(w_id),
                items@.len() <= ol_cnt <= MAX_OL_CNT,
                start.mix().order(start.rng@) == (match start.mix().lines(
                    before_lines,
                    w_id,
                    ol_cnt as nat,
                ) {
                    Some((lines, past)) => Some((DrawnOrder { w_id, d_id, c_id, lines }, past)),
                    None => None,
                }),
                forall|i: int| 0 <= i < items@.len() ==> start.can_order(w_id, #[trigger] items@[i]),
            decreases ol_cnt - items@.len(),
        {
            let ghost shorter = items@;
            match self.random_line(w_id) {
                Some(line) => {
                    items.push(line);
                    proof {
                        assert(items@ =~= shorter.push(line));
                    }
                },
                None => {
                    proof {
                        start.mix().lemma_fewer_lines(
                            before_lines,
                            w_id,
                            shorter.len() + 1,
                            ol_cnt as nat,
                        );
                    }
                    return None;
                },
            }
        }
        Some(TpccTransaction::NewOrder { w_id, d_id, c_id, items })
    }

    fn random_line(&mut self, w_id: u32) -> (line: Option<OrderItem>)
        requires
            old(self).wf(),
            old(self).is_warehouse(w_id),
        ensures
            final(self).wf(),
            final(self).same_settings(old(self)),
            match line {
                Some(drawn) => {
                    &&& old(self).can_order(w_id, drawn)
                    &&& old(self).mix().line(old(self).rng@, w_id) == Some((drawn, final(self).rng@))
                },
                None => old(self).mix().line(old(self).rng@, w_id) is None,
            },
    {
        let i_id: u32 = self.random_item();
        let home_node: usize = self.node_for_warehouse(w_id);
        proof {
            self.lemma_node_in_range(w_id);
        }
        let remote: bool = self.num_warehouses > 1 && flip(
            &mut self.rng,
            Ratio { numerator: REMOTE_WAREHOUSE_PERCENT, denominator: 100 },
        );
        let cross: bool = remote && self.cross_node_prob.numerator > 0 && self.num_nodes > 1
            && flip(&mut self.rng, self.cross_node_prob);
        let supplier: Option<u32> = match self.supply_source(remote, cross) {
            SupplySource::Home => Some(w_id),
            SupplySource::SameNode => self.random_other_warehouse_of_node(home_node, w_id),
            SupplySource::OtherNode => self.random_warehouse_from_different_node(home_node),
        };
        match supplier {
            Some(supply_w_id) => {
                let quantity: u32 = draw_u32(&mut self.rng, 1, MAX_OL_QUANTITY);
                Some(OrderItem { i_id, supply_w_id, quantity })
            },
            None => None,
        }
    }

    /// Where an order line is supplied from, for two coins that were tossed:
    /// whether it is remote, and whether it then crosses nodes. Where the home
    /// node has no other warehouse, the home warehouse supplies it.
    pub fn supply_source(&self, remote: bool, cross: bool) -> (source: SupplySource)
        ensures
            source == self.mix().source(remote, cross),
    {
        if self.num_warehouses > 1 && remote {
            if self.cross_node_prob.numerator > 0 && self.num_nodes > 1 && cross {
                SupplySource::OtherNode
            } else if self.warehouses_per_node > 1 {
                SupplySource::SameNode
            } else {
                SupplySource::Home
            }
        } else {
            SupplySource::Home
        }
    }

    /// A payment.
    pub fn generate_payment(&mut self) -> (transaction: TpccTransaction)
        requires
            old(self).wf(),
            old(self).mix().payment(old(self).rng@) is Some,
        ensures
            final(self).wf(),
            final(self).same_settings(old(self)),
            old(self).mix().payment(old(self).rng@) == Some((transaction, final(self).rng@)),
            old(self).can_generate(transaction),
    {
        self.draw_payment().unwrap()
    }

    fn draw_payment(&mut self) -> (transaction: Option<TpccTransaction>)
        requires
            old(self).wf(),
        ensures
            final(self).wf(),
            final(self).same_settings(old(self)),
            match transaction {
                Some(txn) => {
                    &&& old(self).mix().payment(old(self).rng@) == Some((txn, final(self).rng@))
                    &&& old(self).can_generate(txn)
                },
                None => old(self).mix().payment(old(self).rng@) is None,
            },
    {
        let w_id: u32 = self.random_warehouse();
        let d_id: u32 = self.random_district();
        let remote: bool = self.num_warehouses > 1 && flip(
            &mut self.rng,
            Ratio { numerator: REMOTE_CUSTOMER_PERCENT, denominator: 100 },
        );
        let (c_w_id, c_d_id) = if remote {
            match self.random_warehouse_excluding(w_id) {
                Some(remote_w_id) => {
                    let remote_d_id: u32 = self.random_district();
                    (remote_w_id, remote_d_id)
                },
                None => {
                    return None;
                },
            }
        } else {
            (w_id, d_id)
        };
        let c_id: u32 = self.random_customer();
        let cents: u64 = draw_u64(
            &mut self.rng,
            MIN_PAYMENT_CENTS as u64,
            MAX_PAYMENT_CENTS as u64,
        );
        Some(
            TpccTransaction::Payment { w_id, d_id, c_w_id, c_d_id, c_id, h_amount: cents as i64 },
        )
    }

    fn random_warehouse(&mut self) -> (w_id: u32)
        requires
            old(self).wf(),
        ensures
            final(self).wf(),
            final(self).same_settings(old(self)),
            old(self).is_warehouse(w_id),
            (w_id, final(self).rng@) == old(self).mix().warehouse(old(self).rng@),
    {
        draw_u32(&mut self.rng, 1, self.num_warehouses as u32)
    }

    fn random_warehouse_excluding(&mut self, exclude: u32) -> (other: Option<u32>)
        requires
            old(self).wf(),
        ensures
            final(self).wf(),
            final(self).same_settings(old(self)),
            ({
                let drawn = old(self).mix().other_warehouse(
                    old(self).rng@,
                    exclude,
                    MAX_TRIES as nat,
                );
                match other {
                    Some(w_id) => {
                        &&& drawn == Some((w_id, final(self).rng@))
                        &&& old(self).is_warehouse(w_id)
                        &&& w_id != exclude
                    },
                    None => drawn is None,
                }
            }),
    {
        let mut tries: u64 = 0;
        while tries < MAX_TRIES
            invariant
                tries <= MAX_TRIES,
                self.wf(),
                self.same_settings(old(self)),
                self.mix().other_warehouse(self.rng@, exclude, (MAX_TRIES - tries) as nat)
                    == old(self).mix().other_warehouse(old(self).rng@, exclude, MAX_TRIES as nat),
            decreases MAX_TRIES - tries,
        {
            let w_id: u32 = self.random_warehouse();
            if w_id != exclude {
                return Some(w_id);
            }
            tries = tries + 1;
        }
        None
    }

    fn random_district(&mut self) -> (d_id: u32)
        requires
            old(self).wf(),
        ensures
            final(self).wf(),
            final(self).same_settings(old(self)),
            1 <= d_id <= DISTRICTS_PER_WAREHOUSE,
            (d_id, final(self).rng@) == old(self).rng@.small(1, DISTRICTS_PER_WAREHOUSE as u32),
    {
        draw_u32(&mut self.rng, 1, DISTRICTS_PER_WAREHOUSE as u32)
    }

    fn random_customer(&mut self) -> (c_id: u32)
        requires
            old(self).wf(),
        ensures
            final(self).wf(),
            final(self).same_settings(old(self)),
            1 <= c_id <= CUSTOMERS_PER_DISTRICT,
            (c_id, final(self).rng@) == old(self).rng@.small(1, CUSTOMERS_PER_DISTRICT as u32),
    {
        draw_u32(&mut self.rng, 1, CUSTOMERS_PER_DISTRICT as u32)
    }

    fn random_item(&mut self) -> (i_id: u32)
        requires
            old(self).wf(),
        ensures
            final(self).wf(),
            final(self).same_settings(old(self)),
            1 <= i_id <= NUM_ITEMS,
            (i_id, final(self).rng@) == old(self).rng@.small(1, NUM_ITEMS as u32),
    {
        draw_u32(&mut self.rng, 1, NUM_ITEMS as u32)
    }

    /// The node of a warehouse.
    pub fn node_for_warehouse(&self, w_id: u32) -> (node: usize)
        requires
            self.wf(),
            self.is_warehouse(w_id),
        ensures
            node == node_of(w_id, self.warehouses_per_node),
            node < self.num_nodes,
    {
        proof {
            self.lemma_node_in_range(w_id);
        }
        ((w_id - 1) / self.warehouses_per_node as u32) as usize
    }

    proof fn lemma_node_in_range(&self, w_id: u32)
        requires
            self.wf(),
            self.is_warehouse(w_id),
        ensures
            1 <= self.warehouses_per_node <= self.num_warehouses,
            0 <= node_of(w_id, self.warehouses_per_node) < self.num_nodes,
    {
        let per = self.warehouses_per_node as int;
        let nodes = self.num_nodes as int;
        assert(1 <= per) by (nonlinear_arith)
            requires
                1 <= nodes * per,
                1 <= nodes,
                0 <= per,
        ;
        assert(per <= nodes * per) by (nonlinear_arith)
            requires
                1 <= nodes,
                1 <= per,
        ;
        let index = w_id - 1;
        vstd::arithmetic::div_mod::lemma_fundamental_div_mod(index, per);
        let node = index / per;
        assert(0 <= node) by (nonlinear_arith)
            requires
                node == index / per,
                0 <= index,
                1 <= per,
        ;
        assert(node < nodes) by (nonlinear_arith)
            requires
                per * node <= index,
                index < nodes * per,
                1 <= per,
        ;
    }

    proof fn lemma_range_of_node(&self, node: int, w_id: u32)
        requires
            self.wf(),
            0 <= node < self.num_nodes,
            node * self.warehouses_per_node < w_id <= (node + 1) * self.warehouses_per_node,
        ensures
            self.is_warehouse(w_id),
            node_of(w_id, self.warehouses_per_node) == node,
    {
        let per = self.warehouses_per_node as int;
        let nodes = self.num_nodes as int;
        assert((node + 1) * per <= nodes * per) by (nonlinear_arith)
            requires
                node + 1 <= nodes,
                0 <= per,
        ;
        assert(0 <= node * per) by (nonlinear_arith)
            requires
                0 <= node,
                0 <= per,
        ;
        assert((node + 1) * per == node * per + per) by (nonlinear_arith);
        vstd::arithmetic::div_mod::lemma_fundamental_div_mod_converse(
            w_id - 1,
            per,
            node,
            w_id - 1 - node * per,
        );
    }

    proof fn lemma_node_bounds(&self, node: int)
        requires
            self.wf(),
            0 <= node < self.num_nodes,
        ensures
            0 <= node * self.warehouses_per_node,
            (node + 1) * self.warehouses_per_node == node * self.warehouses_per_node
                + self.warehouses_per_node,
            (node + 1) * self.warehouses_per_node <= self.num_warehouses,
            1 <= self.warehouses_per_node,
    {
        let per = self.warehouses_per_node as int;
        let nodes = self.num_nodes as int;
        assert((node + 1) * per <= nodes * per) by (nonlinear_arith)
            requires
                node + 1 <= nodes,
                0 <= per,
        ;
        assert(0 <= node * per) by (nonlinear_arith)
            requires
                0 <= node,
                0 <= per,
        ;
        assert((node + 1) * per == node * per + per) by (nonlinear_arith);
        assert(1 <= per) by (nonlinear_arith)
            requires
                1 <= nodes * per,
                1 <= nodes,
                0 <= per,
        ;
    }

    fn random_warehouse_from_node(&mut self, node_id: usize) -> (w_id: u32)
        requires
            old(self).wf(),
            node_id < old(self).num_nodes,
        ensures
            final(self).wf(),
            final(self).same_settings(old(self)),
            old(self).is_warehouse(w_id),
            node_of(w_id, old(self).warehouses_per_node) == node_id,
            (w_id, final(self).rng@) == old(self).mix().warehouse_of(
                old(self).rng@,
                node_id as int,
            ),
    {
        proof {
            self.lemma_node_bounds(node_id as int);
        }
        let before: usize = node_id * self.warehouses_per_node;
        let low: u32 = before as u32 + 1;
        let high: u32 = (before + self.warehouses_per_node) as u32;
        let w_id: u32 = draw_u32(&mut self.rng, low, high);
        proof {
            self.lemma_range_of_node(node_id as int, w_id);
        }
        w_id
    }

    fn random_other_warehouse_of_node(&mut self, node_id: usize, exclude: u32) -> (other: Option<
        u32,
    >)
        requires
            old(self).wf(),
            node_id < old(self).num_nodes,
        ensures
            final(self).wf(),
            final(self).same_settings(old(self)),
            ({
                let drawn = old(self).mix().other_warehouse_of(
                    old(self).rng@,
                    node_id as int,
                    exclude,
                    MAX_TRIES as nat,
                );
                match other {
                    Some(w_id) => {
                        &&& drawn == Some((w_id, final(self).rng@))
                        &&& old(self).is_warehouse(w_id)
                        &&& node_of(w_id, old(self).warehouses_per_node) == node_id
                        &&& w_id != exclude
                    },
                    None => drawn is None,
                }
            }),
    {
        let mut tries: u64 = 0;
        while tries < MAX_TRIES
            invariant
                tries <= MAX_TRIES,
                self.wf(),
                self.same_settings(old(self)),
                node_id < old(self).num_nodes,
                self.mix().other_warehouse_of(
                    self.rng@,
                    node_id as int,
                    exclude,
                    (MAX_TRIES - tries) as nat,
                ) == old(self).mix().other_warehouse_of(
                    old(self).rng@,
                    node_id as int,
                    exclude,
                    MAX_TRIES as nat,
                ),
            decreases MAX_TRIES - tries,
        {
            let w_id: u32 = self.random_warehouse_from_node(node_id);
            if w_id != exclude {
                return Some(w_id);
            }
            tries = tries + 1;
        }
        None
    }

    fn random_warehouse_from_different_node(&mut self, exclude_node: usize) -> (other: Option<u32>)
        requires
            old(self).wf(),
        ensures
            final(self).wf(),
            final(self).same_settings(old(self)),
            ({
                let drawn = old(self).mix().warehouse_elsewhere(
                    old(self).rng@,
                    exclude_node as int,
                    MAX_TRIES as nat,
                );
                match other {
                    Some(w_id) => {
                        &&& drawn == Some((w_id, final(self).rng@))
                        &&& old(self).is_warehouse(w_id)
                        &&& node_of(w_id, old(self).warehouses_per_node) != exclude_node
                    },
                    None => drawn is None,
                }
            }),
    {
        let mut tries: u64 = 0;
        while tries < MAX_TRIES
            invariant
                tries <= MAX_TRIES,
                self.wf(),
                self.same_settings(old(self)),
                self.mix().warehouse_elsewhere(
                    self.rng@,
                    exclude_node as int,
                    (MAX_TRIES - tries) as nat,
                ) == old(self).mix().warehouse_elsewhere(
                    old(self).rng@,
                    exclude_node as int,
                    MAX_TRIES as nat,
                ),
            decreases MAX_TRIES - tries,
        {
            let node_id: usize = draw_usize(&mut self.rng, 0, self.num_nodes - 1);
            if node_id != exclude_node {
                return Some(self.random_warehouse_from_node(node_id));
            }
            tries = tries + 1;
        }
        None
    }
}

impl Mix {
    /// Where a number of lines cannot be drawn, no greater number can.
    proof fn lemma_fewer_lines(self, past: Past, home: u32, fewer: nat, more: nat)
        requires
            fewer <= more,
            self.lines(past, home, fewer) is None,
        ensures
            self.lines(past, home, more) is None,
        decreases more,
    {
        if fewer < more {
            self.lemma_fewer_lines(past, home, fewer, (more - 1) as nat);
        }
    }

    /// Where transactions can be drawn, fewer of them can.
    pub proof fn lemma_fewer_transactions(self, seed: u64, fewer: nat, more: nat)
        requires
            fewer <= more,
            self.past_after(seed, more) is Some,
        ensures
            self.past_after(seed, fewer) is Some,
        decreases more,
    {
        if fewer < more {
            self.lemma_fewer_transactions(seed, fewer, (more - 1) as nat);
        }
    }
}

/// A generator can be run again: with the same settings and the same past it
/// makes the same transaction, and goes on from the same past.
pub proof fn law_generation_is_reproducible(
    mix: Mix,
    past: Past,
    first: TpccTransaction,
    after_first: Past,
    second: TpccTransaction,
    after_second: Past,
)
    requires
        mix.makes(past, first, after_first),
        mix.makes(past, second, after_second),
    ensures
        after_first == after_second,
        mix.next(past) == Some(after_first),
        match (first, second) {
            (
                TpccTransaction::NewOrder { w_id, d_id, c_id, items },
                TpccTransaction::NewOrder { w_id: w, d_id: d, c_id: c, items: lines },
            ) => w_id == w && d_id == d && c_id == c && items@ == lines@,
            _ => first == second,
        },
{
}

/// Without cross-node transactions every order stays on its home node.
pub proof fn law_orders_stay_on_their_node(
    mix: Mix,
    transaction: TpccTransaction,
    i: int,
)
    requires
        mix.cross_node_prob.numerator == 0 || mix.num_nodes == 1,
        mix.can_generate(transaction),
        transaction matches TpccTransaction::NewOrder { items, .. } && 0 <= i < items@.len(),
    ensures
        transaction matches TpccTransaction::NewOrder { w_id, items, .. } && node_of(
            items@[i].supply_w_id,
            mix.warehouses_per_node,
        ) == node_of(w_id, mix.warehouses_per_node),
{
    if let TpccTransaction::NewOrder { w_id, d_id, c_id, items } = transaction {
        assert(mix.can_order(w_id, items@[i]));
    }
}

/// Whether a transaction is a payment or an order is the toss of one coin,
/// whose odds are the share of payments.
pub proof fn law_a_coin_tells_payments_from_orders(
    mix: Mix,
    past: Past,
    transaction: TpccTransaction,
    after: Past,
)
    requires
        mix.makes(past, transaction, after),
    ensures
        transaction is Payment <==> crate::random::coin_shown(
            past.seed,
            past.asked,
            mix.payment_ratio.numerator,
            mix.payment_ratio.denominator,
        ),
{
}

/// What a generator can come up with is within what the benchmark prescribes:
/// ten districts of three thousand customers, five to fifteen lines of one to
/// ten pieces of one of a hundred thousand items, payments of 1 to 5,000.
pub proof fn law_generated_transactions_are_within_bounds(
    mix: Mix,
    transaction: TpccTransaction,
    i: int,
)
    requires
        mix.can_generate(transaction),
    ensures
        match transaction {
            TpccTransaction::NewOrder { w_id, d_id, c_id, items } => {
                &&& 1 <= w_id <= mix.num_warehouses
                &&& 1 <= d_id <= 10
                &&& 1 <= c_id <= 3_000
                &&& 5 <= items@.len() <= 15
                &&& 0 <= i < items@.len() ==> {
                    &&& 1 <= items@[i].i_id <= 100_000
                    &&& 1 <= items@[i].quantity <= 10
                    &&& 1 <= items@[i].supply_w_id <= mix.num_warehouses
                }
            },
            TpccTransaction::Payment { w_id, d_id, c_w_id, c_d_id, c_id, h_amount } => {
                &&& 1 <= w_id <= mix.num_warehouses
                &&& 1 <= d_id <= 10
                &&& 1 <= c_w_id <= mix.num_warehouses
                &&& 1 <= c_d_id <= 10
                &&& 1 <= c_id <= 3_000
                &&& 100 <= h_amount <= 500_000
                &&& c_w_id == w_id ==> c_d_id == d_id
            },
        },
{
    if let TpccTransaction::NewOrder { w_id, d_id, c_id, items } = transaction {
        if 0 <= i < items@.len() {
            assert(mix.can_order(w_id, items@[i]));
        }
    }
}

proof fn lemma_another_warehouse(mix: Mix, past: Past, exclude: u32, tries: nat)
    ensures
        mix.other_warehouse(past, exclude, tries) matches Some((w_id, _)) ==> w_id != exclude,
    decreases tries,
{
    if tries > 0 {
        lemma_another_warehouse(mix, mix.warehouse(past).1, exclude, (tries - 1) as nat);
    }
}

proof fn lemma_another_warehouse_of(mix: Mix, past: Past, node: int, exclude: u32, tries: nat)
    ensures
        mix.other_warehouse_of(past, node, exclude, tries) matches Some((w_id, _)) ==> w_id
            != exclude,
    decreases tries,
{
    if tries > 0 {
        lemma_another_warehouse_of(
            mix,
            mix.warehouse_of(past, node).1,
            node,
            exclude,
            (tries - 1) as nat,
        );
    }
}

/// Whose customer pays: with odds of 15 in a hundred one of another warehouse,
/// else one of the district that takes the payment.
pub proof fn law_customers_pay_at_home_or_elsewhere(
    mix: Mix,
    past: Past,
    transaction: TpccTransaction,
    after: Past,
)
    requires
        mix.payment(past) == Some((transaction, after)),
    ensures
        ({
            let asked = past.asked.push(
                crate::random::Ask::Small { low: 1, high: mix.num_warehouses as u32 },
            ).push(crate::random::Ask::Small { low: 1, high: 10 });
            let remote = mix.num_warehouses > 1 && crate::random::coin_shown(
                past.seed,
                asked,
                15,
                100,
            );
            transaction matches TpccTransaction::Payment { w_id, d_id, c_w_id, c_d_id, .. } && (
            remote ==> c_w_id != w_id) && (!remote ==> c_w_id == w_id && c_d_id == d_id)
        }),
{
    let (w_id, next) = mix.warehouse(past);
    let (d_id, next) = next.small(1, DISTRICTS_PER_WAREHOUSE as u32);
    let (remote, next) = next.coin(
        Ratio { numerator: REMOTE_CUSTOMER_PERCENT, denominator: 100 },
    );
    lemma_another_warehouse(mix, next, w_id, MAX_TRIES as nat);
}

/// Where a line is supplied from: with odds of 15 in a hundred from elsewhere,
/// where there is another warehouse on the node or the line leaves the node,
/// else from the home warehouse.
pub proof fn law_lines_are_supplied_at_home_or_elsewhere(
    mix: Mix,
    past: Past,
    home: u32,
    line: OrderItem,
    after: Past,
)
    requires
        mix.line(past, home) == Some((line, after)),
    ensures
        ({
            let asked = past.asked.push(crate::random::Ask::Small { low: 1, high: 100_000 });
            let remote = mix.num_warehouses > 1 && crate::random::coin_shown(
                past.seed,
                asked,
                15,
                100,
            );
            &&& !remote ==> line.supply_w_id == home
            &&& remote && mix.warehouses_per_node > 1 && (mix.num_nodes == 1
                || mix.cross_node_prob.numerator == 0) ==> line.supply_w_id != home
            &&& line.i_id == crate::random::drawn_small(past.seed, past.asked, 1, 100_000)
        }),
{
    let (i_id, next) = past.small(1, NUM_ITEMS as u32);
    let (remote, next) = next.coin(
        Ratio { numerator: REMOTE_WAREHOUSE_PERCENT, denominator: 100 },
    );
    lemma_another_warehouse_of(
        mix,
        next,
        node_of(home, mix.warehouses_per_node),
        home,
        MAX_TRIES as nat,
    );
}

/// Where a line comes from for given coins: from another node only where lines
/// may leave their node and both coins say so; from another warehouse of the
/// node where only the first says so and there is one.
pub proof fn law_supply_follows_the_coins(mix: Mix, remote: bool, cross: bool)
    ensures
        mix.source(remote, cross) is OtherNode <==> remote && cross && mix.num_warehouses > 1
            && mix.num_nodes > 1 && mix.cross_node_prob.numerator > 0,
        mix.source(remote, cross) is SameNode ==> remote && mix.warehouses_per_node > 1,
        !remote ==> mix.source(remote, cross) is Home,
        remote && mix.num_warehouses > 1 && mix.warehouses_per_node > 1 ==> !(mix.source(
            remote,
            cross,
        ) is Home),
{
}

/// The warehouses of a node follow each other, as many on each node, and the
/// nodes follow each other: warehouse 1 is the first of node 0.
pub proof fn law_warehouses_are_spread_evenly(w_id: u32, warehouses_per_node: usize)
    requires
        w_id >= 1,
        warehouses_per_node >= 1,
    ensures
        node_of(w_id, warehouses_per_node) * warehouses_per_node < w_id,
        w_id <= (node_of(w_id, warehouses_per_node) + 1) * warehouses_per_node,
{
    let n = warehouses_per_node as int;
    vstd::arithmetic::div_mod::lemma_fundamental_div_mod(w_id - 1, n);
    vstd::arithmetic::div_mod::lemma_mod_bound(w_id - 1, n);
    let q = (w_id - 1) / n;
    assert(n * q == q * n) by (nonlinear_arith);
    assert((q + 1) * n == q * n + n) by (nonlinear_arith);
}

/// An order has as many lines as are drawn for it, five to fifteen, one drawn
/// after the other.
pub proof fn law_orders_have_the_drawn_number_of_lines(
    mix: Mix,
    past: Past,
    home: u32,
    count: nat,
)
    ensures
        mix.lines(past, home, count) matches Some((lines, after)) ==> {
            &&& lines.len() == count
            &&& count > 0 ==> (mix.lines(past, home, (count - 1) as nat) matches Some(
                (fewer, between),
            ) && fewer == lines.drop_last() && mix.line(between, home) == Some(
                (lines.last(), after),
            ))
        },
    decreases count,
{
    if count > 0 {
        law_orders_have_the_drawn_number_of_lines(mix, past, home, (count - 1) as nat);
        if let Some((lines, after)) = mix.lines(past, home, count) {
            if let Some((fewer, between)) = mix.lines(past, home, (count - 1) as nat) {
                assert(lines.drop_last() =~= fewer);
            }
        }
    }
}

/// Transactions are drawn one after the other from a seed on: the first from
/// the seed alone, each further one from where the one before it left off.
pub proof fn law_transactions_are_drawn_one_after_the_other(mix: Mix, seed: u64, count: nat)
    ensures
        mix.past_after(seed, 0) == Some(Past { seed, asked: Seq::empty() }),
        mix.past_after(seed, count + 1) is Some ==> mix.past_after(seed, count) is Some
            && mix.past_after(seed, count + 1) == mix.next(mix.past_after(seed, count)->0),
{
}

/// Each node has its own range of warehouses, which begins right after that
/// of the node before it.
pub proof fn law_nodes_have_their_warehouses(mix: Mix, node: int)
    requires
        mix.wf(),
        0 <= node < mix.num_nodes,
    ensures
        node == 0 ==> mix.first_of(node) == 1,
        mix.first_of(node) == node * mix.warehouses_per_node + 1,
        node_of(mix.first_of(node), mix.warehouses_per_node) == node,
        node_of(
            (mix.first_of(node) + mix.warehouses_per_node - 1) as u32,
            mix.warehouses_per_node,
        ) == node,
        mix.is_warehouse(mix.first_of(node)),
        mix.is_warehouse((mix.first_of(node) + mix.warehouses_per_node - 1) as u32),
{
    let per = mix.warehouses_per_node as int;
    let nodes = mix.num_nodes as int;
    assert(per >= 1) by (nonlinear_arith)
        requires
            nodes * per >= 1,
            nodes >= 1,
            per >= 0,
    ;
    assert(0 <= node * per && node * per + per <= nodes * per) by (nonlinear_arith)
        requires
            0 <= node < nodes,
            per >= 1,
    ;
    assert(node * per == per * node) by (nonlinear_arith);
    vstd::arithmetic::div_mod::lemma_fundamental_div_mod_converse(node * per, per, node, 0);
    vstd::arithmetic::div_mod::lemma_fundamental_div_mod_converse(
        node * per + per - 1,
        per,
        node,
        per - 1,
    );
}

/// Draws go on until a warehouse comes up that is not excluded, and that one
/// is taken: a first draw that is not excluded is the only one.
pub proof fn law_excluded_warehouses_are_drawn_again(
    mix: Mix,
    past: Past,
    node: int,
    exclude: u32,
    tries: nat,
)
    requires
        tries > 0,
    ensures
        mix.warehouse(past).0 != exclude ==> mix.other_warehouse(past, exclude, tries) == Some(
            mix.warehouse(past),
        ),
        mix.warehouse(past).0 == exclude ==> mix.other_warehouse(past, exclude, tries)
            == mix.other_warehouse(mix.warehouse(past).1, exclude, (tries - 1) as nat),
        mix.other_warehouse(past, exclude, tries) matches Some(drawn) ==> drawn.0 != exclude,
        mix.warehouse_of(past, node).0 != exclude ==> mix.other_warehouse_of(
            past,
            node,
            exclude,
            tries,
        ) == Some(mix.warehouse_of(past, node)),
        mix.warehouse_of(past, node).0 == exclude ==> mix.other_warehouse_of(
            past,
            node,
            exclude,
            tries,
        ) == mix.other_warehouse_of(
            mix.warehouse_of(past, node).1,
            node,
            exclude,
            (tries - 1) as nat,
        ),
        mix.other_warehouse_of(past, node, exclude, tries) matches Some(drawn) ==> drawn.0
            != exclude,
    decreases tries,
{
    if tries > 1 {
        if mix.warehouse(past).0 == exclude {
            law_excluded_warehouses_are_drawn_again(
                mix,
                mix.warehouse(past).1,
                node,
                exclude,
                (tries - 1) as nat,
            );
        }
        if mix.warehouse_of(past, node).0 == exclude {
            law_excluded_warehouses_are_drawn_again(
                mix,
                mix.warehouse_of(past, node).1,
                node,
                exclude,
                (tries - 1) as nat,
            );
        }
    }
    reveal_with_fuel(Mix::other_warehouse, 2);
    reveal_with_fuel(Mix::other_warehouse_of, 2);
}

/// A warehouse is drawn evenly from the numbers of all warehouses, or of
/// those of a node, by one draw.
pub proof fn law_warehouses_are_drawn_from_their_range(mix: Mix, past: Past, node: int)
    requires
        mix.wf(),
        0 <= node < mix.num_nodes,
    ensures
        mix.warehouse(past).0 == crate::random::drawn_small(
            past.seed,
            past.asked,
            1,
            mix.num_warehouses as u32,
        ),
        mix.warehouse(past).1.seed == past.seed,
        mix.warehouse(past).1.asked.len() == past.asked.len() + 1,
        mix.warehouse_of(past, node).0 == crate::random::drawn_small(
            past.seed,
            past.asked,
            mix.first_of(node),
            (mix.first_of(node) + mix.warehouses_per_node - 1) as u32,
        ),
        mix.warehouse_of(past, node).1.asked.len() == past.asked.len() + 1,
{
    law_nodes_have_their_warehouses(mix, node);
}

/// A generator whose settings stay draws from the same mix.
pub proof fn law_settings_make_the_mix(one: TpccGenerator, other: TpccGenerator)
    ensures
        one.same_settings(&other) <==> one.mix() == other.mix(),
{
}

} // verus!

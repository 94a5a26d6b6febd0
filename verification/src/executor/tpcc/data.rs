//! The tables of the benchmark, and the objects that their records are.
use std::collections::hash_map::DefaultHasher;
use std::hash::Hasher;

use vstd::bytes::u64_to_le_bytes;
use vstd::prelude::*;
use vstd::std_specs::hash::DefaultHasherAdditionalSpecFns;

use crate::base_types::{object_id_from_bytes, ObjectID};
use crate::executor::tpcc::constants::{
    CUSTOMERS_PER_DISTRICT, DISTRICTS_PER_WAREHOUSE, INITIAL_BALANCE_CENTS, INITIAL_D_YTD_CENTS,
    INITIAL_NEXT_O_ID, INITIAL_PAYMENT_CNT, INITIAL_W_YTD_CENTS, INITIAL_YTD_PAYMENT_CENTS,
    MAX_DISCOUNT_BPS, MAX_PRICE_CENTS, MAX_QUANTITY, MAX_TAX_BPS, MIN_DISCOUNT_BPS,
    MIN_PRICE_CENTS, MIN_QUANTITY, MIN_TAX_BPS, NUM_ITEMS, STOCK_PER_WAREHOUSE,
};
use crate::random::{draw_u32, draw_word, seeded, Ask, Past, SeededRng};
use crate::tables::ConcurrentMap;
use crate::text::{numbered, push_decimal, push_decimal_bytes};

verus! {

/// A warehouse.
#[derive(Debug)]
pub struct Warehouse {
    pub w_id: u32,
    /// What the warehouse took in this year, in cents.
    pub w_ytd: i64,
    /// The tax rate, in steps of the range of tax rates.
    pub w_tax: u64,
    pub w_name: String,
}

/// A district of a warehouse.
#[derive(Debug)]
pub struct District {
    pub d_id: u32,
    pub d_w_id: u32,
    /// What the district took in this year, in cents.
    pub d_ytd: i64,
    /// The tax rate, in steps of the range of tax rates.
    pub d_tax: u64,
    pub d_next_o_id: u32,
    pub d_name: String,
}

/// A customer of a district.
#[derive(Debug)]
pub struct Customer {
    pub c_id: u32,
    pub c_d_id: u32,
    pub c_w_id: u32,
    /// The balance, in cents.
    pub c_balance: i64,
    /// What the customer paid this year, in cents.
    pub c_ytd_payment: i64,
    pub c_payment_cnt: u32,
    /// The discount, in steps of the range of discounts.
    pub c_discount: u64,
    pub c_first: String,
    pub c_last: String,
}

/// The stock of an item in a warehouse.
#[derive(Clone, Copy, Debug, PartialEq, Eq, Structural)]
pub struct Stock {
    pub s_i_id: u32,
    pub s_w_id: u32,
    pub s_quantity: i32,
    pub s_ytd: u32,
    pub s_order_cnt: u32,
    pub s_remote_cnt: u32,
}

/// An item.
#[derive(Debug)]
pub struct Item {
    pub i_id: u32,
    /// The price, in steps of the range of prices.
    pub i_price: u64,
    pub i_name: String,
    pub i_data: String,
}

/// The number of steps of a continuous range: a number of the range is kept as
/// the number of equal steps from the low end up to it.
pub const RANGE_STEPS: u64 = 4_503_599_627_370_495;

/// By what a draw of 64 bits is divided to give a number of steps.
pub const WORDS_PER_STEP: u64 = 4096;

/// What lies a number of steps above the low end of a range, rounded down.
pub open spec fn scaled(step: u64, low: u32, high: u32) -> int {
    low + (high - low) * step / (RANGE_STEPS as int)
}

/// What lies a number of steps above the low end of a range, rounded down.
fn at_scale(step: u64, low: u32, high: u32) -> (number: u32)
    requires
        step <= RANGE_STEPS,
        low <= high,
    ensures
        number == scaled(step, low, high),
        low <= number <= high,
{
    let width: u128 = (high - low) as u128;
    proof {
        assert(0 <= width * step <= width * RANGE_STEPS) by (nonlinear_arith)
            requires
                0 <= width,
                0 <= step <= RANGE_STEPS,
        ;
        assert(width * RANGE_STEPS <= 0xffff_ffff * 4_503_599_627_370_495) by (nonlinear_arith)
            requires
                width <= 0xffff_ffff,
                RANGE_STEPS == 4_503_599_627_370_495,
        ;
        assert((width * step) / (RANGE_STEPS as int) <= width) by (nonlinear_arith)
            requires
                width * step <= width * RANGE_STEPS,
                RANGE_STEPS > 0,
        ;
        assert(0 <= (width * step) / (RANGE_STEPS as int)) by (nonlinear_arith)
            requires
                0 <= width * step,
                RANGE_STEPS > 0,
        ;
    }
    low + (width * step as u128 / RANGE_STEPS as u128) as u32
}

impl Warehouse {
    /// The tax rate in basis points, rounded down.
    pub fn tax_bps(&self) -> (tax: u32)
        requires
            self.w_tax <= RANGE_STEPS,
        ensures
            tax == scaled(self.w_tax, MIN_TAX_BPS, MAX_TAX_BPS),
    {
        at_scale(self.w_tax, MIN_TAX_BPS, MAX_TAX_BPS)
    }
}

impl District {
    /// The tax rate in basis points, rounded down.
    pub fn tax_bps(&self) -> (tax: u32)
        requires
            self.d_tax <= RANGE_STEPS,
        ensures
            tax == scaled(self.d_tax, MIN_TAX_BPS, MAX_TAX_BPS),
    {
        at_scale(self.d_tax, MIN_TAX_BPS, MAX_TAX_BPS)
    }
}

impl Customer {
    /// The discount in basis points, rounded down.
    pub fn discount_bps(&self) -> (discount: u32)
        requires
            self.c_discount <= RANGE_STEPS,
        ensures
            discount == scaled(self.c_discount, MIN_DISCOUNT_BPS, MAX_DISCOUNT_BPS),
    {
        at_scale(self.c_discount, MIN_DISCOUNT_BPS, MAX_DISCOUNT_BPS)
    }
}

impl Item {
    /// The price in cents, rounded down.
    pub fn price_cents(&self) -> (price: u32)
        requires
            self.i_price <= RANGE_STEPS,
        ensures
            price == scaled(self.i_price, MIN_PRICE_CENTS, MAX_PRICE_CENTS),
    {
        at_scale(self.i_price, MIN_PRICE_CENTS, MAX_PRICE_CENTS)
    }
}

impl Clone for Warehouse {
    fn clone(&self) -> (copy: Self)
        ensures
            copy == *self,
    {
        Warehouse {
            w_id: self.w_id,
            w_ytd: self.w_ytd,
            w_tax: self.w_tax,
            w_name: self.w_name.clone(),
        }
    }
}

impl Clone for District {
    fn clone(&self) -> (copy: Self)
        ensures
            copy == *self,
    {
        District {
            d_id: self.d_id,
            d_w_id: self.d_w_id,
            d_ytd: self.d_ytd,
            d_tax: self.d_tax,
            d_next_o_id: self.d_next_o_id,
            d_name: self.d_name.clone(),
        }
    }
}

impl Clone for Customer {
    fn clone(&self) -> (copy: Self)
        ensures
            copy == *self,
    {
        Customer {
            c_id: self.c_id,
            c_d_id: self.c_d_id,
            c_w_id: self.c_w_id,
            c_balance: self.c_balance,
            c_ytd_payment: self.c_ytd_payment,
            c_payment_cnt: self.c_payment_cnt,
            c_discount: self.c_discount,
            c_first: self.c_first.clone(),
            c_last: self.c_last.clone(),
        }
    }
}

impl Clone for Item {
    fn clone(&self) -> (copy: Self)
        ensures
            copy == *self,
    {
        Item {
            i_id: self.i_id,
            i_price: self.i_price,
            i_name: self.i_name.clone(),
            i_data: self.i_data.clone(),
        }
    }
}

/// What names a record.
#[derive(Clone, Copy, Debug, PartialEq, Eq, Structural)]
pub enum RecordKey {
    Warehouse { w_id: u32 },
    District { w_id: u32, d_id: u32 },
    Customer { w_id: u32, d_id: u32, c_id: u32 },
    Stock { w_id: u32, i_id: u32 },
    Item { i_id: u32 },
}

/// A letter and an underscore.
pub open spec fn initial(letter: u8) -> Seq<u8> {
    seq![letter, 95u8]
}

/// The bytes of a number that another one follows.
pub open spec fn part(n: u32) -> Seq<u8> {
    crate::text::decimal_bytes(n as nat).push(95u8)
}

impl RecordKey {
    /// The text that names the record: a letter for the table, then the
    /// numbers of its key, with underscores between them.
    pub open spec fn bytes(self) -> Seq<u8> {
        match self {
            RecordKey::Warehouse { w_id } => initial(87) + crate::text::decimal_bytes(w_id as nat),
            RecordKey::District { w_id, d_id } => initial(68) + part(w_id)
                + crate::text::decimal_bytes(d_id as nat),
            RecordKey::Customer { w_id, d_id, c_id } => initial(67) + part(w_id) + part(d_id)
                + crate::text::decimal_bytes(c_id as nat),
            RecordKey::Stock { w_id, i_id } => initial(83) + part(w_id)
                + crate::text::decimal_bytes(i_id as nat),
            RecordKey::Item { i_id } => initial(73) + crate::text::decimal_bytes(i_id as nat),
        }
    }

    /// The text that names the record.
    pub fn key_bytes(&self) -> (bytes: Vec<u8>)
        ensures
            bytes@ =~= self.bytes(),
    {
        let mut bytes: Vec<u8> = Vec::new();
        match self {
            RecordKey::Warehouse { w_id } => {
                bytes.push(87);
                bytes.push(95);
                push_decimal_bytes(&mut bytes, *w_id);
            },
            RecordKey::District { w_id, d_id } => {
                bytes.push(68);
                bytes.push(95);
                push_decimal_bytes(&mut bytes, *w_id);
                bytes.push(95);
                push_decimal_bytes(&mut bytes, *d_id);
            },
            RecordKey::Customer { w_id, d_id, c_id } => {
                bytes.push(67);
                bytes.push(95);
                push_decimal_bytes(&mut bytes, *w_id);
                bytes.push(95);
                push_decimal_bytes(&mut bytes, *d_id);
                bytes.push(95);
                push_decimal_bytes(&mut bytes, *c_id);
            },
            RecordKey::Stock { w_id, i_id } => {
                bytes.push(83);
                bytes.push(95);
                push_decimal_bytes(&mut bytes, *w_id);
                bytes.push(95);
                push_decimal_bytes(&mut bytes, *i_id);
            },
            RecordKey::Item { i_id } => {
                bytes.push(73);
                bytes.push(95);
                push_decimal_bytes(&mut bytes, *i_id);
            },
        }
        bytes
    }
}

/// The hash of a text: that of its bytes, and of a byte that ends it.
pub open spec fn key_hash(bytes: Seq<u8>) -> u64 {
    DefaultHasher::spec_finish(seq![bytes, seq![0xffu8]])
}

/// The bytes of the identifier that a hash gives: the hash, least significant
/// byte first, then its lowest bytes after shifts by 0 to 7 bits, over and over.
pub open spec fn hash_bytes(hash: u64) -> Seq<u8> {
    vstd::bytes::spec_u64_to_le_bytes(hash) + Seq::new(
        24,
        |i: int| ((hash >> ((i % 8) as u64)) & 0xff) as u8,
    )
}

/// The object that a record is.
pub open spec fn record_id(key: RecordKey) -> ObjectID {
    crate::base_types::id_of_bytes(hash_bytes(key_hash(key.bytes())))
}

fn make_object_id(key: &RecordKey) -> (id: ObjectID)
    ensures
        id == record_id(*key),
{
    let mut hasher: DefaultHasher = DefaultHasher::new();
    let text: Vec<u8> = key.key_bytes();
    let mut end: Vec<u8> = Vec::new();
    end.push(0xff);
    hasher.write(text.as_slice());
    hasher.write(end.as_slice());
    let hash: u64 = hasher.finish();
    proof {
        assert(end@ =~= seq![0xffu8]);
        assert(hasher@ =~= seq![key.bytes(), seq![0xffu8]]);
        vstd::bytes::lemma_auto_spec_u64_to_from_le_bytes();
    }
    let mut bytes: Vec<u8> = u64_to_le_bytes(hash);
    let mut i: usize = 0;
    while i < 24
        invariant
            i <= 24,
            bytes@.len() == 8 + i,
            bytes@ =~= hash_bytes(hash).take(8 + i),
            hash_bytes(hash).len() == 32,
            vstd::bytes::spec_u64_to_le_bytes(hash).len() == 8,
        decreases 24 - i,
    {
        let shift: u64 = (i % 8) as u64;
        let low: u64 = (hash >> shift) & 0xff;
        assert(low <= 0xff) by {
            assert((hash >> shift) & 0xff <= 0xff) by (bit_vector);
        }
        bytes.push(low as u8);
        i = i + 1;
    }
    proof {
        assert(hash_bytes(hash).take(32) =~= hash_bytes(hash));
    }
    match object_id_from_bytes(&bytes) {
        Some(id) => id,
        None => (0, 0),
    }
}

/// Two records whose names hash differently are different objects.
pub proof fn law_hashes_tell_objects_apart(a: RecordKey, b: RecordKey)
    ensures
        record_id(a) == record_id(b) <==> key_hash(a.bytes()) == key_hash(b.bytes()),
{
    vstd::bytes::lemma_auto_spec_u64_to_from_le_bytes();
    let x = hash_bytes(key_hash(a.bytes()));
    let y = hash_bytes(key_hash(b.bytes()));
    if record_id(a) == record_id(b) {
        crate::base_types::law_identifier_tells_bytes_apart(x, y);
        assert(x.take(8) =~= vstd::bytes::spec_u64_to_le_bytes(key_hash(a.bytes())));
        assert(y.take(8) =~= vstd::bytes::spec_u64_to_le_bytes(key_hash(b.bytes())));
    }
}

proof fn lemma_parts_split(a: u32, b: u32, after_a: Seq<u8>, after_b: Seq<u8>)
    requires
        part(a) + after_a == part(b) + after_b,
    ensures
        a == b,
        after_a == after_b,
{
    let x = crate::text::decimal_bytes(a as nat);
    let y = crate::text::decimal_bytes(b as nat);
    crate::text::lemma_decimal_bytes_are_digits(a as nat);
    crate::text::lemma_decimal_bytes_are_digits(b as nat);
    let s = part(a) + after_a;
    let t = part(b) + after_b;
    assert(s[x.len() as int] == 95);
    assert(t[y.len() as int] == 95);
    if x.len() < y.len() {
        assert(t[x.len() as int] == y[x.len() as int]);
    }
    if y.len() < x.len() {
        assert(s[y.len() as int] == x[y.len() as int]);
    }
    assert(x =~= s.take(x.len() as int));
    assert(y =~= t.take(y.len() as int));
    crate::text::lemma_decimal_bytes_injective(a as nat, b as nat);
    assert(after_a =~= s.skip(part(a).len() as int));
    assert(after_b =~= t.skip(part(b).len() as int));
}

/// Different records have different names.
pub proof fn law_names_tell_records_apart(a: RecordKey, b: RecordKey)
    requires
        a.bytes() == b.bytes(),
    ensures
        a == b,
{
    let s = a.bytes();
    let t = b.bytes();
    assert(s[0] == t[0]);
    match (a, b) {
        (RecordKey::Warehouse { w_id: x }, RecordKey::Warehouse { w_id: y }) => {
            assert(s.skip(2) =~= crate::text::decimal_bytes(x as nat));
            assert(t.skip(2) =~= crate::text::decimal_bytes(y as nat));
            crate::text::lemma_decimal_bytes_injective(x as nat, y as nat);
        },
        (RecordKey::Item { i_id: x }, RecordKey::Item { i_id: y }) => {
            assert(s.skip(2) =~= crate::text::decimal_bytes(x as nat));
            assert(t.skip(2) =~= crate::text::decimal_bytes(y as nat));
            crate::text::lemma_decimal_bytes_injective(x as nat, y as nat);
        },
        (RecordKey::District { w_id: w, d_id: x }, RecordKey::District { w_id: v, d_id: y }) => {
            lemma_two_parts(68, w, x, v, y);
        },
        (RecordKey::Stock { w_id: w, i_id: x }, RecordKey::Stock { w_id: v, i_id: y }) => {
            lemma_two_parts(83, w, x, v, y);
        },
        (
            RecordKey::Customer { w_id: w, d_id: x, c_id: c },
            RecordKey::Customer { w_id: v, d_id: y, c_id: e },
        ) => {
            let after_w = part(x) + crate::text::decimal_bytes(c as nat);
            let after_v = part(y) + crate::text::decimal_bytes(e as nat);
            assert(s.skip(2) =~= part(w) + after_w);
            assert(t.skip(2) =~= part(v) + after_v);
            lemma_parts_split(w, v, after_w, after_v);
            lemma_parts_split(
                x,
                y,
                crate::text::decimal_bytes(c as nat),
                crate::text::decimal_bytes(e as nat),
            );
            crate::text::lemma_decimal_bytes_injective(c as nat, e as nat);
        },
        _ => {
            assert(false);
        },
    }
}

proof fn lemma_two_parts(letter: u8, w: u32, x: u32, v: u32, y: u32)
    requires
        initial(letter) + part(w) + crate::text::decimal_bytes(x as nat) == initial(letter) + part(v)
            + crate::text::decimal_bytes(y as nat),
    ensures
        w == v,
        x == y,
{
    let s = initial(letter) + part(w) + crate::text::decimal_bytes(x as nat);
    let t = initial(letter) + part(v) + crate::text::decimal_bytes(y as nat);
    assert(s.skip(2) =~= part(w) + crate::text::decimal_bytes(x as nat));
    assert(t.skip(2) =~= part(v) + crate::text::decimal_bytes(y as nat));
    lemma_parts_split(
        w,
        v,
        crate::text::decimal_bytes(x as nat),
        crate::text::decimal_bytes(y as nat),
    );
    crate::text::lemma_decimal_bytes_injective(x as nat, y as nat);
}

/// The seed of the draws that the tables are filled with.
pub const TABLES_SEED: u64 = 42;

/// The price of an item is asked for.
pub open spec fn price_ask() -> Ask {
    Ask::Word
}

/// A tax rate is asked for.
pub open spec fn tax_ask() -> Ask {
    Ask::Word
}

/// The discount of a customer is asked for.
pub open spec fn discount_ask() -> Ask {
    Ask::Word
}

/// The quantity of a stock is asked for.
pub open spec fn quantity_ask() -> Ask {
    Ask::Small { low: MIN_QUANTITY as u32, high: MAX_QUANTITY as u32 }
}

/// The same is asked for a number of times.
pub open spec fn repeated(ask: Ask, count: nat) -> Seq<Ask> {
    Seq::new(count, |i: int| ask)
}

/// What is asked for to fill districts: for each one its tax rate, then the
/// discounts of its customers.
pub open spec fn district_asks(count: nat) -> Seq<Ask>
    decreases count,
{
    if count == 0 {
        Seq::empty()
    } else {
        district_asks((count - 1) as nat).push(tax_ask()) + repeated(
            discount_ask(),
            CUSTOMERS_PER_DISTRICT as nat,
        )
    }
}

/// What is asked for to fill warehouses: for each one its tax rate, then what
/// its districts take, then the quantities of its stock.
pub open spec fn warehouse_asks(count: nat) -> Seq<Ask>
    decreases count,
{
    if count == 0 {
        Seq::empty()
    } else {
        warehouse_asks((count - 1) as nat).push(tax_ask()) + district_asks(
            DISTRICTS_PER_WAREHOUSE as nat,
        ) + repeated(quantity_ask(), STOCK_PER_WAREHOUSE as nat)
    }
}

/// What is asked for before an item.
pub open spec fn before_item(i_id: u32) -> Seq<Ask> {
    repeated(price_ask(), (i_id - 1) as nat)
}

/// What is asked for before a warehouse: the items, then the warehouses that
/// come first.
pub open spec fn before_warehouse(w_id: u32) -> Seq<Ask> {
    repeated(price_ask(), NUM_ITEMS as nat) + warehouse_asks((w_id - 1) as nat)
}

/// What is asked for before a district of a warehouse.
pub open spec fn before_district(w_id: u32, d_id: u32) -> Seq<Ask> {
    before_warehouse(w_id).push(tax_ask()) + district_asks((d_id - 1) as nat)
}

/// What is asked for before a customer of a district.
pub open spec fn before_customer(w_id: u32, d_id: u32, c_id: u32) -> Seq<Ask> {
    before_district(w_id, d_id).push(tax_ask()) + repeated(discount_ask(), (c_id - 1) as nat)
}

/// What is asked for before a stock of a warehouse.
pub open spec fn before_stock(w_id: u32, i_id: u32) -> Seq<Ask> {
    before_warehouse(w_id).push(tax_ask()) + district_asks(DISTRICTS_PER_WAREHOUSE as nat)
        + repeated(quantity_ask(), (i_id - 1) as nat)
}

/// What is drawn when the tables are filled, by what was asked for before.
pub open spec fn table_draw(asked: Seq<Ask>, low: u32, high: u32) -> u32 {
    crate::random::drawn_small(TABLES_SEED, asked, low, high)
}

/// The step of a continuous range that is drawn when the tables are filled, by
/// what was asked for before.
pub open spec fn table_step(asked: Seq<Ask>) -> u64 {
    crate::random::drawn_word(TABLES_SEED, asked) / WORDS_PER_STEP
}

/// Whether a record is that of an item at the start.
pub open spec fn fresh_item(i_id: u32, item: Item) -> bool {
    &&& item.i_id == i_id
    &&& item.i_price == table_step(before_item(i_id))
    &&& item.i_price <= RANGE_STEPS
    &&& item.i_name@ =~= "Item_"@ + crate::text::decimal(i_id as nat)
    &&& item.i_data@ =~= "ItemData_"@ + crate::text::decimal(i_id as nat)
}

/// Whether a record is that of a warehouse at the start.
pub open spec fn fresh_warehouse(w_id: u32, warehouse: Warehouse) -> bool {
    &&& warehouse.w_id == w_id
    &&& warehouse.w_ytd == INITIAL_W_YTD_CENTS
    &&& warehouse.w_tax == table_step(before_warehouse(w_id))
    &&& warehouse.w_tax <= RANGE_STEPS
    &&& warehouse.w_name@ =~= "Warehouse_"@ + crate::text::decimal(w_id as nat)
}

/// Whether a record is that of a district at the start.
pub open spec fn fresh_district(w_id: u32, d_id: u32, district: District) -> bool {
    &&& district.d_id == d_id
    &&& district.d_w_id == w_id
    &&& district.d_ytd == INITIAL_D_YTD_CENTS
    &&& district.d_tax == table_step(before_district(w_id, d_id))
    &&& district.d_tax <= RANGE_STEPS
    &&& district.d_next_o_id == INITIAL_NEXT_O_ID
    &&& district.d_name@ =~= "District_"@ + crate::text::decimal(w_id as nat) + "_"@
        + crate::text::decimal(d_id as nat)
}

/// Whether a record is that of a customer at the start.
pub open spec fn fresh_customer(w_id: u32, d_id: u32, c_id: u32, customer: Customer) -> bool {
    &&& customer.c_id == c_id
    &&& customer.c_d_id == d_id
    &&& customer.c_w_id == w_id
    &&& customer.c_balance == INITIAL_BALANCE_CENTS
    &&& customer.c_ytd_payment == INITIAL_YTD_PAYMENT_CENTS
    &&& customer.c_payment_cnt == INITIAL_PAYMENT_CNT
    &&& customer.c_discount == table_step(before_customer(w_id, d_id, c_id))
    &&& customer.c_discount <= RANGE_STEPS
    &&& customer.c_first@ =~= "First_"@ + crate::text::decimal(c_id as nat)
    &&& customer.c_last@ =~= "Last_"@ + crate::text::decimal(c_id as nat)
}

/// Whether a record is that of a stock at the start.
pub open spec fn fresh_stock(w_id: u32, i_id: u32, stock: Stock) -> bool {
    &&& stock.s_i_id == i_id
    &&& stock.s_w_id == w_id
    &&& stock.s_quantity == table_draw(
        before_stock(w_id, i_id),
        MIN_QUANTITY as u32,
        MAX_QUANTITY as u32,
    )
    &&& MIN_QUANTITY <= stock.s_quantity <= MAX_QUANTITY
    &&& stock.s_ytd == 0
    &&& stock.s_order_cnt == 0
    &&& stock.s_remote_cnt == 0
}

/// Whether a table has come to hold records under some keys, all as they
/// should be, and is otherwise as before.
pub open spec fn extended<K, V>(
    before: Map<K, V>,
    after: Map<K, V>,
    added: Set<K>,
    fresh: spec_fn(K, V) -> bool,
) -> bool {
    &&& forall|k: K| #[trigger]
        after.contains_key(k) <==> before.contains_key(k) || added.contains(k)
    &&& forall|k: K| #[trigger]
        after.contains_key(k) ==> if added.contains(k) {
            fresh(k, after[k])
        } else {
            after[k] == before[k]
        }
}

/// One more record extends a table further.
pub proof fn lemma_extended_by_one<K, V>(
    before: Map<K, V>,
    middle: Map<K, V>,
    added: Set<K>,
    fresh: spec_fn(K, V) -> bool,
    key: K,
    value: V,
)
    requires
        extended(before, middle, added, fresh),
        fresh(key, value),
    ensures
        extended(before, middle.insert(key, value), added.insert(key), fresh),
{
    let after = middle.insert(key, value);
    assert forall|k: K| #[trigger]
        after.contains_key(k) <==> before.contains_key(k) || added.insert(key).contains(k) by {
        assert(middle.contains_key(k) <==> before.contains_key(k) || added.contains(k));
    }
    assert forall|k: K| #[trigger] after.contains_key(k) implies if added.insert(key).contains(k) {
        fresh(k, after[k])
    } else {
        after[k] == before[k]
    } by {
        if k != key {
            assert(middle.contains_key(k));
        }
    }
}

/// A table that is extended twice is extended by both.
pub proof fn lemma_extended_further<K, V>(
    before: Map<K, V>,
    middle: Map<K, V>,
    after: Map<K, V>,
    first: Set<K>,
    second: Set<K>,
    fresh: spec_fn(K, V) -> bool,
)
    requires
        extended(before, middle, first, fresh),
        extended(middle, after, second, fresh),
    ensures
        extended(before, after, first + second, fresh),
{
    assert forall|k: K| #[trigger]
        after.contains_key(k) <==> before.contains_key(k) || (first + second).contains(k) by {
        assert(middle.contains_key(k) <==> before.contains_key(k) || first.contains(k));
    }
    assert forall|k: K| #[trigger] after.contains_key(k) implies if (first + second).contains(k) {
        fresh(k, after[k])
    } else {
        after[k] == before[k]
    } by {
        if !second.contains(k) {
            assert(middle.contains_key(k));
        }
    }
}

spec fn item_rule() -> spec_fn(u32, Item) -> bool {
    |i: u32, item: Item| fresh_item(i, item)
}

spec fn warehouse_rule() -> spec_fn(u32, Warehouse) -> bool {
    |w: u32, warehouse: Warehouse| fresh_warehouse(w, warehouse)
}

spec fn district_rule() -> spec_fn((u32, u32), District) -> bool {
    |k: (u32, u32), district: District| fresh_district(k.0, k.1, district)
}

spec fn counter_rule() -> spec_fn((u32, u32), u32) -> bool {
    |k: (u32, u32), next: u32| next == INITIAL_NEXT_O_ID
}

spec fn customer_rule() -> spec_fn((u32, u32, u32), Customer) -> bool {
    |k: (u32, u32, u32), customer: Customer| fresh_customer(k.0, k.1, k.2, customer)
}

spec fn stock_rule() -> spec_fn((u32, u32), Stock) -> bool {
    |k: (u32, u32), stock: Stock| fresh_stock(k.0, k.1, stock)
}

/// The numbers from 1 up to a bound.
pub open spec fn up_to(bound: int) -> Set<u32> {
    Set::new(|i: u32| 1 <= i <= bound)
}

/// The keys of a warehouse with a second number from 1 up to a bound.
pub open spec fn in_warehouse(w_id: u32, bound: int) -> Set<(u32, u32)> {
    Set::new(|k: (u32, u32)| k.0 == w_id && 1 <= k.1 <= bound)
}

/// The keys of a district with a third number from 1 up to a bound.
pub open spec fn in_district(w_id: u32, d_id: u32, bound: int) -> Set<(u32, u32, u32)> {
    Set::new(|k: (u32, u32, u32)| k.0 == w_id && k.1 == d_id && 1 <= k.2 <= bound)
}

/// The keys of a warehouse with a second and a third number up to bounds.
pub open spec fn in_districts(w_id: u32, districts: int, bound: int) -> Set<(u32, u32, u32)> {
    Set::new(
        |k: (u32, u32, u32)| k.0 == w_id && 1 <= k.1 <= districts && 1 <= k.2 <= bound,
    )
}

/// The keys of warehouses up to a bound with a second number up to a bound.
pub open spec fn in_warehouses(warehouses: int, bound: int) -> Set<(u32, u32)> {
    Set::new(|k: (u32, u32)| 1 <= k.0 <= warehouses && 1 <= k.1 <= bound)
}

/// The keys of warehouses up to a bound with two more numbers up to bounds.
pub open spec fn in_all_districts(warehouses: int, districts: int, bound: int) -> Set<
    (u32, u32, u32),
> {
    Set::new(
        |k: (u32, u32, u32)|
            1 <= k.0 <= warehouses && 1 <= k.1 <= districts && 1 <= k.2 <= bound,
    )
}

/// What is asked for up to a number of warehouses, with the items first.
pub open spec fn asked_up_to(warehouses: nat) -> Seq<Ask> {
    repeated(price_ask(), NUM_ITEMS as nat) + warehouse_asks(warehouses)
}

/// Where a generator is that fills the tables.
pub open spec fn filling(asked: Seq<Ask>) -> Past {
    Past { seed: TABLES_SEED, asked }
}

proof fn lemma_repeated_once_more(ask: Ask, count: nat)
    ensures
        repeated(ask, count).push(ask) =~= repeated(ask, count + 1),
        forall|asked: Seq<Ask>| #[trigger]
            (asked + repeated(ask, count)).push(ask) =~= asked + repeated(ask, count + 1),
{
    assert(repeated(ask, count).push(ask) =~= repeated(ask, count + 1));
    assert forall|asked: Seq<Ask>| #[trigger]
        (asked + repeated(ask, count)).push(ask) =~= asked + repeated(ask, count + 1) by {
        assert((asked + repeated(ask, count)).push(ask) =~= asked + repeated(ask, count).push(ask));
    }
}

/// Draws a step of a continuous range: the upper bits of a draw of 64 bits.
fn draw_step(rng: &mut SeededRng) -> (step: u64)
    ensures
        step == crate::random::drawn_word(old(rng)@.seed, old(rng)@.asked) / WORDS_PER_STEP,
        step <= RANGE_STEPS,
        final(rng)@ == old(rng)@.after(Ask::Word),
{
    draw_word(rng) / WORDS_PER_STEP
}

fn add_items(items: &mut ConcurrentMap<u32, Item>, rng: &mut SeededRng)
    requires
        old(rng)@ == filling(Seq::empty()),
    ensures
        extended(old(items)@, final(items)@, up_to(NUM_ITEMS as int), item_rule()),
        final(rng)@ == filling(before_warehouse(1)),
{
    let ghost before = items@;
    proof {
        assert(up_to(0) =~= Set::<u32>::empty());
        assert(before_item(1) =~= Seq::<Ask>::empty());
    }
    let mut done: u32 = 0;
    while done < NUM_ITEMS as u32
        invariant
            done <= NUM_ITEMS,
            extended(before, items@, up_to(done as int), item_rule()),
            rng@ == filling(repeated(price_ask(), done as nat)),
        decreases NUM_ITEMS - done,
    {
        let i_id: u32 = done + 1;
        let item = Item {
            i_id,
            i_price: draw_step(rng),
            i_name: numbered("Item_", i_id),
            i_data: numbered("ItemData_", i_id),
        };
        proof {
            lemma_extended_by_one(before, items@, up_to(done as int), item_rule(), i_id, item);
            assert(up_to(done as int).insert(i_id) =~= up_to(done + 1));
            lemma_repeated_once_more(price_ask(), done as nat);
        }
        let _ = items.insert(i_id, item);
        done = i_id;
    }
    proof {
        assert(before_warehouse(1) =~= repeated(price_ask(), NUM_ITEMS as nat));
    }
}

fn add_stock(stock: &mut ConcurrentMap<(u32, u32), Stock>, w_id: u32, rng: &mut SeededRng)
    requires
        old(rng)@ == filling(before_stock(w_id, 1)),
    ensures
        extended(
            old(stock)@,
            final(stock)@,
            in_warehouse(w_id, STOCK_PER_WAREHOUSE as int),
            stock_rule(),
        ),
        final(rng)@ == filling(
            before_stock(w_id, 1) + repeated(quantity_ask(), STOCK_PER_WAREHOUSE as nat),
        ),
{
    let ghost before = stock@;
    let ghost asked = before_stock(w_id, 1);
    proof {
        assert(in_warehouse(w_id, 0) =~= Set::<(u32, u32)>::empty());
        assert(asked + repeated(quantity_ask(), 0) =~= asked);
    }
    let mut done: u32 = 0;
    while done < STOCK_PER_WAREHOUSE as u32
        invariant
            done <= STOCK_PER_WAREHOUSE,
            extended(before, stock@, in_warehouse(w_id, done as int), stock_rule()),
            asked == before_stock(w_id, 1),
            rng@ == filling(asked + repeated(quantity_ask(), done as nat)),
        decreases STOCK_PER_WAREHOUSE - done,
    {
        let i_id: u32 = done + 1;
        proof {
            assert(before_stock(w_id, i_id) =~= asked + repeated(quantity_ask(), done as nat));
            lemma_repeated_once_more(quantity_ask(), done as nat);
        }
        let quantity: u32 = draw_u32(rng, MIN_QUANTITY as u32, MAX_QUANTITY as u32);
        let record = Stock {
            s_i_id: i_id,
            s_w_id: w_id,
            s_quantity: quantity as i32,
            s_ytd: 0,
            s_order_cnt: 0,
            s_remote_cnt: 0,
        };
        proof {
            lemma_extended_by_one(
                before,
                stock@,
                in_warehouse(w_id, done as int),
                stock_rule(),
                (w_id, i_id),
                record,
            );
            assert(in_warehouse(w_id, done as int).insert((w_id, i_id)) =~= in_warehouse(
                w_id,
                done + 1,
            ));
        }
        let _ = stock.insert((w_id, i_id), record);
        done = i_id;
    }
}

fn add_customers(
    customers: &mut ConcurrentMap<(u32, u32, u32), Customer>,
    w_id: u32,
    d_id: u32,
    rng: &mut SeededRng,
)
    requires
        old(rng)@ == filling(before_customer(w_id, d_id, 1)),
    ensures
        extended(
            old(customers)@,
            final(customers)@,
            in_district(w_id, d_id, CUSTOMERS_PER_DISTRICT as int),
            customer_rule(),
        ),
        final(rng)@ == filling(
            before_customer(w_id, d_id, 1) + repeated(
                discount_ask(),
                CUSTOMERS_PER_DISTRICT as nat,
            ),
        ),
{
    let ghost before = customers@;
    let ghost asked = before_customer(w_id, d_id, 1);
    proof {
        assert(in_district(w_id, d_id, 0) =~= Set::<(u32, u32, u32)>::empty());
        assert(asked + repeated(discount_ask(), 0) =~= asked);
    }
    let mut done: u32 = 0;
    while done < CUSTOMERS_PER_DISTRICT as u32
        invariant
            done <= CUSTOMERS_PER_DISTRICT,
            extended(
                before,
                customers@,
                in_district(w_id, d_id, done as int),
                customer_rule(),
            ),
            asked == before_customer(w_id, d_id, 1),
            rng@ == filling(asked + repeated(discount_ask(), done as nat)),
        decreases CUSTOMERS_PER_DISTRICT - done,
    {
        let c_id: u32 = done + 1;
        proof {
            assert(before_customer(w_id, d_id, c_id) =~= asked + repeated(
                discount_ask(),
                done as nat,
            ));
            lemma_repeated_once_more(discount_ask(), done as nat);
        }
        let customer = Customer {
            c_id,
            c_d_id: d_id,
            c_w_id: w_id,
            c_balance: INITIAL_BALANCE_CENTS,
            c_ytd_payment: INITIAL_YTD_PAYMENT_CENTS,
            c_payment_cnt: INITIAL_PAYMENT_CNT,
            c_discount: draw_step(rng),
            c_first: numbered("First_", c_id),
            c_last: numbered("Last_", c_id),
        };
        proof {
            lemma_extended_by_one(
                before,
                customers@,
                in_district(w_id, d_id, done as int),
                customer_rule(),
                (w_id, d_id, c_id),
                customer,
            );
            assert(in_district(w_id, d_id, done as int).insert((w_id, d_id, c_id)) =~= in_district(
                w_id,
                d_id,
                done + 1,
            ));
        }
        let _ = customers.insert((w_id, d_id, c_id), customer);
        done = c_id;
    }
}

/// The tables of the benchmark.
pub struct TpccState {
    num_warehouses: usize,
    warehouses: ConcurrentMap<u32, Warehouse>,
    districts: ConcurrentMap<(u32, u32), District>,
    customers: ConcurrentMap<(u32, u32, u32), Customer>,
    stock: ConcurrentMap<(u32, u32), Stock>,
    items: ConcurrentMap<u32, Item>,
    order_id_counters: ConcurrentMap<(u32, u32), u32>,
}

/// The contents of the tables.
#[verifier::ext_equal]
pub struct TpccTables {
    /// The number of warehouses.
    pub num_warehouses: usize,
    /// The warehouses.
    pub warehouses: Map<u32, Warehouse>,
    /// The districts, by warehouse and district.
    pub districts: Map<(u32, u32), District>,
    /// The customers, by warehouse, district and customer.
    pub customers: Map<(u32, u32, u32), Customer>,
    /// The stock, by warehouse and item.
    pub stock: Map<(u32, u32), Stock>,
    /// The items.
    pub items: Map<u32, Item>,
    /// The number of the next order, by warehouse and district.
    pub next_order: Map<(u32, u32), u32>,
}

impl View for TpccState {
    type V = TpccTables;

    closed spec fn view(&self) -> TpccTables {
        TpccTables {
            num_warehouses: self.num_warehouses,
            warehouses: self.warehouses@,
            districts: self.districts@,
            customers: self.customers@,
            stock: self.stock@,
            items: self.items@,
            next_order: self.order_id_counters@,
        }
    }
}

impl TpccTables {
    /// Whether these are the tables of a number of warehouses at the start.
    pub open spec fn fresh(self, warehouses: int) -> bool {
        let districts = DISTRICTS_PER_WAREHOUSE as int;
        &&& forall|i: u32| #[trigger]
            self.items.contains_key(i) <==> up_to(NUM_ITEMS as int).contains(i)
        &&& forall|i: u32| #[trigger] self.items.contains_key(i) ==> fresh_item(i, self.items[i])
        &&& forall|w: u32| #[trigger]
            self.warehouses.contains_key(w) <==> up_to(warehouses).contains(w)
        &&& forall|w: u32| #[trigger]
            self.warehouses.contains_key(w) ==> fresh_warehouse(w, self.warehouses[w])
        &&& forall|k: (u32, u32)| #[trigger]
            self.districts.contains_key(k) <==> in_warehouses(warehouses, districts).contains(k)
        &&& forall|k: (u32, u32)| #[trigger]
            self.districts.contains_key(k) ==> fresh_district(k.0, k.1, self.districts[k])
        &&& forall|k: (u32, u32)| #[trigger]
            self.next_order.contains_key(k) <==> in_warehouses(warehouses, districts).contains(k)
        &&& forall|k: (u32, u32)| #[trigger]
            self.next_order.contains_key(k) ==> self.next_order[k] == INITIAL_NEXT_O_ID
        &&& forall|k: (u32, u32, u32)| #[trigger]
            self.customers.contains_key(k) <==> in_all_districts(
                warehouses,
                districts,
                CUSTOMERS_PER_DISTRICT as int,
            ).contains(k)
        &&& forall|k: (u32, u32, u32)| #[trigger]
            self.customers.contains_key(k) ==> fresh_customer(k.0, k.1, k.2, self.customers[k])
        &&& forall|k: (u32, u32)| #[trigger]
            self.stock.contains_key(k) <==> in_warehouses(
                warehouses,
                STOCK_PER_WAREHOUSE as int,
            ).contains(k)
        &&& forall|k: (u32, u32)| #[trigger]
            self.stock.contains_key(k) ==> fresh_stock(k.0, k.1, self.stock[k])
    }
}

impl TpccState {
    spec fn filled(&self, warehouses: int) -> bool {
        let districts = DISTRICTS_PER_WAREHOUSE as int;
        &&& extended(
            Map::empty(),
            self.items@,
            up_to(NUM_ITEMS as int),
            item_rule(),
        )
        &&& extended(Map::empty(), self.warehouses@, up_to(warehouses), warehouse_rule())
        &&& extended(
            Map::empty(),
            self.districts@,
            in_warehouses(warehouses, districts),
            district_rule(),
        )
        &&& extended(
            Map::empty(),
            self.order_id_counters@,
            in_warehouses(warehouses, districts),
            counter_rule(),
        )
        &&& extended(
            Map::empty(),
            self.customers@,
            in_all_districts(warehouses, districts, CUSTOMERS_PER_DISTRICT as int),
            customer_rule(),
        )
        &&& extended(
            Map::empty(),
            self.stock@,
            in_warehouses(warehouses, STOCK_PER_WAREHOUSE as int),
            stock_rule(),
        )
    }

    /// The tables of a number of warehouses at the start. Prices, tax rates,
    /// discounts and quantities are drawn from their ranges, always the same ones.
    pub fn new(num_warehouses: usize) -> (state: Self)
        requires
            num_warehouses <= u32::MAX,
        ensures
            state@.num_warehouses == num_warehouses,
            state@.fresh(num_warehouses as int),
    {
        let mut rng: SeededRng = seeded(TABLES_SEED);
        let mut items: ConcurrentMap<u32, Item> = ConcurrentMap::new();
        proof {
            assert(items@ =~= Map::<u32, Item>::empty());
        }
        add_items(&mut items, &mut rng);
        let mut state = TpccState {
            num_warehouses,
            warehouses: ConcurrentMap::new(),
            districts: ConcurrentMap::new(),
            customers: ConcurrentMap::new(),
            stock: ConcurrentMap::new(),
            items,
            order_id_counters: ConcurrentMap::new(),
        };
        proof {
            assert(asked_up_to(0) =~= before_warehouse(1));
        }
        let mut done: u32 = 0;
        while done < num_warehouses as u32
            invariant
                done <= num_warehouses <= u32::MAX,
                state.num_warehouses == num_warehouses,
                state.filled(done as int),
                rng@ == filling(asked_up_to(done as nat)),
            decreases num_warehouses - done,
        {
            state.add_warehouse(done + 1, &mut rng);
            done = done + 1;
        }
        state
    }

    fn add_warehouse(&mut self, w_id: u32, rng: &mut SeededRng)
        requires
            w_id >= 1,
            old(self).filled(w_id - 1),
            old(rng)@ == filling(asked_up_to((w_id - 1) as nat)),
        ensures
            final(self).num_warehouses == old(self).num_warehouses,
            final(self).filled(w_id as int),
            final(rng)@ == filling(asked_up_to(w_id as nat)),
    {
        let warehouse = Warehouse {
            w_id,
            w_ytd: INITIAL_W_YTD_CENTS,
            w_tax: draw_step(rng),
            w_name: numbered("Warehouse_", w_id),
        };
        proof {
            lemma_extended_by_one(
                Map::empty(),
                self.warehouses@,
                up_to(w_id - 1),
                warehouse_rule(),
                w_id,
                warehouse,
            );
            assert(up_to(w_id - 1).insert(w_id) =~= up_to(w_id as int));
        }
        let _ = self.warehouses.insert(w_id, warehouse);
        let ghost districts_before = self.districts@;
        let ghost counters_before = self.order_id_counters@;
        let ghost customers_before = self.customers@;
        let ghost start = *self;
        proof {
            assert(in_warehouse(w_id, 0) =~= Set::<(u32, u32)>::empty());
            assert(in_districts(w_id, 0, CUSTOMERS_PER_DISTRICT as int) =~= Set::<
                (u32, u32, u32),
            >::empty());
            assert(before_district(w_id, 1) =~= before_warehouse(w_id).push(tax_ask()));
        }
        let mut done: u32 = 0;
        while done < DISTRICTS_PER_WAREHOUSE as u32
            invariant
                done <= DISTRICTS_PER_WAREHOUSE,
                self.num_warehouses == start.num_warehouses,
                self.warehouses == start.warehouses,
                self.items == start.items,
                self.stock == start.stock,
                extended(
                    districts_before,
                    self.districts@,
                    in_warehouse(w_id, done as int),
                    district_rule(),
                ),
                extended(
                    counters_before,
                    self.order_id_counters@,
                    in_warehouse(w_id, done as int),
                    counter_rule(),
                ),
                extended(
                    customers_before,
                    self.customers@,
                    in_districts(w_id, done as int, CUSTOMERS_PER_DISTRICT as int),
                    customer_rule(),
                ),
                rng@ == filling(
                    before_warehouse(w_id).push(tax_ask()) + district_asks(done as nat),
                ),
            decreases DISTRICTS_PER_WAREHOUSE - done,
        {
            let d_id: u32 = done + 1;
            let mut d_name: String = numbered("District_", w_id);
            d_name.append("_");
            push_decimal(&mut d_name, d_id as u64);
            let district = District {
                d_id,
                d_w_id: w_id,
                d_ytd: INITIAL_D_YTD_CENTS,
                d_tax: draw_step(rng),
                d_next_o_id: INITIAL_NEXT_O_ID,
                d_name,
            };
            proof {
                lemma_extended_by_one(
                    districts_before,
                    self.districts@,
                    in_warehouse(w_id, done as int),
                    district_rule(),
                    (w_id, d_id),
                    district,
                );
                lemma_extended_by_one(
                    counters_before,
                    self.order_id_counters@,
                    in_warehouse(w_id, done as int),
                    counter_rule(),
                    (w_id, d_id),
                    INITIAL_NEXT_O_ID,
                );
                assert(in_warehouse(w_id, done as int).insert((w_id, d_id)) =~= in_warehouse(
                    w_id,
                    done + 1,
                ));
            }
            let _ = self.districts.insert((w_id, d_id), district);
            let _ = self.order_id_counters.insert((w_id, d_id), INITIAL_NEXT_O_ID);
            proof {
                assert(before_customer(w_id, d_id, 1) =~= before_district(w_id, d_id).push(
                    tax_ask(),
                ));
                assert(before_customer(w_id, d_id, 1) + repeated(
                    discount_ask(),
                    CUSTOMERS_PER_DISTRICT as nat,
                ) =~= before_warehouse(w_id).push(tax_ask()) + district_asks((done + 1) as nat));
            }
            let ghost customers_middle = self.customers@;
            add_customers(&mut self.customers, w_id, d_id, rng);
            proof {
                lemma_extended_further(
                    customers_before,
                    customers_middle,
                    self.customers@,
                    in_districts(w_id, done as int, CUSTOMERS_PER_DISTRICT as int),
                    in_district(w_id, d_id, CUSTOMERS_PER_DISTRICT as int),
                    customer_rule(),
                );
                assert(in_districts(w_id, done as int, CUSTOMERS_PER_DISTRICT as int)
                    + in_district(w_id, d_id, CUSTOMERS_PER_DISTRICT as int) =~= in_districts(
                    w_id,
                    done + 1,
                    CUSTOMERS_PER_DISTRICT as int,
                ));
            }
            done = d_id;
        }
        proof {
            assert(before_stock(w_id, 1) =~= before_warehouse(w_id).push(tax_ask())
                + district_asks(DISTRICTS_PER_WAREHOUSE as nat));
            assert(before_stock(w_id, 1) + repeated(quantity_ask(), STOCK_PER_WAREHOUSE as nat)
                =~= asked_up_to(w_id as nat));
        }
        let ghost stock_before = self.stock@;
        add_stock(&mut self.stock, w_id, rng);
        proof {
            let districts = DISTRICTS_PER_WAREHOUSE as int;
            lemma_extended_further(
                Map::empty(),
                districts_before,
                self.districts@,
                in_warehouses(w_id - 1, districts),
                in_warehouse(w_id, districts),
                district_rule(),
            );
            lemma_extended_further(
                Map::empty(),
                counters_before,
                self.order_id_counters@,
                in_warehouses(w_id - 1, districts),
                in_warehouse(w_id, districts),
                counter_rule(),
            );
            assert(in_warehouses(w_id - 1, districts) + in_warehouse(w_id, districts)
                =~= in_warehouses(w_id as int, districts));
            lemma_extended_further(
                Map::empty(),
                customers_before,
                self.customers@,
                in_all_districts(w_id - 1, districts, CUSTOMERS_PER_DISTRICT as int),
                in_districts(w_id, districts, CUSTOMERS_PER_DISTRICT as int),
                customer_rule(),
            );
            assert(in_all_districts(w_id - 1, districts, CUSTOMERS_PER_DISTRICT as int)
                + in_districts(w_id, districts, CUSTOMERS_PER_DISTRICT as int)
                =~= in_all_districts(w_id as int, districts, CUSTOMERS_PER_DISTRICT as int));
            lemma_extended_further(
                Map::empty(),
                stock_before,
                self.stock@,
                in_warehouses(w_id - 1, STOCK_PER_WAREHOUSE as int),
                in_warehouse(w_id, STOCK_PER_WAREHOUSE as int),
                stock_rule(),
            );
            assert(in_warehouses(w_id - 1, STOCK_PER_WAREHOUSE as int) + in_warehouse(
                w_id,
                STOCK_PER_WAREHOUSE as int,
            ) =~= in_warehouses(w_id as int, STOCK_PER_WAREHOUSE as int));
        }
    }

    /// The number of warehouses.
    pub fn num_warehouses(&self) -> (count: usize)
        ensures
            count == self@.num_warehouses,
    {
        self.num_warehouses
    }

    /// The number of warehouse records.
    pub fn warehouse_count(&self) -> (count: usize)
        ensures
            count == self@.warehouses.dom().len(),
    {
        self.warehouses.len()
    }

    /// The number of district records.
    pub fn district_count(&self) -> (count: usize)
        ensures
            count == self@.districts.dom().len(),
    {
        self.districts.len()
    }

    /// The number of customer records.
    pub fn customer_count(&self) -> (count: usize)
        ensures
            count == self@.customers.dom().len(),
    {
        self.customers.len()
    }

    /// The number of stock records.
    pub fn stock_count(&self) -> (count: usize)
        ensures
            count == self@.stock.dom().len(),
    {
        self.stock.len()
    }

    /// The number of items.
    pub fn item_count(&self) -> (count: usize)
        ensures
            count == self@.items.dom().len(),
    {
        self.items.len()
    }

    /// Whether a warehouse exists.
    pub fn has_warehouse(&self, w_id: u32) -> (known: bool)
        ensures
            known == self@.warehouses.contains_key(w_id),
    {
        self.warehouses.contains_key(&w_id)
    }

    /// Whether a district exists, with a number for its next order.
    pub fn has_district(&self, w_id: u32, d_id: u32) -> (known: bool)
        ensures
            known == (self@.districts.contains_key((w_id, d_id)) && self@.next_order.contains_key(
                (w_id, d_id),
            )),
    {
        self.districts.contains_key(&(w_id, d_id)) && self.order_id_counters.contains_key(
            &(w_id, d_id),
        )
    }

    /// Whether a customer exists.
    pub fn has_customer(&self, w_id: u32, d_id: u32, c_id: u32) -> (known: bool)
        ensures
            known == self@.customers.contains_key((w_id, d_id, c_id)),
    {
        self.customers.contains_key(&(w_id, d_id, c_id))
    }

    /// Whether an item exists.
    pub fn has_item(&self, i_id: u32) -> (known: bool)
        ensures
            known == self@.items.contains_key(i_id),
    {
        self.items.contains_key(&i_id)
    }

    /// The stock of an item in a warehouse.
    pub fn stock(&self, w_id: u32, i_id: u32) -> (stock: Option<Stock>)
        ensures
            stock == self@.stock.get((w_id, i_id)),
    {
        self.stock.get(&(w_id, i_id))
    }

    /// Sets the stock of an item in a warehouse.
    pub fn put_stock(&mut self, w_id: u32, i_id: u32, stock: Stock)
        ensures
            final(self)@ == (TpccTables {
                stock: old(self)@.stock.insert((w_id, i_id), stock),
                ..old(self)@
            }),
    {
        let _ = self.stock.insert((w_id, i_id), stock);
    }

    /// The number of the next order of a district; the one after it is next.
    pub fn next_order_id(&mut self, w_id: u32, d_id: u32) -> (o_id: u32)
        requires
            old(self)@.next_order.contains_key((w_id, d_id)),
        ensures
            o_id == old(self)@.next_order[(w_id, d_id)],
            final(self)@ == (TpccTables {
                next_order: old(self)@.next_order.insert((w_id, d_id), o_id.wrapping_add(1)),
                ..old(self)@
            }),
    {
        match self.order_id_counters.get(&(w_id, d_id)) {
            Some(o_id) => {
                let _ = self.order_id_counters.insert((w_id, d_id), o_id.wrapping_add(1));
                o_id
            },
            None => 0,
        }
    }

    /// The record of a warehouse.
    pub fn warehouse(&self, w_id: u32) -> (warehouse: Option<Warehouse>)
        ensures
            warehouse == self@.warehouses.get(w_id),
    {
        self.warehouses.get(&w_id)
    }

    /// The record of a district.
    pub fn district(&self, w_id: u32, d_id: u32) -> (district: Option<District>)
        ensures
            district == self@.districts.get((w_id, d_id)),
    {
        self.districts.get(&(w_id, d_id))
    }

    /// The record of a customer.
    pub fn customer(&self, w_id: u32, d_id: u32, c_id: u32) -> (customer: Option<Customer>)
        ensures
            customer == self@.customers.get((w_id, d_id, c_id)),
    {
        self.customers.get(&(w_id, d_id, c_id))
    }

    /// The record of an item.
    pub fn item(&self, i_id: u32) -> (item: Option<Item>)
        ensures
            item == self@.items.get(i_id),
    {
        self.items.get(&i_id)
    }

    /// Adds to what a warehouse took in.
    pub fn credit_warehouse(&mut self, w_id: u32, amount: i64)
        requires
            old(self)@.warehouses.contains_key(w_id),
            i64::MIN <= old(self)@.warehouses[w_id].w_ytd + amount <= i64::MAX,
        ensures
            final(self)@ =~= (TpccTables {
                warehouses: old(self)@.warehouses.insert(
                    w_id,
                    Warehouse {
                        w_ytd: (old(self)@.warehouses[w_id].w_ytd + amount) as i64,
                        ..old(self)@.warehouses[w_id]
                    },
                ),
                ..old(self)@
            }),
    {
        if let Some(mut warehouse) = self.warehouses.get(&w_id) {
            warehouse.w_ytd = warehouse.w_ytd + amount;
            let _ = self.warehouses.insert(w_id, warehouse);
        }
    }

    /// Adds to what a district took in.
    pub fn credit_district(&mut self, w_id: u32, d_id: u32, amount: i64)
        requires
            old(self)@.districts.contains_key((w_id, d_id)),
            i64::MIN <= old(self)@.districts[(w_id, d_id)].d_ytd + amount <= i64::MAX,
        ensures
            final(self)@ =~= (TpccTables {
                districts: old(self)@.districts.insert(
                    (w_id, d_id),
                    District {
                        d_ytd: (old(self)@.districts[(w_id, d_id)].d_ytd + amount) as i64,
                        ..old(self)@.districts[(w_id, d_id)]
                    },
                ),
                ..old(self)@
            }),
    {
        if let Some(mut district) = self.districts.get(&(w_id, d_id)) {
            district.d_ytd = district.d_ytd + amount;
            let _ = self.districts.insert((w_id, d_id), district);
        }
    }

    /// Takes a payment of a customer.
    pub fn debit_customer(&mut self, w_id: u32, d_id: u32, c_id: u32, amount: i64)
        requires
            old(self)@.customers.contains_key((w_id, d_id, c_id)),
            old(self)@.customers[(w_id, d_id, c_id)].can_pay(amount),
        ensures
            final(self)@ =~= (TpccTables {
                customers: old(self)@.customers.insert(
                    (w_id, d_id, c_id),
                    old(self)@.customers[(w_id, d_id, c_id)].paid(amount),
                ),
                ..old(self)@
            }),
    {
        if let Some(mut customer) = self.customers.get(&(w_id, d_id, c_id)) {
            customer.c_balance = customer.c_balance - amount;
            customer.c_ytd_payment = customer.c_ytd_payment + amount;
            customer.c_payment_cnt = customer.c_payment_cnt + 1;
            let _ = self.customers.insert((w_id, d_id, c_id), customer);
        }
    }

    /// The object of a warehouse.
    pub fn object_id_for_warehouse(w_id: u32) -> (id: ObjectID)
        ensures
            id == record_id(RecordKey::Warehouse { w_id }),
    {
        make_object_id(&RecordKey::Warehouse { w_id })
    }

    /// The object of a district.
    pub fn object_id_for_district(w_id: u32, d_id: u32) -> (id: ObjectID)
        ensures
            id == record_id(RecordKey::District { w_id, d_id }),
    {
        make_object_id(&RecordKey::District { w_id, d_id })
    }

    /// The object of a customer.
    pub fn object_id_for_customer(w_id: u32, d_id: u32, c_id: u32) -> (id: ObjectID)
        ensures
            id == record_id(RecordKey::Customer { w_id, d_id, c_id }),
    {
        make_object_id(&RecordKey::Customer { w_id, d_id, c_id })
    }

    /// The object of a stock record.
    pub fn object_id_for_stock(w_id: u32, i_id: u32) -> (id: ObjectID)
        ensures
            id == record_id(RecordKey::Stock { w_id, i_id }),
    {
        make_object_id(&RecordKey::Stock { w_id, i_id })
    }

    /// The object of an item.
    pub fn object_id_for_item(i_id: u32) -> (id: ObjectID)
        ensures
            id == record_id(RecordKey::Item { i_id }),
    {
        make_object_id(&RecordKey::Item { i_id })
    }

    /// The objects of all warehouses, in order.
    pub fn all_warehouse_ids(&self) -> (ids: Vec<ObjectID>)
        requires
            self@.num_warehouses <= u32::MAX,
        ensures
            ids@ =~= Seq::new(
                self@.num_warehouses as nat,
                |i: int| record_id(RecordKey::Warehouse { w_id: (i + 1) as u32 }),
            ),
    {
        let mut ids: Vec<ObjectID> = Vec::new();
        let mut done: u32 = 0;
        while done < self.num_warehouses as u32
            invariant
                done <= self.num_warehouses <= u32::MAX,
                ids@ =~= Seq::new(
                    done as nat,
                    |i: int| record_id(RecordKey::Warehouse { w_id: (i + 1) as u32 }),
                ),
            decreases self.num_warehouses - done,
        {
            done = done + 1;
            ids.push(Self::object_id_for_warehouse(done));
        }
        ids
    }

    /// The objects of all districts, in an order that is left open.
    pub fn all_district_ids(&self) -> (ids: Vec<ObjectID>)
        ensures
            exists|keys: Seq<(u32, u32)>| #[trigger]
                lists_keys(keys, self@.districts.dom()) && ids@ =~= keys.map_values(
                    |k: (u32, u32)| record_id(RecordKey::District { w_id: k.0, d_id: k.1 }),
                ),
    {
        let keys: Vec<(u32, u32)> = self.districts.keys();
        let mut ids: Vec<ObjectID> = Vec::new();
        let mut i: usize = 0;
        while i < keys.len()
            invariant
                i <= keys.len(),
                ids@ =~= keys@.take(i as int).map_values(
                    |k: (u32, u32)| record_id(RecordKey::District { w_id: k.0, d_id: k.1 }),
                ),
            decreases keys.len() - i,
        {
            ids.push(Self::object_id_for_district(keys[i].0, keys[i].1));
            i = i + 1;
        }
        proof {
            assert(keys@.take(i as int) =~= keys@);
            assert(lists_keys(keys@, self@.districts.dom()));
        }
        ids
    }

    /// The objects of all customers, in an order that is left open.
    pub fn all_customer_ids(&self) -> (ids: Vec<ObjectID>)
        ensures
            exists|keys: Seq<(u32, u32, u32)>| #[trigger]
                lists_keys(keys, self@.customers.dom()) && ids@ =~= keys.map_values(
                    |k: (u32, u32, u32)|
                        record_id(RecordKey::Customer { w_id: k.0, d_id: k.1, c_id: k.2 }),
                ),
    {
        let keys: Vec<(u32, u32, u32)> = self.customers.keys();
        let mut ids: Vec<ObjectID> = Vec::new();
        let mut i: usize = 0;
        while i < keys.len()
            invariant
                i <= keys.len(),
                ids@ =~= keys@.take(i as int).map_values(
                    |k: (u32, u32, u32)|
                        record_id(RecordKey::Customer { w_id: k.0, d_id: k.1, c_id: k.2 }),
                ),
            decreases keys.len() - i,
        {
            ids.push(Self::object_id_for_customer(keys[i].0, keys[i].1, keys[i].2));
            i = i + 1;
        }
        proof {
            assert(keys@.take(i as int) =~= keys@);
            assert(lists_keys(keys@, self@.customers.dom()));
        }
        ids
    }

    /// The objects of all stock records, in an order that is left open.
    pub fn all_stock_ids(&self) -> (ids: Vec<ObjectID>)
        ensures
            exists|keys: Seq<(u32, u32)>| #[trigger]
                lists_keys(keys, self@.stock.dom()) && ids@ =~= keys.map_values(
                    |k: (u32, u32)| record_id(RecordKey::Stock { w_id: k.0, i_id: k.1 }),
                ),
    {
        let keys: Vec<(u32, u32)> = self.stock.keys();
        let mut ids: Vec<ObjectID> = Vec::new();
        let mut i: usize = 0;
        while i < keys.len()
            invariant
                i <= keys.len(),
                ids@ =~= keys@.take(i as int).map_values(
                    |k: (u32, u32)| record_id(RecordKey::Stock { w_id: k.0, i_id: k.1 }),
                ),
            decreases keys.len() - i,
        {
            ids.push(Self::object_id_for_stock(keys[i].0, keys[i].1));
            i = i + 1;
        }
        proof {
            assert(keys@.take(i as int) =~= keys@);
            assert(lists_keys(keys@, self@.stock.dom()));
        }
        ids
    }

    /// The objects of all items, in an order that is left open.
    pub fn all_item_ids(&self) -> (ids: Vec<ObjectID>)
        ensures
            exists|keys: Seq<u32>| #[trigger]
                lists_keys(keys, self@.items.dom()) && ids@ =~= keys.map_values(
                    |i_id: u32| record_id(RecordKey::Item { i_id }),
                ),
    {
        let keys: Vec<u32> = self.items.keys();
        let mut ids: Vec<ObjectID> = Vec::new();
        let mut i: usize = 0;
        while i < keys.len()
            invariant
                i <= keys.len(),
                ids@ =~= keys@.take(i as int).map_values(
                    |i_id: u32| record_id(RecordKey::Item { i_id }),
                ),
            decreases keys.len() - i,
        {
            ids.push(Self::object_id_for_item(keys[i]));
            i = i + 1;
        }
        proof {
            assert(keys@.take(i as int) =~= keys@);
            assert(lists_keys(keys@, self@.items.dom()));
        }
        ids
    }
}

/// Whether a sequence lists the members of a set, each once.
pub open spec fn lists_keys<K>(keys: Seq<K>, members: Set<K>) -> bool {
    keys.no_duplicates() && keys.to_set() =~= members
}

impl Customer {
    /// Whether a payment can be booked.
    pub open spec fn can_pay(self, amount: i64) -> bool {
        &&& i64::MIN <= self.c_balance - amount <= i64::MAX
        &&& i64::MIN <= self.c_ytd_payment + amount <= i64::MAX
        &&& self.c_payment_cnt < u32::MAX
    }

    /// The customer after a payment.
    pub open spec fn paid(self, amount: i64) -> Self {
        Customer {
            c_balance: (self.c_balance - amount) as i64,
            c_ytd_payment: (self.c_ytd_payment + amount) as i64,
            c_payment_cnt: (self.c_payment_cnt + 1) as u32,
            ..self
        }
    }
}

/// The orders of a district are numbered one after the other, and those of
/// other districts are not affected.
pub proof fn law_order_numbers_follow_each_other(
    next_order: Map<(u32, u32), u32>,
    district: (u32, u32),
    other: (u32, u32),
)
    requires
        next_order.contains_key(district),
        next_order[district] < u32::MAX,
        other != district,
    ensures
        ({
            let o_id = next_order[district];
            let after = next_order.insert(district, o_id.wrapping_add(1));
            after[district] == o_id + 1 && after.get(other) == next_order.get(other)
        }),
{
}

proof fn lemma_up_to_len(bound: int)
    requires
        0 <= bound <= u32::MAX,
    ensures
        up_to(bound).finite(),
        up_to(bound).len() == bound,
    decreases bound,
{
    if bound == 0 {
        assert(up_to(0) =~= Set::<u32>::empty());
    } else {
        lemma_up_to_len(bound - 1);
        assert(up_to(bound) =~= up_to(bound - 1).insert(bound as u32));
    }
}

proof fn lemma_in_warehouse_len(w_id: u32, bound: int)
    requires
        0 <= bound <= u32::MAX,
    ensures
        in_warehouse(w_id, bound).finite(),
        in_warehouse(w_id, bound).len() == bound,
    decreases bound,
{
    if bound == 0 {
        assert(in_warehouse(w_id, 0) =~= Set::<(u32, u32)>::empty());
    } else {
        lemma_in_warehouse_len(w_id, bound - 1);
        assert(in_warehouse(w_id, bound) =~= in_warehouse(w_id, bound - 1).insert(
            (w_id, bound as u32),
        ));
    }
}

proof fn lemma_in_warehouses_len(warehouses: int, bound: int)
    requires
        0 <= warehouses <= u32::MAX,
        0 <= bound <= u32::MAX,
    ensures
        in_warehouses(warehouses, bound).finite(),
        in_warehouses(warehouses, bound).len() == warehouses * bound,
    decreases warehouses,
{
    if warehouses == 0 {
        assert(in_warehouses(0, bound) =~= Set::<(u32, u32)>::empty());
    } else {
        let fewer = in_warehouses(warehouses - 1, bound);
        let last = in_warehouse(warehouses as u32, bound);
        lemma_in_warehouses_len(warehouses - 1, bound);
        lemma_in_warehouse_len(warehouses as u32, bound);
        vstd::set_lib::lemma_set_disjoint_lens(fewer, last);
        assert(in_warehouses(warehouses, bound) =~= fewer + last);
        assert(warehouses * bound == (warehouses - 1) * bound + bound) by (nonlinear_arith);
    }
}

proof fn lemma_in_district_len(w_id: u32, d_id: u32, bound: int)
    requires
        0 <= bound <= u32::MAX,
    ensures
        in_district(w_id, d_id, bound).finite(),
        in_district(w_id, d_id, bound).len() == bound,
    decreases bound,
{
    if bound == 0 {
        assert(in_district(w_id, d_id, 0) =~= Set::<(u32, u32, u32)>::empty());
    } else {
        lemma_in_district_len(w_id, d_id, bound - 1);
        assert(in_district(w_id, d_id, bound) =~= in_district(w_id, d_id, bound - 1).insert(
            (w_id, d_id, bound as u32),
        ));
    }
}

proof fn lemma_in_districts_len(w_id: u32, districts: int, bound: int)
    requires
        0 <= districts <= u32::MAX,
        0 <= bound <= u32::MAX,
    ensures
        in_districts(w_id, districts, bound).finite(),
        in_districts(w_id, districts, bound).len() == districts * bound,
    decreases districts,
{
    if districts == 0 {
        assert(in_districts(w_id, 0, bound) =~= Set::<(u32, u32, u32)>::empty());
    } else {
        let fewer = in_districts(w_id, districts - 1, bound);
        let last = in_district(w_id, districts as u32, bound);
        lemma_in_districts_len(w_id, districts - 1, bound);
        lemma_in_district_len(w_id, districts as u32, bound);
        vstd::set_lib::lemma_set_disjoint_lens(fewer, last);
        assert(in_districts(w_id, districts, bound) =~= fewer + last);
        assert(districts * bound == (districts - 1) * bound + bound) by (nonlinear_arith);
    }
}

proof fn lemma_in_all_districts_len(warehouses: int, districts: int, bound: int)
    requires
        0 <= warehouses <= u32::MAX,
        0 <= districts <= u32::MAX,
        0 <= bound <= u32::MAX,
    ensures
        in_all_districts(warehouses, districts, bound).finite(),
        in_all_districts(warehouses, districts, bound).len() == warehouses * (districts * bound),
    decreases warehouses,
{
    if warehouses == 0 {
        assert(in_all_districts(0, districts, bound) =~= Set::<(u32, u32, u32)>::empty());
    } else {
        let fewer = in_all_districts(warehouses - 1, districts, bound);
        let last = in_districts(warehouses as u32, districts, bound);
        lemma_in_all_districts_len(warehouses - 1, districts, bound);
        lemma_in_districts_len(warehouses as u32, districts, bound);
        vstd::set_lib::lemma_set_disjoint_lens(fewer, last);
        assert(in_all_districts(warehouses, districts, bound) =~= fewer + last);
        assert(warehouses * (districts * bound) == (warehouses - 1) * (districts * bound)
            + districts * bound) by (nonlinear_arith);
    }
}

/// At the start the tables have the sizes that the benchmark prescribes.
pub proof fn law_fresh_tables_have_prescribed_sizes(tables: TpccTables, warehouses: int)
    requires
        0 <= warehouses <= u32::MAX,
        tables.fresh(warehouses),
    ensures
        tables.warehouses.dom().len() == warehouses,
        tables.districts.dom().len() == warehouses * DISTRICTS_PER_WAREHOUSE,
        tables.customers.dom().len() == warehouses * (DISTRICTS_PER_WAREHOUSE
            * CUSTOMERS_PER_DISTRICT),
        tables.stock.dom().len() == warehouses * STOCK_PER_WAREHOUSE,
        tables.items.dom().len() == NUM_ITEMS,
{
    let districts = DISTRICTS_PER_WAREHOUSE as int;
    let customers = CUSTOMERS_PER_DISTRICT as int;
    lemma_up_to_len(warehouses);
    lemma_up_to_len(NUM_ITEMS as int);
    lemma_in_warehouses_len(warehouses, districts);
    lemma_in_warehouses_len(warehouses, STOCK_PER_WAREHOUSE as int);
    lemma_in_all_districts_len(warehouses, districts, customers);
    assert(tables.warehouses.dom() =~= up_to(warehouses));
    assert(tables.items.dom() =~= up_to(NUM_ITEMS as int));
    assert(tables.districts.dom() =~= in_warehouses(warehouses, districts));
    assert(tables.stock.dom() =~= in_warehouses(warehouses, STOCK_PER_WAREHOUSE as int));
    assert(tables.customers.dom() =~= in_all_districts(warehouses, districts, customers));
}

/// All nodes start alike: tables for the same number of warehouses hold the
/// same records, down to the numbers that are drawn.
pub proof fn law_nodes_start_alike(here: TpccTables, there: TpccTables, warehouses: int)
    requires
        here.fresh(warehouses),
        there.fresh(warehouses),
    ensures
        here.items.dom() == there.items.dom(),
        forall|i: u32| #[trigger]
            here.items.contains_key(i) ==> {
                &&& here.items[i].i_id == there.items[i].i_id
                &&& here.items[i].i_price == there.items[i].i_price
                &&& here.items[i].i_name@ == there.items[i].i_name@
                &&& here.items[i].i_data@ == there.items[i].i_data@
            },
        here.warehouses.dom() == there.warehouses.dom(),
        forall|w: u32| #[trigger]
            here.warehouses.contains_key(w) ==> {
                &&& here.warehouses[w].w_id == there.warehouses[w].w_id
                &&& here.warehouses[w].w_ytd == there.warehouses[w].w_ytd
                &&& here.warehouses[w].w_tax == there.warehouses[w].w_tax
                &&& here.warehouses[w].w_name@ == there.warehouses[w].w_name@
            },
        here.districts.dom() == there.districts.dom(),
        forall|k: (u32, u32)| #[trigger]
            here.districts.contains_key(k) ==> {
                &&& here.districts[k].d_id == there.districts[k].d_id
                &&& here.districts[k].d_w_id == there.districts[k].d_w_id
                &&& here.districts[k].d_ytd == there.districts[k].d_ytd
                &&& here.districts[k].d_tax == there.districts[k].d_tax
                &&& here.districts[k].d_next_o_id == there.districts[k].d_next_o_id
                &&& here.districts[k].d_name@ == there.districts[k].d_name@
            },
        here.customers.dom() == there.customers.dom(),
        forall|k: (u32, u32, u32)| #[trigger]
            here.customers.contains_key(k) ==> {
                &&& here.customers[k].c_id == there.customers[k].c_id
                &&& here.customers[k].c_d_id == there.customers[k].c_d_id
                &&& here.customers[k].c_w_id == there.customers[k].c_w_id
                &&& here.customers[k].c_balance == there.customers[k].c_balance
                &&& here.customers[k].c_ytd_payment == there.customers[k].c_ytd_payment
                &&& here.customers[k].c_payment_cnt == there.customers[k].c_payment_cnt
                &&& here.customers[k].c_discount == there.customers[k].c_discount
                &&& here.customers[k].c_first@ == there.customers[k].c_first@
                &&& here.customers[k].c_last@ == there.customers[k].c_last@
            },
        here.stock == there.stock,
        here.next_order == there.next_order,
{
    assert(here.items.dom() =~= there.items.dom());
    assert(here.warehouses.dom() =~= there.warehouses.dom());
    assert(here.districts.dom() =~= there.districts.dom());
    assert(here.customers.dom() =~= there.customers.dom());
    assert forall|i: u32| #[trigger] here.items.contains_key(i) implies fresh_item(
        i,
        here.items[i],
    ) && fresh_item(i, there.items[i]) by {
        assert(there.items.contains_key(i));
    }
    assert forall|w: u32| #[trigger] here.warehouses.contains_key(w) implies fresh_warehouse(
        w,
        here.warehouses[w],
    ) && fresh_warehouse(w, there.warehouses[w]) by {
        assert(there.warehouses.contains_key(w));
    }
    assert forall|k: (u32, u32)| #[trigger] here.districts.contains_key(k) implies fresh_district(
        k.0,
        k.1,
        here.districts[k],
    ) && fresh_district(k.0, k.1, there.districts[k]) by {
        assert(there.districts.contains_key(k));
    }
    assert forall|k: (u32, u32, u32)| #[trigger]
        here.customers.contains_key(k) implies fresh_customer(k.0, k.1, k.2, here.customers[k])
        && fresh_customer(k.0, k.1, k.2, there.customers[k]) by {
        assert(there.customers.contains_key(k));
    }
    assert forall|k: (u32, u32)| #[trigger] here.stock.contains_key(k) implies there.stock.contains_key(
        k,
    ) && here.stock[k] == there.stock[k] by {
        assert(there.stock.contains_key(k));
        assert(fresh_stock(k.0, k.1, here.stock[k]));
        assert(fresh_stock(k.0, k.1, there.stock[k]));
    }
    assert forall|k: (u32, u32)| #[trigger]
        here.next_order.contains_key(k) implies there.next_order.contains_key(k)
        && here.next_order[k] == there.next_order[k] by {
        assert(there.next_order.contains_key(k));
    }
    assert forall|k: (u32, u32)| #[trigger] there.stock.contains_key(k) implies here.stock.contains_key(
        k,
    ) by {
        assert(here.stock.contains_key(k) <==> there.stock.contains_key(k));
    }
    assert forall|k: (u32, u32)| #[trigger]
        there.next_order.contains_key(k) implies here.next_order.contains_key(k) by {
        assert(here.next_order.contains_key(k) <==> there.next_order.contains_key(k));
    }
    assert(here.stock =~= there.stock);
    assert(here.next_order =~= there.next_order);
}

/// What the tables hold at the start, in numbers: a hundred thousand items,
/// and for each warehouse ten districts, three thousand customers in each, and
/// a stock of each item.
pub proof fn law_fresh_tables_hold_every_record(
    tables: TpccTables,
    warehouses: int,
    w: u32,
    second: u32,
    third: u32,
)
    requires
        tables.fresh(warehouses),
    ensures
        tables.warehouses.contains_key(w) <==> 1 <= w <= warehouses,
        tables.items.contains_key(second) <==> 1 <= second <= 100_000,
        tables.districts.contains_key((w, second)) <==> 1 <= w <= warehouses && 1 <= second <= 10,
        tables.next_order.contains_key((w, second)) <==> 1 <= w <= warehouses && 1 <= second <= 10,
        tables.stock.contains_key((w, second)) <==> 1 <= w <= warehouses && 1 <= second
            <= 100_000,
        tables.customers.contains_key((w, second, third)) <==> 1 <= w <= warehouses && 1 <= second
            <= 10 && 1 <= third <= 3_000,
{
}

/// What the records are at the start: each carries the numbers of its key, no
/// stock has sold anything, every district is at order 3001, and the books
/// begin with what the benchmark prescribes.
pub proof fn law_fresh_records_begin_as_prescribed(
    tables: TpccTables,
    warehouses: int,
    w: u32,
    d: u32,
    c: u32,
    i: u32,
)
    requires
        tables.fresh(warehouses),
        1 <= w <= warehouses,
        1 <= d <= 10,
        1 <= c <= 3_000,
        1 <= i <= 100_000,
    ensures
        ({
            let stock = tables.stock[(w, i)];
            &&& stock.s_w_id == w
            &&& stock.s_i_id == i
            &&& 10 <= stock.s_quantity <= 100
            &&& stock.s_ytd == 0
            &&& stock.s_order_cnt == 0
            &&& stock.s_remote_cnt == 0
        }),
        tables.next_order[(w, d)] == 3001,
        ({
            let district = tables.districts[(w, d)];
            &&& district.d_id == d
            &&& district.d_w_id == w
            &&& district.d_ytd == 3_000_000
            &&& district.d_next_o_id == 3001
        }),
        ({
            let customer = tables.customers[(w, d, c)];
            &&& customer.c_id == c
            &&& customer.c_d_id == d
            &&& customer.c_w_id == w
            &&& customer.c_balance == -1_000
            &&& customer.c_ytd_payment == 1_000
            &&& customer.c_payment_cnt == 1
        }),
        tables.warehouses[w].w_id == w,
        tables.warehouses[w].w_ytd == 30_000_000,
        tables.items[i].i_id == i,
{
    law_fresh_tables_hold_every_record(tables, warehouses, w, d, c);
    law_fresh_tables_hold_every_record(tables, warehouses, w, i, c);
    assert(tables.stock.contains_key((w, i)));
    assert(tables.next_order.contains_key((w, d)));
    assert(tables.districts.contains_key((w, d)));
    assert(tables.customers.contains_key((w, d, c)));
    assert(tables.warehouses.contains_key(w));
    assert(tables.items.contains_key(i));
}

/// A number of a range is kept as steps: no step is the low end, all steps are
/// the high end, and more steps never give less.
pub proof fn law_steps_span_the_range(step: u64, more: u64, low: u32, high: u32)
    requires
        low <= high,
        step <= more <= RANGE_STEPS,
    ensures
        scaled(0, low, high) == low,
        scaled(RANGE_STEPS, low, high) == high,
        low <= scaled(step, low, high) <= scaled(more, low, high) <= high,
{
    let width = high - low;
    let n = RANGE_STEPS as int;
    assert(width * 0 == 0) by (nonlinear_arith);
    assert(width * n / n == width) by {
        vstd::arithmetic::div_mod::lemma_div_multiples_vanish(width, n);
        assert(n * width == width * n) by (nonlinear_arith);
    }
    assert(0 <= width * step <= width * more <= width * n) by (nonlinear_arith)
        requires
            0 <= width,
            0 <= step <= more <= n,
    ;
    vstd::arithmetic::div_mod::lemma_div_is_ordered(0, width * step, n);
    vstd::arithmetic::div_mod::lemma_div_is_ordered(width * step, width * more, n);
    vstd::arithmetic::div_mod::lemma_div_is_ordered(width * more, width * n, n);
}

/// Each of the numbers that the tables are filled with is the outcome of a draw
/// of its own: no two are drawn at the same place.
pub proof fn law_each_table_number_is_drawn_for_itself(w: u32, d: u32, c: u32, i: u32)
    requires
        w >= 1,
        1 <= d <= 10,
        1 <= c <= 3_000,
        1 <= i <= 100_000,
    ensures
        before_item(i).len() == i - 1,
        before_warehouse(w).len() == 100_000 + (w - 1) * 130_011,
        before_district(w, d).len() == before_warehouse(w).len() + 1 + (d - 1) * 3_001,
        before_customer(w, d, c).len() == before_district(w, d).len() + c,
        before_stock(w, i).len() == before_warehouse(w).len() + 30_010 + i,
{
    lemma_district_asks_len((d - 1) as nat);
    lemma_district_asks_len(10);
    lemma_warehouse_asks_len((w - 1) as nat);
}

proof fn lemma_district_asks_len(count: nat)
    ensures
        district_asks(count).len() == count * 3_001,
    decreases count,
{
    if count > 0 {
        lemma_district_asks_len((count - 1) as nat);
    }
}

proof fn lemma_warehouse_asks_len(count: nat)
    ensures
        warehouse_asks(count).len() == count * 130_011,
    decreases count,
{
    if count > 0 {
        lemma_warehouse_asks_len((count - 1) as nat);
        lemma_district_asks_len(10);
    }
}

/// A record is named by the letter of its table and the numbers of its key in
/// decimal, all joined by underscores.
pub proof fn law_names_spell_the_key(w: u32, d: u32, c: u32)
    ensures
        ({
            let name = RecordKey::Warehouse { w_id: w }.bytes();
            &&& name[0] == 'W' as u8
            &&& name[1] == '_' as u8
            &&& crate::text::spelled(name.skip(2)) == w
        }),
        ({
            let name = RecordKey::Item { i_id: w }.bytes();
            &&& name[0] == 'I' as u8
            &&& name[1] == '_' as u8
            &&& crate::text::spelled(name.skip(2)) == w
        }),
        ({
            let name = RecordKey::District { w_id: w, d_id: d }.bytes();
            let end = 2int + crate::text::decimal_bytes(w as nat).len();
            &&& name[0] == 'D' as u8
            &&& name[1] == '_' as u8
            &&& name[end] == '_' as u8
            &&& crate::text::spelled(name.subrange(2, end)) == w
            &&& crate::text::spelled(name.skip(end + 1)) == d
        }),
        ({
            let name = RecordKey::Stock { w_id: w, i_id: d }.bytes();
            let end = 2int + crate::text::decimal_bytes(w as nat).len();
            &&& name[0] == 'S' as u8
            &&& name[1] == '_' as u8
            &&& name[end] == '_' as u8
            &&& crate::text::spelled(name.subrange(2, end)) == w
            &&& crate::text::spelled(name.skip(end + 1)) == d
        }),
        ({
            let name = RecordKey::Customer { w_id: w, d_id: d, c_id: c }.bytes();
            let first = 2int + crate::text::decimal_bytes(w as nat).len();
            let second = first + 1 + crate::text::decimal_bytes(d as nat).len();
            &&& name[0] == 'C' as u8
            &&& name[1] == '_' as u8
            &&& name[first] == '_' as u8
            &&& name[second] == '_' as u8
            &&& crate::text::spelled(name.subrange(2, first)) == w
            &&& crate::text::spelled(name.subrange(first + 1, second)) == d
            &&& crate::text::spelled(name.skip(second + 1)) == c
        }),
{
    let x = crate::text::decimal_bytes(w as nat);
    let y = crate::text::decimal_bytes(d as nat);
    let z = crate::text::decimal_bytes(c as nat);
    crate::text::law_decimals_spell_their_number(w as nat);
    crate::text::law_decimals_spell_their_number(d as nat);
    crate::text::law_decimals_spell_their_number(c as nat);
    let warehouse = RecordKey::Warehouse { w_id: w }.bytes();
    assert(warehouse.skip(2) =~= x);
    let item = RecordKey::Item { i_id: w }.bytes();
    assert(item.skip(2) =~= x);
    let first = (2 + x.len()) as int;
    let second = (first + 1 + y.len()) as int;
    let district = RecordKey::District { w_id: w, d_id: d }.bytes();
    assert(district.subrange(2, first) =~= x);
    assert(district.skip(first + 1) =~= y);
    let stock = RecordKey::Stock { w_id: w, i_id: d }.bytes();
    assert(stock.subrange(2, first) =~= x);
    assert(stock.skip(first + 1) =~= y);
    let customer = RecordKey::Customer { w_id: w, d_id: d, c_id: c }.bytes();
    assert(customer.subrange(2, first) =~= x);
    assert(customer.subrange(first + 1, second) =~= y);
    assert(customer.skip(second + 1) =~= z);
}

/// The bytes of an identifier begin with the hash, the least significant byte
/// first; then come three times the low bytes of the hash shifted down by no
/// bit up to seven.
pub proof fn law_identifier_bytes_come_from_the_hash(hash: u64, i: int)
    requires
        0 <= i < 24,
    ensures
        hash_bytes(hash).len() == 32,
        vstd::bytes::spec_u64_from_le_bytes(hash_bytes(hash).take(8)) == hash,
        hash_bytes(hash)[8 + i] == hash_bytes(hash)[8 + i % 8],
        hash_bytes(hash)[8] == hash % 256,
        hash_bytes(hash)[9] == hash / 2 % 256,
        hash_bytes(hash)[10] == hash / 4 % 256,
        hash_bytes(hash)[11] == hash / 8 % 256,
        hash_bytes(hash)[12] == hash / 16 % 256,
        hash_bytes(hash)[13] == hash / 32 % 256,
        hash_bytes(hash)[14] == hash / 64 % 256,
        hash_bytes(hash)[15] == hash / 128 % 256,
{
    vstd::bytes::lemma_auto_spec_u64_to_from_le_bytes();
    assert(hash_bytes(hash).take(8) =~= vstd::bytes::spec_u64_to_le_bytes(hash));
    assert((hash >> 0u64) & 0xff == hash % 256) by (bit_vector);
    assert((hash >> 1u64) & 0xff == hash / 2 % 256) by (bit_vector);
    assert((hash >> 2u64) & 0xff == hash / 4 % 256) by (bit_vector);
    assert((hash >> 3u64) & 0xff == hash / 8 % 256) by (bit_vector);
    assert((hash >> 4u64) & 0xff == hash / 16 % 256) by (bit_vector);
    assert((hash >> 5u64) & 0xff == hash / 32 % 256) by (bit_vector);
    assert((hash >> 6u64) & 0xff == hash / 64 % 256) by (bit_vector);
    assert((hash >> 7u64) & 0xff == hash / 128 % 256) by (bit_vector);
}

} // verus!

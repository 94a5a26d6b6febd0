//! The sizes and ranges that the benchmark prescribes. Money is in cents,
//! rates are in basis points.
use vstd::prelude::*;

verus! {

/// The number of items.
pub const NUM_ITEMS: usize = 100_000;

/// The number of districts of a warehouse.
pub const DISTRICTS_PER_WAREHOUSE: usize = 10;

/// The number of customers of a district.
pub const CUSTOMERS_PER_DISTRICT: usize = 3_000;

/// The number of stock records of a warehouse, one for each item.
pub const STOCK_PER_WAREHOUSE: usize = 100_000;

/// The number of orders that a district starts with.
pub const INITIAL_ORDERS_PER_DISTRICT: usize = 3_000;

/// The number of new orders that a district starts with.
pub const INITIAL_NEW_ORDERS_PER_DISTRICT: usize = 900;

/// The least number of lines of an order.
pub const MIN_OL_CNT: usize = 5;

/// The greatest number of lines of an order.
pub const MAX_OL_CNT: usize = 15;

/// The greatest quantity of an order line.
pub const MAX_OL_QUANTITY: u32 = 10;

/// The share of orders among the transactions, in percent.
pub const NEW_ORDER_WEIGHT: u32 = 50;

/// The share of payments among the transactions, in percent.
pub const PAYMENT_WEIGHT: u32 = 50;

/// How many of a hundred order lines come from another warehouse.
pub const REMOTE_WAREHOUSE_PERCENT: u32 = 15;

/// How many of a hundred payments are by a customer of another warehouse.
pub const REMOTE_CUSTOMER_PERCENT: u32 = 15;

/// How many cents make one unit of money.
pub const MONEY_SCALE: i64 = 100;

/// The lowest price of an item, in cents.
pub const MIN_PRICE_CENTS: u32 = 100;

/// The highest price of an item, in cents.
pub const MAX_PRICE_CENTS: u32 = 10_000;

/// The lowest payment, in cents.
pub const MIN_PAYMENT_CENTS: i64 = 100;

/// The highest payment, in cents.
pub const MAX_PAYMENT_CENTS: i64 = 500_000;

/// How many basis points make one.
pub const RATE_SCALE: u32 = 10_000;

/// The lowest tax rate, in basis points.
pub const MIN_TAX_BPS: u32 = 0;

/// The highest tax rate, in basis points.
pub const MAX_TAX_BPS: u32 = 2_000;

/// The lowest discount, in basis points.
pub const MIN_DISCOUNT_BPS: u32 = 0;

/// The highest discount, in basis points.
pub const MAX_DISCOUNT_BPS: u32 = 5_000;

/// The lowest quantity in stock at the start.
pub const MIN_QUANTITY: i32 = 10;

/// The highest quantity in stock at the start.
pub const MAX_QUANTITY: i32 = 100;

/// What a warehouse starts from in a year, in cents.
pub const INITIAL_W_YTD_CENTS: i64 = 30_000_000;

/// What a district starts from in a year, in cents.
pub const INITIAL_D_YTD_CENTS: i64 = 3_000_000;

/// The balance that a customer starts from, in cents.
pub const INITIAL_BALANCE_CENTS: i64 = -1_000;

/// The payments that a customer starts from in a year, in cents.
pub const INITIAL_YTD_PAYMENT_CENTS: i64 = 1_000;

/// The number of payments that a customer starts from.
pub const INITIAL_PAYMENT_CNT: u32 = 1;

/// The number of the next order that a district starts from.
pub const INITIAL_NEXT_O_ID: u32 = 3001;

} // verus!

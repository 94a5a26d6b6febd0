//! The TPC-C database benchmark: its tables, its transactions and what
//! executes them.
pub mod constants;
pub mod data;
pub mod executor;
pub mod generator;
pub mod transactions;

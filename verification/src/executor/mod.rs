//! Transactions, and what executes them.
pub mod api;
pub mod calibration;
pub mod fake;
pub mod oneshot_dependency_controller;
pub mod sui;
pub mod tpcc;
pub mod worker_pool;

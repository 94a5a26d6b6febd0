//! The coordinator: it schedules transactions and keeps the proxies together.
pub mod connections;
pub mod primary_core;
pub mod ownership;
pub mod elastic_scaler;
pub mod decentralized_forwarder;
pub mod load_balancer;
pub mod owned_obj_txn_forwarder;
pub mod owned_processors;
pub mod placement;
pub mod pause_barrier;
pub mod replay;
pub mod roster;
pub mod shared_processor;
pub mod shared_obj_txn_forwarder;

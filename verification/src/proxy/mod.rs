//! The proxies: they check and execute transactions for the primary.
pub mod available_states;
pub mod decentralized_scheduler;
pub mod proxy_core;

//! What goes over the network.
pub mod worker;

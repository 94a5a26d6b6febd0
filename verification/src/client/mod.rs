//! The clients that put load on the system.
pub mod load_generator;

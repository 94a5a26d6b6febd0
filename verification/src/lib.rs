pub mod base_types;
pub mod checkpoint;
pub mod client;
pub mod config;
pub mod counting;
pub mod duration;
pub mod error;
pub mod executor;
pub mod networking;
pub mod ordered_map;
pub mod primary;
pub mod proxy;
pub mod random;
pub mod recovery;
pub mod tables;
pub mod text;

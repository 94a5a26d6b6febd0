[package]
name = "remora"
version = "0.1.0"
edition = "2021"
publish = false

[dependencies]
anyhow = "1"
bincode = "=1.3.3"
byteorder = "=1.5.0"
bytes = "1"
clap = { version = "4", features = ["derive"] }
core_affinity = "0.8"
dashmap = "=5.5.3"
futures = "0.3"
num_cpus = "1"
rand = "=0.8.8"
rand_mt = "=4.2.2"
rocksdb = { version = "=0.22.0", default-features = false }
rustc-hash = "=1.1.0"
serde = { version = "1", features = ["derive"] }
serde_yaml = "0.9"
thiserror = "1"
tokio = { version = "1", features = ["full"] }
tracing = "0.1"
tracing-subscriber = { version = "0.3", features = ["env-filter"] }

[package]
name = "quorum_store"
version = "0.1.0"
edition = "2021"
publish = false

[dependencies]
async-trait = "0.1"
bcs = "=0.1.6"
clap = { version = "3", features = ["derive"] }
futures = "=0.3.34"
serde = { version = "=1.0.229", features = ["derive"] }
serde_json = "1"
tiny-keccak = { version = "=2.0.2", features = ["sha3"] }
tokio = { version = "=1.54.1", features = ["sync", "rt", "macros", "time"] }

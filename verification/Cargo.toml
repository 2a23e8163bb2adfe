[package]
name = "consensus_node"
version = "0.1.0"
edition = "2021"
publish = false

[dependencies]
anyhow = "1"
bytes = { version = "1", features = ["serde"] }
hex = "0.4"
parking_lot = "0.12"
postcard = { version = "1", features = ["use-std"] }
serde = { version = "1", features = ["derive"] }
tokio = { version = "1", features = ["sync", "rt", "macros", "time"] }
tracing = "0.1"

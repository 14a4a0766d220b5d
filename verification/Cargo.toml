[package]
name = "gossip_node"
version = "0.1.0"
edition = "2021"
publish = false

[dependencies]
rand = "=0.8.8"
tokio = { version = "=1.53.2", features = ["io-std", "io-util", "macros", "rt-multi-thread", "sync", "time"] }

[dev-dependencies]
serde_json = "=1.0.151"

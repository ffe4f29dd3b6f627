[package]
name = "rift_mock_core"
version = "0.1.0"
edition = "2021"
publish = false

[dependencies]
aho-corasick = "1"
anyhow = "1"
arc-swap = "1"
base64 = "0.22"
bytes = "1"
chrono = "0.4"
foldhash = "0.1"
http-body-util = "0.1"
hyper = { version = "1", features = ["http1", "server"] }
papaya = "0.2"
parking_lot = "0.12"
rand = "0.8"
regex = "1"
regex-automata = "0.4"
reqwest = { version = "0.12", default-features = false }
serde = { version = "1", features = ["derive"] }
serde_json = { version = "1", features = ["preserve_order"] }
tokio = { version = "1", features = ["io-util", "macros", "net", "rt-multi-thread", "sync", "time"] }
tracing = "0.1"

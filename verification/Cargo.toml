[package]
name = "cathedral"
version = "0.1.0"
edition = "2021"
publish = false

[dependencies]
blake3 = "=1.8.7"
hex = "=0.4.3"
uuid = { version = "=1.29.0", features = ["v4", "v5"] }
indexmap = { version = "=2.14.2", features = ["serde"] }
ed25519-dalek = "=2.2.0"
rand_core = { version = "=0.6.4", features = ["getrandom"] }
serde = { version = "=1.0.229", features = ["derive"] }
serde_json = "=1.0.154"
serde_cbor = "=0.11.2"
postcard = { version = "=1.1.3", features = ["alloc"] }
chrono = { version = "=0.4.45", features = ["serde"] }
thiserror = "=1.0.69"
clap = { version = "=4.6.7", features = ["derive"] }
color-eyre = "=0.6.5"
tokio = { version = "=1.54.1", features = ["rt-multi-thread", "macros", "sync", "time"] }
tracing-subscriber = { version = "=0.3.23", features = ["env-filter"] }

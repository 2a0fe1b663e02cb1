[package]
name = "librad"
version = "0.1.0"
edition = "2021"
publish = false

[dependencies]
bs58 = "*"
multihash = "0.11"
rand = "0.8"
serde = { version = "*", features = ["derive"] }
serde_json = "*"
tokio = { version = "*", features = ["rt", "sync", "time", "macros"] }
futures = "*"
parking_lot = "*"

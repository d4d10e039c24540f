[package]
name = "kv_storage"
version = "0.1.0"
edition = "2021"
publish = false

[dependencies]
bincode = "1.3"
cosmwasm-std = "1.5"
rkyv = "0.7"
serde = { version = "1", features = ["derive"] }
thiserror = "1"

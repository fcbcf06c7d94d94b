[package]
name = "denokv_sqlite"
version = "0.1.0"
edition = "2021"
publish = false

[dependencies]
anyhow = "1"
chrono = "0.4"
denokv_proto = "*"
hex = "0.4"
log = "0.4"
num-bigint = "0.4"
rand = "0.8"
rusqlite = { version = "0.29", features = ["bundled"] }
serde_json = "1"
thiserror = "1"
uuid = { version = "1", features = ["v4"] }

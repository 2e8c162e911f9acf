[package]
name = "grapple_db"
version = "0.1.0"
edition = "2021"
publish = false

[dependencies]
charybdis = { version = "=1.1.0", features = ["migrate"] }
scylla = "=1.9.0"
deadpool-redis = "=0.23.1"
futures = "=0.3.34"
tokio = { version = "=1.53.2", features = ["full"] }
serde = { version = "=1.0.229", features = ["derive"] }
serde_json = "=1.0.151"
derive_more = { version = "=2.1.1", features = ["from"] }
async-trait = "=0.1.92"
tracing = "=0.1.44"
